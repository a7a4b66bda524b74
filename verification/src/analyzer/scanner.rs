//! The scanner: owns a sentinel-padded copy of the source text and a cursor,
//! and classifies the whole buffer into an ordered sequence of tokens.

pub mod model;
pub mod position;
pub mod token;

pub use position::Position;
pub use token::Token;

use vstd::prelude::*;
use vstd::string::{StrSliceExecFns, StringExecFns};

use crate::analyzer::scanner::model::{
    comment_end, emit, emit_all, identifier_end, is_identifier_char, is_number_char,
    is_operator_lead, is_single_punct, lemma_comment_end_bounds,
    lemma_emit_push, lemma_identifier_end_bounds, lemma_number_end_bounds, lemma_pos_after_snoc,
    lemma_string_stop_bounds, number_end, pos_after, scan_from, single_char_text, string_stop,
    two_char_op,
};
use crate::analyzer::scanner::position::spec_advanced;
use crate::analyzer::scanner::token::{lemma_views_push, views_of, SpecToken};

verus! {

/// End-of-text sentinel appended to every scanner buffer.
pub const ETX: char = '\u{0003}';

/// Horizontal tab.
pub const TAB: char = '\t';

/// Line feed.
pub const LF: char = '\n';

/// Carriage return.
pub const CR: char = '\r';

/// The two ways a scan can fail: the cursor was moved past the end of the
/// buffer, or a character fits no token rule.
#[derive(Debug, Clone, Copy, PartialEq, Eq, Structural)]
pub enum ScannerError {
    /// The cursor was asked for a character beyond the end of the buffer.
    EndOfContent(Position),
    /// No token rule applies to the character.
    UnsupportedCharacter(char),
}

/// A single-pass tokenizer over a sentinel-padded copy of some source text.
#[derive(Debug)]
pub struct Scanner {
    cont: String,
    cur_pos: Position,
    cur_char: char,
}

impl Scanner {
    /// The characters of the padded buffer the scanner walks.
    pub closed spec fn spec_content(&self) -> Seq<char> {
        self.cont@
    }

    /// The position of the current character.
    pub closed spec fn spec_position(&self) -> Position {
        self.cur_pos
    }

    /// The current character.
    pub closed spec fn spec_character(&self) -> char {
        self.cur_char
    }

    /// The scanner's invariant: the cursor points at a character of the
    /// buffer, and the cached character is that very character.
    pub open spec fn wf(&self) -> bool {
        &&& self.spec_position().wf()
        &&& (self.spec_position().index as int) < self.spec_content().len()
        &&& self.spec_content().len() <= usize::MAX
        &&& self.spec_character() == self.spec_content()[self.spec_position().index as int]
    }

    /// Returns a scanner over `content` padded with a line feed and the
    /// end-of-text sentinel, with the cursor placed at `position`. Fails
    /// exactly when `position` points past the end of the padded buffer.
    pub fn with_position(content: &str, position: &Position) -> (r: Result<Scanner, ScannerError>)
        ensures
            match r {
                Ok(s) => {
                    &&& s.spec_content() == content@ + seq![LF, ETX]
                    &&& s.spec_position() == *position
                    &&& (position.index as int) < content@.len() + 2
                    &&& s.spec_character() == s.spec_content()[position.index as int]
                    &&& position.wf() ==> s.wf()
                },
                Err(e) => {
                    &&& e == ScannerError::EndOfContent(*position)
                    &&& content@.len() + 2 <= position.index as int
                },
            },
    {
        let mut padded = content.to_owned();
        padded.append("\n");
        padded.append("\u{0003}");
        proof {
            reveal_strlit("\n");
            reveal_strlit("\u{0003}");
            assert(padded@ =~= content@ + seq![LF, ETX]);
        }
        let n = padded.as_str().unicode_len();
        if position.index >= n {
            return Err(ScannerError::EndOfContent(*position));
        }
        let c = padded.as_str().get_char(position.index);
        Ok(Scanner { cont: padded, cur_pos: *position, cur_char: c })
    }

    /// Returns a scanner over `content` with the cursor at the origin. The
    /// padded buffer is never empty, so this cannot fail.
    pub fn new(content: &str) -> (r: Result<Scanner, ScannerError>)
        ensures
            r is Ok,
            ({
                let s = r.unwrap();
                &&& s.spec_content() == content@ + seq![LF, ETX]
                &&& s.spec_position() == (Position { index: 0usize, line: 0usize, column: 0usize })
                &&& s.spec_character() == s.spec_content()[0]
                &&& s.wf()
            }),
    {
        let origin = Position::default();
        Scanner::with_position(content, &origin)
    }

    /// Returns the padded buffer.
    pub fn content(&self) -> (r: &String)
        ensures
            r@ == self.spec_content(),
    {
        &self.cont
    }

    /// Returns the current position.
    pub fn current_position(&self) -> (r: &Position)
        ensures
            *r == self.spec_position(),
    {
        &self.cur_pos
    }

    /// Returns the current character.
    pub fn current_character(&self) -> (c: char)
        ensures
            c == self.spec_character(),
    {
        self.cur_char
    }

    /// Peeks at the character one past the current one without moving the
    /// cursor; fails exactly when no such character exists.
    fn peek_next(&self) -> (r: Result<char, ScannerError>)
        requires
            self.wf(),
        ensures
            if self.spec_position().index + 1 < self.spec_content().len() {
                r == Ok::<char, ScannerError>(
                    self.spec_content()[self.spec_position().index as int + 1],
                )
            } else {
                r == Err::<char, ScannerError>(ScannerError::EndOfContent(self.spec_position()))
            },
    {
        let n = self.cont.as_str().unicode_len();
        if self.cur_pos.index + 1 < n {
            Ok(self.cont.as_str().get_char(self.cur_pos.index + 1))
        } else {
            Err(ScannerError::EndOfContent(self.cur_pos))
        }
    }

    /// Moves the cursor one character forward and returns the position the
    /// cursor had before the move; fails exactly when the move leaves the
    /// buffer, in which case the cached character is left as it was.
    pub fn advance(&mut self) -> (r: Result<Position, ScannerError>)
        requires
            old(self).wf(),
        ensures
            final(self).spec_content() == old(self).spec_content(),
            final(self).spec_position() == spec_advanced(
                old(self).spec_position(),
                old(self).spec_character(),
            ),
            if old(self).spec_position().index + 1 < old(self).spec_content().len() {
                &&& r == Ok::<Position, ScannerError>(old(self).spec_position())
                &&& final(self).wf()
                &&& final(self).spec_character() == old(self).spec_content()[old(
                    self,
                ).spec_position().index as int + 1]
            } else {
                &&& r == Err::<Position, ScannerError>(
                    ScannerError::EndOfContent(final(self).spec_position()),
                )
                &&& final(self).spec_character() == old(self).spec_character()
            },
    {
        let clone = self.cur_pos;
        self.cur_pos.advance(self.cur_char);
        let n = self.cont.as_str().unicode_len();
        if self.cur_pos.index < n {
            self.cur_char = self.cont.as_str().get_char(self.cur_pos.index);
            Ok(clone)
        } else {
            Err(ScannerError::EndOfContent(self.cur_pos))
        }
    }
}

/// The law of the padding: the buffer a scanner is built over is exactly two
/// characters longer than the content, and ends with a line feed followed by
/// the end-of-text sentinel — even for empty content. The constructors'
/// contracts supply the premise.
pub proof fn lemma_buffer_terminated(content: Seq<char>, padded: Seq<char>)
    requires
        padded == content + seq![LF, ETX],
    ensures
        padded.len() == content.len() + 2,
        padded[padded.len() - 2] == LF,
        padded[padded.len() - 1] == ETX,
{
}

/// True exactly for the characters that start or continue an identifier.
fn char_is_identifier(c: char) -> (b: bool)
    ensures
        b == is_identifier_char(c),
{
    let u: u32 = c as u32;
    (u >= 'A' as u32 && u <= 'Z' as u32) || (u >= 'a' as u32 && u <= 'z' as u32) || c == '_'
}

/// True exactly for the characters that start or continue a numeric literal.
fn char_is_number(c: char) -> (b: bool)
    ensures
        b == is_number_char(c),
{
    let u: u32 = c as u32;
    u >= '0' as u32 && u <= '9' as u32
}

/// The one-character token text of a punctuation or operator character.
fn single_str(c: char) -> (s: &'static str)
    requires
        is_single_punct(c) || is_operator_lead(c),
    ensures
        s@ == single_char_text(c),
{
    if c == '(' {
        "("
    } else if c == ')' {
        ")"
    } else if c == '{' {
        "{"
    } else if c == '}' {
        "}"
    } else if c == '[' {
        "["
    } else if c == ']' {
        "]"
    } else if c == ';' {
        ";"
    } else if c == ',' {
        ","
    } else if c == '.' {
        "."
    } else if c == '@' {
        "@"
    } else if c == '#' {
        "#"
    } else if c == '~' {
        "~"
    } else if c == '?' {
        "?"
    } else if c == '=' {
        "="
    } else if c == '+' {
        "+"
    } else if c == '>' {
        ">"
    } else if c == '-' {
        "-"
    } else if c == '<' {
        "<"
    } else if c == '*' {
        "*"
    } else if c == '!' {
        "!"
    } else if c == '/' {
        "/"
    } else if c == '&' {
        "&"
    } else if c == '|' {
        "|"
    } else if c == ':' {
        ":"
    } else if c == '^' {
        "^"
    } else {
        "%"
    }
}

/// The two-character extension of the operator table, if the pair extends.
fn op2_str(lead: char, c2: char) -> (r: Option<&'static str>)
    ensures
        match r {
            Some(s) => two_char_op(lead, c2) == Some(s@),
            None => two_char_op(lead, c2) is None,
        },
{
    if lead == '=' && c2 == '=' {
        Some("==")
    } else if lead == '+' && c2 == '=' {
        Some("+=")
    } else if lead == '+' && c2 == '-' {
        Some("++")
    } else if lead == '-' && c2 == '=' {
        Some("-=")
    } else if lead == '-' && c2 == '-' {
        Some("--")
    } else if lead == '-' && c2 == '>' {
        Some("->")
    } else if lead == '>' && c2 == '=' {
        Some(">=")
    } else if lead == '<' && c2 == '=' {
        Some("<=")
    } else if lead == '*' && c2 == '=' {
        Some("*=")
    } else if lead == '!' && c2 == '=' {
        Some("!=")
    } else if lead == '/' && c2 == '=' {
        Some("/=")
    } else if lead == '&' && c2 == '=' {
        Some("&=")
    } else if lead == '&' && c2 == '&' {
        Some("&&")
    } else if lead == '|' && c2 == '=' {
        Some("|=")
    } else if lead == '|' && c2 == '|' {
        Some("||")
    } else if lead == ':' && c2 == ':' {
        Some("::")
    } else if lead == '^' && c2 == '^' {
        Some("^=")
    } else if lead == '%' && c2 == '%' {
        Some("%=")
    } else {
        None
    }
}

impl Scanner {
    /// Scans the whole buffer: classifies characters left to right and
    /// returns the ordered sequence of tokens, or the first lexical error.
    /// The result is exactly what `scan_from` says of the buffer and the
    /// starting cursor.
    #[verifier::loop_isolation(false)]
    pub fn scan(&mut self) -> (r: Result<Vec<Token>, ScannerError>)
        requires
            old(self).wf(),
        ensures
            final(self).spec_content() == old(self).spec_content(),
            r is Ok ==> {
                &&& final(self).wf()
                &&& final(self).spec_position().index + 1 < final(self).spec_content().len()
                &&& final(self).spec_content()[final(self).spec_position().index as int + 1] == ETX
            },
            ({
                let outcome = scan_from(
                    old(self).spec_content(),
                    old(self).spec_position().index as int,
                    old(self).spec_position(),
                );
                match r {
                    Ok(toks) => outcome == Ok::<Seq<SpecToken>, ScannerError>(views_of(toks@)),
                    Err(e) => outcome == Err::<Seq<SpecToken>, ScannerError>(e),
                }
            }),
    {
        let ghost cont = self.spec_content();
        let ghost i0 = self.spec_position().index as int;
        let ghost p0 = self.spec_position();
        let mut result: Vec<Token> = Vec::new();

        loop
            invariant
                self.wf(),
                self.spec_content() == cont,
                emit_all(
                    views_of(result@),
                    scan_from(cont, self.spec_position().index as int, self.spec_position()),
                ) == scan_from(cont, i0, p0),
            decreases cont.len() - self.spec_position().index,
        {
            let pk = match self.peek_next() {
                Ok(pk) => pk,
                Err(e) => {
                    return Err(e);
                },
            };
            if pk == ETX {
                proof {
                    assert(views_of(result@) + Seq::<SpecToken>::empty() =~= views_of(result@));
                }
                return Ok(result);
            }
            let ghost i = self.spec_position().index as int;
            let ghost res0 = result@;
            let start = self.cur_pos;
            let c = self.current_character();
            if char_is_identifier(c) {
                let startidx = self.cur_pos.index;
                while char_is_identifier(self.cur_char)
                    invariant
                        self.wf(),
                        self.spec_content() == cont,
                        i <= self.spec_position().index as int,
                        identifier_end(cont, i) == identifier_end(
                            cont,
                            self.spec_position().index as int,
                        ),
                        self.spec_position() == pos_after(
                            start,
                            cont,
                            i,
                            self.spec_position().index as int,
                        ),
                        result@ == res0,
                    decreases cont.len() - self.spec_position().index,
                {
                    let ghost m = self.spec_position().index as int;
                    match self.advance() {
                        Ok(_) => {},
                        Err(e) => {
                            proof {
                                lemma_pos_after_snoc(start, cont, i, m);
                                assert(identifier_end(cont, m + 1) == cont.len());
                                assert(identifier_end(cont, i) == cont.len());
                                assert(scan_from(cont, i, start) == Err::<
                                    Seq<SpecToken>,
                                    ScannerError,
                                >(e));
                            }
                            return Err(e);
                        },
                    }
                    proof {
                        lemma_pos_after_snoc(start, cont, i, m);
                    }
                }
                let endidx = self.cur_pos.index;
                proof {
                    lemma_identifier_end_bounds(cont, i + 1);
                    assert(identifier_end(cont, i) == endidx as int);
                }
                let text = self.cont.as_str().substring_char(startidx, endidx);
                let t = Token::new("identifier", text, &start);
                let ghost tv = t;
                result.push(t);
                proof {
                    assert(scan_from(cont, i, start) == emit(
                        tv@,
                        scan_from(cont, endidx as int, self.spec_position()),
                    ));
                    lemma_views_push(res0, tv);
                    lemma_emit_push(
                        views_of(res0),
                        tv@,
                        scan_from(cont, endidx as int, self.spec_position()),
                    );
                }
            } else if char_is_number(c) {
                let startidx = self.cur_pos.index;
                while char_is_number(self.cur_char)
                    invariant
                        self.wf(),
                        self.spec_content() == cont,
                        i <= self.spec_position().index as int,
                        number_end(cont, i) == number_end(cont, self.spec_position().index as int),
                        self.spec_position() == pos_after(
                            start,
                            cont,
                            i,
                            self.spec_position().index as int,
                        ),
                        result@ == res0,
                    decreases cont.len() - self.spec_position().index,
                {
                    let ghost m = self.spec_position().index as int;
                    match self.advance() {
                        Ok(_) => {},
                        Err(e) => {
                            proof {
                                lemma_pos_after_snoc(start, cont, i, m);
                                assert(number_end(cont, m + 1) == cont.len());
                                assert(number_end(cont, i) == cont.len());
                                assert(scan_from(cont, i, start) == Err::<
                                    Seq<SpecToken>,
                                    ScannerError,
                                >(e));
                            }
                            return Err(e);
                        },
                    }
                    proof {
                        lemma_pos_after_snoc(start, cont, i, m);
                    }
                }
                let endidx = self.cur_pos.index;
                proof {
                    lemma_number_end_bounds(cont, i + 1);
                    assert(number_end(cont, i) == endidx as int);
                }
                let text = self.cont.as_str().substring_char(startidx, endidx);
                let t = Token::new("number", text, &start);
                let ghost tv = t;
                result.push(t);
                proof {
                    assert(scan_from(cont, i, start) == emit(
                        tv@,
                        scan_from(cont, endidx as int, self.spec_position()),
                    ));
                    lemma_views_push(res0, tv);
                    lemma_emit_push(
                        views_of(res0),
                        tv@,
                        scan_from(cont, endidx as int, self.spec_position()),
                    );
                }
            } else {
                match c {
                    '\u{0003}' | '\t' | '\n' | '\r' | ' ' => {
                        match self.advance() {
                            Ok(_) => {},
                            Err(e) => {
                                return Err(e);
                            },
                        }
                        proof {
                            assert(scan_from(cont, i, start) == scan_from(
                                cont,
                                i + 1,
                                self.spec_position(),
                            ));
                        }
                    },
                    '(' | ')' | '{' | '}' | '[' | ']' | ';' | ',' | '.' | '@' | '#' | '~' | '?' => {
                        let text = single_str(c);
                        let t = Token::new(text, text, &start);
                        let ghost tv = t;
                        result.push(t);
                        match self.advance() {
                            Ok(_) => {},
                            Err(e) => {
                                return Err(e);
                            },
                        }
                        proof {
                            assert(scan_from(cont, i, start) == emit(
                                tv@,
                                scan_from(cont, i + 1, self.spec_position()),
                            ));
                            lemma_views_push(res0, tv);
                            lemma_emit_push(
                                views_of(res0),
                                tv@,
                                scan_from(cont, i + 1, self.spec_position()),
                            );
                        }
                    },
                    '=' | '+' | '>' | '-' | '<' | '*' | '!' | '/' | '&' | '|' | ':' | '^' | '%' => {
                        match self.advance() {
                            Ok(_) => {},
                            Err(e) => {
                                return Err(e);
                            },
                        }
                        let c2 = self.current_character();
                        if (c == '>' && c2 == '>') || (c == '<' && c2 == '<') {
                            match self.advance() {
                                Ok(_) => {},
                                Err(e) => {
                                    proof {
                                        assert(scan_from(cont, i, start) == Err::<
                                            Seq<SpecToken>,
                                            ScannerError,
                                        >(e));
                                    }
                                    return Err(e);
                                },
                            }
                            if self.current_character() == '=' {
                                let text = if c == '>' {
                                    ">>="
                                } else {
                                    "<<="
                                };
                                let t = Token::new(text, text, &start);
                                let ghost tv = t;
                                result.push(t);
                                match self.advance() {
                                    Ok(_) => {},
                                    Err(e) => {
                                        proof {
                                            assert(scan_from(cont, i, start) == Err::<
                                                Seq<SpecToken>,
                                                ScannerError,
                                            >(e));
                                        }
                                        return Err(e);
                                    },
                                }
                                proof {
                                    assert(scan_from(cont, i, start) == emit(
                                        tv@,
                                        scan_from(cont, i + 3, self.spec_position()),
                                    ));
                                    lemma_views_push(res0, tv);
                                    lemma_emit_push(
                                        views_of(res0),
                                        tv@,
                                        scan_from(cont, i + 3, self.spec_position()),
                                    );
                                }
                            } else {
                                let text = if c == '>' {
                                    ">>"
                                } else {
                                    "<<"
                                };
                                let t = Token::new(text, text, &start);
                                let ghost tv = t;
                                result.push(t);
                                proof {
                                    assert(scan_from(cont, i, start) == emit(
                                        tv@,
                                        scan_from(cont, i + 2, self.spec_position()),
                                    ));
                                    lemma_views_push(res0, tv);
                                    lemma_emit_push(
                                        views_of(res0),
                                        tv@,
                                        scan_from(cont, i + 2, self.spec_position()),
                                    );
                                }
                            }
                        } else if c == '/' && c2 == '/' {
                            match self.advance() {
                                Ok(_) => {},
                                Err(e) => {
                                    proof {
                                        assert(scan_from(cont, i, start) == Err::<
                                            Seq<SpecToken>,
                                            ScannerError,
                                        >(e));
                                    }
                                    return Err(e);
                                },
                            }
                            let ghost pos2 = self.spec_position();
                            while self.cur_char != '\n' && self.cur_char != '\u{0003}'
                                invariant
                                    self.wf(),
                                    self.spec_content() == cont,
                                    i + 2 <= self.spec_position().index as int,
                                    comment_end(cont, i + 2) == comment_end(
                                        cont,
                                        self.spec_position().index as int,
                                    ),
                                    self.spec_position() == pos_after(
                                        pos2,
                                        cont,
                                        i + 2,
                                        self.spec_position().index as int,
                                    ),
                                    result@ == res0,
                                decreases cont.len() - self.spec_position().index,
                            {
                                let ghost m = self.spec_position().index as int;
                                match self.advance() {
                                    Ok(_) => {},
                                    Err(e) => {
                                        proof {
                                            lemma_pos_after_snoc(pos2, cont, i + 2, m);
                                            assert(comment_end(cont, m + 1) == cont.len());
                                            assert(comment_end(cont, i + 2) == cont.len());
                                            assert(scan_from(cont, i, start) == Err::<
                                                Seq<SpecToken>,
                                                ScannerError,
                                            >(e));
                                        }
                                        return Err(e);
                                    },
                                }
                                proof {
                                    lemma_pos_after_snoc(pos2, cont, i + 2, m);
                                }
                            }
                            proof {
                                lemma_comment_end_bounds(cont, i + 2);
                                assert(comment_end(cont, i + 2)
                                    == self.spec_position().index as int);
                                assert(scan_from(cont, i, start) == scan_from(
                                    cont,
                                    self.spec_position().index as int,
                                    self.spec_position(),
                                ));
                            }
                        } else {
                            match op2_str(c, c2) {
                                Some(text) => {
                                    let t = Token::new(text, text, &start);
                                    let ghost tv = t;
                                    result.push(t);
                                    match self.advance() {
                                        Ok(_) => {},
                                        Err(e) => {
                                            proof {
                                                assert(scan_from(cont, i, start) == Err::<
                                                    Seq<SpecToken>,
                                                    ScannerError,
                                                >(e));
                                            }
                                            return Err(e);
                                        },
                                    }
                                    proof {
                                        assert(scan_from(cont, i, start) == emit(
                                            tv@,
                                            scan_from(cont, i + 2, self.spec_position()),
                                        ));
                                        lemma_views_push(res0, tv);
                                        lemma_emit_push(
                                            views_of(res0),
                                            tv@,
                                            scan_from(cont, i + 2, self.spec_position()),
                                        );
                                    }
                                },
                                None => {
                                    let text = single_str(c);
                                    let t = Token::new(text, text, &start);
                                    let ghost tv = t;
                                    result.push(t);
                                    proof {
                                        assert(scan_from(cont, i, start) == emit(
                                            tv@,
                                            scan_from(cont, i + 1, self.spec_position()),
                                        ));
                                        lemma_views_push(res0, tv);
                                        lemma_emit_push(
                                            views_of(res0),
                                            tv@,
                                            scan_from(cont, i + 1, self.spec_position()),
                                        );
                                    }
                                },
                            }
                        }
                    },
                    '"' => {
                        match self.advance() {
                            Ok(_) => {},
                            Err(e) => {
                                return Err(e);
                            },
                        }
                        let startidx = self.cur_pos.index;
                        let ghost pos1 = self.spec_position();
                        while self.cur_char != '"' && self.cur_char != '\u{0003}'
                            invariant
                                self.wf(),
                                self.spec_content() == cont,
                                i + 1 <= self.spec_position().index as int,
                                string_stop(cont, i + 1) == string_stop(
                                    cont,
                                    self.spec_position().index as int,
                                ),
                                self.spec_position() == pos_after(
                                    pos1,
                                    cont,
                                    i + 1,
                                    self.spec_position().index as int,
                                ),
                                result@ == res0,
                            decreases cont.len() - self.spec_position().index,
                        {
                            let ghost m = self.spec_position().index as int;
                            match self.advance() {
                                Ok(_) => {},
                                Err(e) => {
                                    proof {
                                        lemma_pos_after_snoc(pos1, cont, i + 1, m);
                                        assert(string_stop(cont, m + 1) == cont.len());
                                        assert(string_stop(cont, i + 1) == cont.len());
                                        assert(scan_from(cont, i, start) == Err::<
                                            Seq<SpecToken>,
                                            ScannerError,
                                        >(e));
                                    }
                                    return Err(e);
                                },
                            }
                            proof {
                                lemma_pos_after_snoc(pos1, cont, i + 1, m);
                            }
                        }
                        let ghost q = self.spec_position().index as int;
                        proof {
                            lemma_string_stop_bounds(cont, i + 1);
                            assert(string_stop(cont, i + 1) == q);
                        }
                        if self.current_character() == '\u{0003}' {
                            let e = ScannerError::EndOfContent(self.cur_pos);
                            proof {
                                assert(scan_from(cont, i, start) == Err::<
                                    Seq<SpecToken>,
                                    ScannerError,
                                >(e));
                            }
                            return Err(e);
                        }
                        let endidx = self.cur_pos.index;
                        let text = self.cont.as_str().substring_char(startidx, endidx);
                        let t = Token::new("string", text, &start);
                        let ghost tv = t;
                        result.push(t);
                        match self.advance() {
                            Ok(_) => {},
                            Err(e) => {
                                proof {
                                    assert(scan_from(cont, i, start) == Err::<
                                        Seq<SpecToken>,
                                        ScannerError,
                                    >(e));
                                }
                                return Err(e);
                            },
                        }
                        proof {
                            assert(scan_from(cont, i, start) == emit(
                                tv@,
                                scan_from(cont, q + 1, self.spec_position()),
                            ));
                            lemma_views_push(res0, tv);
                            lemma_emit_push(
                                views_of(res0),
                                tv@,
                                scan_from(cont, q + 1, self.spec_position()),
                            );
                        }
                    },
                    _ => {
                        let e = ScannerError::UnsupportedCharacter(self.cur_char);
                        proof {
                            assert(scan_from(cont, i, start) == Err::<Seq<SpecToken>, ScannerError>(
                                e,
                            ));
                        }
                        return Err(e);
                    },
                }
            }
        }
    }
}

} // verus!
