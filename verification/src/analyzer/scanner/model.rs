//! The mathematical model of the scan: character classes, greedy-run
//! endpoints, position bookkeeping, and `scan_from`, the function that says
//! exactly which tokens (or which error) a scan of the buffer yields.

use vstd::prelude::*;

use crate::analyzer::scanner::position::{spec_advanced, Position};
use crate::analyzer::scanner::token::SpecToken;
use crate::analyzer::scanner::{ScannerError, ETX, LF};

verus! {

/// Characters that may start or continue an identifier: ASCII letters and
/// the underscore.
pub open spec fn is_identifier_char(c: char) -> bool {
    ||| (('A' as u32) <= (c as u32) && (c as u32) <= ('Z' as u32))
    ||| (('a' as u32) <= (c as u32) && (c as u32) <= ('z' as u32))
    ||| c == '_'
}

/// Characters that may start or continue a numeric literal: ASCII digits.
pub open spec fn is_number_char(c: char) -> bool {
    ('0' as u32) <= (c as u32) && (c as u32) <= ('9' as u32)
}

/// Characters consumed without producing a token.
pub open spec fn is_whitespace_char(c: char) -> bool {
    c == ETX || c == '\t' || c == LF || c == '\r' || c == ' '
}

/// Fixed punctuation: each one immediately becomes a token of its own.
pub open spec fn is_single_punct(c: char) -> bool {
    ||| c == '(' || c == ')' || c == '{' || c == '}' || c == '[' || c == ']'
    ||| c == ';' || c == ',' || c == '.' || c == '@' || c == '#' || c == '~' || c == '?'
}

/// Characters that open a (possibly multi-character) operator.
pub open spec fn is_operator_lead(c: char) -> bool {
    ||| c == '=' || c == '+' || c == '>' || c == '-' || c == '<' || c == '*' || c == '!'
    ||| c == '/' || c == '&' || c == '|' || c == ':' || c == '^' || c == '%'
}

/// The text of the token a lone punctuation or operator character yields.
pub open spec fn single_char_text(c: char) -> Seq<char> {
    if c == '(' {
        "("@
    } else if c == ')' {
        ")"@
    } else if c == '{' {
        "{"@
    } else if c == '}' {
        "}"@
    } else if c == '[' {
        "["@
    } else if c == ']' {
        "]"@
    } else if c == ';' {
        ";"@
    } else if c == ',' {
        ","@
    } else if c == '.' {
        "."@
    } else if c == '@' {
        "@"@
    } else if c == '#' {
        "#"@
    } else if c == '~' {
        "~"@
    } else if c == '?' {
        "?"@
    } else if c == '=' {
        "="@
    } else if c == '+' {
        "+"@
    } else if c == '>' {
        ">"@
    } else if c == '-' {
        "-"@
    } else if c == '<' {
        "<"@
    } else if c == '*' {
        "*"@
    } else if c == '!' {
        "!"@
    } else if c == '/' {
        "/"@
    } else if c == '&' {
        "&"@
    } else if c == '|' {
        "|"@
    } else if c == ':' {
        ":"@
    } else if c == '^' {
        "^"@
    } else if c == '%' {
        "%"@
    } else {
        seq![c]
    }
}

/// The table of two-character operator extensions: the token text produced
/// when the lead `lead` is followed by `c2`, if that pair extends at all.
/// The descending pairs (`>>`, `<<`) and the comment opener (`//`) are not
/// listed here; they get their own treatment.
pub open spec fn two_char_op(lead: char, c2: char) -> Option<Seq<char>> {
    if lead == '=' && c2 == '=' {
        Some("=="@)
    } else if lead == '+' && c2 == '=' {
        Some("+="@)
    } else if lead == '+' && c2 == '-' {
        Some("++"@)
    } else if lead == '-' && c2 == '=' {
        Some("-="@)
    } else if lead == '-' && c2 == '-' {
        Some("--"@)
    } else if lead == '-' && c2 == '>' {
        Some("->"@)
    } else if lead == '>' && c2 == '=' {
        Some(">="@)
    } else if lead == '<' && c2 == '=' {
        Some("<="@)
    } else if lead == '*' && c2 == '=' {
        Some("*="@)
    } else if lead == '!' && c2 == '=' {
        Some("!="@)
    } else if lead == '/' && c2 == '=' {
        Some("/="@)
    } else if lead == '&' && c2 == '=' {
        Some("&="@)
    } else if lead == '&' && c2 == '&' {
        Some("&&"@)
    } else if lead == '|' && c2 == '=' {
        Some("|="@)
    } else if lead == '|' && c2 == '|' {
        Some("||"@)
    } else if lead == ':' && c2 == ':' {
        Some("::"@)
    } else if lead == '^' && c2 == '^' {
        Some("^="@)
    } else if lead == '%' && c2 == '%' {
        Some("%="@)
    } else {
        None
    }
}

/// The first index at or after `i` that does not continue an identifier,
/// or the buffer length if the run reaches the end.
pub open spec fn identifier_end(cont: Seq<char>, i: int) -> int
    decreases cont.len() - i
        when 0 <= i <= cont.len()
{
    if i == cont.len() {
        i
    } else if is_identifier_char(cont[i]) {
        identifier_end(cont, i + 1)
    } else {
        i
    }
}

/// The first index at or after `i` that does not continue a numeric
/// literal, or the buffer length if the run reaches the end.
pub open spec fn number_end(cont: Seq<char>, i: int) -> int
    decreases cont.len() - i
        when 0 <= i <= cont.len()
{
    if i == cont.len() {
        i
    } else if is_number_char(cont[i]) {
        number_end(cont, i + 1)
    } else {
        i
    }
}

/// The first index at or after `i` holding a line feed or the end-of-text
/// sentinel (where a line comment stops), or the buffer length.
pub open spec fn comment_end(cont: Seq<char>, i: int) -> int
    decreases cont.len() - i
        when 0 <= i <= cont.len()
{
    if i == cont.len() {
        i
    } else if cont[i] == LF || cont[i] == ETX {
        i
    } else {
        comment_end(cont, i + 1)
    }
}

/// The first index at or after `i` holding a closing quote or the
/// end-of-text sentinel (where a string literal stops), or the buffer
/// length.
pub open spec fn string_stop(cont: Seq<char>, i: int) -> int
    decreases cont.len() - i
        when 0 <= i <= cont.len()
{
    if i == cont.len() {
        i
    } else if cont[i] == '"' || cont[i] == ETX {
        i
    } else {
        string_stop(cont, i + 1)
    }
}

pub proof fn lemma_identifier_end_bounds(cont: Seq<char>, i: int)
    requires
        0 <= i <= cont.len(),
    ensures
        i <= identifier_end(cont, i) <= cont.len(),
    decreases cont.len() - i,
{
    if i < cont.len() && is_identifier_char(cont[i]) {
        lemma_identifier_end_bounds(cont, i + 1);
    }
}

pub proof fn lemma_number_end_bounds(cont: Seq<char>, i: int)
    requires
        0 <= i <= cont.len(),
    ensures
        i <= number_end(cont, i) <= cont.len(),
    decreases cont.len() - i,
{
    if i < cont.len() && is_number_char(cont[i]) {
        lemma_number_end_bounds(cont, i + 1);
    }
}

pub proof fn lemma_comment_end_bounds(cont: Seq<char>, i: int)
    requires
        0 <= i <= cont.len(),
    ensures
        i <= comment_end(cont, i) <= cont.len(),
    decreases cont.len() - i,
{
    if i < cont.len() && !(cont[i] == LF || cont[i] == ETX) {
        lemma_comment_end_bounds(cont, i + 1);
    }
}

pub proof fn lemma_string_stop_bounds(cont: Seq<char>, i: int)
    requires
        0 <= i <= cont.len(),
    ensures
        i <= string_stop(cont, i) <= cont.len(),
    decreases cont.len() - i,
{
    if i < cont.len() && !(cont[i] == '"' || cont[i] == ETX) {
        lemma_string_stop_bounds(cont, i + 1);
    }
}

/// The position reached from `pos` after consuming the characters of `cont`
/// from index `from` (inclusive) to `to` (exclusive).
pub open spec fn pos_after(pos: Position, cont: Seq<char>, from: int, to: int) -> Position
    decreases to - from,
{
    if from >= to {
        pos
    } else {
        pos_after(spec_advanced(pos, cont[from]), cont, from + 1, to)
    }
}

/// Consuming one more character advances the accumulated position once.
pub proof fn lemma_pos_after_snoc(pos: Position, cont: Seq<char>, from: int, to: int)
    requires
        from <= to,
    ensures
        pos_after(pos, cont, from, to + 1) == spec_advanced(pos_after(pos, cont, from, to), cont[to]),
    decreases to - from,
{
    if from < to {
        lemma_pos_after_snoc(spec_advanced(pos, cont[from]), cont, from + 1, to);
    } else {
        assert(pos_after(spec_advanced(pos, cont[from]), cont, from + 1, to + 1)
            == spec_advanced(pos, cont[from]));
    }
}

/// Prefixes one token onto a scan outcome; an error swallows the token.
pub open spec fn emit(t: SpecToken, r: Result<Seq<SpecToken>, ScannerError>) -> Result<
    Seq<SpecToken>,
    ScannerError,
> {
    match r {
        Ok(v) => Ok(seq![t] + v),
        Err(e) => Err(e),
    }
}

/// Prefixes already-produced tokens onto a scan outcome; an error swallows
/// them.
pub open spec fn emit_all(ts: Seq<SpecToken>, r: Result<Seq<SpecToken>, ScannerError>) -> Result<
    Seq<SpecToken>,
    ScannerError,
> {
    match r {
        Ok(v) => Ok(ts + v),
        Err(e) => Err(e),
    }
}

pub proof fn lemma_emit_push(ts: Seq<SpecToken>, t: SpecToken, r: Result<Seq<SpecToken>, ScannerError>)
    ensures
        emit_all(ts, emit(t, r)) == emit_all(ts.push(t), r),
{
    match r {
        Ok(v) => {
            assert(ts + (seq![t] + v) =~= ts.push(t) + v);
        },
        Err(_) => {
        },
    }
}

/// What a scan of `cont` yields when the cursor stands at index `i` with
/// position `pos`: the ordered tokens of the rest of the buffer, or the
/// first lexical error. The scan stops successfully as soon as the
/// character after the cursor is the end-of-text sentinel.
pub open spec fn scan_from(cont: Seq<char>, i: int, pos: Position) -> Result<
    Seq<SpecToken>,
    ScannerError,
>
    decreases cont.len() - i
        when 0 <= i <= cont.len()
        via scan_from_decreases
{
    if i + 1 >= cont.len() {
        Err(ScannerError::EndOfContent(pos))
    } else if cont[i + 1] == ETX {
        Ok(Seq::empty())
    } else {
        let c = cont[i];
        if is_identifier_char(c) {
            let j = identifier_end(cont, i);
            if j == cont.len() {
                Err(ScannerError::EndOfContent(pos_after(pos, cont, i, j)))
            } else {
                emit(
                    SpecToken { name: "identifier"@, value: cont.subrange(i, j), position: pos },
                    scan_from(cont, j, pos_after(pos, cont, i, j)),
                )
            }
        } else if is_number_char(c) {
            let j = number_end(cont, i);
            if j == cont.len() {
                Err(ScannerError::EndOfContent(pos_after(pos, cont, i, j)))
            } else {
                emit(
                    SpecToken { name: "number"@, value: cont.subrange(i, j), position: pos },
                    scan_from(cont, j, pos_after(pos, cont, i, j)),
                )
            }
        } else if is_whitespace_char(c) {
            scan_from(cont, i + 1, spec_advanced(pos, c))
        } else if is_single_punct(c) {
            emit(
                SpecToken { name: single_char_text(c), value: single_char_text(c), position: pos },
                scan_from(cont, i + 1, spec_advanced(pos, c)),
            )
        } else if is_operator_lead(c) {
            let c2 = cont[i + 1];
            let pos1 = spec_advanced(pos, c);
            if (c == '>' || c == '<') && c2 == c {
                let pos2 = spec_advanced(pos1, c2);
                if i + 2 == cont.len() {
                    Err(ScannerError::EndOfContent(pos2))
                } else {
                    let c3 = cont[i + 2];
                    if c3 == '=' {
                        let text = if c == '>' {
                            ">>="@
                        } else {
                            "<<="@
                        };
                        let pos3 = spec_advanced(pos2, c3);
                        if i + 3 == cont.len() {
                            Err(ScannerError::EndOfContent(pos3))
                        } else {
                            emit(
                                SpecToken { name: text, value: text, position: pos },
                                scan_from(cont, i + 3, pos3),
                            )
                        }
                    } else {
                        let text = if c == '>' {
                            ">>"@
                        } else {
                            "<<"@
                        };
                        emit(
                            SpecToken { name: text, value: text, position: pos },
                            scan_from(cont, i + 2, pos2),
                        )
                    }
                }
            } else if c == '/' && c2 == '/' {
                let pos2 = spec_advanced(pos1, c2);
                if i + 2 == cont.len() {
                    Err(ScannerError::EndOfContent(pos2))
                } else {
                    let k = comment_end(cont, i + 2);
                    if k == cont.len() {
                        Err(ScannerError::EndOfContent(pos_after(pos2, cont, i + 2, k)))
                    } else {
                        scan_from(cont, k, pos_after(pos2, cont, i + 2, k))
                    }
                }
            } else {
                match two_char_op(c, c2) {
                    Some(text) => {
                        let pos2 = spec_advanced(pos1, c2);
                        if i + 2 == cont.len() {
                            Err(ScannerError::EndOfContent(pos2))
                        } else {
                            emit(
                                SpecToken { name: text, value: text, position: pos },
                                scan_from(cont, i + 2, pos2),
                            )
                        }
                    },
                    None => emit(
                        SpecToken {
                            name: single_char_text(c),
                            value: single_char_text(c),
                            position: pos,
                        },
                        scan_from(cont, i + 1, pos1),
                    ),
                }
            }
        } else if c == '"' {
            let pos1 = spec_advanced(pos, c);
            let q = string_stop(cont, i + 1);
            if q == cont.len() {
                Err(ScannerError::EndOfContent(pos_after(pos1, cont, i + 1, q)))
            } else if cont[q] == ETX {
                Err(ScannerError::EndOfContent(pos_after(pos1, cont, i + 1, q)))
            } else {
                let posq = pos_after(pos1, cont, i + 1, q);
                let pos_close = spec_advanced(posq, '"');
                if q + 1 == cont.len() {
                    Err(ScannerError::EndOfContent(pos_close))
                } else {
                    emit(
                        SpecToken { name: "string"@, value: cont.subrange(i + 1, q), position: pos },
                        scan_from(cont, q + 1, pos_close),
                    )
                }
            }
        } else {
            Err(ScannerError::UnsupportedCharacter(c))
        }
    }
}

#[via_fn]
proof fn scan_from_decreases(cont: Seq<char>, i: int, pos: Position) {
    if 0 <= i && i + 1 < cont.len() {
        if is_identifier_char(cont[i]) {
            lemma_identifier_end_bounds(cont, i + 1);
        }
        if is_number_char(cont[i]) {
            lemma_number_end_bounds(cont, i + 1);
        }
        if i + 2 <= cont.len() {
            lemma_comment_end_bounds(cont, i + 2);
        }
        lemma_string_stop_bounds(cont, i + 1);
    }
}

} // verus!
