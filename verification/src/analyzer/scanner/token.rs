use vstd::prelude::*;
use vstd::string::StringExecFns;

use crate::analyzer::scanner::position::{spec_position_text, Position};

verus! {

/// The mathematical content of a token: its class name, its text, and the
/// position of its first character.
pub struct SpecToken {
    pub name: Seq<char>,
    pub value: Seq<char>,
    pub position: Position,
}

/// A classified piece of source text, immutable once constructed. `name` is
/// either a semantic class ("identifier", "number", "string") or, for fixed
/// punctuation and operators, the symbol itself, in which case it equals
/// `value`.
#[derive(Debug, Clone, PartialEq, Eq)]
pub struct Token {
    name: String,
    value: String,
    position: Position,
}

impl View for Token {
    type V = SpecToken;

    closed spec fn view(&self) -> SpecToken {
        SpecToken { name: self.name@, value: self.value@, position: self.position }
    }
}

/// The human-readable rendering of a token. A self-describing token (its
/// name is its text) renders as `<text>@position`; any other token renders
/// as `<name>@position = text`.
pub open spec fn spec_token_text(t: SpecToken) -> Seq<char> {
    if t.name == t.value {
        "<"@ + t.value + ">@"@ + spec_position_text(t.position)
    } else {
        "<"@ + t.name + ">@"@ + spec_position_text(t.position) + " = "@ + t.value
    }
}

/// The mathematical contents of a sequence of tokens.
pub open spec fn views_of(ts: Seq<Token>) -> Seq<SpecToken> {
    ts.map_values(|t: Token| t@)
}

pub proof fn lemma_views_push(ts: Seq<Token>, t: Token)
    ensures
        views_of(ts.push(t)) == views_of(ts).push(t@),
{
    assert(views_of(ts.push(t)) =~= views_of(ts).push(t@));
}

impl Token {
    /// Returns a new token with the given name, text, and start position.
    pub fn new(name: &str, value: &str, position: &Position) -> (t: Token)
        ensures
            t@ == (SpecToken { name: name@, value: value@, position: *position }),
    {
        Token { name: name.to_owned(), value: value.to_owned(), position: *position }
    }

    /// Returns the token name.
    pub fn name(&self) -> (r: &String)
        ensures
            r@ == self@.name,
    {
        &self.name
    }

    /// Returns the token text.
    pub fn value(&self) -> (r: &String)
        ensures
            r@ == self@.value,
    {
        &self.value
    }

    /// Returns the position of the token's first character.
    pub fn position(&self) -> (r: &Position)
        ensures
            *r == self@.position,
    {
        &self.position
    }

    /// Renders the token for humans, as `spec_token_text` describes.
    pub fn to_text(&self) -> (s: String)
        requires
            self@.position.line < usize::MAX,
            self@.position.column < usize::MAX,
        ensures
            s@ == spec_token_text(self@),
    {
        let ptext = self.position.to_text();
        let mut s = String::from_str("<");
        if self.name == self.value {
            s.append(self.value.as_str());
            s.append(">@");
            s.append(ptext.as_str());
        } else {
            s.append(self.name.as_str());
            s.append(">@");
            s.append(ptext.as_str());
            s.append(" = ");
            s.append(self.value.as_str());
        }
        s
    }
}

} // verus!
