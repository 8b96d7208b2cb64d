//! Identifiers of projects, tasks, tags, toolchains and source roots.

use crate::order::Ranked;
use crate::text::{chars_of, text_before, text_less, text_less_irreflexive, text_less_total, text_less_transitive};
use vstd::prelude::*;

verus! {

/// A character that may begin an identifier.
pub open spec fn id_start(c: char) -> bool {
    ('a' <= c <= 'z') || ('A' <= c <= 'Z') || c == '_' || c == '@'
}

/// A character that may follow in an identifier.
pub open spec fn id_part(c: char) -> bool {
    ('a' <= c <= 'z') || ('A' <= c <= 'Z') || ('0' <= c <= '9') || c == '_' || c == '-' || c == '.'
        || c == '/'
}

/// Identifiers begin with a letter, `_` or `@`, and go on with letters,
/// digits, `_`, `-`, `.` and `/`.
pub open spec fn valid_id(text: Seq<char>) -> bool {
    text.len() > 0 && id_start(text[0]) && forall|i: int|
        1 <= i < text.len() ==> id_part(#[trigger] text[i])
}

/// A text that is not an identifier.
#[derive(Debug)]
pub struct IdError {
    pub id: String,
}

impl IdError {
    /// What the error reports to users.
    pub fn message(&self) -> (text: String)
        ensures
            text@ == "Invalid format for "@ + self.id@
                + ", may only contain alpha-numeric characters, dashes (-), slashes (/), underscores (_), and periods (.)."@,
    {
        let mut text = "Invalid format for ".to_owned();
        text.append(self.id.as_str());
        text.append(
            ", may only contain alpha-numeric characters, dashes (-), slashes (/), underscores (_), and periods (.).",
        );
        text
    }
}

/// An identifier. Its format is checked by [`Id::new`], and not by [`Id::raw`].
#[derive(Debug, PartialEq, Eq, Hash)]
pub struct Id {
    value: String,
}

impl View for Id {
    type V = Seq<char>;

    closed spec fn view(&self) -> Seq<char> {
        self.value@
    }
}

impl Clone for Id {
    fn clone(&self) -> (copy: Self)
        ensures
            copy == *self,
    {
        Id { value: self.value.clone() }
    }
}

/// Whether a text is an identifier.
pub fn is_valid_id(text: &str) -> (valid: bool)
    ensures
        valid == valid_id(text@),
{
    let chars = chars_of(text);
    if chars.len() == 0 {
        return false;
    }
    let first: char = chars[0];
    if !(('a' <= first && first <= 'z') || ('A' <= first && first <= 'Z') || first == '_' || first
        == '@') {
        return false;
    }
    let mut i: usize = 1;
    while i < chars.len()
        invariant
            1 <= i <= chars@.len(),
            chars@ == text@,
            forall|j: int| 1 <= j < i ==> id_part(#[trigger] chars@[j]),
        decreases chars.len() - i,
    {
        let c: char = chars[i];
        if !(('a' <= c && c <= 'z') || ('A' <= c && c <= 'Z') || ('0' <= c && c <= '9') || c == '_'
            || c == '-' || c == '.' || c == '/') {
            assert(!id_part(text@[i as int]));
            return false;
        }
        i = i + 1;
    }
    true
}

impl Id {
    /// The identifier with this text, if the text has the format of one.
    pub fn new(text: &str) -> (id: Result<Self, IdError>)
        ensures
            match id {
                Ok(id) => valid_id(text@) && id@ == text@,
                Err(error) => !valid_id(text@) && error.id@ == text@,
            },
    {
        if is_valid_id(text) {
            Ok(Id { value: text.to_owned() })
        } else {
            Err(IdError { id: text.to_owned() })
        }
    }

    /// An identifier with this text, whatever its format.
    pub fn raw(text: &str) -> (id: Self)
        ensures
            id@ == text@,
    {
        Id { value: text.to_owned() }
    }

    /// The text of the identifier.
    pub fn as_str(&self) -> (text: &str)
        ensures
            text@ == self@,
    {
        self.value.as_str()
    }
}

impl Ranked for Id {
    open spec fn before(a: Seq<char>, b: Seq<char>) -> bool {
        text_less(a, b)
    }

    proof fn before_irreflexive(a: Seq<char>) {
        text_less_irreflexive(a);
    }

    proof fn before_transitive(a: Seq<char>, b: Seq<char>, c: Seq<char>) {
        text_less_transitive(a, b, c);
    }

    proof fn before_total(a: Seq<char>, b: Seq<char>, c: Seq<char>) {
        text_less_total(a, c);
        if text_less(c, a) {
            text_less_transitive(c, a, b);
        }
    }

    fn is_before(&self, other: &Self) -> bool {
        text_before(self.value.as_str(), other.value.as_str())
    }
}

} // verus!
