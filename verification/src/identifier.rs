//! Identifiers: the names of projects and of components.

use vstd::prelude::*;
use crate::text::to_chars;

verus! {

/// Why a text is no identifier.
#[derive(Clone, Copy, Debug, PartialEq, Eq, Structural)]
pub enum IdentifierError {
    /// The text is empty.
    Empty,
    /// The text does not start with a lowercase ASCII letter.
    BadStart,
    /// The text holds a character that is no lowercase ASCII letter, no
    /// ASCII digit and no underscore.
    BadCharacter,
}

pub open spec fn is_lower(c: char) -> bool {
    'a' <= c && c <= 'z'
}

pub open spec fn is_identifier_char(c: char) -> bool {
    is_lower(c) || ('0' <= c && c <= '9') || c == '_'
}

/// `s` is an identifier: snake case, starting with a letter.
pub open spec fn is_identifier(s: Seq<char>) -> bool {
    &&& s.len() > 0
    &&& is_lower(s[0])
    &&& forall|i: int| 0 <= i < s.len() ==> is_identifier_char(#[trigger] s[i])
}

/// What is wrong with `s` as an identifier, if anything. An empty text is
/// reported first, then a bad start, then a bad character.
pub open spec fn spec_check(s: Seq<char>) -> Result<(), IdentifierError> {
    if s.len() == 0 {
        Err(IdentifierError::Empty)
    } else if !is_lower(s[0]) {
        Err(IdentifierError::BadStart)
    } else if !(forall|i: int| 0 <= i < s.len() ==> is_identifier_char(#[trigger] s[i])) {
        Err(IdentifierError::BadCharacter)
    } else {
        Ok(())
    }
}

/// A text is an identifier exactly when nothing is wrong with it.
pub proof fn lemma_check_is_identifier(s: Seq<char>)
    ensures
        spec_check(s) is Ok <==> is_identifier(s),
{
}

/// Tells what is wrong with `text` as an identifier, if anything.
pub fn check(text: &str) -> (r: Result<(), IdentifierError>)
    ensures
        r == spec_check(text@),
{
    let s = to_chars(text);
    if s.len() == 0 {
        return Err(IdentifierError::Empty);
    }
    if !('a' <= s[0] && s[0] <= 'z') {
        return Err(IdentifierError::BadStart);
    }
    let mut i: usize = 0;
    while i < s.len()
        invariant
            i <= s.len(),
            s@ == text@,
            s.len() > 0,
            is_lower(s@[0]),
            forall|k: int| 0 <= k < i ==> is_identifier_char(#[trigger] s@[k]),
        decreases s.len() - i,
    {
        let c = s[i];
        if !(('a' <= c && c <= 'z') || ('0' <= c && c <= '9') || c == '_') {
            assert(!is_identifier_char(s@[i as int]));
            return Err(IdentifierError::BadCharacter);
        }
        i += 1;
    }
    Ok(())
}

/// A checked identifier.
#[derive(Debug, PartialEq, Eq)]
pub struct Identifier {
    text: String,
}

impl View for Identifier {
    type V = Seq<char>;

    closed spec fn view(&self) -> Seq<char> {
        self.text@
    }
}

impl Identifier {
    #[verifier::type_invariant]
    spec fn inv(&self) -> bool {
        is_identifier(self.text@)
    }

    /// Makes an identifier of `id`, or says what is wrong with it.
    pub fn new(id: String) -> (r: Result<Identifier, IdentifierError>)
        ensures
            match r {
                Ok(i) => i@ == id@ && spec_check(id@) is Ok,
                Err(e) => spec_check(id@) == Err::<(), IdentifierError>(e),
            },
    {
        match check(id.as_str()) {
            Ok(()) => Ok(Identifier { text: id }),
            Err(e) => Err(e),
        }
    }

    /// The identifier's text.
    pub fn as_str(&self) -> (s: &str)
        ensures
            s@ == self@,
            is_identifier(self@),
    {
        proof {
            use_type_invariant(self);
        }
        self.text.as_str()
    }
}

impl Clone for Identifier {
    fn clone(&self) -> (i: Self)
        ensures
            i@ == self@,
    {
        proof {
            use_type_invariant(self);
        }
        Identifier { text: self.text.clone() }
    }
}

} // verus!
