//! User identifiers: what a valid one looks like and under which key it is
//! stored.

use crate::error::ErrorKind;
use crate::text::{all_ascii, ascii_chars, ascii_string};
use vstd::prelude::*;
use vstd::string::StrSliceExecFns;
use vstd::string::StringSliceAdditionalSpecFns;
use vstd::utf8::is_ascii_chars;

verus! {

/// Longest identifier, in characters.
pub const MAX_ID_LEN: usize = 20;

/// An ASCII letter or digit.
pub open spec fn is_alnum(c: char) -> bool {
    ('0' <= c && c <= '9') || ('a' <= c && c <= 'z') || ('A' <= c && c <= 'Z')
}

/// A character that may stand inside an identifier.
pub open spec fn is_id_char(c: char) -> bool {
    is_alnum(c) || c == '.' || c == '-' || c == '_'
}

/// Why an identifier is refused.
#[derive(Clone, Copy, Debug, PartialEq, Eq, Structural)]
pub enum IdError {
    /// It is empty or longer than 20 characters.
    Length,
    /// Its first or its last character is no letter or digit.
    Edge,
    /// It holds a character other than letters, digits, `.`, `-` and `_`.
    Character,
}

impl IdError {
    /// The text of this refusal's message.
    pub open spec fn spec_message(self) -> Seq<char> {
        match self {
            IdError::Length => "ID must be between 1 and 20 characters"@,
            IdError::Edge => "ID must start and end with alphanumeric characters"@,
            IdError::Character =>
                "ID can only contain alphanumeric characters, dots, hyphens, and underscores"@,
        }
    }

    /// A one-line description for the user.
    pub fn message(self) -> (text: String)
        ensures
            text@ == self.spec_message(),
    {
        match self {
            IdError::Length => "ID must be between 1 and 20 characters".to_owned(),
            IdError::Edge => "ID must start and end with alphanumeric characters".to_owned(),
            IdError::Character =>
                "ID can only contain alphanumeric characters, dots, hyphens, and underscores".to_owned(),
        }
    }

    /// Every refusal of an identifier is of this kind.
    pub fn kind(self) -> (kind: ErrorKind)
        ensures
            kind == ErrorKind::InvalidIdentifier,
    {
        ErrorKind::InvalidIdentifier
    }
}

/// What is wrong with an identifier, if anything: its length is judged
/// first, then its two ends, then every character.
pub open spec fn id_fault(id: Seq<char>) -> Option<IdError> {
    if id.len() < 1 || id.len() > 20 {
        Some(IdError::Length)
    } else if !is_alnum(id[0]) || !is_alnum(id[id.len() - 1]) {
        Some(IdError::Edge)
    } else if exists|i: int| 0 <= i < id.len() && !is_id_char(#[trigger] id[i]) {
        Some(IdError::Character)
    } else {
        None
    }
}

/// 1 to 20 ASCII characters; letters, digits, `.`, `-` and `_`; a letter or
/// digit at both ends.
pub open spec fn is_valid_id(id: Seq<char>) -> bool {
    id_fault(id) is None
}

/// The lower-case form of an ASCII character; other characters as they are.
pub open spec fn lower(c: char) -> char {
    if 'A' <= c && c <= 'Z' {
        ((c as u8) + 32) as char
    } else {
        c
    }
}

/// The key under which an identifier is stored and looked up: its
/// lower-case form. A text with characters outside ASCII is no identifier
/// and stands for itself.
pub open spec fn key_of(id: Seq<char>) -> Seq<char> {
    if is_ascii_chars(id) {
        Seq::new(id.len(), |i: int| lower(id[i]))
    } else {
        id
    }
}

fn alnum(c: char) -> (yes: bool)
    ensures
        yes == is_alnum(c),
{
    ('0' <= c && c <= '9') || ('a' <= c && c <= 'z') || ('A' <= c && c <= 'Z')
}

/// Checks an identifier against the rule for identifiers.
pub fn validate_id(id: &str) -> (out: Result<(), IdError>)
    ensures
        out == match id_fault(id@) {
            Some(e) => Err::<(), IdError>(e),
            None => Ok::<(), IdError>(()),
        },
{
    let len: usize = id.unicode_len();
    if len < 1 || len > MAX_ID_LEN {
        return Err(IdError::Length);
    }
    if !alnum(id.get_char(0)) || !alnum(id.get_char(len - 1)) {
        return Err(IdError::Edge);
    }
    let mut i: usize = 0;
    while i < len
        invariant
            i <= len,
            len == id@.len(),
            1 <= len <= 20,
            is_alnum(id@[0]) && is_alnum(id@[len - 1]),
            forall|k: int| 0 <= k < i ==> is_id_char(#[trigger] id@[k]),
        decreases len - i,
    {
        let c: char = id.get_char(i);
        if !(alnum(c) || c == '.' || c == '-' || c == '_') {
            assert(!is_id_char(id@[i as int]));
            return Err(IdError::Character);
        }
        i += 1;
    }
    Ok(())
}

/// The key under which `id` is stored and looked up.
pub fn normalize_id(id: &str) -> (key: String)
    ensures
        key@ == key_of(id@),
{
    if !id.is_ascii() {
        return id.to_owned();
    }
    broadcast use vstd::string::is_ascii_spec_bytes;

    let bytes = id.as_bytes();
    let mut lowered: Vec<u8> = Vec::new();
    let mut i: usize = 0;
    while i < bytes.len()
        invariant
            i <= bytes@.len(),
            is_ascii_chars(id@),
            bytes@.len() == id@.len(),
            forall|k: int| 0 <= k < bytes@.len() ==> #[trigger] bytes@[k] == id@[k] as u8,
            lowered@.len() == i,
            forall|k: int| 0 <= k < i ==> #[trigger] lowered@[k] < 128 && lowered@[k] as char == lower(id@[k]),
        decreases bytes@.len() - i,
    {
        let b: u8 = bytes[i];
        assert(b == id@[i as int] as u8);
        assert('\0' <= id@[i as int] && id@[i as int] <= '\u{7f}');
        if b >= 0x41 && b <= 0x5a {
            lowered.push(b + 32);
        } else {
            lowered.push(b);
        }
        i += 1;
    }
    assert(all_ascii(lowered@));
    assert(ascii_chars(lowered@) =~= key_of(id@));
    ascii_string(lowered)
}

} // verus!
