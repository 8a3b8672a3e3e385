//! Identifiers: every idea and every like is keyed by a version-4 UUID in
//! its hyphenated textual form, thirty-six lowercase characters.

use vstd::prelude::*;
use vstd::string::StrSliceExecFns;

verus! {

/// The length of a hyphenated textual UUID.
pub const UUID_LEN: usize = 36;

/// A lowercase hexadecimal digit.
pub open spec fn is_hex_char(c: char) -> bool {
    ('0' as u32) <= (c as u32) <= ('9' as u32) || ('a' as u32) <= (c as u32) <= ('f' as u32)
}

/// The hyphenated textual form of a UUID: thirty-six characters, hyphens at
/// positions 8, 13, 18 and 23, lowercase hexadecimal digits everywhere else.
pub open spec fn is_uuid_chars(s: Seq<char>) -> bool {
    &&& s.len() == 36
    &&& forall|i: int|
        0 <= i < 36 ==> (if i == 8 || i == 13 || i == 18 || i == 23 {
            s[i] == '-'
        } else {
            is_hex_char(#[trigger] s[i])
        })
}

/// Relies on `uuid::Uuid::new_v4` and its `Display` impl: a fresh random
/// UUID rendered in the hyphenated, lowercase hexadecimal form.
#[verifier::external_body]
pub fn fresh_uuid() -> (r: String)
    ensures
        is_uuid_chars(r@),
{
    uuid::Uuid::new_v4().to_string()
}

/// Decides whether a string is a hyphenated textual UUID.
pub fn is_valid_uuid(s: &str) -> (r: bool)
    ensures
        r == is_uuid_chars(s@),
{
    if s.unicode_len() != 36 {
        return false;
    }
    let mut i: usize = 0;
    while i < 36
        invariant
            0 <= i <= 36,
            s@.len() == 36,
            forall|j: int|
                0 <= j < i ==> (if j == 8 || j == 13 || j == 18 || j == 23 {
                    s@[j] == '-'
                } else {
                    is_hex_char(#[trigger] s@[j])
                }),
        decreases 36 - i,
    {
        let c = s.get_char(i);
        let ok = if i == 8 || i == 13 || i == 18 || i == 23 {
            c == '-'
        } else {
            let u = c as u32;
            (48 <= u && u <= 57) || (97 <= u && u <= 102)
        };
        if !ok {
            return false;
        }
        i = i + 1;
    }
    true
}

} // verus!
