//! File identifiers: UUIDs held as their 16 bytes.

use vstd::prelude::*;
use crate::crypto::{hex_digit, hex_lower, FileId};

verus! {

#[verifier::external_type_specification]
#[verifier::external_body]
pub struct ExUuidError(uuid::Error);

/// The hyphenated lower-case text of a UUID's 16 bytes (8-4-4-4-12 digits).
pub open spec fn uuid_text(b: Seq<u8>) -> Seq<char> {
    hex_lower(b.subrange(0, 4)) + seq!['-'] + hex_lower(b.subrange(4, 6)) + seq!['-']
        + hex_lower(b.subrange(6, 8)) + seq!['-'] + hex_lower(b.subrange(8, 10)) + seq!['-']
        + hex_lower(b.subrange(10, 16))
}

/// The bytes of the UUID that `uuid::Uuid::parse_str` reads from `s`, if it
/// accepts `s`.
pub uninterp spec fn uuid_parsed(s: Seq<char>) -> Option<Seq<u8>>;

/// A fresh random (version 4) identifier.
///
/// Calls `uuid::Uuid::new_v4`; nothing is claimed of the bytes.
#[verifier::external_body]
pub(crate) fn new_file_id() -> (id: FileId) {
    uuid::Uuid::new_v4().into_bytes()
}

/// The hyphenated lower-case text of an identifier.
///
/// Calls `uuid::Uuid::from_bytes` and its `Display`, which the contract claims
/// writes `uuid_text` of the bytes.
#[verifier::external_body]
pub(crate) fn file_id_to_string(id: &FileId) -> (s: String)
    ensures
        s@ == uuid_text(id@),
{
    uuid::Uuid::from_bytes(*id).to_string()
}

/// Calls `uuid::Uuid::parse_str`; its result is named `uuid_parsed`. The
/// contract also claims that the hyphenated lower-case text of any UUID is
/// accepted and read back as that UUID.
#[verifier::external_body]
fn uuid_parse_str(s: &str) -> (r: Result<FileId, uuid::Error>)
    ensures
        r matches Ok(id) ==> uuid_parsed(s@) == Some(id@),
        r is Err ==> uuid_parsed(s@) is None,
        forall|b: Seq<u8>| b.len() == 16 && s@ == uuid_text(b) ==> r is Ok && r->Ok_0@ == b,
{
    uuid::Uuid::parse_str(s).map(|u| u.into_bytes())
}

/// Reads a file identifier from text; `None` where `uuid` refuses the text.
pub fn parse_file_id(s: &str) -> (r: Option<FileId>)
    ensures
        match uuid_parsed(s@) {
            Some(b) => r matches Some(id) && id@ == b,
            None => r is None,
        },
        forall|b: Seq<u8>| #![trigger uuid_text(b)] b.len() == 16 && s@ == uuid_text(b) ==> (r matches Some(id) && id@ == b),
{
    match uuid_parse_str(s) {
        Ok(id) => Some(id),
        Err(_) => None,
    }
}

/// Whether two identifiers are the same.
pub fn same_id(a: &FileId, b: &FileId) -> (r: bool)
    ensures
        r == (a@ == b@),
{
    let mut i: usize = 0;
    while i < 16
        invariant
            i <= 16,
            forall|k: int| 0 <= k < i ==> a@[k] == b@[k],
        decreases 16 - i,
    {
        if a[i] != b[i] {
            return false;
        }
        i += 1;
    }
    assert(a@ =~= b@);
    true
}

/// Lower-case hexadecimal digits and `-`: the characters of a UUID's text.
pub open spec fn uuid_char(c: char) -> bool {
    ('0' <= c && c <= '9') || ('a' <= c && c <= 'f') || c == '-'
}

/// Whether every character of `s` is a `uuid_char`.
pub open spec fn uuid_chars(s: Seq<char>) -> bool {
    forall|i: int| 0 <= i < s.len() ==> uuid_char(#[trigger] s[i])
}

proof fn lemma_uuid_chars_concat(a: Seq<char>, b: Seq<char>)
    requires
        uuid_chars(a),
        uuid_chars(b),
    ensures
        uuid_chars(a + b),
{
    assert forall|i: int| 0 <= i < (a + b).len() implies uuid_char(#[trigger] (a + b)[i]) by {
        if i < a.len() {
            assert((a + b)[i] == a[i]);
        } else {
            assert((a + b)[i] == b[i - a.len()]);
        }
    }
}

proof fn lemma_hex_lower_chars(b: Seq<u8>)
    ensures
        uuid_chars(hex_lower(b)),
        hex_lower(b).len() == 2 * b.len(),
    decreases b.len(),
{
    if b.len() > 0 {
        let x = b[0];
        assert(x >> 4 < 16 && x & 15 < 16) by (bit_vector);
        lemma_hex_lower_chars(b.skip(1));
        let head = seq![hex_digit(x >> 4), hex_digit(x & 15)];
        assert(uuid_chars(head));
        lemma_uuid_chars_concat(head, hex_lower(b.skip(1)));
    }
}

/// The text of a UUID is 36 characters of lower-case hexadecimal digits and
/// hyphens.
pub proof fn lemma_uuid_text_chars(b: Seq<u8>)
    requires
        b.len() == 16,
    ensures
        uuid_chars(uuid_text(b)),
        uuid_text(b).len() == 36,
{
    lemma_hex_lower_chars(b.subrange(0, 4));
    lemma_hex_lower_chars(b.subrange(4, 6));
    lemma_hex_lower_chars(b.subrange(6, 8));
    lemma_hex_lower_chars(b.subrange(8, 10));
    lemma_hex_lower_chars(b.subrange(10, 16));
    let d = seq!['-'];
    assert(uuid_chars(d));
    let s1 = hex_lower(b.subrange(0, 4)) + d;
    lemma_uuid_chars_concat(hex_lower(b.subrange(0, 4)), d);
    let s2 = s1 + hex_lower(b.subrange(4, 6));
    lemma_uuid_chars_concat(s1, hex_lower(b.subrange(4, 6)));
    let s3 = s2 + d;
    lemma_uuid_chars_concat(s2, d);
    let s4 = s3 + hex_lower(b.subrange(6, 8));
    lemma_uuid_chars_concat(s3, hex_lower(b.subrange(6, 8)));
    let s5 = s4 + d;
    lemma_uuid_chars_concat(s4, d);
    let s6 = s5 + hex_lower(b.subrange(8, 10));
    lemma_uuid_chars_concat(s5, hex_lower(b.subrange(8, 10)));
    let s7 = s6 + d;
    lemma_uuid_chars_concat(s6, d);
    lemma_uuid_chars_concat(s7, hex_lower(b.subrange(10, 16)));
    assert(uuid_text(b) == s7 + hex_lower(b.subrange(10, 16)));
}

} // verus!
