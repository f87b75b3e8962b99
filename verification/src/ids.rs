//! Identifiers of allocations: random version-4 UUIDs in their canonical
//! text form, and the texts that the upload endpoint accepts as UUIDs.

use vstd::prelude::*;

verus! {

/// An ASCII hexadecimal digit, in either case.
pub open spec fn is_hex_digit(c: char) -> bool {
    ('0' <= c && c <= '9') || ('a' <= c && c <= 'f') || ('A' <= c && c <= 'F')
}

/// A lowercase ASCII hexadecimal digit.
pub open spec fn is_lower_hex_digit(c: char) -> bool {
    ('0' <= c && c <= '9') || ('a' <= c && c <= 'f')
}

/// The positions of the hyphens in the hyphenated form.
pub open spec fn is_hyphen_position(i: int) -> bool {
    i == 8 || i == 13 || i == 18 || i == 23
}

/// The hyphenated form: 32 hexadecimal digits in groups of 8, 4, 4, 4 and 12,
/// separated by hyphens.
pub open spec fn is_hyphenated(s: Seq<char>) -> bool {
    &&& s.len() == 36
    &&& forall|i: int|
        0 <= i < 36 ==> if is_hyphen_position(i) {
            s[i] == '-'
        } else {
            is_hex_digit(#[trigger] s[i])
        }
}

/// `c` with ASCII capitals lowered.
pub open spec fn ascii_lowercase(c: char) -> char {
    if 'A' <= c && c <= 'Z' {
        ((c as u32) + 32) as char
    } else {
        c
    }
}

/// The URN prefix `urn:uuid:`.
pub open spec fn urn_prefix() -> Seq<char> {
    seq!['u', 'r', 'n', ':', 'u', 'u', 'i', 'd', ':']
}

/// The texts that `uuid::Uuid::parse_str` accepts: 32 hexadecimal digits;
/// the hyphenated form; the hyphenated form in braces; or the hyphenated
/// form after a `urn:uuid:` prefix in any ASCII case.
#[verifier::opaque]
pub open spec fn is_uuid_text(s: Seq<char>) -> bool {
    ||| s.len() == 32 && forall|i: int| 0 <= i < 32 ==> is_hex_digit(#[trigger] s[i])
    ||| is_hyphenated(s)
    ||| s.len() == 38 && s[0] == '{' && s[37] == '}' && is_hyphenated(s.subrange(1, 37))
    ||| s.len() == 45 && (forall|i: int|
        0 <= i < 9 ==> #[trigger] ascii_lowercase(s[i]) == urn_prefix()[i]) && is_hyphenated(
        s.subrange(9, 45),
    )
}

/// The canonical text of a random (version 4, RFC 4122 variant) UUID:
/// lowercase and hyphenated, with `4` as the first digit of the third group
/// and one of `8`, `9`, `a`, `b` as the first digit of the fourth. It is
/// also the pattern by which the static server recognises a deployment:
/// `[0-9a-f]{8}-[0-9a-f]{4}-4[0-9a-f]{3}-[89ab][0-9a-f]{3}-[0-9a-f]{12}`.
pub open spec fn is_canonical_v4(s: Seq<char>) -> bool {
    &&& s.len() == 36
    &&& forall|i: int|
        0 <= i < 36 ==> if is_hyphen_position(i) {
            s[i] == '-'
        } else {
            is_lower_hex_digit(#[trigger] s[i])
        }
    &&& s[14] == '4'
    &&& (s[19] == '8' || s[19] == '9' || s[19] == 'a' || s[19] == 'b')
}

/// Asks `uuid::Uuid::parse_str` whether `s` is a UUID. Its source accepts
/// exactly the four forms of `is_uuid_text`: it checks the byte length (32,
/// 36, 38 or 45), the hyphens, braces or case-insensitive `urn:uuid:`
/// prefix, and that every other byte is an ASCII hexadecimal digit.
#[verifier::external_body]
fn uuid_parses(s: &str) -> (r: bool)
    ensures
        r == is_uuid_text(s@),
{
    uuid::Uuid::parse_str(s).is_ok()
}

/// A fresh random UUID from `uuid::Uuid::new_v4`, in the text that its
/// `Display` gives. The source masks in the version and variant bits and
/// prints the lowercase hyphenated form; which UUID comes out is left
/// unsaid. `new_v4` panics where the operating system's random source
/// fails.
#[verifier::external_body]
fn random_uuid_text() -> (r: String)
    ensures
        is_canonical_v4(r@),
{
    uuid::Uuid::new_v4().to_string()
}

/// Whether the upload endpoint accepts `s` as a UUID.
pub fn is_valid_upload_id(s: &str) -> (r: bool)
    ensures
        r == is_uuid_text(s@),
{
    uuid_parses(s)
}

/// A new allocation identifier: a random version-4 UUID in canonical text.
pub fn new_allocation_id() -> (r: String)
    ensures
        is_canonical_v4(r@),
{
    random_uuid_text()
}

/// Every identifier that allocation hands out is accepted as a UUID by the
/// upload endpoint.
pub proof fn lemma_allocated_id_accepted(s: Seq<char>)
    requires
        is_canonical_v4(s),
    ensures
        is_uuid_text(s),
{
    reveal(is_uuid_text);
    assert(is_hyphenated(s)) by {
        assert forall|i: int| 0 <= i < 36 implies if is_hyphen_position(i) {
            s[i] == '-'
        } else {
            is_hex_digit(#[trigger] s[i])
        } by {
            if !is_hyphen_position(i) {
                assert(is_lower_hex_digit(s[i]));
            }
        }
    }
}

/// An ASCII hexadecimal digit of either case, stated by its ranges.
pub open spec fn hex_char(c: char) -> bool {
    ('0' <= c && c <= '9') || ('a' <= c && c <= 'f') || ('A' <= c && c <= 'F')
}

/// The hyphenated layout stated by positions: hyphens at 8, 13, 18 and 23,
/// hexadecimal digits of either case elsewhere, 36 characters in all.
pub open spec fn hyphen_layout(s: Seq<char>) -> bool {
    s.len() == 36 && forall|i: int|
        0 <= i < 36 ==> if i == 8 || i == 13 || i == 18 || i == 23 {
            s[i] == '-'
        } else {
            hex_char(#[trigger] s[i])
        }
}

/// The upload endpoint accepts a UUID in each form that `Uuid::parse_str`
/// reads, whatever the case of its digits: hyphenated, 32 digits, braced,
/// or after `urn:uuid:`; and refuses every text of another length.
pub proof fn lemma_uuid_forms(s: Seq<char>)
    ensures
        hyphen_layout(s) ==> is_uuid_text(s),
        s.len() == 32 && (forall|i: int| 0 <= i < 32 ==> hex_char(#[trigger] s[i])) ==> is_uuid_text(
            s,
        ),
        s.len() == 38 && s[0] == '{' && s[37] == '}' && hyphen_layout(s.subrange(1, 37))
            ==> is_uuid_text(s),
        s.len() == 45 && s.subrange(0, 9) == seq!['u', 'r', 'n', ':', 'u', 'u', 'i', 'd', ':']
            && hyphen_layout(s.subrange(9, 45)) ==> is_uuid_text(s),
        !(s.len() == 32 || s.len() == 36 || s.len() == 38 || s.len() == 45) ==> !is_uuid_text(s),
{
    reveal(is_uuid_text);
    if s.len() == 45 && s.subrange(0, 9) == urn_prefix() && hyphen_layout(s.subrange(9, 45)) {
        assert forall|i: int| 0 <= i < 9 implies #[trigger] ascii_lowercase(s[i])
            == urn_prefix()[i] by {
            assert(s[i] == s.subrange(0, 9)[i]);
        }
    }
}

} // verus!
