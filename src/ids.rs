use vstd::prelude::*;

verus! {

/// A lowercase hexadecimal digit.
pub open spec fn is_lower_hex(c: char) -> bool {
    ('0' <= c && c <= '9') || ('a' <= c && c <= 'f')
}

/// Thirty-two lowercase hexadecimal digits.
pub open spec fn is_hex_id(s: Seq<char>) -> bool {
    s.len() == 32 && forall|i: int| 0 <= i < 32 ==> #[trigger] is_lower_hex(s[i])
}

/// Relies on uuid::Uuid::new_v4 (a random version-4 UUID) and on its `simple`
/// format, which writes the 16 bytes as 32 lowercase hexadecimal digits.
#[verifier::external_body]
pub(crate) fn random_hex_id() -> (r: String)
    ensures
        is_hex_id(r@),
{
    uuid::Uuid::new_v4().simple().to_string()
}

} // verus!
