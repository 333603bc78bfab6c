//! Generated identifiers and the wall clock.

use vstd::prelude::*;
use crate::text::concat;

verus! {

/// A lower-case hexadecimal digit.
pub open spec fn is_lower_hex(c: char) -> bool {
    ('0' <= c && c <= '9') || ('a' <= c && c <= 'f')
}

/// The simple (hyphen-free) text of a UUID: 32 lower-case hex digits.
pub open spec fn is_uuid_simple(s: Seq<char>) -> bool {
    &&& s.len() == 32
    &&& forall|i: int| 0 <= i < 32 ==> #[trigger] is_lower_hex(s[i])
}

/// `id` is `prefix`, an underscore and the simple text of a UUID.
pub open spec fn is_generated_id(id: Seq<char>, prefix: Seq<char>) -> bool {
    &&& id.len() == prefix.len() + 33
    &&& id.subrange(0, prefix.len() as int) == prefix
    &&& id[prefix.len() as int] == '_'
    &&& is_uuid_simple(id.subrange(prefix.len() as int + 1, id.len() as int))
}

/// The simple text of a fresh random (version 4) UUID.
///
/// Trusted: calls `uuid::Uuid::new_v4` and formats it with `simple()`,
/// which the `uuid` crate documents as 32 lower-case hexadecimal digits.
/// The value itself is random, so nothing more is stated.
#[verifier::external_body]
fn random_uuid_simple() -> (r: String)
    ensures
        is_uuid_simple(r@),
{
    uuid::Uuid::new_v4().simple().to_string()
}

/// A fresh identifier `{prefix}_{uuid}`.
pub fn gen_id(prefix: &str) -> (r: String)
    ensures
        is_generated_id(r@, prefix@),
{
    let u = random_uuid_simple();
    let mut out = concat(prefix, "_");
    proof {
        reveal_strlit("_");
    }
    out.append(u.as_str());
    assert(out@.subrange(0, prefix@.len() as int) =~= prefix@);
    assert(out@.subrange(prefix@.len() as int + 1, out@.len() as int) =~= u@);
    out
}

/// Seconds since the Unix epoch, by the system clock (0 if the clock is
/// set before the epoch).
///
/// Trusted: calls `std::time::SystemTime::now`; the time is not a function
/// of anything the library holds, so nothing is stated of it.
#[verifier::external_body]
pub(crate) fn now_secs() -> (r: u64) {
    match std::time::SystemTime::now().duration_since(std::time::UNIX_EPOCH) {
        Ok(d) => d.as_secs(),
        Err(_) => 0,
    }
}

} // verus!
