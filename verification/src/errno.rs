//! The host's error codes for the two failures the library reports.

use vstd::prelude::*;

verus! {

/// The host constant `libc::EBUSY`: the code for a resource that is in
/// use. On every target of `libc` it differs from zero.
#[verifier::external_body]
pub(crate) fn errno_busy() -> (code: i32)
    ensures
        code != 0,
{
    libc::EBUSY
}

/// The host constant `libc::EINVAL`: the code for an invalid argument. On
/// every target of `libc` it differs from zero.
#[verifier::external_body]
pub(crate) fn errno_invalid() -> (code: i32)
    ensures
        code != 0,
{
    libc::EINVAL
}

} // verus!
