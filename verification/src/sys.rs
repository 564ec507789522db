//! The numbers that the operating system gives to a few conditions, taken
//! from the `libc` crate. Nothing here is proved: the values stated are
//! those that `libc` has on Linux.

use vstd::prelude::*;

verus! {

/// `libc::EAGAIN`: the error number for "no data now, try again". On Linux
/// `libc` defines it as 11.
#[verifier::external_body]
pub(crate) fn eagain() -> (number: i32)
    ensures
        number == 11,
{
    libc::EAGAIN
}

/// `libc::SIGHUP`: the number of the hang-up signal. On Linux `libc`
/// defines it as 1.
#[verifier::external_body]
pub(crate) fn sighup() -> (number: i32)
    ensures
        number == 1,
{
    libc::SIGHUP
}

/// `libc::SIGINT`: the number of the interrupt signal. On Linux `libc`
/// defines it as 2.
#[verifier::external_body]
pub(crate) fn sigint() -> (number: i32)
    ensures
        number == 2,
{
    libc::SIGINT
}

/// `libc::SIGTERM`: the number of the termination signal. On Linux `libc`
/// defines it as 15.
#[verifier::external_body]
pub(crate) fn sigterm() -> (number: i32)
    ensures
        number == 15,
{
    libc::SIGTERM
}

} // verus!
