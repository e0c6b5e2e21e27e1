//! Platforms without a way to list sockets or signal processes: nothing is
//! listed and nothing can be killed.
use vstd::prelude::*;
use crate::kill::KillError;
use crate::model::{Entry, Ident};
use crate::text::owned;

verus! {

/// `std::io::Error`, carried through as an opaque value.
#[verifier::external_type_specification]
#[verifier::external_body]
pub struct ExIoError(std::io::Error);

/// Lists no sockets.
pub fn list_listeners() -> (r: std::io::Result<Vec<Entry>>)
    ensures
        r matches Ok(v) && v@.len() == 0,
{
    Ok(Vec::new())
}

/// There is no start token to read.
pub fn proc_start_token(_pid: i32) -> (r: Result<u64, KillError>)
    ensures
        r matches Err(KillError::System(m)) && m@ == "unsupported platform"@,
{
    Err(KillError::System(owned("unsupported platform")))
}

/// No process can be killed.
pub fn kill_process(_id: Ident) -> (r: Result<(), KillError>)
    ensures
        r matches Err(KillError::System(m)) && m@ == "unsupported platform"@,
{
    Err(KillError::System(owned("unsupported platform")))
}

} // verus!
