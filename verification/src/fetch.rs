use vstd::prelude::*;
use vstd::utf8::{valid_utf8, decode_utf8};
use crate::error::Error;
use crate::hash::{sha256_hex, spec_sha256_hex, utf8_text};
use crate::mirrors::Mirrors;
use crate::text::owned;

verus! {

/// How many mirrors are tried for `instructions.json` before giving up.
pub const INSTRUCTIONS_ATTEMPTS: usize = 3;

/// What to do with an answer for `instructions.json`.
#[derive(Debug)]
pub enum InstructionsStep {
    /// The hash matched: these are the instructions.
    Accept(String),
    /// The hash did not match: stop using this mirror and try another one.
    TryAnotherMirror,
    /// Give up with this error.
    Fail(Error),
}

/// Fetching the instructions needs at least one mirror.
pub fn check_mirrors(mirrors: &Mirrors) -> (r: Result<(), Error>)
    ensures
        mirrors@.len() == 0 ==> r matches Err(Error::NoMirrors()),
        mirrors@.len() > 0 ==> r is Ok,
{
    if mirrors.is_empty() { Err(Error::NoMirrors()) } else { Ok(()) }
}

/// Judges attempt `attempt` (counting from 0) at fetching `instructions.json`:
/// its body must hash (upper-case hex SHA-256) to the hash `release.json`
/// announced. A mismatch on the last attempt gives up; an accepted body that
/// is not UTF-8 fails.
pub fn instructions_step(attempt: usize, body: &[u8], expected_hash: &String) -> (r: InstructionsStep)
    requires
        attempt < INSTRUCTIONS_ATTEMPTS,
    ensures
        spec_sha256_hex(body@) != expected_hash@ && attempt + 1 == INSTRUCTIONS_ATTEMPTS
            ==> (r matches InstructionsStep::Fail(Error::OutOfRetries(m)) && m@ == "Couldn't fetch instructions.json"@),
        spec_sha256_hex(body@) != expected_hash@ && attempt + 1 < INSTRUCTIONS_ATTEMPTS
            ==> r is TryAnotherMirror,
        spec_sha256_hex(body@) == expected_hash@ && valid_utf8(body@)
            ==> (r matches InstructionsStep::Accept(text) && text@ == decode_utf8(body@)),
        spec_sha256_hex(body@) == expected_hash@ && !valid_utf8(body@)
            ==> r matches InstructionsStep::Fail(Error::NotUtf8()),
{
    let hash = sha256_hex(body);
    if hash != *expected_hash {
        if attempt + 1 == INSTRUCTIONS_ATTEMPTS {
            InstructionsStep::Fail(Error::OutOfRetries(owned("Couldn't fetch instructions.json")))
        } else {
            InstructionsStep::TryAnotherMirror
        }
    } else {
        match utf8_text(body) {
            Some(text) => InstructionsStep::Accept(text),
            None => InstructionsStep::Fail(Error::NotUtf8()),
        }
    }
}

} // verus!
