use vstd::prelude::*;
use crate::error::Error;
use crate::text::{concat, owned, push_char, push_decimal, spec_decimal};

verus! {

/// The index of the last `/` in `s`, if any.
pub open spec fn spec_last_slash(s: Seq<char>) -> Option<int>
    decreases s.len(),
{
    if s.len() == 0 {
        None
    } else if s.last() == '/' {
        Some(s.len() - 1)
    } else {
        spec_last_slash(s.drop_last())
    }
}

/// The directory a patched file is written into: its path up to the last `/`.
/// A path without `/` is an error.
pub fn patch_directory(target_path: &String) -> (r: Result<String, Error>)
    ensures
        spec_last_slash(target_path@) is None ==> r matches Err(Error::Message(_)),
        spec_last_slash(target_path@) matches Some(k) ==> (r matches Ok(d) && d@ == target_path@.subrange(0, k)),
{
    broadcast use vstd::string::group_string_axioms;
    let s = target_path.as_str();
    let mut prefix = String::new();
    let mut current = String::new();
    let mut found = false;
    for c in it: s.chars()
        invariant
            it.seq() == target_path@,
            found == (spec_last_slash(target_path@.subrange(0, it.index() as int)) is Some),
            spec_last_slash(target_path@.subrange(0, it.index() as int)) matches Some(k)
                ==> prefix@ == target_path@.subrange(0, k),
            current@ == target_path@.subrange(0, it.index() as int),
    {
        let ghost i = it.index() as int;
        proof {
            assert(target_path@.subrange(0, i + 1).drop_last() =~= target_path@.subrange(0, i));
            assert(target_path@.subrange(0, i + 1).last() == c);
        }
        if c == '/' {
            prefix = current.clone();
            found = true;
        }
        push_char(&mut current, c);
        proof { assert(current@ =~= target_path@.subrange(0, i + 1)); }
    }
    proof { assert(target_path@.subrange(0, target_path@.len() as int) =~= target_path@); }
    if found {
        Ok(prefix)
    } else {
        Err(Error::Message(concat(target_path, " contains no /")))
    }
}

/// Where a file is moved while a delta patch is applied to it: `<path>.vcdiff_src`.
pub fn vcdiff_source_path(target_path: &String) -> (r: String)
    ensures
        r@ == target_path@ + ".vcdiff_src"@,
{
    concat(target_path, ".vcdiff_src")
}

/// After patching, the file must have the hash the instructions announced.
pub fn check_patched_hash(target_path: &String, hash: &String, target_hash: &String) -> (r: Result<(), Error>)
    ensures
        hash@ == target_hash@ ==> r is Ok,
        hash@ != target_hash@ ==> (r matches Err(Error::HashMismatch(p, got, expected))
            && p@ == target_path@ && got@ == hash@ && expected@ == target_hash@),
{
    if *hash != *target_hash {
        Err(Error::HashMismatch(target_path.clone(), hash.clone(), target_hash.clone()))
    } else {
        Ok(())
    }
}

/// The `Range` header value for bytes `from` to `to`: `bytes=<from>-<to>`.
pub fn range_header(from: u64, to: u64) -> (r: String)
    ensures
        r@ == "bytes="@ + spec_decimal(from as nat) + "-"@ + spec_decimal(to as nat),
{
    let mut r = owned("bytes=");
    push_decimal(&mut r, from);
    r.append("-");
    push_decimal(&mut r, to);
    r
}

/// A part download must be answered with 206 Partial Content; any other
/// status is `InvalidStatus` with its reason phrase.
pub fn expect_partial_content(status: u16, reason: &String) -> (r: Result<(), Error>)
    ensures
        status == 206 ==> r is Ok,
        status != 206 ==> (r matches Err(Error::InvalidStatus(m)) && m@ == reason@),
{
    if status != 206 { Err(Error::InvalidStatus(reason.clone())) } else { Ok(()) }
}

} // verus!
