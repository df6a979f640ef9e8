use vstd::prelude::*;
use crate::error::Error;
use crate::instruction::{Instruction, InstructionView};
use crate::json::{JsonView, json_view, json_parse_result, spec_get, spec_members, spec_as_str, spec_as_usize, spec_as_bool, json_parse, spec_fractions_fit, fractions_fit, json_get, json_at, json_is_array, json_len, json_as_str, json_as_usize, json_as_bool};
use crate::text::{owned, spec_slashes, to_slashes};

verus! {

/// The instruction an entry of `instructions.json` describes, or `None` when
/// one of its sizes or its delta flag is missing or malformed (such entries are
/// skipped). The path's `\` separators become `/`.
pub open spec fn spec_instruction_of(m: JsonView) -> Option<InstructionView> {
    match (spec_as_usize(spec_get(m, "FullReplaceSize"@)), spec_as_usize(spec_get(m, "DeltaSize"@)),
        spec_as_bool(spec_get(m, "HasDelta"@))) {
        (Some(full), Some(delta), Some(has_delta)) => Some(InstructionView {
            path: spec_slashes(spec_as_str(spec_get(m, "Path"@))->0),
            previous_hash: spec_as_str(spec_get(m, "OldHash"@)),
            newest_hash: spec_as_str(spec_get(m, "NewHash"@)),
            full_vcdiff_hash: spec_as_str(spec_get(m, "CompressedHash"@)),
            delta_vcdiff_hash: spec_as_str(spec_get(m, "DeltaHash"@)),
            full_vcdiff_size: full as nat,
            delta_vcdiff_size: delta as nat,
            has_delta,
        }),
        _ => None,
    }
}

/// The instructions of the entries, in order, skipping malformed ones.
pub open spec fn spec_instructions(members: Seq<JsonView>) -> Seq<InstructionView>
    decreases members.len(),
{
    if members.len() == 0 {
        seq![]
    } else {
        let before = spec_instructions(members.drop_last());
        match spec_instruction_of(members.last()) {
            Some(i) => before.push(i),
            None => before,
        }
    }
}

/// Every entry has a string `Path` (on any other entry reading fails outright).
pub open spec fn spec_paths_are_strings(doc: JsonView) -> bool {
    forall|i: int| 0 <= i < spec_members(doc).len() ==> (#[trigger] spec_as_str(spec_get(spec_members(doc)[i], "Path"@))) is Some
}

fn instruction_of(m: &json::JsonValue) -> (r: Option<Instruction>)
    requires
        spec_as_str(spec_get(json_view(*m), "Path"@)) is Some,
    ensures
        match r {
            Some(i) => spec_instruction_of(json_view(*m)) == Some(i@),
            None => spec_instruction_of(json_view(*m)) is None,
        },
{
    let path = json_as_str(json_get(m, "Path"));
    let previous_hash = json_as_str(json_get(m, "OldHash"));
    let newest_hash = json_as_str(json_get(m, "NewHash"));
    let full_vcdiff_hash = json_as_str(json_get(m, "CompressedHash"));
    let delta_vcdiff_hash = json_as_str(json_get(m, "DeltaHash"));
    let full = json_as_usize(json_get(m, "FullReplaceSize"));
    let delta = json_as_usize(json_get(m, "DeltaSize"));
    let has_delta = json_as_bool(json_get(m, "HasDelta"));
    match (path, full, delta, has_delta) {
        (Some(path), Some(full), Some(delta), Some(has_delta)) => Some(Instruction {
            path: to_slashes(path.as_str()),
            previous_hash,
            newest_hash,
            full_vcdiff_hash,
            delta_vcdiff_hash,
            full_vcdiff_size: full,
            delta_vcdiff_size: delta,
            has_delta,
        }),
        _ => None,
    }
}

/// Whether every entry of the document has a string `Path`.
pub fn paths_are_strings(doc: &json::JsonValue) -> (r: bool)
    ensures
        r == spec_paths_are_strings(json_view(*doc)),
{
    if !json_is_array(doc) {
        return true;
    }
    let n = json_len(doc);
    let ghost members = spec_members(json_view(*doc));
    let mut i: usize = 0;
    while i < n
        invariant
            members == spec_members(json_view(*doc)),
            n == members.len(),
            i <= n,
            forall|k: int| 0 <= k < i ==> (#[trigger] spec_as_str(spec_get(members[k], "Path"@))) is Some,
        decreases n - i,
    {
        let m = json_at(doc, i);
        if json_as_str(json_get(m, "Path")).is_none() {
            assert(spec_as_str(spec_get(members[i as int], "Path"@)) is None);
            return false;
        }
        i = i + 1;
    }
    true
}

/// The instructions a parsed `instructions.json` holds, in order; entries
/// with a missing or malformed size or delta flag are skipped.
pub fn instructions_from_json(doc: &json::JsonValue) -> (r: Vec<Instruction>)
    requires
        spec_paths_are_strings(json_view(*doc)),
    ensures
        r@.map_values(|i: Instruction| i@) == spec_instructions(spec_members(json_view(*doc))),
{
    let mut out: Vec<Instruction> = Vec::new();
    if !json_is_array(doc) {
        return out;
    }
    let n = json_len(doc);
    let ghost members = spec_members(json_view(*doc));
    let mut i: usize = 0;
    while i < n
        invariant
            members == spec_members(json_view(*doc)),
            n == members.len(),
            i <= n,
            spec_paths_are_strings(json_view(*doc)),
            out@.map_values(|x: Instruction| x@) == spec_instructions(members.subrange(0, i as int)),
        decreases n - i,
    {
        proof {
            assert(members.subrange(0, i + 1).drop_last() =~= members.subrange(0, i as int));
            assert(members.subrange(0, i + 1).last() == members[i as int]);
            assert(spec_as_str(spec_get(members[i as int], "Path"@)) is Some);
        }
        let m = json_at(doc, i);
        match instruction_of(m) {
            Some(x) => {
                let ghost prev = out@;
                let ghost xv = x@;
                out.push(x);
                proof {
                    assert(out@.map_values(|y: Instruction| y@) =~= prev.map_values(|y: Instruction| y@).push(xv));
                }
            },
            None => {},
        }
        i = i + 1;
    }
    proof { assert(members.subrange(0, n as int) =~= members); }
    out
}

/// Reads `instructions.json`: its entries as instructions, in order, skipping
/// malformed ones. Text that is not JSON is `InvalidJson`.
pub fn parse_instructions(instructions: &String) -> (r: Result<Vec<Instruction>, Error>)
    requires
        spec_fractions_fit(instructions@),
        json_parse_result(instructions@) matches Some(d) ==> spec_paths_are_strings(d),
    ensures
        json_parse_result(instructions@) is None ==> (r matches Err(Error::InvalidJson(name, text))
            && name@ == "instructions.json"@ && text@ == instructions@),
        json_parse_result(instructions@) matches Some(d) ==> (r matches Ok(v)
            && v@.map_values(|i: Instruction| i@) == spec_instructions(spec_members(d))),
{
    match json_parse(instructions.as_str()) {
        Ok(doc) => Ok(instructions_from_json(&doc)),
        Err(_) => Err(Error::InvalidJson(owned("instructions.json"), instructions.clone())),
    }
}

/// [`parse_instructions`], or `None` where the text cannot be read on: when
/// an entry's `Path` is not a string, or when a number in it has more fraction
/// digits than the JSON parser can count (see [`spec_fractions_fit`]).
pub fn try_parse_instructions(instructions: &String) -> (r: Option<Result<Vec<Instruction>, Error>>)
    ensures
        !spec_fractions_fit(instructions@) ==> r is None,
        spec_fractions_fit(instructions@) ==> (json_parse_result(instructions@) matches Some(d) ==> (!spec_paths_are_strings(d) ==> r is None)),
        spec_fractions_fit(instructions@) ==> (json_parse_result(instructions@) is None ==> (r matches Some(Err(Error::InvalidJson(name, text))) && name@ == "instructions.json"@ && text@ == instructions@)),
        spec_fractions_fit(instructions@) ==> (json_parse_result(instructions@) matches Some(d) ==> (spec_paths_are_strings(d) ==> (r matches Some(Ok(v)) && v@.map_values(|i: Instruction| i@) == spec_instructions(spec_members(d))))),
{
    if !fractions_fit(instructions.as_str()) {
        return None;
    }
    match json_parse(instructions.as_str()) {
        Ok(doc) => {
            if paths_are_strings(&doc) {
                Some(parse_instructions(instructions))
            } else {
                None
            }
        },
        Err(_) => Some(parse_instructions(instructions)),
    }
}

} // verus!
