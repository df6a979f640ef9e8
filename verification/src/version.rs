use vstd::prelude::*;
use crate::error::Error;
use crate::json::{JsonView, json_view, json_parse_result, spec_fractions_fit, fractions_fit, spec_get, spec_members, spec_as_str, spec_as_u64,
    json_parse, json_get, json_at, json_is_array, json_len, json_as_str, json_as_u64};
use crate::mirrors::NamedUrl;
use crate::text::owned;

verus! {

/// The launcher release described by `release.json`.
#[derive(Debug)]
pub struct LauncherVersion {
    pub version: String,
    pub url: String,
    pub hash: String,
}

/// The game release described by `release.json`.
#[derive(Debug)]
pub struct SoftwareVersion {
    pub name: String,
    pub version: String,
    pub version_number: u64,
    pub instructions_hash: String,
    pub mirrors: Vec<NamedUrl>,
}

/// The contents of `release.json`.
#[derive(Debug)]
pub struct VersionInformation {
    pub launcher: LauncherVersion,
    pub software: SoftwareVersion,
}

/// The text of a string value (on which reading the release requires it to be a string).
pub open spec fn spec_str(v: JsonView) -> Seq<char> {
    spec_as_str(v)->0
}

/// The string fields that `release.json` must have for it to be read: the
/// launcher's version, URL and hash, the game's name, patch path and
/// instructions hash, and each mirror's name and URL.
pub open spec fn spec_release_strings(doc: JsonView) -> bool {
    spec_leading_strings(doc) && spec_as_str(spec_get(spec_get(doc, "game"@), "instructions_hash"@)) is Some
}

/// The string fields read before the version number: each mirror's name and
/// URL, the launcher's version, URL and hash, the game's name and patch path.
pub open spec fn spec_leading_strings(doc: JsonView) -> bool {
    spec_top_strings(doc) && spec_mirror_strings(doc)
}

/// The game's version number, where it is a non-negative integer.
pub open spec fn spec_version_number(doc: JsonView) -> Option<u64> {
    spec_as_u64(spec_get(spec_get(doc, "game"@), "version_number"@))
}

/// The launcher's string fields and the game's name and patch path are strings.
pub open spec fn spec_top_strings(doc: JsonView) -> bool {
    let launcher = spec_get(doc, "launcher"@);
    let game = spec_get(doc, "game"@);
    &&& spec_as_str(spec_get(launcher, "version_name"@)) is Some
    &&& spec_as_str(spec_get(launcher, "patch_url"@)) is Some
    &&& spec_as_str(spec_get(launcher, "patch_hash"@)) is Some
    &&& spec_as_str(spec_get(game, "version_name"@)) is Some
    &&& spec_as_str(spec_get(game, "patch_path"@)) is Some
}

/// Each mirror's name and URL are strings.
pub open spec fn spec_mirror_strings(doc: JsonView) -> bool {
    let mirrors = spec_members(spec_get(spec_get(doc, "game"@), "mirrors"@));
    forall|i: int| 0 <= i < mirrors.len() ==> {
        &&& (#[trigger] spec_as_str(spec_get(mirrors[i], "name"@))) is Some
        &&& spec_as_str(spec_get(mirrors[i], "url"@)) is Some
    }
}

fn string_field(v: &json::JsonValue, key: &str) -> (r: String)
    requires
        spec_as_str(spec_get(json_view(*v), key@)) is Some,
    ensures
        r@ == spec_str(spec_get(json_view(*v), key@)),
{
    match json_as_str(json_get(v, key)) {
        Some(s) => s,
        None => { assert(false); String::new() },
    }
}

/// `info` is what `release.json` `d` holds, with version number `n`.
pub open spec fn spec_release_info(info: VersionInformation, d: JsonView, n: u64) -> bool {
    let launcher = spec_get(d, "launcher"@);
    let game = spec_get(d, "game"@);
    let mirrors = spec_members(spec_get(game, "mirrors"@));
    &&& info.launcher.version@ == spec_str(spec_get(launcher, "version_name"@))
    &&& info.launcher.url@ == spec_str(spec_get(launcher, "patch_url"@))
    &&& info.launcher.hash@ == spec_str(spec_get(launcher, "patch_hash"@))
    &&& info.software.name@ == spec_str(spec_get(game, "version_name"@))
    &&& info.software.version@ == spec_str(spec_get(game, "patch_path"@))
    &&& info.software.version_number == n
    &&& info.software.instructions_hash@ == spec_str(spec_get(game, "instructions_hash"@))
    &&& info.software.mirrors@.len() == mirrors.len()
    &&& forall|i: int| 0 <= i < mirrors.len() ==> {
        &&& (#[trigger] info.software.mirrors@[i]).name@ == spec_str(spec_get(mirrors[i], "name"@))
        &&& info.software.mirrors@[i].url@ == spec_str(spec_get(mirrors[i], "url"@))
    }
}

impl VersionInformation {
    /// Reads a parsed `release.json`, field by field in the order of its
    /// value: the mirrors, the launcher, the game's name and patch path, its
    /// version number, its instructions hash. A `game.version_number` that
    /// is not a non-negative integer is an error; everything else is taken as
    /// it is.
    pub fn from_json(doc: &json::JsonValue) -> (r: Result<VersionInformation, Error>)
        requires
            spec_leading_strings(json_view(*doc)),
            spec_version_number(json_view(*doc)) is Some ==> spec_release_strings(json_view(*doc)),
        ensures
            spec_version_number(json_view(*doc)) is None ==> r matches Err(Error::Message(_)),
            spec_version_number(json_view(*doc)) matches Some(n)
                ==> (r matches Ok(info) && spec_release_info(info, json_view(*doc), n)),
    {
        let game = json_get(doc, "game");
        let launcher = json_get(doc, "launcher");
        let list = json_get(game, "mirrors");
        let ghost members = spec_members(json_view(*list));
        let mut mirrors: Vec<NamedUrl> = Vec::new();
        if json_is_array(list) {
            let n = json_len(list);
            let mut i: usize = 0;
            while i < n
                invariant
                    members == spec_members(json_view(*list)),
                    n == members.len(),
                    i <= n,
                    spec_leading_strings(json_view(*doc)),
                    json_view(*list) == spec_get(spec_get(json_view(*doc), "game"@), "mirrors"@),
                    mirrors@.len() == i,
                    forall|k: int| 0 <= k < i ==> {
                        &&& (#[trigger] mirrors@[k]).name@ == spec_str(spec_get(members[k], "name"@))
                        &&& mirrors@[k].url@ == spec_str(spec_get(members[k], "url"@))
                    },
                decreases n - i,
            {
                let m = json_at(list, i);
                assert(spec_as_str(spec_get(members[i as int], "name"@)) is Some);
                let name = string_field(m, "name");
                let url = string_field(m, "url");
                mirrors.push(NamedUrl { name, url });
                i = i + 1;
            }
        }
        let version = string_field(launcher, "version_name");
        let url = string_field(launcher, "patch_url");
        let hash = string_field(launcher, "patch_hash");
        let name = string_field(game, "version_name");
        let patch_path = string_field(game, "patch_path");
        let version_number = match json_as_u64(json_get(game, "version_number")) {
            Some(n) => n,
            None => return Err(Error::Message(owned("Cannot parse game.version_number as u64"))),
        };
        let instructions_hash = string_field(game, "instructions_hash");
        Ok(VersionInformation {
            launcher: LauncherVersion { version, url, hash },
            software: SoftwareVersion { name, version: patch_path, version_number, instructions_hash, mirrors },
        })
    }

    /// Reads the text of `release.json`: `None` when a string field read
    /// before the version number is not a string, or, with a valid version
    /// number, when the instructions hash is not (see
    /// [`spec_release_strings`]); `None` too when a number in it has more
    /// fraction digits than the JSON parser can count (see
    /// [`spec_fractions_fit`]). Text that is not JSON is a `JsonError`, and a
    /// version number that is not a non-negative integer a `Message`.
    pub fn parse(text: &String) -> (r: Option<Result<VersionInformation, Error>>)
        ensures
            !spec_fractions_fit(text@) ==> r is None,
            spec_fractions_fit(text@) && json_parse_result(text@) is None ==> r matches Some(Err(Error::JsonError(_))),
            spec_fractions_fit(text@) ==> (json_parse_result(text@) matches Some(d) ==> (!spec_leading_strings(d)
                ==> r is None)),
            spec_fractions_fit(text@) ==> (json_parse_result(text@) matches Some(d) ==> (spec_leading_strings(d)
                && spec_version_number(d) is None ==> r matches Some(Err(Error::Message(_))))),
            spec_fractions_fit(text@) ==> (json_parse_result(text@) matches Some(d) ==> (spec_leading_strings(d)
                && spec_version_number(d) is Some && !spec_release_strings(d) ==> r is None)),
            spec_fractions_fit(text@) ==> (json_parse_result(text@) matches Some(d) ==> (spec_release_strings(d)
                && spec_version_number(d) is Some ==> (r matches Some(Ok(info))
                && spec_release_info(info, d, spec_version_number(d)->0)))),
    {
        if !fractions_fit(text.as_str()) {
            return None;
        }
        match json_parse(text.as_str()) {
            Err(msg) => Some(Err(Error::JsonError(msg))),
            Ok(doc) => {
                if !leading_strings_present(&doc) {
                    return None;
                }
                let game = json_get(&doc, "game");
                if json_as_u64(json_get(game, "version_number")).is_some()
                    && json_as_str(json_get(game, "instructions_hash")).is_none() {
                    return None;
                }
                Some(VersionInformation::from_json(&doc))
            },
        }
    }
}

/// Whether the string fields read before the version number are strings.
pub fn leading_strings_present(doc: &json::JsonValue) -> (r: bool)
    ensures
        r == spec_leading_strings(json_view(*doc)),
{
    let game = json_get(doc, "game");
    let launcher = json_get(doc, "launcher");
    if json_as_str(json_get(launcher, "version_name")).is_none() || json_as_str(json_get(launcher, "patch_url")).is_none()
        || json_as_str(json_get(launcher, "patch_hash")).is_none() || json_as_str(json_get(game, "version_name")).is_none()
        || json_as_str(json_get(game, "patch_path")).is_none() {
        return false;
    }
    let list = json_get(game, "mirrors");
    let ghost members = spec_members(json_view(*list));
    if !json_is_array(list) {
        return true;
    }
    let n = json_len(list);
    let mut i: usize = 0;
    while i < n
        invariant
            members == spec_members(json_view(*list)),
            json_view(*list) == spec_get(spec_get(json_view(*doc), "game"@), "mirrors"@),
            spec_top_strings(json_view(*doc)),
            n == members.len(),
            i <= n,
            forall|k: int| 0 <= k < i ==> {
                &&& (#[trigger] spec_as_str(spec_get(members[k], "name"@))) is Some
                &&& spec_as_str(spec_get(members[k], "url"@)) is Some
            },
        decreases n - i,
    {
        let m = json_at(list, i);
        if json_as_str(json_get(m, "name")).is_none() || json_as_str(json_get(m, "url")).is_none() {
            assert(!(spec_as_str(spec_get(members[i as int], "name"@)) is Some
                && spec_as_str(spec_get(members[i as int], "url"@)) is Some));
            return false;
        }
        i = i + 1;
    }
    true
}

} // verus!
