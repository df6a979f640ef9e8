use vstd::prelude::*;
use crate::error::Error;
use crate::mirrors::Mirrors;
use crate::text::{concat, owned, push_char};

verus! {

/// What an installation needs, as found on disk.
#[derive(Debug, Clone, Copy, PartialEq, Eq)]
pub enum GameState {
    /// An interrupted patch left files behind: resume it
    Resume,
    /// No configuration: everything has to be downloaded
    Full,
    /// Another version is installed: a delta patch applies
    Delta,
    /// The installed version is the current one
    UpToDate,
}

#[verifier::external_type_specification]
#[verifier::external_body]
pub struct ExIni(ini::Ini);

#[verifier::external_type_specification]
#[verifier::external_body]
pub struct ExProperties(ini::Properties);

/// The sections an `ini::Ini` holds, in file order: each section's name
/// (none for the general section) and its key/value pairs in file order.
pub uninterp spec fn ini_sections(conf: ini::Ini) -> Seq<(Option<Seq<char>>, Seq<(Seq<char>, Seq<char>)>)>;

/// The key/value pairs an `ini::Properties` holds, in file order.
pub uninterp spec fn ini_properties(p: ini::Properties) -> Seq<(Seq<char>, Seq<char>)>;

/// `i` is the first section named `name`.
pub open spec fn spec_is_first_section(
    sections: Seq<(Option<Seq<char>>, Seq<(Seq<char>, Seq<char>)>)>,
    name: Option<Seq<char>>,
    i: int,
) -> bool {
    &&& 0 <= i < sections.len()
    &&& sections[i].0 == name
    &&& forall|j: int| 0 <= j < i ==> sections[j].0 != name
}

/// The position of the first section named `name`, if any.
pub open spec fn spec_section(
    sections: Seq<(Option<Seq<char>>, Seq<(Seq<char>, Seq<char>)>)>,
    name: Option<Seq<char>>,
) -> Option<int> {
    if exists|i: int| spec_is_first_section(sections, name, i) {
        Some(choose|i: int| spec_is_first_section(sections, name, i))
    } else {
        None
    }
}

/// `i` is the first property with key `key`.
pub open spec fn spec_is_first_property(properties: Seq<(Seq<char>, Seq<char>)>, key: Seq<char>, i: int) -> bool {
    &&& 0 <= i < properties.len()
    &&& properties[i].0 == key
    &&& forall|j: int| 0 <= j < i ==> properties[j].0 != key
}

/// The value of the first property with key `key`, if any.
pub open spec fn spec_property(properties: Seq<(Seq<char>, Seq<char>)>, key: Seq<char>) -> Option<Seq<char>> {
    if exists|i: int| spec_is_first_property(properties, key, i) {
        Some(properties[choose|i: int| spec_is_first_property(properties, key, i)].1)
    } else {
        None
    }
}

/// `Ini::section` of rust-ini: the first section named `name` (sections of
/// the same name are kept apart, in file order, and the first is found).
#[verifier::external_body]
fn ini_section<'a>(conf: &'a ini::Ini, name: Option<&str>) -> (r: Option<&'a ini::Properties>)
    ensures
        match spec_section(ini_sections(*conf), match name { Some(n) => Some(n@), None => None }) {
            Some(i) => r matches Some(p) && ini_properties(*p) == ini_sections(*conf)[i].1,
            None => r is None,
        },
{
    conf.section(name)
}

/// `Properties::get` of rust-ini: the value of the first pair with key `key`.
#[verifier::external_body]
fn ini_get(p: &ini::Properties, key: &str) -> (r: Option<String>)
    ensures
        r.deep_view() == spec_property(ini_properties(*p), key@),
{
    p.get(key).map(|v| v.to_string())
}

/// The sections that rust-ini's `Ini::load_from_str` reads from `text`, or
/// `None` when it refuses the text.
pub uninterp spec fn ini_parse_result(text: Seq<char>) -> Option<Seq<(Option<Seq<char>>, Seq<(Seq<char>, Seq<char>)>)>>;

/// `Ini::load_from_str` of rust-ini (default options): the configuration
/// `text` holds, or `None` where the parser returns an error.
#[verifier::external_body]
fn ini_load_from_str(text: &str) -> (r: Option<ini::Ini>)
    ensures
        (r is Some) == (ini_parse_result(text@) is Some),
        r matches Some(c) ==> ini_sections(c) == ini_parse_result(text@)->0,
{
    ini::Ini::load_from_str(text).ok()
}

/// `text` without a leading byte order mark, which a configuration file may
/// start with.
pub open spec fn spec_without_bom(text: Seq<char>) -> Seq<char> {
    if text.len() > 0 && text[0] == '\u{FEFF}' { text.drop_first() } else { text }
}

/// Reads the text of a configuration file as `Ini::load_from_file` reads the
/// file: a leading byte order mark is skipped and the rest is parsed; `None`
/// where the parser refuses it.
pub fn load_config_text(text: &String) -> (r: Option<ini::Ini>)
    ensures
        (r is Some) == (ini_parse_result(spec_without_bom(text@)) is Some),
        r matches Some(c) ==> ini_sections(c) == ini_parse_result(spec_without_bom(text@))->0,
{
    let cs = chars_of(text.as_str());
    if cs.len() > 0 && cs[0] == '\u{FEFF}' {
        let mut rest = String::new();
        let mut i: usize = 1;
        proof { assert(rest@ =~= cs@.subrange(1, 1)); }
        while i < cs.len()
            invariant
                1 <= i <= cs@.len(),
                rest@ == cs@.subrange(1, i as int),
            decreases cs.len() - i,
        {
            push_char(&mut rest, cs[i]);
            proof { assert(rest@ =~= cs@.subrange(1, i + 1)); }
            i = i + 1;
        }
        proof { assert(rest@ =~= text@.drop_first()); }
        ini_load_from_str(rest.as_str())
    } else {
        ini_load_from_str(text.as_str())
    }
}

/// What `get_game_state` answers, over the mathematical values of its inputs.
///
/// `patch_dir_entries` is the number of entries in the patcher directory
/// (none if it cannot be read), `config` the parsed configuration file (none
/// if it cannot be loaded), `version_number` the version the mirrors serve.
pub open spec fn spec_game_state(
    no_mirrors: bool,
    version_number: Option<Seq<char>>,
    patch_dir_entries: Option<nat>,
    config: Option<Seq<(Option<Seq<char>>, Seq<(Seq<char>, Seq<char>)>)>>,
) -> Result<GameState, Seq<char>> {
    if no_mirrors {
        Err(Seq::empty())
    } else if patch_dir_entries matches Some(n) && n != 0 {
        Ok(GameState::Resume)
    } else {
        match config {
            None => Ok(GameState::Full),
            Some(c) => match spec_section(c, Some("RenX_Game.Rx_Game"@)) {
                None => Err("No Configuration section named \"RenX_Game.Rx_Game\""@),
                Some(i) => match spec_property(c[i].1, "GameVersionNumber"@) {
                    None => Err("No key in section \"RenX_Game.Rx_Game\"  named \"GameVersionNumber\""@),
                    Some(installed) => match version_number {
                        None => Err("Version Number in mirrors missing"@),
                        Some(v) => Ok(if v != installed { GameState::Delta } else { GameState::UpToDate }),
                    },
                },
            },
        }
    }
}

/// Decides the state of an installation from what was found on disk.
///
/// No mirrors is `NoMirrors`; a non-empty patcher directory means an
/// interrupted patch; no configuration means a full download; otherwise the
/// installed version is compared with the one the mirrors serve.
pub fn get_game_state(
    mirrors: &Mirrors,
    version_number: Option<&String>,
    patch_dir_entries: Option<usize>,
    config: Option<&ini::Ini>,
) -> (r: Result<GameState, Error>)
    ensures
        ({
            let expected = spec_game_state(
                mirrors@.len() == 0,
                match version_number { Some(v) => Some(v@), None => None },
                match patch_dir_entries { Some(n) => Some(n as nat), None => None },
                match config { Some(c) => Some(ini_sections(*c)), None => None },
            );
            match expected {
                Ok(state) => r == Ok::<GameState, Error>(state),
                Err(message) => if mirrors@.len() == 0 {
                    r == Err::<GameState, Error>(Error::NoMirrors())
                } else {
                    r matches Err(Error::Message(m)) && m@ == message
                },
            }
        }),
{
    if mirrors.is_empty() {
        return Err(Error::NoMirrors());
    }
    match patch_dir_entries {
        Some(n) => if n != 0 {
            return Ok(GameState::Resume);
        },
        None => {},
    }
    let conf = match config {
        Some(c) => c,
        None => return Ok(GameState::Full),
    };
    let section = match ini_section(conf, Some("RenX_Game.Rx_Game")) {
        Some(s) => s,
        None => return Err(Error::Message(owned("No Configuration section named \"RenX_Game.Rx_Game\""))),
    };
    let installed = match ini_get(section, "GameVersionNumber") {
        Some(v) => v,
        None => return Err(Error::Message(owned("No key in section \"RenX_Game.Rx_Game\"  named \"GameVersionNumber\""))),
    };
    let served = match version_number {
        Some(v) => v,
        None => return Err(Error::Message(owned("Version Number in mirrors missing"))),
    };
    if !served.eq(&installed) {
        Ok(GameState::Delta)
    } else {
        Ok(GameState::UpToDate)
    }
}

/// `s` with each `//` (taken left to right) turned into `/`.
pub open spec fn spec_collapse_slashes(s: Seq<char>) -> Seq<char>
    decreases s.len(),
{
    if s.len() < 2 {
        s
    } else if s[0] == '/' && s[1] == '/' {
        seq!['/'] + spec_collapse_slashes(s.skip(2))
    } else {
        seq![s[0]] + spec_collapse_slashes(s.skip(1))
    }
}

/// The characters of `s`.
fn chars_of(s: &str) -> (r: Vec<char>)
    ensures
        r@ == s@,
{
    let mut r: Vec<char> = Vec::new();
    for c in it: s.chars()
        invariant
            it.seq() == s@,
            r@ == s@.subrange(0, it.index() as int),
    {
        r.push(c);
        proof { assert(r@ =~= s@.subrange(0, it.index() + 1)); }
    }
    proof { assert(s@.subrange(0, s@.len() as int) =~= s@); }
    r
}

/// `s` with each `//` turned into `/`, as `str::replace` does it.
pub fn collapse_slashes(s: &str) -> (r: String)
    ensures
        r@ == spec_collapse_slashes(s@),
{
    let cs = chars_of(s);
    let mut r = String::new();
    let mut i: usize = 0;
    proof {
        assert(cs@.skip(0) =~= cs@);
        assert(r@ + spec_collapse_slashes(cs@) =~= spec_collapse_slashes(cs@));
    }
    while i < cs.len()
        invariant
            i <= cs.len(),
            cs@ == s@,
            r@ + spec_collapse_slashes(cs@.skip(i as int)) == spec_collapse_slashes(cs@),
        decreases cs.len() - i,
    {
        let ghost rest = cs@.skip(i as int);
        let ghost before = r@;
        if i + 1 < cs.len() && cs[i] == '/' && cs[i + 1] == '/' {
            push_char(&mut r, '/');
            proof {
                assert(rest.skip(2) =~= cs@.skip(i + 2));
                assert(before + (seq!['/'] + spec_collapse_slashes(rest.skip(2)))
                    =~= r@ + spec_collapse_slashes(cs@.skip(i + 2)));
            }
            i = i + 2;
        } else {
            push_char(&mut r, cs[i]);
            proof {
                assert(rest.skip(1) =~= cs@.skip(i + 1));
                if rest.len() < 2 {
                    assert(rest =~= seq![cs@[i as int]]);
                    assert(cs@.skip(i + 1) =~= Seq::<char>::empty());
                    assert(spec_collapse_slashes(cs@.skip(i + 1)) =~= Seq::<char>::empty());
                    assert(before + rest =~= r@ + spec_collapse_slashes(cs@.skip(i + 1)));
                } else {
                    assert(before + (seq![rest[0]] + spec_collapse_slashes(rest.skip(1)))
                        =~= r@ + spec_collapse_slashes(cs@.skip(i + 1)));
                }
            }
            i = i + 1;
        }
    }
    proof {
        assert(cs@.skip(i as int) =~= Seq::<char>::empty());
        assert(r@ + Seq::<char>::empty() =~= r@);
    }
    r
}

/// The directory that holds the files of an interrupted patch.
pub fn patch_dir_path(renegadex_location: &String) -> (r: String)
    ensures
        r@ == spec_collapse_slashes(renegadex_location@ + "/patcher/"@),
{
    let joined = concat(renegadex_location, "/patcher/");
    collapse_slashes(joined.as_str())
}

/// The configuration file that records the installed version.
pub fn config_path(renegadex_location: &String) -> (r: String)
    ensures
        r@ == renegadex_location@ + "/UDKGame/Config/DefaultRenegadeX.ini"@,
{
    concat(renegadex_location, "/UDKGame/Config/DefaultRenegadeX.ini")
}

} // verus!
