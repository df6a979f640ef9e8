use renegadex_patcher::action::{Action, Effect};
use renegadex_patcher::error::Error;
use renegadex_patcher::instruction::Instruction;

fn instruction(previous: Option<&str>, newest: Option<&str>, delta: Option<&str>, full: Option<&str>, has_delta: bool) -> Instruction {
    Instruction {
        path: "Binaries/UDK.exe".to_string(),
        previous_hash: previous.map(|s| s.to_string()),
        newest_hash: newest.map(|s| s.to_string()),
        full_vcdiff_hash: full.map(|s| s.to_string()),
        delta_vcdiff_hash: delta.map(|s| s.to_string()),
        full_vcdiff_size: 100,
        delta_vcdiff_size: 10,
        has_delta,
    }
}

fn s(x: &str) -> Option<String> {
    Some(x.to_string())
}

const GAME: &str = "/game/";

#[test]
fn up_to_date_file_needs_nothing() {
    let i = instruction(s("OLD").as_deref(), Some("NEW"), None, Some("FULL"), false);
    assert!(i.needs_path_hash(true));
    assert!(!i.needs_backup_hash(true, &s("NEW"), true));
    let plan = i.determine_action(&GAME.to_string(), true, &s("NEW"), false, &None);
    assert!(plan.effects.is_empty());
    assert!(matches!(plan.result, Ok(Action::Nothing)));
    let plan = i.determine_action(&GAME.to_string(), true, &s("NEW"), true, &None);
    match plan.result {
        Ok(Action::Delete(p)) => assert_eq!(p, "/game/Binaries/UDK.exe.bck"),
        other => panic!("unexpected {:?}", other),
    }
}

#[test]
fn removed_file_is_deleted() {
    let i = instruction(Some("OLD"), None, None, None, false);
    assert!(!i.needs_path_hash(true));
    let plan = i.determine_action(&GAME.to_string(), true, &None, true, &None);
    assert_eq!(plan.effects.len(), 1);
    assert!(matches!(&plan.effects[0], Effect::DeleteFile(p) if p == "/game/Binaries/UDK.exe.bck"));
    assert!(matches!(plan.result, Ok(Action::Delete(ref p)) if p == "/game/Binaries/UDK.exe"));
    let plan = i.determine_action(&GAME.to_string(), false, &None, false, &None);
    assert!(matches!(plan.result, Ok(Action::Nothing)));
}

#[test]
fn good_backup_is_restored() {
    let i = instruction(Some("OLD"), Some("NEW"), None, Some("FULL"), false);
    assert!(i.needs_backup_hash(true, &s("BROKEN"), true));
    let plan = i.determine_action(&GAME.to_string(), true, &s("BROKEN"), true, &s("NEW"));
    assert!(matches!(&plan.effects[..], [Effect::RestoreBackup(p)] if p == "/game/Binaries/UDK.exe"));
    assert!(matches!(plan.result, Ok(Action::Nothing)));
}

#[test]
fn previous_version_gets_a_delta() {
    let i = instruction(Some("OLD"), Some("NEW"), Some("DELTA"), Some("FULL"), true);
    let plan = i.determine_action(&GAME.to_string(), true, &s("OLD"), false, &None);
    match plan.result {
        Ok(Action::Download(e)) => {
            assert_eq!(e.mirror_path, "delta/NEW_from_OLD");
            assert_eq!(e.download_path, "/game/patcher/DELTA");
            assert_eq!(e.download_size, 10);
            assert_eq!(e.download_hash, "DELTA");
            assert_eq!(e.target_path, "/game/Binaries/UDK.exe");
            assert_eq!(e.target_hash, "NEW");
        }
        other => panic!("unexpected {:?}", other),
    }
}

#[test]
fn unknown_version_gets_the_full_file() {
    let i = instruction(Some("OLD"), Some("NEW"), Some("DELTA"), Some("FULL"), true);
    let plan = i.determine_action(&GAME.to_string(), true, &s("OTHER"), false, &None);
    assert!(matches!(&plan.effects[..], [Effect::DeleteFile(p)] if p == "/game/Binaries/UDK.exe"));
    match plan.result {
        Ok(Action::Download(e)) => {
            assert_eq!(e.mirror_path, "full/NEW");
            assert_eq!(e.download_path, "/game/patcher/FULL");
            assert_eq!(e.download_size, 100);
        }
        other => panic!("unexpected {:?}", other),
    }
}

#[test]
fn missing_patch_hashes_are_errors() {
    let i = instruction(Some("OLD"), Some("NEW"), None, Some("FULL"), true);
    let plan = i.determine_action(&GAME.to_string(), true, &s("OLD"), false, &None);
    assert_eq!(
        plan.result.unwrap_err(),
        Error::Message("Expected instruction to have delta_vcdiff_hash, however there was None: Binaries/UDK.exe".to_string())
    );
    let i = instruction(None, Some("NEW"), None, None, false);
    let plan = i.determine_action(&GAME.to_string(), false, &None, false, &None);
    assert_eq!(
        plan.result.unwrap_err(),
        Error::Message("Expected instruction to have full_vcdiff_hash, however there was None: Binaries/UDK.exe".to_string())
    );
}
