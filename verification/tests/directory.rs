use renegadex_patcher::directory::{instructions_to_directory_info, is_prefix, Directory};
use renegadex_patcher::error::Error;
use renegadex_patcher::instruction::Instruction;
use renegadex_patcher::paths::{components, segments};

fn instruction(path: &str, newest: Option<&str>) -> Instruction {
    Instruction {
        path: path.to_string(),
        previous_hash: None,
        newest_hash: newest.map(|s| s.to_string()),
        full_vcdiff_hash: None,
        delta_vcdiff_hash: None,
        full_vcdiff_size: 0,
        delta_vcdiff_size: 0,
        has_delta: false,
    }
}

fn parts(p: &str) -> Vec<String> {
    p.split('/').map(|s| s.to_string()).collect()
}

#[test]
fn components_follow_std_path() {
    assert_eq!(components("/game/Binaries//x.dll"), vec!["/", "game", "Binaries", "x.dll"]);
    assert_eq!(components("./a/./b/"), vec![".", "a", "b"]);
    assert_eq!(components("a/../b"), vec!["a", "..", "b"]);
    assert_eq!(segments("a//b/"), vec!["a", "", "b", ""]);
}

#[test]
fn versioned_tree_holds_kept_files() {
    let instructions = vec![
        instruction("/game/Binaries/Win64/UDK.exe", Some("A")),
        instruction("/game/UDKGame/Old.upk", None),
        instruction("/game/readme.txt", Some("B")),
    ];
    let d = instructions_to_directory_info(&instructions, &"/game".to_string()).unwrap();
    assert!(d.directory_exists(&parts("Binaries/Win64")));
    assert!(d.directory_exists(&parts("Binaries")));
    assert!(d.directory_exists(&parts("UDKGame")));
    assert!(!d.directory_exists(&parts("Other")));
    assert_eq!(d.file_exists(&parts("Binaries/Win64/UDK.exe")), Ok(true));
    assert_eq!(d.file_exists(&parts("UDKGame/Old.upk")), Ok(false));
    assert_eq!(d.file_exists(&parts("readme.txt")), Ok(true));
    assert_eq!(d.file_exists(&parts("UDKGame/InstallInfo.xml")), Ok(true));
    assert!(matches!(d.file_exists(&vec![]), Err(Error::Message(_))));
    assert!(matches!(d.file_exists(&parts("a/..")), Err(Error::Message(_))));
    let bin = d.get_subdirectory(&"Binaries".to_string()).unwrap();
    assert!(bin.get_subdirectory(&"Win64".to_string()).is_some());
}

#[test]
fn instructions_outside_the_root_are_refused() {
    let instructions = vec![instruction("/elsewhere/x", Some("A"))];
    assert!(matches!(instructions_to_directory_info(&instructions, &"/game".to_string()), Err(Error::StripPrefix())));
}

#[test]
fn prefixes_compare_whole_components() {
    assert!(is_prefix(&parts("a/b"), &parts("a/b/c")));
    assert!(!is_prefix(&parts("a/bc"), &parts("a/b/c")));
    assert!(!is_prefix(&parts("a/b/c/d"), &parts("a/b/c")));
    let d = Directory::with_name("x".to_string());
    assert!(d.get_subdirectory(&"y".to_string()).is_none());
    assert!(Directory::new().directory_exists(&vec![]));
}

#[test]
fn subdirectories_are_created_once() {
    let mut d = Directory::new();
    {
        let a = d.get_or_create_subdirectory("a".to_string());
        a.get_or_create_subdirectory("b".to_string());
    }
    assert!(d.directory_exists(&parts("a/b")));
    assert!(!d.directory_exists(&parts("b")));
    {
        let a = d.get_or_create_subdirectory("a".to_string());
        assert!(a.get_subdirectory(&"b".to_string()).is_some());
        a.get_or_create_subdirectory("c".to_string());
    }
    assert!(d.directory_exists(&parts("a/b")));
    assert!(d.directory_exists(&parts("a/c")));
}
