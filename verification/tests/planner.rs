use renegadex_patcher::instruction::Instruction;
use renegadex_patcher::planner::Planner;

fn instruction(path: &str, newest: Option<&str>, full: Option<&str>, size: usize) -> Instruction {
    Instruction {
        path: path.to_string(),
        previous_hash: None,
        newest_hash: newest.map(|s| s.to_string()),
        full_vcdiff_hash: full.map(|s| s.to_string()),
        delta_vcdiff_hash: None,
        full_vcdiff_size: size,
        delta_vcdiff_size: 0,
        has_delta: false,
    }
}

#[test]
fn opened_files_are_queued_for_a_hash_check() {
    let mut p = Planner::new("/game/".to_string());
    p.process_instruction(&instruction("a", Some("H1"), Some("F1"), 10), true);
    p.process_instruction(&instruction("b", None, None, 0), true);
    assert_eq!(p.hash_queue_len(), 1);
    assert_eq!(p.download_count(), 0);
    assert_eq!(p.state().hashes_checked, (0, 1));
}

#[test]
fn missing_files_wait_for_one_download_per_hash() {
    let mut p = Planner::new("/game/".to_string());
    p.process_instruction(&instruction("a", Some("H1"), Some("F1"), 10), false);
    p.process_instruction(&instruction("b", Some("H1"), Some("F1"), 10), false);
    p.process_instruction(&instruction("c", Some("H2"), Some("F2"), 7), false);
    p.process_instruction(&instruction("gone", None, None, 0), false);
    assert_eq!(p.download_count(), 2);
    let (hash, entry) = p.download(0);
    assert_eq!(hash, "H1");
    assert_eq!(entry.file_path(), "/game/patcher/H1");
    assert_eq!(entry.file_hash(), "F1");
    assert_eq!(entry.file_size(), 10);
    assert_eq!(entry.patch_entries().len(), 2);
    assert_eq!(entry.patch_entries()[1].target_path, "b");
    assert_eq!(entry.patch_entries()[1].delta_path, "/game/patcher/H1");
    assert_eq!(entry.patch_entries()[1].target_hash, "H1");
    assert!(!entry.patch_entries()[1].has_source);
    let state = p.state();
    assert_eq!(state.download_size, (0, 17));
    assert_eq!(state.patch_files, (0, 3));
    assert_eq!(p.hash_queue_len(), 0);
}
