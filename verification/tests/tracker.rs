use renegadex_patcher::action::DownloadEntry;
use renegadex_patcher::error::Error;
use renegadex_patcher::parts::{classify_existing_file, parts_amount, parts_to_download, tracked_file_size, ExistingFile, PART_SIZE};
use renegadex_patcher::tracker::{part_bytes_ascending, DownloadTracker, PartsDecision, TrackerDecision};

fn entry(target: &str) -> DownloadEntry {
    DownloadEntry {
        mirror_path: "full/H".to_string(),
        download_path: "/game/patcher/F".to_string(),
        download_size: 3 * PART_SIZE,
        download_hash: "F".to_string(),
        target_path: target.to_string(),
        target_hash: "H".to_string(),
    }
}

#[test]
fn parts_cover_the_whole_fresh_file() {
    let size = 2 * PART_SIZE + 5;
    assert_eq!(parts_amount(size), 3);
    assert_eq!(parts_amount(2 * PART_SIZE), 2);
    assert_eq!(parts_amount(0), 0);
    assert_eq!(tracked_file_size(size), size + 3);
    let (parts, bytes) = parts_to_download(&"/game/patcher/F".to_string(), size, &vec![0, 0, 0]);
    assert_eq!(parts.len(), 3);
    assert_eq!(bytes, size);
    assert_eq!((parts[2].from, parts[2].to), (2 * PART_SIZE, size));
    assert_eq!(parts[2].part_byte, size + 2);
}

#[test]
fn completed_parts_are_not_downloaded_again() {
    let size = 2 * PART_SIZE + 5;
    let (parts, bytes) = parts_to_download(&"f".to_string(), size, &vec![1, 0, 1]);
    assert_eq!(parts.len(), 1);
    assert_eq!(parts[0].part_byte, size + 1);
    assert_eq!((parts[0].from, parts[0].to), (PART_SIZE, 2 * PART_SIZE));
    assert_eq!(bytes, PART_SIZE);
}

#[test]
fn existing_files_are_classified_by_length() {
    let size = 2 * PART_SIZE + 5;
    assert_eq!(classify_existing_file(size + 3, size), ExistingFile::InProgress);
    assert_eq!(classify_existing_file(size, size), ExistingFile::MaybeComplete);
    assert_eq!(classify_existing_file(17, size), ExistingFile::Resize);
}

#[test]
fn entries_wait_until_the_last_part_arrives() {
    let mut t = DownloadTracker::new();
    let loc = "/game/patcher/F".to_string();
    assert!(!t.is_tracked(&loc));
    let e = match t.on_download_action(entry("a")) {
        TrackerDecision::DetermineParts(e) => e,
        other => panic!("unexpected {:?}", other),
    };
    let size = 3 * PART_SIZE;
    let (parts, _) = parts_to_download(&loc, size, &vec![0, 0, 0]);
    assert!(part_bytes_ascending(&parts));
    match t.on_parts_determined(e, parts) {
        PartsDecision::Download(p) => assert_eq!(p.len(), 3),
        other => panic!("unexpected {:?}", other),
    }
    assert!(t.is_tracked(&loc));
    assert!(matches!(t.on_download_action(entry("b")), TrackerDecision::Queued));
    assert!(t.is_pending(&loc, size + 1));
    assert!(matches!(t.on_part_downloaded(&loc, size + 1), Ok(None)));
    assert!(!t.is_pending(&loc, size + 1));
    assert!(matches!(t.on_part_downloaded(&loc, size), Ok(None)));
    match t.on_part_downloaded(&loc, size + 2) {
        Ok(Some(waiting)) => {
            assert_eq!(waiting.len(), 2);
            assert_eq!(waiting[0].target_path, "a");
            assert_eq!(waiting[1].target_path, "b");
        }
        other => panic!("unexpected {:?}", other),
    }
    match t.on_download_action(entry("c")) {
        TrackerDecision::PatchNow(e) => assert_eq!(e.target_path, "c"),
        other => panic!("unexpected {:?}", other),
    }
}

#[test]
fn nothing_missing_patches_at_once() {
    let mut t = DownloadTracker::new();
    match t.on_parts_determined(entry("a"), Vec::new()) {
        PartsDecision::PatchNow(e) => assert_eq!(e.target_path, "a"),
        other => panic!("unexpected {:?}", other),
    }
    assert!(!t.is_tracked(&"/game/patcher/F".to_string()));
}

#[test]
fn parts_of_untracked_files_are_refused() {
    let mut t = DownloadTracker::new();
    assert!(matches!(t.on_part_downloaded(&"nowhere".to_string(), 3), Err(Error::Message(_))));
}
