use renegadex_patcher::builder::PatcherBuilder;
use renegadex_patcher::error::Error;
use renegadex_patcher::mirrors::NamedUrl;
use renegadex_patcher::pausable::{PauseFlags, PollDecision};
use renegadex_patcher::state::Progress;
use renegadex_patcher::progress::{Progress as LegacyProgress, Update};

type Builder = PatcherBuilder<Box<dyn FnOnce() + Send>, Box<dyn FnOnce(Error) + Send>, Box<dyn Fn(&Progress) + Send>>;

#[test]
fn pause_resume_round_trip() {
    let mut f = PauseFlags::new();
    assert_eq!(f.poll_decision(), PollDecision::Run);
    assert_eq!(f.pause(), Ok(()));
    assert_eq!(f.pause(), Err(()));
    assert_eq!(f.poll_decision(), PollDecision::Wait);
    assert_eq!(f.resume(), Ok(()));
    assert_eq!(f, PauseFlags::new());
    assert_eq!(f.resume(), Err(()));
}

#[test]
fn cancellation_is_final() {
    let mut f = PauseFlags::new();
    assert_eq!(f.stop(), Ok(()));
    assert_eq!(f.stop(), Err(()));
    assert_eq!(f.pause(), Ok(()));
    assert_eq!(f.poll_decision(), PollDecision::Cancelled);
    assert_eq!(f.resume(), Ok(()));
    assert_eq!(f.poll_decision(), PollDecision::Cancelled);
}

#[test]
fn builder_collects_settings() {
    let mut b: Builder = PatcherBuilder::new();
    assert!(b.software_location.is_none());
    b.set_software_location("/game/".to_string())
        .set_software_information(
            vec![NamedUrl { name: "one".to_string(), url: "https://one/".to_string() }],
            "5.0".to_string(),
            "IH".to_string(),
        )
        .set_success_callback(Box::new(|| {}))
        .set_failure_callback(Box::new(|_e| {}))
        .set_progress_callback(Box::new(|_p| {}));
    assert_eq!(b.software_location.as_deref(), Some("/game/"));
    assert_eq!(b.version.as_deref(), Some("5.0"));
    assert_eq!(b.instructions_hash.as_deref(), Some("IH"));
    assert_eq!(b.mirrors.as_ref().map(|m| m.len()), Some(1));
    assert!(b.success_callback.is_some() && b.failure_callback.is_some() && b.progress_callback.is_some());
}

#[test]
fn progress_counters_wrap_and_undo() {
    let mut p = Progress::new();
    assert_eq!(p.get_current_action(), Ok(String::new()));
    assert_eq!(p.set_current_action("Patching".to_string()), Ok(()));
    assert_eq!(p.get_current_action(), Ok("Patching".to_string()));
    p.add_to_progress(u64::MAX);
    p.add_to_progress(5);
    assert_eq!(p.downloaded_bytes.0, 4);
    p.remove_from_progress(5);
    p.remove_from_progress(u64::MAX);
    assert_eq!(p.downloaded_bytes.0, 0);
    p.set_instructions_amount(3);
    p.increment_processed_instructions();
    assert_eq!(p.processed_instructions, (1, 3));
    p.add_download(10);
    p.increment_completed_downloads();
    assert_eq!(p.downloaded_files, (1, 1));
    assert_eq!(p.downloaded_bytes.1, 10);
    p.add_to_be_patched();
    p.add_ready_to_patch();
    p.increment_completed_patches();
    assert_eq!(p.patched_files, (1, 1, 1));
}

#[test]
fn legacy_progress_counts_bytes() {
    let mut p = LegacyProgress::new();
    assert_eq!(p.update, Update::Unknown);
    p.add_to_progress(100);
    p.remove_from_progress(40);
    assert_eq!(p.download_size, (60, 0));
    assert!(!p.finished_hash && !p.finished_patching);
}
