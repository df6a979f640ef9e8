use renegadex_patcher::error::Error;
use renegadex_patcher::patching::{check_patched_hash, expect_partial_content, patch_directory, range_header, vcdiff_source_path};

#[test]
fn patched_files_go_to_their_directory() {
    assert_eq!(patch_directory(&"/game/Binaries/UDK.exe".to_string()), Ok("/game/Binaries".to_string()));
    assert_eq!(patch_directory(&"/x".to_string()), Ok("".to_string()));
    assert!(matches!(patch_directory(&"UDK.exe".to_string()), Err(Error::Message(_))));
}

#[test]
fn delta_sources_are_set_aside() {
    assert_eq!(vcdiff_source_path(&"/game/a.dll".to_string()), "/game/a.dll.vcdiff_src");
}

#[test]
fn patched_hash_must_match() {
    assert_eq!(check_patched_hash(&"p".to_string(), &"A".to_string(), &"A".to_string()), Ok(()));
    assert_eq!(
        check_patched_hash(&"p".to_string(), &"A".to_string(), &"B".to_string()),
        Err(Error::HashMismatch("p".to_string(), "A".to_string(), "B".to_string()))
    );
}

#[test]
fn ranges_are_written_in_decimal() {
    assert_eq!(range_header(0, 1048575), "bytes=0-1048575");
    assert_eq!(range_header(1048576, 2000000), "bytes=1048576-2000000");
}

#[test]
fn parts_must_come_back_partial() {
    assert_eq!(expect_partial_content(206, &"Partial Content".to_string()), Ok(()));
    assert_eq!(
        expect_partial_content(200, &"OK".to_string()),
        Err(Error::InvalidStatus("OK".to_string()))
    );
}
