use renegadex_patcher::error::Error;
use renegadex_patcher::version::VersionInformation;

const RELEASE: &str = r#"{
  "launcher": {"version_name": "0.87", "patch_url": "https://x/launcher", "patch_hash": "LH"},
  "game": {
    "version_name": "Open Beta 5.0", "patch_path": "5.0.1234", "version_number": 5001234,
    "instructions_hash": "IH",
    "mirrors": [{"name": "one", "url": "https://one/"}, {"name": "two", "url": "https://two/"}]
  }
}"#;

#[test]
fn release_json_is_read() {
    let info = VersionInformation::parse(&RELEASE.to_string()).unwrap().unwrap();
    assert_eq!(info.launcher.version, "0.87");
    assert_eq!(info.launcher.url, "https://x/launcher");
    assert_eq!(info.launcher.hash, "LH");
    assert_eq!(info.software.name, "Open Beta 5.0");
    assert_eq!(info.software.version, "5.0.1234");
    assert_eq!(info.software.version_number, 5001234);
    assert_eq!(info.software.instructions_hash, "IH");
    assert_eq!(info.software.mirrors.len(), 2);
    assert_eq!(info.software.mirrors[1].name, "two");
    assert_eq!(info.software.mirrors[1].url, "https://two/");
}

#[test]
fn a_fractional_version_number_is_an_error() {
    let text = RELEASE.replace("5001234", "5.5");
    assert!(matches!(VersionInformation::parse(&text), Some(Err(Error::Message(_)))));
}

#[test]
fn text_that_is_not_json_is_a_json_error() {
    assert!(matches!(VersionInformation::parse(&"{".to_string()), Some(Err(Error::JsonError(_)))));
}

#[test]
fn a_missing_string_field_cannot_be_read() {
    let text = RELEASE.replace("\"instructions_hash\": \"IH\",", "");
    assert!(VersionInformation::parse(&text).is_none());
}

#[test]
fn a_release_with_an_overlong_fraction_cannot_be_read() {
    let text = RELEASE.replace("5001234", &format!("0.{}", "0".repeat(40000)));
    assert!(VersionInformation::parse(&text).is_none());
}

#[test]
fn a_bad_version_number_is_reported_before_a_missing_hash() {
    let text = RELEASE.replace("5001234", "-3").replace("\"instructions_hash\": \"IH\",", "");
    assert!(matches!(VersionInformation::parse(&text), Some(Err(Error::Message(_)))));
}

#[test]
fn a_missing_launcher_field_cannot_be_read_whatever_the_version() {
    let text = RELEASE.replace("5001234", "-3").replace("\"patch_hash\": \"LH\"", "\"patch_hash\": 7");
    assert!(VersionInformation::parse(&text).is_none());
}

#[test]
fn a_long_fraction_inside_a_string_is_read() {
    let text = RELEASE.replace("Open Beta 5.0", &format!("Open Beta 5.{}", "0".repeat(40000)));
    assert!(renegadex_patcher::json::fractions_fit(&text));
    let info = VersionInformation::parse(&text).unwrap().unwrap();
    assert_eq!(info.software.name.len(), "Open Beta 5.".len() + 40000);
}
