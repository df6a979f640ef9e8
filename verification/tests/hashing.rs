use renegadex_patcher::error::Error;
use renegadex_patcher::fetch::{instructions_step, InstructionsStep, INSTRUCTIONS_ATTEMPTS};
use renegadex_patcher::hash::{encode_upper, sha256_hex, FileHasher};

const ABC_SHA256: &str = "BA7816BF8F01CFEA414140DE5DAE2223B00361A396177A9CB410FF61F20015AD";

#[test]
fn sha256_of_a_known_vector() {
    assert_eq!(sha256_hex(b"abc"), ABC_SHA256);
    assert_eq!(
        sha256_hex(b""),
        "E3B0C44298FC1C149AFBF4C8996FB92427AE41E4649B934CA495991B7852B855"
    );
}

#[test]
fn hashing_in_pieces_equals_hashing_at_once() {
    let mut h = FileHasher::new();
    h.update(b"a");
    h.update(b"bc");
    assert_eq!(h.finish(), ABC_SHA256);
}

#[test]
fn hex_is_upper_case_two_digits_per_byte() {
    assert_eq!(encode_upper(&[0x00, 0x0f, 0xa5, 0xff]), "000FA5FF");
    assert_eq!(encode_upper(&[]), "");
}

#[test]
fn instructions_with_the_announced_hash_are_accepted() {
    match instructions_step(0, b"abc", &ABC_SHA256.to_string()) {
        InstructionsStep::Accept(text) => assert_eq!(text, "abc"),
        other => panic!("unexpected {:?}", other),
    }
}

#[test]
fn a_wrong_hash_tries_another_mirror_then_gives_up() {
    let wrong = "00".to_string();
    assert!(matches!(instructions_step(0, b"abc", &wrong), InstructionsStep::TryAnotherMirror));
    assert!(matches!(instructions_step(1, b"abc", &wrong), InstructionsStep::TryAnotherMirror));
    assert!(matches!(
        instructions_step(INSTRUCTIONS_ATTEMPTS - 1, b"abc", &wrong),
        InstructionsStep::Fail(Error::OutOfRetries(ref m)) if m == "Couldn't fetch instructions.json"
    ));
}

#[test]
fn accepted_instructions_must_be_utf8() {
    let body: &[u8] = &[0xff, 0xfe];
    let hash = sha256_hex(body);
    assert!(matches!(instructions_step(0, body, &hash), InstructionsStep::Fail(Error::NotUtf8())));
}
