use renegadex_patcher::error::Error;
use renegadex_patcher::instruction::{Instruction, InstructionGroup};
use renegadex_patcher::parse::{parse_instructions, try_parse_instructions};

const SAMPLE: &str = r#"[
  {"Path": "Binaries\\Win64\\UDK.exe", "OldHash": "AA", "NewHash": "BB", "CompressedHash": "CC",
   "DeltaHash": "DD", "FullReplaceSize": 100, "DeltaSize": 10, "HasDelta": true},
  {"Path": "UDKGame\\Config\\New.ini", "OldHash": null, "NewHash": "EE", "CompressedHash": "FF",
   "DeltaHash": null, "FullReplaceSize": 20, "DeltaSize": 0, "HasDelta": false},
  {"Path": "UDKGame\\Old.upk", "OldHash": "EE", "NewHash": null, "CompressedHash": null,
   "DeltaHash": null, "FullReplaceSize": 0, "DeltaSize": 0, "HasDelta": false},
  {"Path": "UDKGame\\Copy.ini", "OldHash": null, "NewHash": "EE", "CompressedHash": "FF",
   "DeltaHash": null, "FullReplaceSize": 20, "DeltaSize": 0, "HasDelta": false}
]"#;

fn groups_by<F: Fn(&Instruction) -> String>(instructions: &[Instruction], key: F) -> Vec<Vec<&Instruction>> {
    let mut keys: Vec<String> = Vec::new();
    let mut groups: Vec<Vec<&Instruction>> = Vec::new();
    for i in instructions {
        let k = key(i);
        match keys.iter().position(|x| *x == k) {
            Some(p) => groups[p].push(i),
            None => {
                keys.push(k);
                groups.push(vec![i]);
            }
        }
    }
    groups
}

#[test]
fn parse_instructions_myTest() {
    let instructions = parse_instructions(&SAMPLE.to_string()).expect("the sample is valid");
    let newest_hash_groups: Vec<Vec<&Instruction>> =
        groups_by(&instructions, |a| a.newest_hash.clone().unwrap_or_default())
            .into_iter()
            .filter(|g| g.len() > 1)
            .collect();
    let previous_hash_groups: Vec<Vec<&Instruction>> =
        groups_by(&instructions, |a| a.previous_hash.clone().unwrap_or_default())
            .into_iter()
            .filter(|g| g.len() > 1)
            .collect();
    let new_files: Vec<&Instruction> = instructions.iter().filter(|i| i.previous_hash.is_none()).collect();
    let deleted_files: Vec<&Instruction> = instructions.iter().filter(|i| i.newest_hash.is_none()).collect();
    let moved_files: Vec<&&Instruction> = new_files
        .iter()
        .filter(|i| {
            let hash = i.newest_hash.as_ref().unwrap();
            deleted_files.iter().any(|d| d.previous_hash.as_ref().unwrap() == hash)
        })
        .collect();
    assert_eq!(instructions.len(), 4);
    assert_eq!(newest_hash_groups.len(), 1);
    assert_eq!(previous_hash_groups.len(), 1);
    assert_eq!(new_files.len(), 2);
    assert_eq!(deleted_files.len(), 1);
    assert_eq!(moved_files.len(), 2);
}

#[test]
fn parse_instructions_reads_every_field() {
    let instructions = parse_instructions(&SAMPLE.to_string()).unwrap();
    let first = &instructions[0];
    assert_eq!(first.path, "Binaries/Win64/UDK.exe");
    assert_eq!(first.previous_hash.as_deref(), Some("AA"));
    assert_eq!(first.newest_hash.as_deref(), Some("BB"));
    assert_eq!(first.full_vcdiff_hash.as_deref(), Some("CC"));
    assert_eq!(first.delta_vcdiff_hash.as_deref(), Some("DD"));
    assert_eq!(first.full_vcdiff_size, 100);
    assert_eq!(first.delta_vcdiff_size, 10);
    assert!(first.has_delta);
    assert_eq!(instructions[2].newest_hash, None);
}

#[test]
fn parse_instructions_rejects_invalid_json() {
    let text = "not json".to_string();
    match parse_instructions(&text) {
        Err(Error::InvalidJson(name, contents)) => {
            assert_eq!(name, "instructions.json");
            assert_eq!(contents, "not json");
        }
        other => panic!("unexpected: {:?}", other),
    }
}

#[test]
fn parse_instructions_skips_entries_with_bad_sizes() {
    let text = r#"[
      {"Path": "a", "OldHash": null, "NewHash": "X", "CompressedHash": "Y", "DeltaHash": null,
       "FullReplaceSize": "big", "DeltaSize": 0, "HasDelta": false},
      {"Path": "b", "OldHash": null, "NewHash": "X", "CompressedHash": "Y", "DeltaHash": null,
       "FullReplaceSize": 5, "DeltaSize": 0, "HasDelta": false}
    ]"#
    .to_string();
    let instructions = parse_instructions(&text).unwrap();
    assert_eq!(instructions.len(), 1);
    assert_eq!(instructions[0].path, "b");
}

#[test]
fn try_parse_instructions_parses_valid_documents() {
    let r = try_parse_instructions(&SAMPLE.to_string());
    match r {
        Some(Ok(v)) => assert_eq!(v.len(), 4),
        other => panic!("unexpected: {:?}", other.map(|x| x.map(|v| v.len()))),
    }
}

#[test]
fn instruction_group_starts_empty() {
    let g = InstructionGroup::new();
    assert!(g.hash.is_none());
    assert!(g.instructions.is_empty());
}

fn with_fraction_zeros(zeros: usize) -> String {
    format!("[{{\"Path\": \"a\", \"FullReplaceSize\": 1, \"DeltaSize\": 0, \"HasDelta\": false, \"X\": 0.{}}}]", "0".repeat(zeros))
}

#[test]
fn fractions_within_the_parser_limit_are_read() {
    let text = with_fraction_zeros(32768);
    assert!(renegadex_patcher::json::fractions_fit(&text));
    let parsed = try_parse_instructions(&text).unwrap().unwrap();
    assert_eq!(parsed.len(), 1);
    assert_eq!(parsed[0].path, "a");
}

#[test]
fn fractions_beyond_the_parser_limit_are_refused() {
    let text = with_fraction_zeros(32769);
    assert!(!renegadex_patcher::json::fractions_fit(&text));
    assert!(try_parse_instructions(&text).is_none());
    assert!(renegadex_patcher::json::fractions_fit("[1.5, \"x\", 2.25e3]"));
}

#[test]
fn a_point_inside_a_string_is_not_a_fraction() {
    let path = format!("v5.{}\\\"9.{}", "0".repeat(40000), "0".repeat(40000));
    let text = format!("[{{\"Path\": \"{}\", \"FullReplaceSize\": 1, \"DeltaSize\": 0, \"HasDelta\": false}}]", path);
    assert!(renegadex_patcher::json::fractions_fit(&text));
    let parsed = try_parse_instructions(&text).unwrap().unwrap();
    assert_eq!(parsed.len(), 1);
    assert_eq!(parsed[0].path.len(), path.len() - 1);
}
