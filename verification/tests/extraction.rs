use superxtractor::hwinfo::{hw_info_from_text, ip_addresses_from_text, HwInfo};
use superxtractor::pattern::Pattern;
use superxtractor::superxtractor::{extract_all, split_lines, Match, SuperXtractor};

fn hardware_report() -> String {
    "Hardware:

        Hardware Overview:

          Model Name: MacBook Pro
          Model Identifier: MacBookPro18,2
          Model Number: SDHJSAF/A
          Chip: Apple M1 Max
          Total Number of Cores: 10 (8 performance and 2 efficiency)
          Memory: 32 GB
          System Firmware Version: 8422.121.1
          OS Loader Version: 8422.121.1
          Serial Number (system): GKJSDJHAS
          Hardware UUID: FakeUUID
          Provisioning UDID: AnotherFakeUUID
          Activation Lock Status: Secret"
        .to_string()
}

#[test]
fn it_works() {
    let the_knowledge = vec![
        ("model".to_string(), r"^\s+Model Name: (.*)\s*$".to_string()),
        ("uuid".to_string(), r"^\s+Hardware UUID: (.*)\s*$".to_string()),
    ];

    let xt = SuperXtractor::new(the_knowledge).unwrap();

    let result = xt.execute_by_line(hardware_report());
    assert_eq!(result.len(), 2);

    assert_eq!(result[0].field, "model");
    assert_eq!(result[0].text, "MacBook Pro");
    assert_eq!(result[1].field, "uuid");
    assert_eq!(result[1].text, "FakeUUID");
}

#[test]
fn no_matching_lines_yield_empty_sequence() {
    let xt = SuperXtractor::new(vec![
        ("model".to_string(), r"^\s+Model Name: (.*)\s*$".to_string()),
        ("uuid".to_string(), r"^\s+Hardware UUID: (.*)\s*$".to_string()),
    ])
    .unwrap();

    let result = xt.execute_by_line("nothing\nto see\nhere".to_string());
    assert_eq!(result.len(), 0);
}

#[test]
fn extract_lines_bounded_by_line_count() {
    let xt = SuperXtractor::new(vec![(
        "any".to_string(),
        r"(.*)".to_string(),
    )])
    .unwrap();

    let text = "a\nb\nc".to_string();
    let result = xt.execute_by_line(text);
    // three lines, every one matched by the catch-all pattern
    assert_eq!(result.len(), 3);
    assert!(result.iter().all(|m| m.field == "any"));
}

#[test]
fn match_line_returns_captured_group_not_whole_line() {
    let xt = SuperXtractor::new(vec![(
        "model".to_string(),
        r"^\s+Model Name: (.*)\s*$".to_string(),
    )])
    .unwrap();

    let m = xt.match_line("  Model Name: MacBook Pro").unwrap();
    assert_eq!(m.field, "model");
    assert_eq!(m.text, "MacBook Pro");

    assert!(xt.match_line("Model Name unrelated").is_none());
}

#[test]
fn match_line_first_registered_pattern_wins() {
    let xt = SuperXtractor::new(vec![
        ("first".to_string(), r"a(b)c".to_string()),
        ("second".to_string(), r"ab(c)".to_string()),
    ])
    .unwrap();

    let m = xt.match_line("abc").unwrap();
    assert_eq!(m.field, "first");
    assert_eq!(m.text, "b");
}

#[test]
fn match_line_skips_non_participating_group() {
    let xt = SuperXtractor::new(vec![("opt".to_string(), r"(a)?b".to_string())]).unwrap();

    assert!(xt.match_line("zzb").is_none());
    let m = xt.match_line("zab").unwrap();
    assert_eq!(m.text, "a");
}

#[test]
fn duplicate_field_name_last_registered_wins() {
    let xt = SuperXtractor::new(vec![
        ("f".to_string(), r"a(b)".to_string()),
        ("f".to_string(), r"(x)y".to_string()),
    ])
    .unwrap();

    // the earlier pattern under the same name was overwritten
    assert!(xt.match_line("ab").is_none());
    let m = xt.match_line("xy").unwrap();
    assert_eq!(m.field, "f");
    assert_eq!(m.text, "x");
}

#[test]
fn construction_fails_on_two_capture_groups() {
    let r = SuperXtractor::new(vec![
        ("ok".to_string(), r"(a)".to_string()),
        ("bad".to_string(), r"(a)(b)".to_string()),
    ]);
    let e = r.err().unwrap();
    assert_eq!(e.field, "bad");
}

#[test]
fn construction_fails_on_invalid_pattern_syntax() {
    let r = SuperXtractor::new(vec![("broken".to_string(), r"(unclosed".to_string())]);
    let e = r.err().unwrap();
    assert_eq!(e.field, "broken");
}

#[test]
fn construction_fails_on_zero_capture_groups() {
    let r = SuperXtractor::new(vec![("plain".to_string(), r"no groups".to_string())]);
    let e = r.err().unwrap();
    assert_eq!(e.field, "plain");
}

#[test]
fn compile_accepts_only_single_group_patterns() {
    assert!(Pattern::compile(r"(a)").is_some());
    assert!(Pattern::compile(r"(a)(b)").is_none());
    assert!(Pattern::compile(r"ab").is_none());
    assert!(Pattern::compile(r"(").is_none());
}

#[test]
fn extract_all_collects_every_occurrence_in_order() {
    let p = Pattern::compile(r"IPv4 Addresses:\s*(.*)$").unwrap();
    let text = "Wi-Fi:\nIPv4 Addresses: 192.168.1.2\nEthernet:\nIPv4 Addresses: 10.0.0.5\n";
    let got = extract_all(&p, text);
    assert_eq!(got, vec!["192.168.1.2".to_string(), "10.0.0.5".to_string()]);
}

#[test]
fn extract_all_anchors_bind_to_line_boundaries() {
    let p = Pattern::compile(r"^(foo)$").unwrap();
    let got = extract_all(&p, "bar\nfoo\nbaz");
    assert_eq!(got, vec!["foo".to_string()]);
}

#[test]
fn extract_all_skips_matches_without_group_participation() {
    let p = Pattern::compile(r"(a)?b").unwrap();
    let got = extract_all(&p, "b ab b");
    assert_eq!(got, vec!["a".to_string()]);
}

#[test]
fn trailing_line_terminator_produces_matchable_empty_segment() {
    let xt = SuperXtractor::new(vec![("empty".to_string(), r"^()$".to_string())]).unwrap();
    let result = xt.execute_by_line("a\n".to_string());
    // two segments: "a" and the trailing empty one; only the latter matches
    assert_eq!(result.len(), 1);
    assert_eq!(result[0].field, "empty");
    assert_eq!(result[0].text, "");
}

#[test]
fn ip_addresses_from_text_finds_both_addresses() {
    let text = "Wi-Fi:\nIPv4 Addresses: 192.168.1.2\nEthernet:\nIPv4 Addresses: 10.0.0.5\n";
    let got = ip_addresses_from_text(text).unwrap();
    assert_eq!(got, vec!["192.168.1.2".to_string(), "10.0.0.5".to_string()]);
}

#[test]
fn split_lines_keeps_empty_segments() {
    let lines = split_lines("a\nb\n");
    assert_eq!(
        lines,
        vec!["a".to_string(), "b".to_string(), "".to_string()]
    );
    assert_eq!(split_lines(""), vec!["".to_string()]);
    assert_eq!(split_lines("\n"), vec!["".to_string(), "".to_string()]);
}

fn sample_matches() -> Vec<Match> {
    vec![
        Match { field: "model".to_string(), text: "MacBook Pro".to_string() },
        Match { field: "unknown".to_string(), text: "discarded".to_string() },
        Match { field: "chip".to_string(), text: "Apple M1 Max".to_string() },
        Match { field: "model".to_string(), text: "MacBook Air".to_string() },
    ]
}

#[test]
fn empty_match_sequence_builds_all_default_record() {
    let h = HwInfo::new(vec![]).unwrap();
    assert_eq!(h.model().as_str(), "");
    assert_eq!(h.hw_uuid().as_str(), "");
    assert_eq!(h.chip().as_str(), "");
}

#[test]
fn building_a_record_twice_yields_the_same_record() {
    let a = HwInfo::new(sample_matches()).unwrap();
    let b = HwInfo::new(sample_matches()).unwrap();
    assert_eq!(a.model(), b.model());
    assert_eq!(a.hw_uuid(), b.hw_uuid());
    assert_eq!(a.chip(), b.chip());
}

#[test]
fn record_builder_overwrites_known_fields_and_discards_unknown() {
    let h = HwInfo::new(sample_matches()).unwrap();
    // the later "model" match won; "unknown" left no trace
    assert_eq!(h.model().as_str(), "MacBook Air");
    assert_eq!(h.hw_uuid().as_str(), "");
    assert_eq!(h.chip().as_str(), "Apple M1 Max");
}

#[test]
fn hw_info_from_text_extracts_all_three_fields() {
    let h = hw_info_from_text(&hardware_report()).unwrap();
    assert_eq!(h.model().as_str(), "MacBook Pro");
    assert_eq!(h.hw_uuid().as_str(), "FakeUUID");
    assert_eq!(h.chip().as_str(), "Apple M1 Max");
}
