use rice::IoClass;
use rice::LineParse;
use rice::LoadWarning;
use rice::build_types;
use rice::parse;
use rice::parse_rules;

fn lines(xs: &[&str]) -> Vec<String> {
    xs.iter().map(|s| s.to_string()).collect()
}

#[test]
fn blank_and_comment_lines_produce_nothing() {
    let input = lines(&["", "   ", "\t", "# a comment", "  # indented comment"]);
    let outcomes = parse(&input);
    assert_eq!(outcomes.len(), 5);
    for o in &outcomes {
        assert!(matches!(o, LineParse::Skipped));
    }
    let (table, warnings) = build_types(&input);
    assert_eq!(table.len(), 0);
    assert_eq!(warnings.len(), 0);
}

#[test]
fn content_line_decodes_to_fields() {
    let input = lines(&["{\"name\": \"web\", \"nice\": -5}"]);
    let outcomes = parse(&input);
    assert_eq!(outcomes.len(), 1);
    assert!(matches!(outcomes[0], LineParse::Fields(_)));
}

#[test]
fn malformed_line_warns_once_and_spares_neighbours() {
    let input = lines(&[
        "this is not a record",
        "{\"name\": \"a\", \"nice\": 1}",
        "{\"name\": \"b\", \"nice\": 2}",
    ]);
    let (table, warnings) = build_types(&input);
    assert_eq!(warnings, vec![LoadWarning::MalformedLine { line: 0 }]);
    assert_eq!(table.len(), 2);
    assert!(table.get("a").is_some());
    assert!(table.get("b").is_some());
}

#[test]
fn non_object_line_is_malformed() {
    let input = lines(&["42", "[1, 2]", "\"text\""]);
    let (table, warnings) = build_types(&input);
    assert_eq!(table.len(), 0);
    assert_eq!(
        warnings,
        vec![
            LoadWarning::MalformedLine { line: 0 },
            LoadWarning::MalformedLine { line: 1 },
            LoadWarning::MalformedLine { line: 2 },
        ]
    );
}

#[test]
fn type_out_of_range_nice_is_invalid() {
    let input = lines(&["{\"name\": \"hot\", \"nice\": 25}"]);
    let (table, warnings) = build_types(&input);
    assert_eq!(table.len(), 0);
    assert_eq!(warnings, vec![LoadWarning::InvalidLine { line: 0 }]);
}

#[test]
fn type_nice_bounds_are_inclusive() {
    let input = lines(&[
        "{\"name\": \"low\", \"nice\": -19}",
        "{\"name\": \"high\", \"nice\": 20}",
        "{\"name\": \"toolow\", \"nice\": -20}",
    ]);
    let (table, warnings) = build_types(&input);
    assert_eq!(table.len(), 2);
    assert_eq!(warnings, vec![LoadWarning::InvalidLine { line: 2 }]);
    assert_eq!(table.get("low").unwrap().nice, Some(-19));
    assert_eq!(table.get("high").unwrap().nice, Some(20));
}

#[test]
fn type_accepts_both_name_keys_and_class_keys() {
    let input = lines(&[
        "{\"type\": \"player\", \"ioclass\": \"realtime\", \"ionice\": 3}",
        "{\"name\": \"batch\", \"io-class\": \"idle\"}",
    ]);
    let (table, warnings) = build_types(&input);
    assert_eq!(warnings.len(), 0);
    assert_eq!(table.get("player").unwrap().ioclass, Some(IoClass::RealTime));
    assert_eq!(table.get("player").unwrap().ionice, Some(3));
    assert_eq!(table.get("batch").unwrap().ioclass, Some(IoClass::Idle));
}

#[test]
fn unknown_class_name_is_invalid() {
    let input = lines(&["{\"name\": \"x\", \"ioclass\": \"fast\"}"]);
    let (table, warnings) = build_types(&input);
    assert_eq!(table.len(), 0);
    assert_eq!(warnings, vec![LoadWarning::InvalidLine { line: 0 }]);
}

#[test]
fn ionice_out_of_range_is_invalid() {
    let input = lines(&["{\"name\": \"x\", \"ionice\": 8}"]);
    let (table, warnings) = build_types(&input);
    assert_eq!(table.len(), 0);
    assert_eq!(warnings, vec![LoadWarning::InvalidLine { line: 0 }]);
}

#[test]
fn wrong_field_kind_is_invalid() {
    let input = lines(&["{\"name\": \"x\", \"nice\": \"five\"}"]);
    let (table, warnings) = build_types(&input);
    assert_eq!(table.len(), 0);
    assert_eq!(warnings, vec![LoadWarning::InvalidLine { line: 0 }]);
}

#[test]
fn later_rule_wins_on_name_collision() {
    let (types, _) = build_types(&lines(&[]));
    // As if loaded from two files, in directory-walk order.
    let first_file = "{\"name\": \"shell\", \"nice\": 1}";
    let second_file = "{\"name\": \"shell\", \"nice\": 2}";
    let (rules, warnings) = parse_rules(&lines(&[first_file, second_file]), &types);
    assert_eq!(warnings.len(), 0);
    assert_eq!(rules.len(), 1);
    let survivor = rules.get("shell").unwrap();
    assert_eq!(survivor.nice, Some(2));
}

#[test]
fn rule_requires_name() {
    let (types, _) = build_types(&lines(&[]));
    let (rules, warnings) = parse_rules(&lines(&["{\"nice\": 3}"]), &types);
    assert_eq!(rules.len(), 0);
    assert_eq!(warnings, vec![LoadWarning::InvalidLine { line: 0 }]);
}

#[test]
fn rule_embeds_referenced_type() {
    let (types, tw) = build_types(&lines(&[
        "{\"name\": \"quiet\", \"nice\": 15, \"io-class\": \"idle\"}",
    ]));
    assert_eq!(tw.len(), 0);
    let (rules, rw) = parse_rules(
        &lines(&["{\"name\": \"backup\", \"type\": \"quiet\"}"]),
        &types,
    );
    assert_eq!(rw.len(), 0);
    let rule = rules.get("backup").unwrap();
    let policy = rule.resolve();
    assert_eq!(policy.nice, Some(15));
    assert_eq!(policy.io_class, Some(IoClass::Idle));
}

#[test]
fn rule_with_unknown_type_keeps_own_fields() {
    let (types, _) = build_types(&lines(&[]));
    let (rules, warnings) = parse_rules(
        &lines(&["{\"name\": \"lone\", \"type\": \"ghostly\", \"nice\": 4}"]),
        &types,
    );
    assert_eq!(warnings.len(), 0);
    let rule = rules.get("lone").unwrap();
    assert!(rule.proc_type.is_none());
    assert_eq!(rule.resolve().nice, Some(4));
}

#[test]
fn rule_accepts_io_class_alias() {
    let (types, _) = build_types(&lines(&[]));
    let (rules, warnings) = parse_rules(
        &lines(&[
            "{\"name\": \"a\", \"io-class\": \"best-effort\", \"ionice\": 2}",
            "{\"name\": \"b\", \"io_class\": \"BestEffort\"}",
        ]),
        &types,
    );
    assert_eq!(warnings.len(), 0);
    assert_eq!(rules.get("a").unwrap().io_class, Some(IoClass::BestEffort));
    assert_eq!(rules.get("b").unwrap().io_class, Some(IoClass::BestEffort));
}

#[test]
fn rule_mixes_good_bad_and_skipped_lines() {
    let (types, _) = build_types(&lines(&[]));
    let (rules, warnings) = parse_rules(
        &lines(&[
            "# header",
            "{\"name\": \"a\", \"nice\": 1}",
            "oops",
            "",
            "{\"name\": \"b\", \"ionice\": 9}",
            "{\"name\": \"c\", \"nice\": -1}",
        ]),
        &types,
    );
    assert_eq!(rules.len(), 2);
    assert!(rules.get("a").is_some());
    assert!(rules.get("c").is_some());
    assert_eq!(
        warnings,
        vec![
            LoadWarning::MalformedLine { line: 2 },
            LoadWarning::InvalidLine { line: 4 },
        ]
    );
}
