use rice::ApplyError;
use rice::Candidate;
use rice::CgroupSet;
use rice::IoClass;
use rice::LoopState;
use rice::Rule;
use rice::Type;
use rice::apply_rule;
use rice::basename;
use rice::build_types;
use rice::class_of_name;
use rice::ionice_outcome;
use rice::is_fatal;
use rice::loop_transition;
use rice::parse_rules;
use rice::plan_tick;
use rice::priority_outcome;
use rice::scan_check;

fn quiet_type() -> Type {
    Type {
        nice: Some(15),
        ioclass: Some(IoClass::Idle),
        ionice: Some(4),
        cgroup: Some("slow".to_string()),
    }
}

#[test]
fn resolve_prefers_rule_fields_over_type_fields() {
    let rule = Rule {
        proc_type: Some(quiet_type()),
        nice: Some(-3),
        io_class: Some(IoClass::RealTime),
        ionice: Some(1),
        cgroup: Some("fast".to_string()),
    };
    let p = rule.resolve();
    assert_eq!(p.nice, Some(-3));
    assert_eq!(p.io_class, Some(IoClass::RealTime));
    assert_eq!(p.ionice, Some(1));
    assert_eq!(p.cgroup, Some("fast".to_string()));
}

#[test]
fn resolve_falls_back_to_type_fields() {
    let rule = Rule {
        proc_type: Some(quiet_type()),
        nice: None,
        io_class: None,
        ionice: None,
        cgroup: None,
    };
    let p = rule.resolve();
    assert_eq!(p.nice, Some(15));
    assert_eq!(p.io_class, Some(IoClass::Idle));
    assert_eq!(p.ionice, Some(4));
    assert_eq!(p.cgroup, Some("slow".to_string()));
}

#[test]
fn resolve_mixes_fields_independently() {
    let rule = Rule {
        proc_type: Some(quiet_type()),
        nice: Some(0),
        io_class: None,
        ionice: Some(7),
        cgroup: None,
    };
    let p = rule.resolve();
    assert_eq!(p.nice, Some(0));
    assert_eq!(p.io_class, Some(IoClass::Idle));
    assert_eq!(p.ionice, Some(7));
    assert_eq!(p.cgroup, Some("slow".to_string()));
}

#[test]
fn resolve_without_type_leaves_fields_unset() {
    let rule = Rule { proc_type: None, nice: None, io_class: None, ionice: None, cgroup: None };
    let p = rule.resolve();
    assert_eq!(p.nice, None);
    assert_eq!(p.io_class, None);
    assert_eq!(p.ionice, None);
    assert_eq!(p.cgroup, None);
}

fn rule_lines(xs: &[&str]) -> Vec<String> {
    xs.iter().map(|s| s.to_string()).collect()
}

#[test]
fn unmatched_process_receives_no_work() {
    let (types, _) = build_types(&rule_lines(&[]));
    let (rules, _) = parse_rules(
        &rule_lines(&["{\"name\": \"firefox\", \"nice\": 5}"]),
        &types,
    );
    let candidates = vec![
        Candidate { tid: 100, basename: "bash".to_string() },
        Candidate { tid: 101, basename: "vim".to_string() },
    ];
    let plan = plan_tick(&rules, &candidates);
    assert_eq!(plan.len(), 0);
}

#[test]
fn every_thread_receives_the_same_resolved_nice() {
    let (types, _) = build_types(&rule_lines(&[]));
    let (rules, _) = parse_rules(
        &rule_lines(&["{\"name\": \"firefox\", \"nice\": 7}"]),
        &types,
    );
    let candidates = vec![
        Candidate { tid: 100, basename: "firefox".to_string() },
        Candidate { tid: 101, basename: "firefox".to_string() },
        Candidate { tid: 102, basename: "firefox".to_string() },
    ];
    let plan = plan_tick(&rules, &candidates);
    assert_eq!(plan.len(), 3);
    for (k, item) in plan.iter().enumerate() {
        assert_eq!(item.tid, 100 + k as i32);
        assert_eq!(item.policy.nice, Some(7));
        let call = item.policy.priority_call(item.tid).unwrap();
        assert_eq!(call.tid, item.tid);
        assert_eq!(call.nice, 7);
    }
}

#[test]
fn mixed_candidates_plan_only_matched_ones() {
    let (types, _) = build_types(&rule_lines(&[]));
    let (rules, _) = parse_rules(
        &rule_lines(&["{\"name\": \"make\", \"nice\": 10}"]),
        &types,
    );
    let candidates = vec![
        Candidate { tid: 1, basename: "make".to_string() },
        Candidate { tid: 2, basename: "sh".to_string() },
        Candidate { tid: 3, basename: "make".to_string() },
    ];
    let plan = plan_tick(&rules, &candidates);
    assert_eq!(plan.len(), 2);
    assert_eq!(plan[0].tid, 1);
    assert_eq!(plan[1].tid, 3);
}

#[test]
fn reapplying_a_policy_plans_identical_calls() {
    let rule = Rule {
        proc_type: None,
        nice: Some(3),
        io_class: Some(IoClass::BestEffort),
        ionice: Some(2),
        cgroup: None,
    };
    let first = rule.apply(42);
    let second = rule.apply(42);
    assert_eq!(first.0, second.0);
    assert_eq!(first.1, second.1);
    assert_eq!(first.0.unwrap().nice, 3);
}

#[test]
fn ionice_call_encodes_class_ordinals() {
    let idle = Rule {
        proc_type: None,
        nice: None,
        io_class: Some(IoClass::Idle),
        ionice: Some(5),
        cgroup: None,
    };
    let call = idle.apply_io(7).unwrap();
    assert_eq!(call.class_ord, 0);
    assert_eq!(call.prio, None);
    assert_eq!(call.tid, 7);

    let be = Rule { io_class: Some(IoClass::BestEffort), ..idle };
    let call = be.apply_io(8).unwrap();
    assert_eq!(call.class_ord, 1);
    assert_eq!(call.prio, Some(5));

    let rt = Rule { io_class: Some(IoClass::RealTime), ionice: None, ..be };
    let call = rt.apply_io(9).unwrap();
    assert_eq!(call.class_ord, 2);
    assert_eq!(call.prio, None);
}

#[test]
fn rule_without_io_class_invokes_no_helper() {
    let rule = Rule { proc_type: None, nice: Some(1), io_class: None, ionice: Some(3), cgroup: None };
    assert!(rule.apply_io(5).is_none());
    assert!(rule.apply_nice(5).is_some());
}

#[test]
fn priority_outcome_classifies_error_numbers() {
    assert_eq!(priority_outcome(0), Ok(()));
    assert_eq!(priority_outcome(3), Err(ApplyError::NotFound));
    assert_eq!(priority_outcome(1), Err(ApplyError::PermissionDenied));
    assert_eq!(priority_outcome(13), Err(ApplyError::PermissionDenied));
    assert_eq!(priority_outcome(22), Err(ApplyError::Unexpected(22)));
}

#[test]
fn only_unexpected_errors_are_fatal() {
    assert!(is_fatal(&ApplyError::Unexpected(22)));
    assert!(!is_fatal(&ApplyError::NotFound));
    assert!(!is_fatal(&ApplyError::PermissionDenied));
    assert!(!is_fatal(&ApplyError::HelperFailed));
}

#[test]
fn helper_exit_maps_to_outcome() {
    assert_eq!(ionice_outcome(true), Ok(()));
    assert_eq!(ionice_outcome(false), Err(ApplyError::HelperFailed));
}

#[test]
fn basename_takes_the_last_path_component() {
    assert_eq!(basename("/usr/bin/bash"), "bash");
    assert_eq!(basename("bash"), "bash");
    assert_eq!(basename("/opt/app/bin/server"), "server");
    assert_eq!(basename("/usr/lib/"), "");
    assert_eq!(basename(""), "");
}

#[test]
fn class_names_parse_in_both_spellings() {
    assert_eq!(class_of_name("idle"), Some(IoClass::Idle));
    assert_eq!(class_of_name("Idle"), Some(IoClass::Idle));
    assert_eq!(class_of_name("best-effort"), Some(IoClass::BestEffort));
    assert_eq!(class_of_name("BestEffort"), Some(IoClass::BestEffort));
    assert_eq!(class_of_name("realtime"), Some(IoClass::RealTime));
    assert_eq!(class_of_name("RealTime"), Some(IoClass::RealTime));
    assert_eq!(class_of_name("turbo"), None);
}

#[test]
fn class_ordinals_and_labels_are_stable() {
    assert_eq!(IoClass::Idle.ordinal(), 0);
    assert_eq!(IoClass::BestEffort.ordinal(), 1);
    assert_eq!(IoClass::RealTime.ordinal(), 2);
    assert_eq!(IoClass::Idle.label(), "idle");
    assert_eq!(IoClass::BestEffort.label(), "best effort");
    assert_eq!(IoClass::RealTime.label(), "real time");
}

#[test]
fn empty_scan_fails_the_tick() {
    let none: Vec<Candidate> = Vec::new();
    assert!(scan_check(&none).is_err());
    let one = vec![Candidate { tid: 1, basename: "a".to_string() }];
    assert!(scan_check(&one).is_ok());
}

#[test]
fn termination_flag_moves_the_loop_to_terminating() {
    assert_eq!(loop_transition(LoopState::Running, false), LoopState::Running);
    assert_eq!(loop_transition(LoopState::Running, true), LoopState::Terminating);
    assert_eq!(loop_transition(LoopState::Terminating, false), LoopState::Terminating);
    assert_eq!(loop_transition(LoopState::Terminating, true), LoopState::Terminating);
}

#[test]
fn rule_without_cgroup_leaves_cgroups_untouched() {
    let mut cgroups = CgroupSet::new();
    let rule = Rule { proc_type: None, nice: Some(2), io_class: None, ionice: None, cgroup: None };
    let (prio, io, membership) = apply_rule(&rule, 55, &mut cgroups);
    assert_eq!(prio.unwrap().nice, 2);
    assert!(io.is_none());
    assert_eq!(membership, Ok(false));
}

#[test]
fn rule_referencing_dead_cgroup_keeps_other_aspects() {
    let mut cgroups = CgroupSet::new();
    let rule = Rule {
        proc_type: None,
        nice: Some(9),
        io_class: Some(IoClass::Idle),
        ionice: None,
        cgroup: Some("gone".to_string()),
    };
    let (prio, io, membership) = apply_rule(&rule, 56, &mut cgroups);
    assert_eq!(prio.unwrap().nice, 9);
    assert_eq!(io.unwrap().class_ord, 0);
    assert_eq!(membership, Ok(false));
}
