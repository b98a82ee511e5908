use rice::CgroupSet;
use rice::LoadWarning;
use rice::PERIOD_US;
use rice::cgroup_defs;
use rice::cpu_shares;
use rice::derive_params;
use rice::host_cpus;
use rice::parse_cgroups;
use rice::slices_slept;
use rice::sleep_slice_count;

fn lines(xs: &[&str]) -> Vec<String> {
    xs.iter().map(|s| s.to_string()).collect()
}

#[test]
fn quota_of_fifty_on_four_cpus() {
    assert_eq!(cpu_shares(50), 512);
    let params = derive_params(50, 4).unwrap();
    assert_eq!(params.shares, 512);
    assert_eq!(params.period_us, PERIOD_US);
    assert_eq!(params.quota_us, 100_000 * 4 * 50 / 100);
    assert_eq!(params.quota_us, 200_000);
}

#[test]
fn quota_extremes_derive_exactly() {
    let zero = derive_params(0, 4).unwrap();
    assert_eq!(zero.shares, 0);
    assert_eq!(zero.quota_us, 0);
    let full = derive_params(100, 2).unwrap();
    assert_eq!(full.shares, 1024);
    assert_eq!(full.quota_us, 200_000);
}

#[test]
fn overlarge_quota_is_rejected_before_creation() {
    let input = lines(&["{\"cgroup\": \"greedy\", \"CPUQuota\": 150}"]);
    let (defs, warnings) = cgroup_defs(&input, 4);
    assert_eq!(defs.len(), 0);
    assert_eq!(warnings, vec![LoadWarning::InvalidLine { line: 0 }]);
    let (set, pw) = parse_cgroups(&input, 4);
    assert!(!set.contains("greedy"));
    assert!(set.params_of("greedy").is_none());
    assert_eq!(pw, vec![LoadWarning::InvalidLine { line: 0 }]);
}

#[test]
fn negative_quota_is_rejected() {
    let input = lines(&["{\"cgroup\": \"odd\", \"cpu_quota\": -5}"]);
    let (defs, warnings) = cgroup_defs(&input, 2);
    assert_eq!(defs.len(), 0);
    assert_eq!(warnings, vec![LoadWarning::InvalidLine { line: 0 }]);
}

#[test]
fn cgroup_definition_accepts_both_quota_keys() {
    let input = lines(&[
        "{\"cgroup\": \"a\", \"CPUQuota\": 25}",
        "{\"cgroup\": \"b\", \"cpu_quota\": 75}",
    ]);
    let (defs, warnings) = cgroup_defs(&input, 4);
    assert_eq!(warnings.len(), 0);
    assert_eq!(defs.len(), 2);
    assert_eq!(defs[0].name, "a");
    assert_eq!(defs[0].params.shares, 256);
    assert_eq!(defs[0].params.quota_us, 100_000);
    assert_eq!(defs[1].name, "b");
    assert_eq!(defs[1].params.shares, 768);
    assert_eq!(defs[1].params.quota_us, 300_000);
}

#[test]
fn cgroup_definition_requires_both_fields() {
    let input = lines(&[
        "{\"cgroup\": \"nameless\"}",
        "{\"CPUQuota\": 10}",
        "{\"cgroup\": \"texty\", \"CPUQuota\": \"10\"}",
    ]);
    let (defs, warnings) = cgroup_defs(&input, 1);
    assert_eq!(defs.len(), 0);
    assert_eq!(
        warnings,
        vec![
            LoadWarning::InvalidLine { line: 0 },
            LoadWarning::InvalidLine { line: 1 },
            LoadWarning::InvalidLine { line: 2 },
        ]
    );
}

#[test]
fn blank_and_comment_cgroup_lines_produce_nothing() {
    let input = lines(&["", "# cgroups", "   "]);
    let (defs, warnings) = cgroup_defs(&input, 4);
    assert_eq!(defs.len(), 0);
    assert_eq!(warnings.len(), 0);
}

#[test]
fn host_reports_at_least_one_cpu() {
    assert!(host_cpus() >= 1);
}

#[test]
fn applying_to_an_empty_set_is_a_no_op() {
    let mut set = CgroupSet::new();
    assert_eq!(set.len(), 0);
    assert_eq!(set.apply("anything", 1234), Ok(false));
    assert_eq!(set.release_all(), 0);
    assert_eq!(set.len(), 0);
}

#[test]
fn live_handles_only_for_created_definitions() {
    // In an environment without a writable cgroup v1 hierarchy every
    // creation fails; each failure is reported, never escalated, and no
    // handle may exist that validation did not admit.
    let input = lines(&["{\"cgroup\": \"rice_test_group\", \"CPUQuota\": 10}"]);
    let (mut set, warnings) = parse_cgroups(&input, 2);
    if set.contains("rice_test_group") {
        let params = set.params_of("rice_test_group").unwrap();
        assert_eq!(params.shares, 102);
        assert_eq!(params.quota_us, 20_000);
        assert_eq!(warnings.len(), 0);
        assert_eq!(
            set.apply("rice_test_group", -1),
            Err(rice::ApplyError::BadTid)
        );
    } else {
        assert_eq!(
            warnings,
            vec![LoadWarning::CgroupFailed { index: 0 }]
        );
    }
    set.release_all();
    assert!(!set.contains("rice_test_group"));
}

#[test]
fn signal_during_sleep_ends_it_within_one_increment() {
    // The flag is observed after the third increment of twenty: the
    // sleep ends right there, not after the full interval.
    let mut flags = vec![false; sleep_slice_count() as usize];
    flags[2] = true;
    let slept = slices_slept(&flags);
    assert_eq!(slept, 3);
    assert!(slept < flags.len());
}

#[test]
fn unsignalled_sleep_runs_all_increments() {
    let flags = vec![false; 20];
    assert_eq!(slices_slept(&flags), 20);
    let none: Vec<bool> = Vec::new();
    assert_eq!(slices_slept(&none), 0);
}

#[test]
fn immediate_signal_ends_sleep_at_first_increment() {
    let flags = vec![true, false, false];
    assert_eq!(slices_slept(&flags), 1);
}
