//! A policy daemon's verified core: declarative rules keyed by
//! executable basename assign scheduling priority, I/O class and a CPU
//! quota cgroup to every matching process and thread, and a
//! reconciliation loop re-asserts that state each tick until a
//! termination signal arrives.

mod cgroup;
mod class;
mod daemon;
mod parse;
mod proc_type;
mod rule;

pub use cgroup::Cgroup;
pub use cgroup::CgroupDef;
pub use cgroup::CgroupParams;
pub use cgroup::CgroupSet;
pub use cgroup::PERIOD_US;
pub use cgroup::cgroup_defs;
pub use cgroup::cpu_shares;
pub use cgroup::derive_params;
pub use cgroup::host_cpus;
pub use cgroup::parse_cgroups;
pub use class::IoClass;
pub use class::class_of_name;
pub use daemon::Candidate;
pub use daemon::LoopState;
pub use daemon::PlannedItem;
pub use daemon::SLEEP_SLICE_MS;
pub use daemon::ScanFailure;
pub use daemon::TICK_INTERVAL_MS;
pub use daemon::apply_rule;
pub use daemon::basename;
pub use daemon::loop_transition;
pub use daemon::plan_tick;
pub use daemon::scan_check;
pub use daemon::sleep_slice_count;
pub use daemon::slices_slept;
pub use parse::JsonScalar;
pub use parse::LineParse;
pub use parse::LoadWarning;
pub use parse::parse;
pub use proc_type::Type;
pub use proc_type::TypeTable;
pub use proc_type::build_types;
pub use rule::ApplyError;
pub use rule::EffectivePolicy;
pub use rule::IoniceCall;
pub use rule::PriorityCall;
pub use rule::Rule;
pub use rule::RuleTable;
pub use rule::ionice_outcome;
pub use rule::is_fatal;
pub use rule::parse_rules;
pub use rule::priority_outcome;
