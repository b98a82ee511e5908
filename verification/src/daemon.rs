use vstd::prelude::*;
use vstd::hash_map::StringHashMap;
use vstd::string::StrSliceExecFns;
use vstd::string::StringExecFns;

use crate::cgroup::CgroupInfo;
use crate::cgroup::CgroupSet;
use crate::parse::lemma_view_map_get;
use crate::parse::view_map;
use crate::rule::ApplyError;
use crate::rule::EffectivePolicy;
use crate::rule::IoniceCall;
use crate::rule::PolicyV;
use crate::rule::PriorityCall;
use crate::rule::Rule;
use crate::rule::RuleV;
use crate::rule::opt_u8_v;
use crate::rule::spec_resolve;

verus! {

/// The interval between two reconciliation ticks, in milliseconds.
pub const TICK_INTERVAL_MS: u64 = 5000;

/// The bounded increment of the inter-tick sleep, in milliseconds: the
/// termination flag is re-checked at least this often, so shutdown
/// latency is a small fraction of the full interval.
pub const SLEEP_SLICE_MS: u64 = 250;

/// How many polling increments one inter-tick sleep spans.
pub fn sleep_slice_count() -> (r: u64)
    ensures
        r == TICK_INTERVAL_MS / SLEEP_SLICE_MS,
{
    TICK_INTERVAL_MS / SLEEP_SLICE_MS
}

/// One schedulable entity found by a scan of the process table: a
/// kernel-visible thread id and the executable basename of its owning
/// process, used for rule matching.
#[derive(Debug)]
pub struct Candidate {
    pub tid: i32,
    pub basename: String,
}

/// Mathematical value of a `Candidate`.
pub struct CandidateV {
    pub tid: i32,
    pub basename: Seq<char>,
}

impl View for Candidate {
    type V = CandidateV;

    open spec fn view(&self) -> CandidateV {
        CandidateV { tid: self.tid, basename: self.basename@ }
    }
}

impl DeepView for Candidate {
    type V = CandidateV;

    open spec fn deep_view(&self) -> CandidateV {
        self@
    }
}

/// The last component of a path: everything after the final `/`, or the
/// whole path if it has none.
pub open spec fn spec_basename(p: Seq<char>) -> Seq<char>
    decreases p.len(),
{
    if p.len() == 0 {
        Seq::empty()
    } else if p.last() == '/' {
        Seq::empty()
    } else {
        spec_basename(p.drop_last()).push(p.last())
    }
}

/// The suffix after the last `/` is the basename.
proof fn lemma_basename_subrange(p: Seq<char>, cut: int)
    requires
        0 <= cut <= p.len(),
        forall|j: int| cut <= j < p.len() ==> p[j] != '/',
        cut > 0 ==> p[cut - 1] == '/',
    ensures
        spec_basename(p) =~= p.subrange(cut, p.len() as int),
    decreases p.len(),
{
    if p.len() == cut {
        if cut > 0 {
            assert(p.last() == p[cut - 1]);
        }
    } else {
        assert(p.last() != '/');
        lemma_basename_subrange(p.drop_last(), cut);
        assert(p.subrange(cut, p.len() as int) =~= p.drop_last().subrange(
            cut,
            p.len() - 1,
        ).push(p.last()));
    }
}

/// Extracts the executable basename a rule is keyed by from a resolved
/// executable path.
pub fn basename(path: &str) -> (r: String)
    ensures
        r@ == spec_basename(path@),
{
    let n = path.unicode_len();
    let mut cut: usize = 0;
    let mut i: usize = 0;
    while i < n
        invariant
            0 <= cut <= i <= n,
            n == path@.len(),
            cut > 0 ==> path@[cut - 1] == '/',
            forall|j: int| cut <= j < i ==> path@[j] != '/',
        decreases n - i,
    {
        if path.get_char(i) == '/' {
            cut = i + 1;
        }
        i = i + 1;
    }
    proof {
        lemma_basename_subrange(path@, cut as int);
    }
    let tail = path.substring_char(cut, n);
    String::from_str(tail)
}

/// The tick fails to scan when the process table yields not one usable
/// candidate; the tick is skipped and retried at the next interval.
#[derive(Clone, Copy, Debug, PartialEq, Eq, Structural)]
pub struct ScanFailure;

/// Checks one tick's scan: it fails exactly when no candidate at all was
/// resolved.
pub fn scan_check(candidates: &Vec<Candidate>) -> (r: Result<(), ScanFailure>)
    ensures
        r == if candidates@.len() == 0 {
            Err::<(), ScanFailure>(ScanFailure)
        } else {
            Ok::<(), ScanFailure>(())
        },
{
    if candidates.len() == 0 {
        Err(ScanFailure)
    } else {
        Ok(())
    }
}

/// The policy work one tick owes one thread: the thread id and the
/// policy its matching rule resolves to.
#[derive(Debug)]
pub struct PlannedItem {
    pub tid: i32,
    pub policy: EffectivePolicy,
}

/// Mathematical value of a `PlannedItem`.
pub struct PlannedItemV {
    pub tid: i32,
    pub policy: PolicyV,
}

impl View for PlannedItem {
    type V = PlannedItemV;

    open spec fn view(&self) -> PlannedItemV {
        PlannedItemV { tid: self.tid, policy: self.policy@ }
    }
}

impl DeepView for PlannedItem {
    type V = PlannedItemV;

    open spec fn deep_view(&self) -> PlannedItemV {
        self@
    }
}

/// The work one tick owes, in candidate order: one item per candidate
/// whose basename matches a rule, carrying that rule's resolved policy;
/// a candidate with no matching rule contributes nothing.
pub open spec fn spec_plan(rules: Map<Seq<char>, RuleV>, cands: Seq<CandidateV>) -> Seq<
    PlannedItemV,
>
    decreases cands.len(),
{
    if cands.len() == 0 {
        Seq::empty()
    } else {
        let init = spec_plan(rules, cands.drop_last());
        let c = cands.last();
        if rules.contains_key(c.basename) {
            init.push(PlannedItemV { tid: c.tid, policy: spec_resolve(rules[c.basename]) })
        } else {
            init
        }
    }
}

/// Plans one tick: matches every candidate against the rule table by
/// executable basename and resolves each matched rule.
pub fn plan_tick(rules: &StringHashMap<Rule>, candidates: &Vec<Candidate>) -> (r: Vec<PlannedItem>)
    ensures
        r.deep_view() == spec_plan(view_map(rules@), candidates.deep_view()),
{
    let ghost rv = view_map(rules@);
    let ghost cv = candidates.deep_view();
    let mut out: Vec<PlannedItem> = Vec::new();
    let n = candidates.len();
    let mut i: usize = 0;
    proof {
        assert(cv.take(0) =~= Seq::<CandidateV>::empty());
        assert(out.deep_view() =~= Seq::<PlannedItemV>::empty());
        assert(cv.len() == n);
        assert(forall|j: int| 0 <= j < n ==> cv[j] == candidates@[j]@);
    }
    while i < n
        invariant
            0 <= i <= n,
            n == candidates@.len(),
            cv == candidates.deep_view(),
            rv == view_map(rules@),
            cv.len() == n,
            forall|j: int| 0 <= j < n ==> cv[j] == candidates@[j]@,
            out.deep_view() == spec_plan(rv, cv.take(i as int)),
        decreases n - i,
    {
        let ghost pre = cv.take(i as int);
        let ghost post = cv.take(i + 1);
        proof {
            assert(post.drop_last() =~= pre);
            assert(post.last() == cv[i as int]);
            lemma_view_map_get(rules@, cv[i as int].basename);
        }
        match rules.get(candidates[i].basename.as_str()) {
            Some(rule) => {
                let ghost old_out = out.deep_view();
                let item = PlannedItem { tid: candidates[i].tid, policy: rule.resolve() };
                let ghost iv = item@;
                out.push(item);
                proof {
                    assert(out.deep_view() =~= old_out.push(iv));
                }
            },
            None => {},
        }
        i = i + 1;
    }
    proof {
        assert(cv.take(n as int) =~= cv);
    }
    out
}

/// A process whose executable basename matches no rule receives no work
/// at all: no item of the tick's plan carries any of its thread ids, so
/// it receives no priority syscall, no helper invocation and no cgroup
/// assignment.
pub proof fn lemma_unmatched_untouched(
    rules: Map<Seq<char>, RuleV>,
    cands: Seq<CandidateV>,
    tid: i32,
)
    requires
        forall|i: int|
            0 <= i < cands.len() && cands[i].tid == tid ==> !rules.contains_key(
                #[trigger] cands[i].basename,
            ),
    ensures
        forall|j: int|
            0 <= j < spec_plan(rules, cands).len() ==> (#[trigger] spec_plan(rules, cands)[j].tid)
                != tid,
    decreases cands.len(),
{
    if cands.len() > 0 {
        assert(forall|i: int|
            0 <= i < cands.drop_last().len() && cands.drop_last()[i].tid == tid
                ==> !rules.contains_key(#[trigger] cands.drop_last()[i].basename)) by {
            assert(forall|i: int|
                0 <= i < cands.len() - 1 ==> cands.drop_last()[i] == cands[i]);
        }
        lemma_unmatched_untouched(rules, cands.drop_last(), tid);
        assert(cands.last() == cands[cands.len() - 1]);
    }
}

/// Every thread of a process matched by a rule receives the same
/// resolved policy, each thread id independently: when all candidates
/// carry one basename and that basename matches a rule, the plan has one
/// item per candidate, in order, all with the same resolved policy.
pub proof fn lemma_threads_same_policy(
    rules: Map<Seq<char>, RuleV>,
    cands: Seq<CandidateV>,
    bn: Seq<char>,
)
    requires
        rules.contains_key(bn),
        forall|i: int| 0 <= i < cands.len() ==> (#[trigger] cands[i].basename) == bn,
    ensures
        spec_plan(rules, cands).len() == cands.len(),
        forall|i: int|
            0 <= i < cands.len() ==> #[trigger] spec_plan(rules, cands)[i] == (PlannedItemV {
                tid: cands[i].tid,
                policy: spec_resolve(rules[bn]),
            }),
    decreases cands.len(),
{
    if cands.len() > 0 {
        assert(forall|i: int|
            0 <= i < cands.len() - 1 ==> (#[trigger] cands.drop_last()[i].basename) == bn) by {
            assert(forall|i: int|
                0 <= i < cands.len() - 1 ==> cands.drop_last()[i] == cands[i]);
        }
        lemma_threads_same_policy(rules, cands.drop_last(), bn);
        assert(cands.last().basename == bn);
        assert(forall|i: int|
            0 <= i < cands.len() - 1 ==> #[trigger] spec_plan(rules, cands)[i] == spec_plan(
                rules,
                cands.drop_last(),
            )[i]);
    }
}

/// Applies one rule to one thread: yields the priority syscall and the
/// helper invocation the rule owes the thread, and asserts the thread's
/// membership in the rule's resolved cgroup, if that cgroup is live. A
/// rule that resolves no cgroup, or one whose cgroup was dropped at
/// load, leaves every cgroup untouched: the rule keeps its other
/// aspects.
pub fn apply_rule(r: &Rule, tid: i32, cgroups: &mut CgroupSet) -> (res: (
    Option<PriorityCall>,
    Option<IoniceCall>,
    Result<bool, ApplyError>,
))
    requires
        old(cgroups).wf(),
    ensures
        final(cgroups).wf(),
        match spec_resolve(r@).nice {
            Some(n) => res.0 matches Some(c) && c.tid == tid && c.nice as int == n,
            None => res.0 is None,
        },
        match spec_resolve(r@).io_class {
            None => res.1 is None,
            Some(c) => res.1 matches Some(cmd) && cmd.tid == tid && cmd.class_ord
                == c.spec_ordinal() && opt_u8_v(cmd.prio) == (if c is Idle {
                None
            } else {
                spec_resolve(r@).ionice
            }),
        },
        match spec_resolve(r@).cgroup {
            None => res.2 == Ok::<bool, ApplyError>(false) && final(cgroups)@ == old(cgroups)@,
            Some(name) => match res.2 {
                Ok(true) => old(cgroups)@.contains_key(name) && final(cgroups)@ =~= old(
                    cgroups,
                )@.insert(
                    name,
                    CgroupInfo {
                        params: old(cgroups)@[name].params,
                        members: old(cgroups)@[name].members.insert(tid as int),
                    },
                ),
                Ok(false) => !old(cgroups)@.contains_key(name) && final(cgroups)@ == old(cgroups)@,
                Err(e) => final(cgroups)@ == old(cgroups)@ && old(cgroups)@.contains_key(name) && (
                e == ApplyError::BadTid || e == ApplyError::CgroupAddFailed) && (e
                    == ApplyError::BadTid ==> tid < 0),
            },
        },
{
    let (priority, ionice) = r.apply(tid);
    let membership = match r.cgroup_name() {
        Some(name) => cgroups.apply(name.as_str(), tid),
        None => Ok(false),
    };
    (priority, ionice, membership)
}

/// The two states of the reconciliation loop.
#[derive(Clone, Copy, Debug, PartialEq, Eq, Structural)]
pub enum LoopState {
    Running,
    Terminating,
}

/// One observation of the termination flag: once the flag is seen, the
/// loop is terminating; it never returns to running.
pub fn loop_transition(state: LoopState, term_requested: bool) -> (r: LoopState)
    ensures
        r == if term_requested {
            LoopState::Terminating
        } else {
            state
        },
        state == LoopState::Terminating ==> r == LoopState::Terminating,
{
    if term_requested {
        LoopState::Terminating
    } else {
        state
    }
}

/// How many polling increments an inter-tick sleep spans, given the flag
/// value observed after each increment: the first observation of the
/// flag ends the sleep at that increment.
pub open spec fn spec_slices_slept(flags: Seq<bool>) -> int
    decreases flags.len(),
{
    if flags.len() == 0 {
        0
    } else if flags[0] {
        1
    } else {
        1 + spec_slices_slept(flags.drop_first())
    }
}

/// The inter-tick sleep, over the flag values observed after each
/// polling increment: returns how many increments are slept before the
/// sleep ends, either at the first increment after which the flag is
/// seen, or after all increments when it never is.
pub fn slices_slept(flags: &Vec<bool>) -> (r: usize)
    ensures
        r == spec_slices_slept(flags@),
        r <= flags@.len(),
{
    let n = flags.len();
    let mut i: usize = 0;
    proof {
        assert(flags@.skip(0) =~= flags@);
    }
    while i < n
        invariant
            0 <= i <= n,
            n == flags@.len(),
            spec_slices_slept(flags@) == i + spec_slices_slept(flags@.skip(i as int)),
            forall|j: int| 0 <= j < i ==> !flags@[j],
        decreases n - i,
    {
        proof {
            assert(flags@.skip(i as int)[0] == flags@[i as int]);
            assert(flags@.skip(i as int).drop_first() =~= flags@.skip(i + 1));
        }
        if flags[i] {
            return i + 1;
        }
        i = i + 1;
    }
    proof {
        assert(flags@.skip(n as int).len() == 0);
    }
    n
}

/// A termination signal observed at polling increment `i` of the
/// inter-tick sleep ends the sleep at that increment: at most `i + 1`
/// increments are slept, never the rest of the interval.
pub proof fn lemma_prompt_exit(flags: Seq<bool>, i: int)
    requires
        0 <= i < flags.len(),
        flags[i],
    ensures
        spec_slices_slept(flags) <= i + 1,
    decreases i,
{
    if !flags[0] {
        assert(flags.drop_first()[i - 1]);
        lemma_prompt_exit(flags.drop_first(), i - 1);
    }
}

} // verus!
