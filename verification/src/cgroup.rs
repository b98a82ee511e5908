use vstd::prelude::*;

use crate::parse::JsonScalar;
use crate::parse::LineParse;
use crate::parse::LineParseV;
use crate::parse::LoadWarning;
use crate::parse::ScalarV;
use crate::parse::FieldV;
use crate::parse::fields_view;
use crate::parse::get_int2;
use crate::parse::get_text;
use crate::parse::parse_line;
use crate::parse::spec_int_field2;
use crate::parse::spec_parse_line;
use crate::parse::spec_text_field;
use crate::rule::ApplyError;

verus! {

/// Kernel CFS bandwidth period, in microseconds, used for every managed
/// cgroup.
pub const PERIOD_US: u64 = 100_000;

/// Highest accepted CPU quota percentage.
pub const QUOTA_MAX: i64 = 100;

/// An owned kernel cgroup handle of the outside cgroup library.
#[verifier::external_type_specification]
#[verifier::external_body]
pub struct ExUnifiedRepr(controlgroup::v1::UnifiedRepr);

/// Relies on num_cpus::get: the number of logical CPUs available to this
/// process, documented to always be at least 1.
#[verifier::external_body]
pub fn host_cpus() -> (r: usize)
    ensures
        1 <= r,
{
    num_cpus::get()
}

/// Relies on controlgroup's v1 `Builder` and `UnifiedRepr`: creates the
/// kernel cgroup directories under the given name, configured with the
/// given CPU share weight and CFS bandwidth parameters. Any creation
/// failure (duplicate name, missing hierarchy, permission) yields
/// `None`.
#[verifier::external_body]
fn cgroup_create(name: &str, shares: u64, period_us: u64, quota_us: i64) -> (r: Option<
    controlgroup::v1::UnifiedRepr,
>) {
    controlgroup::v1::Builder::new(std::path::PathBuf::from(name))
        .cpu()
        .shares(shares)
        .cfs_period_us(period_us)
        .cfs_quota_us(quota_us)
        .done()
        .build()
        .ok()
}

/// Relies on `UnifiedRepr::add_task`: attaches the task with the given
/// id to every subsystem cgroup of this handle, reporting whether the
/// kernel accepted it. At the kernel level, attaching a task that is
/// already a member is a no-op.
#[verifier::external_body]
fn cgroup_add_task(handle: &mut controlgroup::v1::UnifiedRepr, pid: u32) -> (r: bool) {
    handle.add_task(controlgroup::Pid::from(pid)).is_ok()
}

/// Relies on `UnifiedRepr::delete`: removes the kernel cgroup
/// directories of this handle, reporting failure for logging only; the
/// deletion is best-effort and never escalated.
#[verifier::external_body]
fn cgroup_delete(handle: &mut controlgroup::v1::UnifiedRepr) -> (r: bool) {
    handle.delete().is_ok()
}

/// The kernel parameters derived for one cgroup.
#[derive(Clone, Copy, Debug, PartialEq, Eq, Structural)]
pub struct CgroupParams {
    /// Proportional-share weight: `1024 * quota / 100`.
    pub shares: u64,
    /// CFS bandwidth period, always `PERIOD_US`.
    pub period_us: u64,
    /// CFS bandwidth quota: `PERIOD_US * cpus * quota / 100`.
    pub quota_us: i64,
}

/// Proportional-share weight derived from a CPU quota percentage.
pub fn cpu_shares(quota: u64) -> (r: u64)
    requires
        quota <= QUOTA_MAX,
    ensures
        r == 1024 * quota / 100,
{
    1024 * quota / 100
}

/// The CFS bandwidth quota a percentage denotes on a host with the given
/// CPU count: the full period, times the CPU count, scaled by the
/// percentage.
pub open spec fn spec_quota_us(quota: int, cpus: int) -> int {
    PERIOD_US * cpus * quota / 100
}

/// The parameters a valid quota percentage derives to, or nothing when
/// the bandwidth quota does not fit the kernel interface's integer.
pub open spec fn spec_derive(quota: int, cpus: int) -> Option<CgroupParams> {
    if spec_quota_us(quota, cpus) <= i64::MAX {
        Some(
            CgroupParams {
                shares: (1024 * quota / 100) as u64,
                period_us: PERIOD_US,
                quota_us: spec_quota_us(quota, cpus) as i64,
            },
        )
    } else {
        None
    }
}

/// Derives the kernel parameters for a quota percentage on a host with
/// `cpus` CPUs.
pub fn derive_params(quota: u64, cpus: u64) -> (r: Option<CgroupParams>)
    requires
        quota <= QUOTA_MAX,
        1 <= cpus,
    ensures
        r == spec_derive(quota as int, cpus as int),
{
    let shares = cpu_shares(quota);
    proof {
        assert((cpus as int) * (quota as int) <= 0xFFFF_FFFF_FFFF_FFFF * 100) by (nonlinear_arith)
            requires
                0 <= cpus as int <= 0xFFFF_FFFF_FFFF_FFFF,
                0 <= quota as int <= 100,
        ;
    }
    let pq: u128 = (cpus as u128) * (quota as u128);
    let wide: u128 = 100_000 * pq;
    proof {
        assert(100_000 * ((cpus as int) * (quota as int)) == 100_000 * (cpus as int) * (
        quota as int)) by (nonlinear_arith);
        assert(wide as int == PERIOD_US * (cpus as int) * (quota as int));
    }
    let q = wide / 100;
    if q <= i64::MAX as u128 {
        Some(CgroupParams { shares, period_us: PERIOD_US, quota_us: q as i64 })
    } else {
        None
    }
}

/// A validated cgroup definition, ready for kernel creation: its name
/// and the parameters derived from its quota.
#[derive(Debug)]
pub struct CgroupDef {
    pub name: String,
    pub params: CgroupParams,
}

impl View for CgroupDef {
    type V = (Seq<char>, CgroupParams);

    open spec fn view(&self) -> (Seq<char>, CgroupParams) {
        (self.name@, self.params)
    }
}

impl DeepView for CgroupDef {
    type V = (Seq<char>, CgroupParams);

    open spec fn deep_view(&self) -> (Seq<char>, CgroupParams) {
        self@
    }
}

/// The cgroup definition a record's fields spell: its name and its
/// quota percentage, or nothing if the name is missing, the quota is
/// missing, or the quota lies outside [0, `QUOTA_MAX`].
pub open spec fn spec_cgroup_rec(fs: Seq<(Seq<char>, ScalarV)>) -> Option<(Seq<char>, int)> {
    match spec_text_field(fs, "cgroup"@) {
        FieldV::Val(name) => match spec_int_field2(fs, "CPUQuota"@, "cpu_quota"@) {
            FieldV::Val(q) => if 0 <= q <= QUOTA_MAX {
                Some((name, q))
            } else {
                None
            },
            _ => None,
        },
        _ => None,
    }
}

/// Builds one validated definition from a decoded record, on a host
/// with the given CPU count.
pub fn cgroup_rec(fields: &Vec<(String, JsonScalar)>, cpus: u64) -> (r: Result<CgroupDef, ()>)
    requires
        1 <= cpus,
    ensures
        match spec_cgroup_rec(fields_view(fields@)) {
            Some((name, q)) => match spec_derive(q, cpus as int) {
                Some(p) => r matches Ok(d) && d@ == (name, p),
                None => r is Err,
            },
            None => r is Err,
        },
{
    let name = match get_text(fields, "cgroup") {
        Ok(Some(s)) => s,
        _ => return Err(()),
    };
    let quota = match get_int2(fields, "CPUQuota", "cpu_quota") {
        Ok(Some(q)) => q,
        _ => return Err(()),
    };
    if quota < 0 || quota > QUOTA_MAX {
        return Err(());
    }
    match derive_params(quota as u64, cpus) {
        Some(params) => Ok(CgroupDef { name, params }),
        None => Err(()),
    }
}

/// The validated definitions spelled by a sequence of `.cgroups`
/// configuration lines, in line order, on a host with the given CPU
/// count.
pub open spec fn spec_cgroup_defs(lines: Seq<Seq<char>>, cpus: int) -> Seq<
    (Seq<char>, CgroupParams),
>
    decreases lines.len(),
{
    if lines.len() == 0 {
        Seq::empty()
    } else {
        let d = spec_cgroup_defs(lines.drop_last(), cpus);
        match spec_parse_line(lines.last()) {
            LineParseV::Fields(fs) => match spec_cgroup_rec(fs) {
                Some((name, q)) => match spec_derive(q, cpus) {
                    Some(p) => d.push((name, p)),
                    None => d,
                },
                None => d,
            },
            _ => d,
        }
    }
}

/// The diagnostics produced while validating a sequence of `.cgroups`
/// lines: exactly one warning per malformed or invalid line, none for
/// blank or comment lines, none for accepted definitions.
pub open spec fn spec_cgroup_warnings(lines: Seq<Seq<char>>, cpus: int) -> Seq<LoadWarning>
    decreases lines.len(),
{
    if lines.len() == 0 {
        Seq::empty()
    } else {
        let w = spec_cgroup_warnings(lines.drop_last(), cpus);
        let idx = (lines.len() - 1) as usize;
        match spec_parse_line(lines.last()) {
            LineParseV::Skipped => w,
            LineParseV::Malformed => w.push(LoadWarning::MalformedLine { line: idx }),
            LineParseV::Fields(fs) => match spec_cgroup_rec(fs) {
                Some((_, q)) => match spec_derive(q, cpus) {
                    Some(_) => w,
                    None => w.push(LoadWarning::InvalidLine { line: idx }),
                },
                None => w.push(LoadWarning::InvalidLine { line: idx }),
            },
        }
    }
}

/// Validates the `.cgroups` configuration lines into a list of
/// definitions, in line order, together with one diagnostic per
/// rejected line. A definition whose quota lies outside
/// [0, `QUOTA_MAX`] is rejected here, before any kernel object exists.
pub fn cgroup_defs(lines: &Vec<String>, cpus: u64) -> (r: (Vec<CgroupDef>, Vec<LoadWarning>))
    requires
        1 <= cpus,
    ensures
        r.0.deep_view() == spec_cgroup_defs(lines.deep_view(), cpus as int),
        r.1@ == spec_cgroup_warnings(lines.deep_view(), cpus as int),
{
    let ghost lv = lines.deep_view();
    let mut defs: Vec<CgroupDef> = Vec::new();
    let mut warnings: Vec<LoadWarning> = Vec::new();
    let n = lines.len();
    let mut i: usize = 0;
    proof {
        assert(lv.take(0) =~= Seq::<Seq<char>>::empty());
        assert(defs.deep_view() =~= Seq::<(Seq<char>, CgroupParams)>::empty());
        assert(lv.len() == n);
    }
    while i < n
        invariant
            0 <= i <= n,
            n == lines@.len(),
            lv == lines.deep_view(),
            lv.len() == n,
            1 <= cpus,
            forall|j: int| 0 <= j < n ==> lv[j] == lines@[j]@,
            defs.deep_view() == spec_cgroup_defs(lv.take(i as int), cpus as int),
            warnings@ == spec_cgroup_warnings(lv.take(i as int), cpus as int),
        decreases n - i,
    {
        let ghost pre = lv.take(i as int);
        let ghost post = lv.take(i + 1);
        proof {
            assert(post.drop_last() =~= pre);
            assert(post.last() == lv[i as int]);
        }
        match parse_line(lines[i].as_str()) {
            LineParse::Skipped => {},
            LineParse::Malformed => {
                warnings.push(LoadWarning::MalformedLine { line: i });
            },
            LineParse::Fields(fields) => {
                match cgroup_rec(&fields, cpus) {
                    Ok(def) => {
                        let ghost old_defs = defs.deep_view();
                        let ghost dv = def@;
                        defs.push(def);
                        proof {
                            assert(defs.deep_view() =~= old_defs.push(dv));
                        }
                    },
                    Err(()) => {
                        warnings.push(LoadWarning::InvalidLine { line: i });
                    },
                }
            },
        }
        i = i + 1;
    }
    proof {
        assert(lv.take(n as int) =~= lv);
    }
    (defs, warnings)
}

/// One live kernel cgroup owned by the daemon: the opaque kernel
/// handle, the parameters it was created with, and the set of task ids
/// this daemon has added to it (a model of the membership the daemon has
/// asserted; the kernel keeps the authoritative set).
pub struct Cgroup {
    handle: controlgroup::v1::UnifiedRepr,
    params: CgroupParams,
    members: Ghost<Set<int>>,
}

/// Mathematical value of one live cgroup: its creation parameters and
/// the membership the daemon has asserted.
pub struct CgroupInfo {
    pub params: CgroupParams,
    pub members: Set<int>,
}

impl Cgroup {
    /// Mathematical value of this cgroup.
    pub closed spec fn info(&self) -> CgroupInfo {
        CgroupInfo { params: self.params, members: self.members@ }
    }

    /// The parameters this cgroup was created with.
    pub fn params(&self) -> (r: CgroupParams)
        ensures
            r == self.info().params,
    {
        self.params
    }

    /// Adds the given thread id as a task member of this cgroup.
    /// A negative id cannot name a task; the kernel may refuse the rest;
    /// on success the asserted membership grows by exactly this id, so
    /// re-adding a current member changes nothing.
    pub fn apply(&mut self, tid: i32) -> (r: Result<(), ApplyError>)
        ensures
            final(self).info().params == old(self).info().params,
            tid < 0 ==> r == Err::<(), ApplyError>(ApplyError::BadTid),
            match r {
                Ok(()) => tid >= 0 && final(self).info().members == old(self).info().members.insert(
                    tid as int,
                ),
                Err(e) => final(self).info().members == old(self).info().members && (e
                    == ApplyError::BadTid || e == ApplyError::CgroupAddFailed) && (e
                    == ApplyError::BadTid ==> tid < 0),
            },
    {
        if tid < 0 {
            return Err(ApplyError::BadTid);
        }
        if cgroup_add_task(&mut self.handle, tid as u32) {
            proof {
                self.members@ = self.members@.insert(tid as int);
            }
            Ok(())
        } else {
            Err(ApplyError::CgroupAddFailed)
        }
    }
}

/// Unique names: no two entries share a name.
pub(crate) open spec fn names_unique(s: Seq<(String, Cgroup)>) -> bool {
    forall|i: int, j: int| 0 <= i < j < s.len() ==> s[i].0@ != s[j].0@
}

/// The map a list of named cgroups denotes.
pub(crate) open spec fn entries_map(s: Seq<(String, Cgroup)>) -> Map<Seq<char>, CgroupInfo>
    decreases s.len(),
{
    if s.len() == 0 {
        Map::empty()
    } else {
        entries_map(s.drop_last()).insert(s.last().0@, s.last().1.info())
    }
}

/// A name is in the map exactly when an entry bears it.
pub(crate) proof fn lemma_entries_map_keys(s: Seq<(String, Cgroup)>, k: Seq<char>)
    ensures
        entries_map(s).contains_key(k) <==> exists|i: int| 0 <= i < s.len() && s[i].0@ == k,
    decreases s.len(),
{
    if s.len() > 0 {
        lemma_entries_map_keys(s.drop_last(), k);
        if s.last().0@ == k {
            assert(s[s.len() - 1].0@ == k);
        } else if entries_map(s).contains_key(k) {
            let i = choose|i: int| 0 <= i < s.drop_last().len() && s.drop_last()[i].0@ == k;
            assert(s[i].0@ == k);
        } else {
            if exists|i: int| 0 <= i < s.len() && s[i].0@ == k {
                let i = choose|i: int| 0 <= i < s.len() && s[i].0@ == k;
                assert(s.drop_last()[i].0@ == k);
            }
        }
    }
}

/// With unique names, the map holds each entry's value under its name.
pub(crate) proof fn lemma_entries_map_at(s: Seq<(String, Cgroup)>, i: int)
    requires
        names_unique(s),
        0 <= i < s.len(),
    ensures
        entries_map(s).contains_key(s[i].0@),
        entries_map(s)[s[i].0@] == s[i].1.info(),
    decreases s.len(),
{
    if i < s.len() - 1 {
        assert(names_unique(s.drop_last()));
        lemma_entries_map_at(s.drop_last(), i);
        assert(s.drop_last()[i] == s[i]);
        assert(s[i].0@ != s.last().0@);
    }
}

/// With unique names, replacing the cgroup of one entry updates the map
/// at that name alone.
pub(crate) proof fn lemma_entries_map_update(s: Seq<(String, Cgroup)>, i: int, c: Cgroup)
    requires
        names_unique(s),
        0 <= i < s.len(),
    ensures
        entries_map(s.update(i, (s[i].0, c))) =~= entries_map(s).insert(s[i].0@, c.info()),
    decreases s.len(),
{
    let t = s.update(i, (s[i].0, c));
    if i == s.len() - 1 {
        assert(t.drop_last() =~= s.drop_last());
        assert(t.last() == (s[i].0, c));
    } else {
        assert(t.drop_last() =~= s.drop_last().update(i, (s[i].0, c)));
        assert(names_unique(s.drop_last()));
        assert(s.drop_last()[i] == s[i]);
        lemma_entries_map_update(s.drop_last(), i, c);
        assert(t.last() == s.last());
        assert(s[i].0@ != s.last().0@);
    }
}

/// The live cgroups of one daemon run, each owned exactly once, keyed by
/// name.
pub struct CgroupSet {
    entries: Vec<(String, Cgroup)>,
}

impl View for CgroupSet {
    type V = Map<Seq<char>, CgroupInfo>;

    closed spec fn view(&self) -> Map<Seq<char>, CgroupInfo> {
        entries_map(self.entries@)
    }
}

impl CgroupSet {
    /// No two live cgroups share a name.
    pub closed spec fn wf(&self) -> bool {
        names_unique(self.entries@)
    }

    /// An empty set of live cgroups.
    pub fn new() -> (r: CgroupSet)
        ensures
            r.wf(),
            r@ =~= Map::<Seq<char>, CgroupInfo>::empty(),
    {
        CgroupSet { entries: Vec::new() }
    }

    /// How many cgroups are live.
    pub fn len(&self) -> (r: usize)
        requires
            self.wf(),
        ensures
            r == self@.dom().len(),
    {
        proof {
            lemma_entries_len(self.entries@);
        }
        self.entries.len()
    }

    /// The index of the entry bearing a name, if one is live.
    fn find(&self, name: &str) -> (r: Option<usize>)
        ensures
            match r {
                Some(i) => i < self.entries@.len() && self.entries@[i as int].0@ == name@,
                None => !self@.contains_key(name@),
            },
    {
        let n = self.entries.len();
        let mut i: usize = 0;
        while i < n
            invariant
                0 <= i <= n,
                n == self.entries@.len(),
                forall|j: int| 0 <= j < i ==> self.entries@[j].0@ != name@,
            decreases n - i,
        {
            if crate::parse::str_eq(self.entries[i].0.as_str(), name) {
                return Some(i);
            }
            i = i + 1;
        }
        proof {
            lemma_entries_map_keys(self.entries@, name@);
        }
        None
    }

    /// The parameters the named cgroup was created with, if it is live.
    pub fn params_of(&self, name: &str) -> (r: Option<CgroupParams>)
        requires
            self.wf(),
        ensures
            match r {
                Some(p) => self@.contains_key(name@) && p == self@[name@].params,
                None => !self@.contains_key(name@),
            },
    {
        match self.find(name) {
            Some(i) => {
                proof {
                    lemma_entries_map_at(self.entries@, i as int);
                }
                Some(self.entries[i].1.params())
            },
            None => None,
        }
    }

    /// Whether a cgroup with this name is live.
    pub fn contains(&self, name: &str) -> (r: bool)
        ensures
            r == self@.contains_key(name@),
    {
        proof {
            lemma_entries_map_keys(self.entries@, name@);
        }
        match self.find(name) {
            Some(_) => true,
            None => false,
        }
    }

    /// Adds the given thread id as a task member of the named cgroup.
    /// If no cgroup with this name is live, nothing happens (the rule
    /// referencing it keeps its other aspects; the rejection was already
    /// reported at load time). On success the named cgroup's asserted
    /// membership grows by exactly this id.
    pub fn apply(&mut self, name: &str, tid: i32) -> (r: Result<bool, ApplyError>)
        requires
            old(self).wf(),
        ensures
            final(self).wf(),
            !old(self)@.contains_key(name@) ==> r == Ok::<bool, ApplyError>(false) && final(self)@
                == old(self)@,
            match r {
                Ok(true) => old(self)@.contains_key(name@) && final(self)@ =~= old(self)@.insert(
                    name@,
                    CgroupInfo {
                        params: old(self)@[name@].params,
                        members: old(self)@[name@].members.insert(tid as int),
                    },
                ),
                Ok(false) => !old(self)@.contains_key(name@) && final(self)@ == old(self)@,
                Err(e) => final(self)@ == old(self)@ && (e == ApplyError::BadTid || e
                    == ApplyError::CgroupAddFailed) && old(self)@.contains_key(name@) && (e
                    == ApplyError::BadTid ==> tid < 0),
            },
            tid < 0 && old(self)@.contains_key(name@) ==> r == Err::<bool, ApplyError>(
                ApplyError::BadTid,
            ),
    {
        let idx = match self.find(name) {
            Some(i) => i,
            None => {
                return Ok(false);
            },
        };
        let ghost s0 = self.entries@;
        proof {
            lemma_entries_map_at(s0, idx as int);
        }
        let (entry_name, mut cg) = self.entries.remove(idx);
        let outcome = cg.apply(tid);
        let ghost cg2 = cg;
        self.entries.insert(idx, (entry_name, cg));
        proof {
            assert(self.entries@ =~= s0.update(idx as int, (s0[idx as int].0, cg2)));
            assert(names_unique(self.entries@)) by {
                assert(forall|j: int|
                    0 <= j < s0.len() ==> self.entries@[j].0@ == s0[j].0@);
            }
            lemma_entries_map_update(s0, idx as int, cg2);
        }
        match outcome {
            Ok(()) => {
                proof {
                    assert(final(self)@ =~= old(self)@.insert(
                        name@,
                        CgroupInfo {
                            params: old(self)@[name@].params,
                            members: old(self)@[name@].members.insert(tid as int),
                        },
                    ));
                }
                Ok(true)
            },
            Err(e) => {
                proof {
                    assert(final(self)@ =~= old(self)@.insert(name@, old(self)@[name@]));
                    assert(final(self)@ =~= old(self)@);
                }
                Err(e)
            },
        }
    }

    /// Creates one kernel cgroup per validated definition and takes
    /// ownership of the live handles. A definition whose name is already
    /// live, or whose kernel creation fails, is reported by its position
    /// and dropped: a handle exists only for a definition that passed
    /// validation and whose creation succeeded, with exactly the derived
    /// parameters and no asserted members — and every definition is
    /// accounted for, live under its name or reported by its position.
    pub fn create_all(defs: Vec<CgroupDef>) -> (r: (CgroupSet, Vec<usize>))
        ensures
            r.0.wf(),
            forall|k: Seq<char>| #[trigger] r.0@.contains_key(k) ==> exists|j: int|
                0 <= j < defs.deep_view().len() && defs.deep_view()[j].0 == k,
            forall|k: Seq<char>| #[trigger] r.0@.contains_key(k) ==> (exists|j: int|
                0 <= j < defs.deep_view().len() && defs.deep_view()[j].0 == k
                    && defs.deep_view()[j].1 == r.0@[k].params),
            forall|k: Seq<char>| #[trigger] r.0@.contains_key(k) ==> r.0@[k].members
                == Set::<int>::empty(),
            forall|j: int| 0 <= j < r.1@.len() ==> r.1@[j] < defs.deep_view().len(),
            forall|j: int|
                0 <= j < defs.deep_view().len() ==> r.0@.contains_key(
                    (#[trigger] defs.deep_view()[j]).0,
                ) || r.1@.contains(j as usize),
    {
        let ghost dv = defs.deep_view();
        let mut set = CgroupSet::new();
        let mut failed: Vec<usize> = Vec::new();
        let n = defs.len();
        let mut i: usize = 0;
        proof {
            assert(dv.len() == n);
            assert(forall|j: int| 0 <= j < n ==> dv[j] == defs@[j]@);
        }
        while i < n
            invariant
                0 <= i <= n,
                n == defs@.len(),
                dv.len() == n,
                forall|j: int| 0 <= j < n ==> dv[j] == defs@[j]@,
                set.wf(),
                forall|k: Seq<char>| #[trigger] set@.contains_key(k) ==> exists|j: int|
                    0 <= j < i && dv[j].0 == k,
                forall|k: Seq<char>| #[trigger] set@.contains_key(k) ==> (exists|j: int|
                    0 <= j < i && dv[j].0 == k && dv[j].1 == set@[k].params),
                forall|k: Seq<char>| #[trigger] set@.contains_key(k) ==> set@[k].members
                    == Set::<int>::empty(),
                forall|j: int| 0 <= j < failed@.len() ==> failed@[j] < n,
                forall|j: int|
                    0 <= j < i ==> set@.contains_key((#[trigger] dv[j]).0) || failed@.contains(
                        j as usize,
                    ),
            decreases n - i,
        {
            let def = &defs[i];
            if set.contains(def.name.as_str()) {
                let ghost pre_failed = failed@;
                failed.push(i);
                proof {
                    lemma_push_keeps_contents(pre_failed, i);
                }
            } else {
                match cgroup_create(
                    def.name.as_str(),
                    def.params.shares,
                    def.params.period_us,
                    def.params.quota_us,
                ) {
                    Some(handle) => {
                        let cg = Cgroup {
                            handle,
                            params: def.params,
                            members: Ghost(Set::empty()),
                        };
                        let name = def.name.clone();
                        set.push_new(name, cg);
                        proof {
                            assert(dv[i as int].0 == defs@[i as int].name@);
                            assert(dv[i as int].1 == defs@[i as int].params);
                        }
                    },
                    None => {
                        let ghost pre_failed = failed@;
                        failed.push(i);
                        proof {
                            lemma_push_keeps_contents(pre_failed, i);
                        }
                    },
                }
            }
            i = i + 1;
        }
        (set, failed)
    }

    /// Appends a cgroup under a name not yet live.
    fn push_new(&mut self, name: String, cg: Cgroup)
        requires
            old(self).wf(),
            !old(self)@.contains_key(name@),
        ensures
            final(self).wf(),
            final(self)@ =~= old(self)@.insert(name@, cg.info()),
    {
        proof {
            lemma_entries_map_keys(self.entries@, name@);
        }
        let ghost s0 = self.entries@;
        let ghost info = cg.info();
        let ghost nv = name@;
        self.entries.push((name, cg));
        proof {
            assert(self.entries@.drop_last() =~= s0);
            assert(self.entries@.last().0@ == nv);
            assert(self.entries@.last().1.info() == info);
            assert(names_unique(self.entries@)) by {
                assert(forall|j: int| 0 <= j < s0.len() ==> self.entries@[j] == s0[j]);
                assert(forall|j: int| 0 <= j < s0.len() ==> s0[j].0@ != nv) by {
                    lemma_entries_map_keys(s0, nv);
                }
            }
        }
    }

    /// Releases every live cgroup exactly once, best-effort: a deletion
    /// the kernel refuses is counted for logging and never escalated, at
    /// most one count per cgroup that was live. Afterwards no cgroup is
    /// live.
    pub fn release_all(&mut self) -> (failures: usize)
        requires
            old(self).wf(),
        ensures
            final(self)@ =~= Map::<Seq<char>, CgroupInfo>::empty(),
            failures <= old(self)@.dom().len(),
    {
        proof {
            lemma_entries_len(self.entries@);
        }
        let total = self.entries.len();
        let mut failures: usize = 0;
        loop
            invariant_except_break
                failures + self.entries@.len() <= total,
            ensures
                self.entries@.len() == 0,
                failures <= total,
            decreases self.entries@.len(),
        {
            match self.entries.pop() {
                Some(pair) => {
                    let (_, mut cg) = pair;
                    if !cgroup_delete(&mut cg.handle) {
                        failures = failures + 1;
                    }
                },
                None => {
                    break ;
                },
            }
        }
        failures
    }
}

/// Loads the `.cgroups` configuration lines on a host with the given CPU
/// count: validates each line, derives the kernel parameters, creates
/// one kernel cgroup per definition that passed, and takes ownership of
/// the live handles. The diagnostics are the validation warnings, in
/// line order, followed by one `CgroupFailed` per definition whose
/// kernel creation failed. A handle is live only for a definition that
/// passed validation, with exactly the derived parameters — and every
/// validated definition is accounted for: live under its name, or
/// reported by a `CgroupFailed` warning carrying its position.
pub fn parse_cgroups(lines: &Vec<String>, cpus: u64) -> (r: (CgroupSet, Vec<LoadWarning>))
    requires
        1 <= cpus,
    ensures
        r.0.wf(),
        forall|k: Seq<char>| #[trigger] r.0@.contains_key(k) ==> (exists|j: int|
            0 <= j < spec_cgroup_defs(lines.deep_view(), cpus as int).len()
                && spec_cgroup_defs(lines.deep_view(), cpus as int)[j] == (k, r.0@[k].params)),
        forall|k: Seq<char>| #[trigger] r.0@.contains_key(k) ==> r.0@[k].members
            == Set::<int>::empty(),
        forall|j: int|
            0 <= j < spec_cgroup_defs(lines.deep_view(), cpus as int).len()
                ==> r.0@.contains_key(
                (#[trigger] spec_cgroup_defs(lines.deep_view(), cpus as int)[j]).0,
            ) || r.1@.contains(LoadWarning::CgroupFailed { index: j as usize }),
        r.1@.len() >= spec_cgroup_warnings(lines.deep_view(), cpus as int).len(),
        r.1@.take(spec_cgroup_warnings(lines.deep_view(), cpus as int).len() as int)
            == spec_cgroup_warnings(lines.deep_view(), cpus as int),
        forall|j: int|
            spec_cgroup_warnings(lines.deep_view(), cpus as int).len() <= j < r.1@.len() ==> ((
            #[trigger] r.1@[j]) matches LoadWarning::CgroupFailed { index } && (index as int)
                < spec_cgroup_defs(lines.deep_view(), cpus as int).len()),
{
    let (defs, mut warnings) = cgroup_defs(lines, cpus);
    let ghost dv = defs.deep_view();
    let ghost base = warnings@;
    let (set, failed) = CgroupSet::create_all(defs);
    let ghost fv = failed@;
    let n = failed.len();
    let mut i: usize = 0;
    while i < n
        invariant
            0 <= i <= n,
            n == failed@.len(),
            fv == failed@,
            forall|j: int| 0 <= j < n ==> (#[trigger] fv[j]) < dv.len(),
            warnings@.len() == base.len() + i,
            warnings@.take(base.len() as int) == base,
            forall|j: int|
                base.len() <= j < warnings@.len() ==> ((#[trigger] warnings@[j]) matches LoadWarning::CgroupFailed {
                    index,
                } && (index as int) < dv.len()),
            forall|k: int|
                0 <= k < i ==> warnings@.contains(
                    LoadWarning::CgroupFailed { index: #[trigger] fv[k] },
                ),
        decreases n - i,
    {
        let ghost before = warnings@;
        warnings.push(LoadWarning::CgroupFailed { index: failed[i] });
        proof {
            assert(warnings@.take(base.len() as int) =~= before.take(base.len() as int));
            lemma_push_keeps_contents(
                before,
                LoadWarning::CgroupFailed { index: fv[i as int] },
            );
        }
        i = i + 1;
    }
    proof {
        assert forall|k: Seq<char>| #[trigger] set@.contains_key(k) implies (exists|j: int|
            0 <= j < dv.len() && dv[j] == (k, set@[k].params)) by {
            let j = choose|j: int| 0 <= j < dv.len() && dv[j].0 == k && dv[j].1 == set@[k].params;
            assert(dv[j] == (k, set@[k].params));
        }
        assert forall|j: int| 0 <= j < dv.len() implies set@.contains_key((#[trigger] dv[j]).0)
            || warnings@.contains(LoadWarning::CgroupFailed { index: j as usize }) by {
            if !set@.contains_key(dv[j].0) {
                assert(fv.contains(j as usize));
                let k = choose|k: int| 0 <= k < fv.len() && fv[k] == j as usize;
                assert(warnings@.contains(LoadWarning::CgroupFailed { index: fv[k] }));
            }
        }
    }
    (set, warnings)
}

/// Pushing onto a sequence keeps everything it contains and adds the
/// pushed item.
proof fn lemma_push_keeps_contents<T>(s: Seq<T>, x: T)
    ensures
        s.push(x).contains(x),
        forall|y: T| s.contains(y) ==> #[trigger] s.push(x).contains(y),
{
    assert(s.push(x)[s.len() as int] == x);
    assert forall|y: T| s.contains(y) implies s.push(x).contains(y) by {
        let idx = choose|idx: int| 0 <= idx < s.len() && s[idx] == y;
        assert(s.push(x)[idx] == y);
    }
}

/// How many names a list of uniquely named cgroups denotes.
pub(crate) proof fn lemma_entries_len(s: Seq<(String, Cgroup)>)
    requires
        names_unique(s),
    ensures
        entries_map(s).dom().len() == s.len(),
        entries_map(s).dom().finite(),
    decreases s.len(),
{
    if s.len() > 0 {
        assert(names_unique(s.drop_last()));
        lemma_entries_len(s.drop_last());
        lemma_entries_map_keys(s.drop_last(), s.last().0@);
        assert(!entries_map(s.drop_last()).contains_key(s.last().0@)) by {
            if entries_map(s.drop_last()).contains_key(s.last().0@) {
                let i = choose|i: int|
                    0 <= i < s.drop_last().len() && s.drop_last()[i].0@ == s.last().0@;
                assert(s[i].0@ == s[s.len() - 1].0@);
            }
        }
    }
}

/// A definition whose quota percentage lies outside [0, `QUOTA_MAX`] is
/// rejected at validation, before any kernel object exists: it spells no
/// definition, so no handle is ever created for it.
pub proof fn lemma_invalid_quota_rejected(fs: Seq<(Seq<char>, ScalarV)>)
    requires
        match spec_int_field2(fs, "CPUQuota"@, "cpu_quota"@) {
            FieldV::Val(q) => q > QUOTA_MAX || q < 0,
            _ => false,
        },
    ensures
        spec_cgroup_rec(fs) is None,
{
}

/// Re-asserting a cgroup membership that already holds changes nothing:
/// adding a task id to the asserted member set twice leaves exactly the
/// set that adding it once leaves.
pub proof fn lemma_add_task_idempotent(members: Set<int>, tid: int)
    ensures
        members.insert(tid).insert(tid) =~= members.insert(tid),
{
}

/// Re-applying a cgroup membership to the same thread is idempotent at
/// the table level: two successful applications of one thread id to one
/// named cgroup leave exactly the state one application leaves — the
/// very update `CgroupSet::apply` promises on success, taken twice.
pub proof fn lemma_membership_idempotent(
    m: Map<Seq<char>, CgroupInfo>,
    name: Seq<char>,
    tid: int,
)
    requires
        m.contains_key(name),
    ensures
        ({
            let once = m.insert(
                name,
                CgroupInfo { params: m[name].params, members: m[name].members.insert(tid) },
            );
            let twice = once.insert(
                name,
                CgroupInfo {
                    params: once[name].params,
                    members: once[name].members.insert(tid),
                },
            );
            twice =~~= once
        }),
{
    let once = m.insert(
        name,
        CgroupInfo { params: m[name].params, members: m[name].members.insert(tid) },
    );
    assert(once[name].members =~= m[name].members.insert(tid));
    assert(once[name].members.insert(tid) =~= m[name].members.insert(tid));
}

} // verus!

