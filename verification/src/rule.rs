use vstd::prelude::*;
use vstd::hash_map::StringHashMap;

use crate::class::IoClass;
use crate::parse::FieldV;
use crate::parse::JsonScalar;
use crate::parse::LineParse;
use crate::parse::LineParseV;
use crate::parse::LoadWarning;
use crate::parse::ScalarV;
use crate::parse::clone_opt_string;
use crate::parse::fields_view;
use crate::parse::get_text;
use crate::parse::lemma_view_map_empty;
use crate::parse::lemma_view_map_get;
use crate::parse::lemma_view_map_insert;
use crate::parse::parse_line;
use crate::parse::spec_parse_line;
use crate::parse::spec_text_field;
use crate::parse::view_map;
use crate::proc_type::Type;
use crate::proc_type::TypeV;
use crate::proc_type::cgroup_of;
use crate::proc_type::class_of;
use crate::proc_type::ionice_of;
use crate::proc_type::nice_of;
use crate::proc_type::spec_cgroup_of;
use crate::proc_type::spec_class_of;
use crate::proc_type::spec_ionice_of;
use crate::proc_type::spec_nice_of;
use crate::proc_type::type_wf;

verus! {

/// The rules loaded at startup, keyed by executable basename.
pub type RuleTable = StringHashMap<Rule>;

/// A policy rule, keyed in its table by executable basename: an optional
/// policy fragment it references, resolved at load time, and its own
/// optional overrides for the same four aspects.
#[derive(Debug)]
pub struct Rule {
    pub proc_type: Option<Type>,
    pub nice: Option<i32>,
    pub io_class: Option<IoClass>,
    pub ionice: Option<u8>,
    pub cgroup: Option<String>,
}

/// Mathematical value of a `Rule`.
pub struct RuleV {
    pub proc_type: Option<TypeV>,
    pub nice: Option<int>,
    pub io_class: Option<IoClass>,
    pub ionice: Option<int>,
    pub cgroup: Option<Seq<char>>,
}

impl View for Rule {
    type V = RuleV;

    open spec fn view(&self) -> RuleV {
        RuleV {
            proc_type: match self.proc_type {
                Some(ref t) => Some(t@),
                None => None,
            },
            nice: match self.nice {
                Some(n) => Some(n as int),
                None => None,
            },
            io_class: self.io_class,
            ionice: match self.ionice {
                Some(n) => Some(n as int),
                None => None,
            },
            cgroup: match self.cgroup {
                Some(ref s) => Some(s@),
                None => None,
            },
        }
    }
}

/// The ranges every loaded rule obeys, its referenced fragment included.
pub open spec fn rule_wf(r: RuleV) -> bool {
    &&& match r.nice {
        Some(n) => crate::proc_type::NICE_MIN <= n <= crate::proc_type::NICE_MAX,
        None => true,
    }
    &&& match r.ionice {
        Some(n) => 0 <= n <= crate::proc_type::IONICE_MAX,
        None => true,
    }
    &&& match r.proc_type {
        Some(t) => type_wf(t),
        None => true,
    }
}

/// The field-wise merge of a rule over its referenced policy fragment:
/// for each aspect, the rule's own value if present, else the fragment's
/// value, else unset.
#[derive(Debug)]
pub struct EffectivePolicy {
    pub nice: Option<i32>,
    pub io_class: Option<IoClass>,
    pub ionice: Option<u8>,
    pub cgroup: Option<String>,
}

/// Mathematical value of an `EffectivePolicy`.
pub struct PolicyV {
    pub nice: Option<int>,
    pub io_class: Option<IoClass>,
    pub ionice: Option<int>,
    pub cgroup: Option<Seq<char>>,
}

impl View for EffectivePolicy {
    type V = PolicyV;

    open spec fn view(&self) -> PolicyV {
        PolicyV {
            nice: match self.nice {
                Some(n) => Some(n as int),
                None => None,
            },
            io_class: self.io_class,
            ionice: match self.ionice {
                Some(n) => Some(n as int),
                None => None,
            },
            cgroup: match self.cgroup {
                Some(ref s) => Some(s@),
                None => None,
            },
        }
    }
}

/// The policy a rule resolves to: rule's value if present, else the
/// referenced fragment's value, else unset — aspect by aspect.
pub open spec fn spec_resolve(r: RuleV) -> PolicyV {
    PolicyV {
        nice: if r.nice is Some {
            r.nice
        } else {
            match r.proc_type {
                Some(t) => t.nice,
                None => None,
            }
        },
        io_class: if r.io_class is Some {
            r.io_class
        } else {
            match r.proc_type {
                Some(t) => t.ioclass,
                None => None,
            }
        },
        ionice: if r.ionice is Some {
            r.ionice
        } else {
            match r.proc_type {
                Some(t) => t.ionice,
                None => None,
            }
        },
        cgroup: if r.cgroup is Some {
            r.cgroup
        } else {
            match r.proc_type {
                Some(t) => t.cgroup,
                None => None,
            }
        },
    }
}

/// A resolved policy obeys the ranges of the rule it came from.
pub proof fn lemma_resolve_wf(r: RuleV)
    requires
        rule_wf(r),
    ensures
        match spec_resolve(r).nice {
            Some(n) => crate::proc_type::NICE_MIN <= n <= crate::proc_type::NICE_MAX,
            None => true,
        },
        match spec_resolve(r).ionice {
            Some(n) => 0 <= n <= crate::proc_type::IONICE_MAX,
            None => true,
        },
{
}

impl Rule {
    /// Merges this rule over its referenced policy fragment. For every
    /// aspect — nice, io class, ionice priority, cgroup — the result is
    /// the rule's own value if present, else the fragment's value if the
    /// rule references a fragment that has one, else unset.
    pub fn resolve(&self) -> (p: EffectivePolicy)
        ensures
            p@ == spec_resolve(self@),
            p@.nice == (if self@.nice is Some {
                self@.nice
            } else {
                match self@.proc_type {
                    Some(t) => t.nice,
                    None => None,
                }
            }),
            p@.io_class == (if self@.io_class is Some {
                self@.io_class
            } else {
                match self@.proc_type {
                    Some(t) => t.ioclass,
                    None => None,
                }
            }),
            p@.ionice == (if self@.ionice is Some {
                self@.ionice
            } else {
                match self@.proc_type {
                    Some(t) => t.ionice,
                    None => None,
                }
            }),
            p@.cgroup == (if self@.cgroup is Some {
                self@.cgroup
            } else {
                match self@.proc_type {
                    Some(t) => t.cgroup,
                    None => None,
                }
            }),
    {
        let nice: Option<i32> = match self.nice {
            Some(n) => Some(n),
            None => match &self.proc_type {
                Some(t) => t.nice,
                None => None,
            },
        };
        let io_class: Option<IoClass> = match self.io_class {
            Some(c) => Some(c),
            None => match &self.proc_type {
                Some(t) => t.ioclass,
                None => None,
            },
        };
        let ionice: Option<u8> = match self.ionice {
            Some(n) => Some(n),
            None => match &self.proc_type {
                Some(t) => t.ionice,
                None => None,
            },
        };
        let cgroup: Option<String> = match &self.cgroup {
            Some(s) => Some(s.clone()),
            None => match &self.proc_type {
                Some(t) => clone_opt_string(&t.cgroup),
                None => None,
            },
        };
        EffectivePolicy { nice, io_class, ionice, cgroup }
    }

    /// The name of the cgroup this rule resolves to, if any.
    pub fn cgroup_name(&self) -> (r: Option<&String>)
        ensures
            match r {
                Some(s) => spec_resolve(self@).cgroup == Some(s@),
                None => spec_resolve(self@).cgroup is None,
            },
    {
        match &self.cgroup {
            Some(s) => Some(s),
            None => match &self.proc_type {
                Some(t) => match &t.cgroup {
                    Some(s) => Some(s),
                    None => None,
                },
                None => None,
            },
        }
    }
}

/// The priority syscall owed to one thread: set the scheduling priority
/// of the schedulable entity `tid` to `nice`. The caller performing it
/// reports back the resulting error number (0 for success), which
/// `priority_outcome` classifies.
#[derive(Clone, Copy, Debug, PartialEq, Eq, Structural)]
pub struct PriorityCall {
    pub tid: i32,
    pub nice: i32,
}

/// One invocation of the external `ionice` helper owed to one thread:
/// class ordinal `class_ord`, optional within-class priority `prio`
/// (only ever present for the best-effort and real-time classes), target
/// thread `tid`. The caller performing it reports back whether the
/// helper exited successfully, which `ionice_outcome` classifies.
#[derive(Clone, Copy, Debug, PartialEq, Eq, Structural)]
pub struct IoniceCall {
    pub tid: i32,
    pub class_ord: u8,
    pub prio: Option<u8>,
}

/// Why applying one aspect of a policy to one thread failed.
#[derive(Clone, Copy, Debug, PartialEq, Eq, Structural)]
pub enum ApplyError {
    /// The target exited between scan and apply: benign, logged at low
    /// severity, never escalated.
    NotFound,
    /// Insufficient privilege, or a nice value past the resource limit:
    /// logged, the tick continues.
    PermissionDenied,
    /// The priority syscall reported an error number its documentation
    /// does not allow here: a defect, the daemon aborts.
    Unexpected(i32),
    /// The `ionice` helper exited with a non-zero status, commonly
    /// because the target is gone: logged, the tick continues.
    HelperFailed,
    /// A thread id that cannot name a cgroup task: logged, the tick
    /// continues.
    BadTid,
    /// The kernel refused to add the task to the cgroup: logged, the
    /// tick continues.
    CgroupAddFailed,
}

/// Linux error number for an operation not permitted.
pub const ERRNO_EPERM: i32 = 1;

/// Linux error number for a process that does not exist.
pub const ERRNO_ESRCH: i32 = 3;

/// Linux error number for permission denied.
pub const ERRNO_EACCES: i32 = 13;

/// Mathematical value of an optional priority argument.
pub open spec fn opt_u8_v(o: Option<u8>) -> Option<int> {
    match o {
        Some(n) => Some(n as int),
        None => None,
    }
}

/// How the priority syscall's outcome is classified: no error is
/// success; the target being gone is benign; the two privilege errors
/// are tolerated; any other error number is a defect.
pub open spec fn spec_priority_outcome(errno: i32) -> Result<(), ApplyError> {
    if errno == 0 {
        Ok(())
    } else if errno == ERRNO_ESRCH {
        Err(ApplyError::NotFound)
    } else if errno == ERRNO_EACCES || errno == ERRNO_EPERM {
        Err(ApplyError::PermissionDenied)
    } else {
        Err(ApplyError::Unexpected(errno))
    }
}

/// Classifies the error number the priority syscall left behind (0 when
/// it succeeded).
pub fn priority_outcome(errno: i32) -> (r: Result<(), ApplyError>)
    ensures
        r == spec_priority_outcome(errno),
{
    if errno == 0 {
        Ok(())
    } else if errno == ERRNO_ESRCH {
        Err(ApplyError::NotFound)
    } else if errno == ERRNO_EACCES || errno == ERRNO_EPERM {
        Err(ApplyError::PermissionDenied)
    } else {
        Err(ApplyError::Unexpected(errno))
    }
}

/// Classifies the exit of the `ionice` helper: a non-zero status is a
/// tolerated per-thread failure.
pub fn ionice_outcome(exited_ok: bool) -> (r: Result<(), ApplyError>)
    ensures
        r == if exited_ok {
            Ok::<(), ApplyError>(())
        } else {
            Err::<(), ApplyError>(ApplyError::HelperFailed)
        },
{
    if exited_ok {
        Ok(())
    } else {
        Err(ApplyError::HelperFailed)
    }
}

/// Whether a failure is a defect that must abort the daemon rather than
/// a runtime condition to tolerate.
pub fn is_fatal(e: &ApplyError) -> (r: bool)
    ensures
        r == (e is Unexpected),
{
    match e {
        ApplyError::Unexpected(_) => true,
        _ => false,
    }
}

impl EffectivePolicy {
    /// The priority syscall this policy owes the given thread: one call
    /// exactly when the policy resolves a nice value, with that value.
    pub fn priority_call(&self, tid: i32) -> (r: Option<PriorityCall>)
        ensures
            match self@.nice {
                Some(n) => r matches Some(c) && c.tid == tid && c.nice as int == n,
                None => r is None,
            },
    {
        match self.nice {
            Some(n) => Some(PriorityCall { tid, nice: n }),
            None => None,
        }
    }

    /// The `ionice` invocation this policy owes the given thread: one
    /// invocation exactly when the policy resolves an I/O class, with
    /// that class's ordinal, and with the resolved within-class priority
    /// only for the best-effort and real-time classes.
    pub fn ionice_call(&self, tid: i32) -> (r: Option<IoniceCall>)
        ensures
            match self@.io_class {
                None => r is None,
                Some(c) => r matches Some(cmd) && cmd.tid == tid && cmd.class_ord
                    == c.spec_ordinal() && opt_u8_v(cmd.prio) == (if c is Idle {
                    None
                } else {
                    self@.ionice
                }),
            },
    {
        match self.io_class {
            None => None,
            Some(c) => {
                let prio: Option<u8> = match c {
                    IoClass::BestEffort | IoClass::RealTime => self.ionice,
                    IoClass::Idle => None,
                };
                Some(IoniceCall { tid, class_ord: c.ordinal(), prio })
            },
        }
    }
}

impl Rule {
    /// The priority syscall this rule owes the given thread, under the
    /// rule-over-fragment resolution.
    pub fn apply_nice(&self, tid: i32) -> (r: Option<PriorityCall>)
        ensures
            match spec_resolve(self@).nice {
                Some(n) => r matches Some(c) && c.tid == tid && c.nice as int == n,
                None => r is None,
            },
    {
        self.resolve().priority_call(tid)
    }

    /// The `ionice` invocation this rule owes the given thread, under
    /// the rule-over-fragment resolution.
    pub fn apply_io(&self, tid: i32) -> (r: Option<IoniceCall>)
        ensures
            match spec_resolve(self@).io_class {
                None => r is None,
                Some(c) => r matches Some(cmd) && cmd.tid == tid && cmd.class_ord
                    == c.spec_ordinal() && opt_u8_v(cmd.prio) == (if c is Idle {
                    None
                } else {
                    spec_resolve(self@).ionice
                }),
            },
    {
        self.resolve().ionice_call(tid)
    }

    /// Both per-thread operations this rule owes the given thread: the
    /// priority syscall and the `ionice` invocation, each present
    /// exactly when the resolved policy has that aspect.
    pub fn apply(&self, tid: i32) -> (r: (Option<PriorityCall>, Option<IoniceCall>))
        ensures
            match spec_resolve(self@).nice {
                Some(n) => r.0 matches Some(c) && c.tid == tid && c.nice as int == n,
                None => r.0 is None,
            },
            match spec_resolve(self@).io_class {
                None => r.1 is None,
                Some(c) => r.1 matches Some(cmd) && cmd.tid == tid && cmd.class_ord
                    == c.spec_ordinal() && opt_u8_v(cmd.prio) == (if c is Idle {
                    None
                } else {
                    spec_resolve(self@).ionice
                }),
            },
    {
        (self.apply_nice(tid), self.apply_io(tid))
    }
}

/// The rule a record's fields spell, under its basename key, given the
/// loaded policy fragments; or nothing if the required name is missing
/// or any field is out of range or of the wrong kind. A reference to an
/// unknown fragment name is kept as no fragment: the rule still resolves
/// from its own fields.
pub open spec fn spec_rule_rec(
    fs: Seq<(Seq<char>, ScalarV)>,
    types: Map<Seq<char>, TypeV>,
) -> Option<(Seq<char>, RuleV)> {
    match spec_text_field(fs, "name"@) {
        FieldV::Val(name) => {
            let proc_type = match spec_text_field(fs, "type"@) {
                FieldV::Missing => Some(None),
                FieldV::Bad => None,
                FieldV::Val(tn) => if types.contains_key(tn) {
                    Some(Some(types[tn]))
                } else {
                    Some(None)
                },
            };
            match (
                proc_type,
                spec_nice_of(fs),
                spec_class_of(fs, "io-class"@, "io_class"@),
                spec_ionice_of(fs),
                spec_cgroup_of(fs),
            ) {
                (Some(proc_type), Some(nice), Some(io_class), Some(ionice), Some(cgroup)) => Some(
                    (name, RuleV { proc_type, nice, io_class, ionice, cgroup }),
                ),
                _ => None,
            }
        },
        _ => None,
    }
}

/// Builds one rule from a decoded record, resolving its fragment
/// reference against the loaded fragments.
pub fn rule_rec(fields: &Vec<(String, JsonScalar)>, types: &StringHashMap<Type>) -> (r: Result<
    (String, Rule),
    (),
>)
    ensures
        match spec_rule_rec(fields_view(fields@), view_map(types@)) {
            Some((name, v)) => r matches Ok((n, out)) && n@ == name && out@ == v,
            None => r is Err,
        },
{
    let name = match get_text(fields, "name") {
        Ok(Some(s)) => s,
        _ => return Err(()),
    };
    let proc_type: Option<Type> = match get_text(fields, "type") {
        Err(()) => return Err(()),
        Ok(None) => None,
        Ok(Some(tn)) => match types.get(tn.as_str()) {
            Some(t) => {
                proof {
                    lemma_view_map_get(types@, tn@);
                }
                Some(t.clone())
            },
            None => {
                proof {
                    lemma_view_map_get(types@, tn@);
                }
                None
            },
        },
    };
    let nice = nice_of(fields)?;
    let io_class = class_of(fields, "io-class", "io_class")?;
    let ionice = ionice_of(fields)?;
    let cgroup = cgroup_of(fields)?;
    Ok((name, Rule { proc_type, nice, io_class, ionice, cgroup }))
}

/// The table spelled by a sequence of `.rules` configuration lines,
/// given the loaded policy fragments: later lines win on a basename
/// collision and only one entry survives.
pub open spec fn spec_rules_table(
    lines: Seq<Seq<char>>,
    types: Map<Seq<char>, TypeV>,
) -> Map<Seq<char>, RuleV>
    decreases lines.len(),
{
    if lines.len() == 0 {
        Map::empty()
    } else {
        let m = spec_rules_table(lines.drop_last(), types);
        match spec_parse_line(lines.last()) {
            LineParseV::Fields(fs) => match spec_rule_rec(fs, types) {
                Some((name, v)) => m.insert(name, v),
                None => m,
            },
            _ => m,
        }
    }
}

/// The diagnostics produced while loading a sequence of `.rules` lines:
/// exactly one warning per malformed or invalid line, none otherwise.
pub open spec fn spec_rules_warnings(
    lines: Seq<Seq<char>>,
    types: Map<Seq<char>, TypeV>,
) -> Seq<LoadWarning>
    decreases lines.len(),
{
    if lines.len() == 0 {
        Seq::empty()
    } else {
        let w = spec_rules_warnings(lines.drop_last(), types);
        let idx = (lines.len() - 1) as usize;
        match spec_parse_line(lines.last()) {
            LineParseV::Skipped => w,
            LineParseV::Malformed => w.push(LoadWarning::MalformedLine { line: idx }),
            LineParseV::Fields(fs) => match spec_rule_rec(fs, types) {
                Some(_) => w,
                None => w.push(LoadWarning::InvalidLine { line: idx }),
            },
        }
    }
}

/// Every rule in the table obeys the loaded ranges.
pub open spec fn rules_table_wf(m: Map<Seq<char>, RuleV>) -> bool {
    forall|k: Seq<char>| m.contains_key(k) ==> #[trigger] rule_wf(m[k])
}

/// A loaded rule obeys the ranges, provided the fragments it may
/// reference do.
pub proof fn lemma_rule_rec_wf(fs: Seq<(Seq<char>, ScalarV)>, types: Map<Seq<char>, TypeV>)
    requires
        crate::proc_type::types_table_wf(types),
    ensures
        match spec_rule_rec(fs, types) {
            Some((_, r)) => rule_wf(r),
            None => true,
        },
{
}

/// The rule table of a line sequence obeys the ranges, provided the
/// fragment table does.
pub proof fn lemma_rules_table_wf(lines: Seq<Seq<char>>, types: Map<Seq<char>, TypeV>)
    requires
        crate::proc_type::types_table_wf(types),
    ensures
        rules_table_wf(spec_rules_table(lines, types)),
    decreases lines.len(),
{
    if lines.len() > 0 {
        lemma_rules_table_wf(lines.drop_last(), types);
        match spec_parse_line(lines.last()) {
            LineParseV::Fields(fs) => {
                lemma_rule_rec_wf(fs, types);
            },
            _ => {},
        }
    }
}

/// The rule one line contributes, if it is a well-formed rule record.
pub open spec fn spec_line_rule(line: Seq<char>, types: Map<Seq<char>, TypeV>) -> Option<
    (Seq<char>, RuleV),
> {
    match spec_parse_line(line) {
        LineParseV::Fields(fs) => spec_rule_rec(fs, types),
        _ => None,
    }
}

/// The later-loaded rule wins: when line `j` spells a rule and no later
/// line spells a rule under the same basename, the table binds that
/// basename to line `j`'s rule — exactly one entry survives a collision.
pub proof fn lemma_later_rule_wins(
    lines: Seq<Seq<char>>,
    types: Map<Seq<char>, TypeV>,
    j: int,
    name: Seq<char>,
    r: RuleV,
)
    requires
        0 <= j < lines.len(),
        spec_line_rule(lines[j], types) == Some((name, r)),
        forall|k: int|
            j < k < lines.len() ==> match spec_line_rule(#[trigger] lines[k], types) {
                Some(p) => p.0 != name,
                None => true,
            },
    ensures
        spec_rules_table(lines, types).contains_key(name),
        spec_rules_table(lines, types)[name] == r,
    decreases lines.len(),
{
    if j == lines.len() - 1 {
        assert(lines.last() == lines[j]);
    } else {
        assert(forall|k: int| 0 <= k < lines.len() - 1 ==> lines.drop_last()[k] == lines[k]);
        lemma_later_rule_wins(lines.drop_last(), types, j, name, r);
        assert(lines.last() == lines[lines.len() - 1]);
        match spec_line_rule(lines[lines.len() - 1], types) {
            Some(p) => {
                assert(p.0 != name);
            },
            None => {},
        }
    }
}

/// A blank or comment line contributes no table entry and no warning.
pub proof fn lemma_skip_line_no_effect(
    lines: Seq<Seq<char>>,
    line: Seq<char>,
    types: Map<Seq<char>, TypeV>,
)
    requires
        crate::parse::spec_is_skip_line(line),
    ensures
        spec_rules_table(lines.push(line), types) == spec_rules_table(lines, types),
        spec_rules_warnings(lines.push(line), types) == spec_rules_warnings(lines, types),
{
    assert(lines.push(line).drop_last() =~= lines);
    assert(lines.push(line).last() == line);
}

/// A malformed line produces exactly one warning, contributes no table
/// entry, and does not prevent the lines after it from parsing: the next
/// line lands in the table exactly as it would have without it.
pub proof fn lemma_malformed_isolated(
    before: Seq<Seq<char>>,
    bad: Seq<char>,
    next: Seq<char>,
    types: Map<Seq<char>, TypeV>,
)
    requires
        spec_parse_line(bad) is Malformed,
    ensures
        spec_rules_table(before.push(bad), types) == spec_rules_table(before, types),
        spec_rules_warnings(before.push(bad), types) == spec_rules_warnings(before, types).push(
            LoadWarning::MalformedLine { line: before.len() as usize },
        ),
        spec_rules_table(before.push(bad).push(next), types) == (match spec_line_rule(
            next,
            types,
        ) {
            Some(p) => spec_rules_table(before, types).insert(p.0, p.1),
            None => spec_rules_table(before, types),
        }),
{
    assert(before.push(bad).drop_last() =~= before);
    assert(before.push(bad).last() == bad);
    assert(spec_rules_table(before.push(bad), types) == spec_rules_table(before, types));
    let two = before.push(bad).push(next);
    assert(two.drop_last() =~= before.push(bad));
    assert(two.last() == next);
    assert(spec_rules_table(two, types) == match spec_parse_line(next) {
        LineParseV::Fields(fs) => match spec_rule_rec(fs, types) {
            Some(p) => spec_rules_table(before.push(bad), types).insert(p.0, p.1),
            None => spec_rules_table(before.push(bad), types),
        },
        _ => spec_rules_table(before.push(bad), types),
    });
}

/// Loads the `.rules` configuration lines into a table of rules keyed by
/// executable basename, resolving fragment references against the loaded
/// fragments, together with one diagnostic per rejected line.
pub fn parse_rules(lines: &Vec<String>, types: &StringHashMap<Type>) -> (r: (
    StringHashMap<Rule>,
    Vec<LoadWarning>,
))
    ensures
        view_map(r.0@) == spec_rules_table(lines.deep_view(), view_map(types@)),
        r.1@ == spec_rules_warnings(lines.deep_view(), view_map(types@)),
{
    let ghost lv = lines.deep_view();
    let ghost tv = view_map(types@);
    let mut table: StringHashMap<Rule> = StringHashMap::new();
    let mut warnings: Vec<LoadWarning> = Vec::new();
    let n = lines.len();
    let mut i: usize = 0;
    proof {
        lemma_view_map_empty::<Rule>();
        assert(lv.take(0) =~= Seq::<Seq<char>>::empty());
        assert(lv.len() == n);
    }
    while i < n
        invariant
            0 <= i <= n,
            n == lines@.len(),
            lv == lines.deep_view(),
            tv == view_map(types@),
            lv.len() == n,
            forall|j: int| 0 <= j < n ==> lv[j] == lines@[j]@,
            view_map(table@) == spec_rules_table(lv.take(i as int), tv),
            warnings@ == spec_rules_warnings(lv.take(i as int), tv),
        decreases n - i,
    {
        let ghost pre = lv.take(i as int);
        let ghost post = lv.take(i + 1);
        proof {
            assert(post.drop_last() =~= pre);
            assert(post.last() == lv[i as int]);
        }
        match parse_line(lines[i].as_str()) {
            LineParse::Skipped => {},
            LineParse::Malformed => {
                warnings.push(LoadWarning::MalformedLine { line: i });
            },
            LineParse::Fields(fields) => {
                match rule_rec(&fields, types) {
                    Ok((name, rule)) => {
                        proof {
                            lemma_view_map_insert(table@, name@, rule);
                        }
                        table.insert(name, rule);
                    },
                    Err(()) => {
                        warnings.push(LoadWarning::InvalidLine { line: i });
                    },
                }
            },
        }
        i = i + 1;
    }
    proof {
        assert(lv.take(n as int) =~= lv);
    }
    (table, warnings)
}

} // verus!
