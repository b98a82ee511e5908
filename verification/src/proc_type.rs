use vstd::prelude::*;
use vstd::hash_map::StringHashMap;

use crate::class::IoClass;
use crate::class::class_of_name;
use crate::class::spec_class_of_name;
use crate::parse::FieldV;
use crate::parse::JsonScalar;
use crate::parse::LineParse;
use crate::parse::LineParseV;
use crate::parse::LoadWarning;
use crate::parse::ScalarV;
use crate::parse::clone_opt_string;
use crate::parse::fields_view;
use crate::parse::get_int;
use crate::parse::get_text;
use crate::parse::get_text2;
use crate::parse::lemma_view_map_empty;
use crate::parse::lemma_view_map_insert;
use crate::parse::parse_line;
use crate::parse::spec_int_field;
use crate::parse::spec_parse_line;
use crate::parse::spec_text_field;
use crate::parse::spec_text_field2;
use crate::parse::view_map;

verus! {

/// The policy fragments loaded at startup, keyed by fragment name.
pub type TypeTable = StringHashMap<Type>;

/// Lowest accepted scheduling priority hint.
pub const NICE_MIN: i32 = -19;

/// Highest accepted scheduling priority hint.
pub const NICE_MAX: i32 = 20;

/// Highest accepted within-class I/O priority.
pub const IONICE_MAX: i64 = 7;

/// A named, reusable policy fragment: each aspect is optional, and an
/// absent aspect asserts nothing.
#[derive(Debug)]
pub struct Type {
    pub nice: Option<i32>,
    pub ioclass: Option<IoClass>,
    pub ionice: Option<u8>,
    pub cgroup: Option<String>,
}

/// Mathematical value of a `Type`.
pub struct TypeV {
    pub nice: Option<int>,
    pub ioclass: Option<IoClass>,
    pub ionice: Option<int>,
    pub cgroup: Option<Seq<char>>,
}

impl View for Type {
    type V = TypeV;

    open spec fn view(&self) -> TypeV {
        TypeV {
            nice: match self.nice {
                Some(n) => Some(n as int),
                None => None,
            },
            ioclass: self.ioclass,
            ionice: match self.ionice {
                Some(n) => Some(n as int),
                None => None,
            },
            cgroup: match self.cgroup {
                Some(ref s) => Some(s@),
                None => None,
            },
        }
    }
}

impl Clone for Type {
    fn clone(&self) -> (r: Self)
        ensures
            r == *self,
    {
        Type {
            nice: self.nice,
            ioclass: self.ioclass,
            ionice: self.ionice,
            cgroup: clone_opt_string(&self.cgroup),
        }
    }
}

/// The ranges every loaded policy fragment obeys.
pub open spec fn type_wf(t: TypeV) -> bool {
    &&& match t.nice {
        Some(n) => NICE_MIN <= n <= NICE_MAX,
        None => true,
    }
    &&& match t.ionice {
        Some(n) => 0 <= n <= IONICE_MAX,
        None => true,
    }
}

/// The `nice` field of a record: absent, or an integer in
/// [`NICE_MIN`, `NICE_MAX`]; anything else makes the record invalid.
pub open spec fn spec_nice_of(fs: Seq<(Seq<char>, ScalarV)>) -> Option<Option<int>> {
    match spec_int_field(fs, "nice"@) {
        FieldV::Missing => Some(None),
        FieldV::Bad => None,
        FieldV::Val(i) => if NICE_MIN <= i <= NICE_MAX {
            Some(Some(i))
        } else {
            None
        },
    }
}

pub(crate) fn nice_of(fields: &Vec<(String, JsonScalar)>) -> (r: Result<Option<i32>, ()>)
    ensures
        match spec_nice_of(fields_view(fields@)) {
            None => r is Err,
            Some(None) => r == Ok::<Option<i32>, ()>(None),
            Some(Some(i)) => r matches Ok(Some(v)) && v as int == i,
        },
{
    match get_int(fields, "nice") {
        Err(()) => Err(()),
        Ok(None) => Ok(None),
        Ok(Some(i)) => if (NICE_MIN as i64) <= i && i <= (NICE_MAX as i64) {
            Ok(Some(i as i32))
        } else {
            Err(())
        },
    }
}

/// The `ionice` field of a record: absent, or an integer in
/// [0, `IONICE_MAX`]; anything else makes the record invalid.
pub open spec fn spec_ionice_of(fs: Seq<(Seq<char>, ScalarV)>) -> Option<Option<int>> {
    match spec_int_field(fs, "ionice"@) {
        FieldV::Missing => Some(None),
        FieldV::Bad => None,
        FieldV::Val(i) => if 0 <= i <= IONICE_MAX {
            Some(Some(i))
        } else {
            None
        },
    }
}

pub(crate) fn ionice_of(fields: &Vec<(String, JsonScalar)>) -> (r: Result<Option<u8>, ()>)
    ensures
        match spec_ionice_of(fields_view(fields@)) {
            None => r is Err,
            Some(None) => r == Ok::<Option<u8>, ()>(None),
            Some(Some(i)) => r matches Ok(Some(v)) && v as int == i,
        },
{
    match get_int(fields, "ionice") {
        Err(()) => Err(()),
        Ok(None) => Ok(None),
        Ok(Some(i)) => if 0 <= i && i <= IONICE_MAX {
            Ok(Some(i as u8))
        } else {
            Err(())
        },
    }
}

/// The I/O class field of a record, under either accepted key: absent,
/// or one of the accepted class names; anything else makes the record
/// invalid.
pub open spec fn spec_class_of(
    fs: Seq<(Seq<char>, ScalarV)>,
    key: Seq<char>,
    alias: Seq<char>,
) -> Option<Option<IoClass>> {
    match spec_text_field2(fs, key, alias) {
        FieldV::Missing => Some(None),
        FieldV::Bad => None,
        FieldV::Val(s) => match spec_class_of_name(s) {
            Some(c) => Some(Some(c)),
            None => None,
        },
    }
}

pub(crate) fn class_of(fields: &Vec<(String, JsonScalar)>, key: &str, alias: &str) -> (r: Result<
    Option<IoClass>,
    (),
>)
    ensures
        match spec_class_of(fields_view(fields@), key@, alias@) {
            None => r is Err,
            Some(None) => r == Ok::<Option<IoClass>, ()>(None),
            Some(Some(c)) => r == Ok::<Option<IoClass>, ()>(Some(c)),
        },
{
    match get_text2(fields, key, alias) {
        Err(()) => Err(()),
        Ok(None) => Ok(None),
        Ok(Some(s)) => match class_of_name(s.as_str()) {
            Some(c) => Ok(Some(c)),
            None => Err(()),
        },
    }
}

/// The `cgroup` field of a record: absent, or the name of a cgroup;
/// anything else makes the record invalid.
pub open spec fn spec_cgroup_of(fs: Seq<(Seq<char>, ScalarV)>) -> Option<Option<Seq<char>>> {
    match spec_text_field(fs, "cgroup"@) {
        FieldV::Missing => Some(None),
        FieldV::Bad => None,
        FieldV::Val(s) => Some(Some(s)),
    }
}

pub(crate) fn cgroup_of(fields: &Vec<(String, JsonScalar)>) -> (r: Result<Option<String>, ()>)
    ensures
        match spec_cgroup_of(fields_view(fields@)) {
            None => r is Err,
            Some(None) => r == Ok::<Option<String>, ()>(None),
            Some(Some(s)) => r matches Ok(Some(v)) && v@ == s,
        },
{
    match get_text(fields, "cgroup") {
        Err(()) => Err(()),
        Ok(None) => Ok(None),
        Ok(Some(s)) => Ok(Some(s)),
    }
}

/// The policy fragment a record's fields spell, under its name, or
/// nothing if a required field is missing or any field is out of range
/// or of the wrong kind.
pub open spec fn spec_type_rec(fs: Seq<(Seq<char>, ScalarV)>) -> Option<(Seq<char>, TypeV)> {
    match spec_text_field2(fs, "name"@, "type"@) {
        FieldV::Val(name) => match (
            spec_nice_of(fs),
            spec_class_of(fs, "io-class"@, "ioclass"@),
            spec_ionice_of(fs),
            spec_cgroup_of(fs),
        ) {
            (Some(nice), Some(ioclass), Some(ionice), Some(cgroup)) => Some(
                (name, TypeV { nice, ioclass, ionice, cgroup }),
            ),
            _ => None,
        },
        _ => None,
    }
}

/// Builds one named policy fragment from a decoded record.
pub fn type_rec(fields: &Vec<(String, JsonScalar)>) -> (r: Result<(String, Type), ()>)
    ensures
        match spec_type_rec(fields_view(fields@)) {
            Some((name, t)) => r matches Ok((n, v)) && n@ == name && v@ == t,
            None => r is Err,
        },
{
    let name = match get_text2(fields, "name", "type") {
        Ok(Some(s)) => s,
        _ => return Err(()),
    };
    let nice = nice_of(fields)?;
    let ioclass = class_of(fields, "io-class", "ioclass")?;
    let ionice = ionice_of(fields)?;
    let cgroup = cgroup_of(fields)?;
    Ok((name, Type { nice, ioclass, ionice, cgroup }))
}

/// The table spelled by a sequence of `.types` configuration lines:
/// later lines win on a name collision.
pub open spec fn spec_types_table(lines: Seq<Seq<char>>) -> Map<Seq<char>, TypeV>
    decreases lines.len(),
{
    if lines.len() == 0 {
        Map::empty()
    } else {
        let m = spec_types_table(lines.drop_last());
        match spec_parse_line(lines.last()) {
            LineParseV::Fields(fs) => match spec_type_rec(fs) {
                Some((name, t)) => m.insert(name, t),
                None => m,
            },
            _ => m,
        }
    }
}

/// The diagnostics produced while loading a sequence of `.types` lines:
/// exactly one warning per malformed or invalid line, none for blank or
/// comment lines, none for loaded records.
pub open spec fn spec_types_warnings(lines: Seq<Seq<char>>) -> Seq<LoadWarning>
    decreases lines.len(),
{
    if lines.len() == 0 {
        Seq::empty()
    } else {
        let w = spec_types_warnings(lines.drop_last());
        let idx = (lines.len() - 1) as usize;
        match spec_parse_line(lines.last()) {
            LineParseV::Skipped => w,
            LineParseV::Malformed => w.push(LoadWarning::MalformedLine { line: idx }),
            LineParseV::Fields(fs) => match spec_type_rec(fs) {
                Some(_) => w,
                None => w.push(LoadWarning::InvalidLine { line: idx }),
            },
        }
    }
}

/// Every fragment in the table obeys the loaded ranges.
pub open spec fn types_table_wf(m: Map<Seq<char>, TypeV>) -> bool {
    forall|k: Seq<char>| m.contains_key(k) ==> #[trigger] type_wf(m[k])
}

/// A loaded fragment obeys the ranges.
pub proof fn lemma_type_rec_wf(fs: Seq<(Seq<char>, ScalarV)>)
    ensures
        match spec_type_rec(fs) {
            Some((_, t)) => type_wf(t),
            None => true,
        },
{
}

/// The table of a line sequence obeys the ranges.
pub proof fn lemma_types_table_wf(lines: Seq<Seq<char>>)
    ensures
        types_table_wf(spec_types_table(lines)),
    decreases lines.len(),
{
    if lines.len() > 0 {
        lemma_types_table_wf(lines.drop_last());
        match spec_parse_line(lines.last()) {
            LineParseV::Fields(fs) => {
                lemma_type_rec_wf(fs);
            },
            _ => {},
        }
    }
}

/// A blank or comment line contributes no fragment and no warning.
pub proof fn lemma_skip_line_no_effect(lines: Seq<Seq<char>>, line: Seq<char>)
    requires
        crate::parse::spec_is_skip_line(line),
    ensures
        spec_types_table(lines.push(line)) == spec_types_table(lines),
        spec_types_warnings(lines.push(line)) == spec_types_warnings(lines),
{
    assert(lines.push(line).drop_last() =~= lines);
    assert(lines.push(line).last() == line);
}

/// A malformed line produces exactly one warning, contributes no
/// fragment, and does not prevent the lines after it from loading.
pub proof fn lemma_malformed_isolated(before: Seq<Seq<char>>, bad: Seq<char>, next: Seq<char>)
    requires
        spec_parse_line(bad) is Malformed,
    ensures
        spec_types_table(before.push(bad)) == spec_types_table(before),
        spec_types_warnings(before.push(bad)) == spec_types_warnings(before).push(
            LoadWarning::MalformedLine { line: before.len() as usize },
        ),
        spec_types_table(before.push(bad).push(next)) == (match spec_parse_line(next) {
            LineParseV::Fields(fs) => match spec_type_rec(fs) {
                Some(p) => spec_types_table(before).insert(p.0, p.1),
                None => spec_types_table(before),
            },
            _ => spec_types_table(before),
        }),
{
    assert(before.push(bad).drop_last() =~= before);
    assert(before.push(bad).last() == bad);
    assert(spec_types_table(before.push(bad)) == spec_types_table(before));
    let two = before.push(bad).push(next);
    assert(two.drop_last() =~= before.push(bad));
    assert(two.last() == next);
}

/// Loads the `.types` configuration lines into a table of named policy
/// fragments, together with one diagnostic per rejected line. On a name
/// collision the later line wins and only one entry survives.
pub fn build_types(lines: &Vec<String>) -> (r: (StringHashMap<Type>, Vec<LoadWarning>))
    ensures
        view_map(r.0@) == spec_types_table(lines.deep_view()),
        r.1@ == spec_types_warnings(lines.deep_view()),
{
    let ghost lv = lines.deep_view();
    let mut table: StringHashMap<Type> = StringHashMap::new();
    let mut warnings: Vec<LoadWarning> = Vec::new();
    let n = lines.len();
    let mut i: usize = 0;
    proof {
        lemma_view_map_empty::<Type>();
        assert(lv.take(0) =~= Seq::<Seq<char>>::empty());
        assert(lv.len() == n);
    }
    while i < n
        invariant
            0 <= i <= n,
            n == lines@.len(),
            lv == lines.deep_view(),
            lv.len() == n,
            forall|j: int| 0 <= j < n ==> lv[j] == lines@[j]@,
            view_map(table@) == spec_types_table(lv.take(i as int)),
            warnings@ == spec_types_warnings(lv.take(i as int)),
        decreases n - i,
    {
        let ghost pre = lv.take(i as int);
        let ghost post = lv.take(i + 1);
        proof {
            assert(post.drop_last() =~= pre);
            assert(post.last() == lv[i as int]);
        }
        match parse_line(lines[i].as_str()) {
            LineParse::Skipped => {},
            LineParse::Malformed => {
                warnings.push(LoadWarning::MalformedLine { line: i });
            },
            LineParse::Fields(fields) => {
                match type_rec(&fields) {
                    Ok((name, t)) => {
                        proof {
                            lemma_view_map_insert(table@, name@, t);
                        }
                        table.insert(name, t);
                    },
                    Err(()) => {
                        warnings.push(LoadWarning::InvalidLine { line: i });
                    },
                }
            },
        }
        i = i + 1;
    }
    proof {
        assert(lv.take(n as int) =~= lv);
    }
    (table, warnings)
}

} // verus!
