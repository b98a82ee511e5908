use vstd::prelude::*;
use vstd::string::StringExecFns;
use vstd::string::StrSliceExecFns;

verus! {

/// A scalar field value found in one configuration line. Configuration
/// records hold only text and integer fields; anything else a line may
/// contain (arrays, objects, booleans, non-integer numbers) is `Other`
/// and makes the enclosing record invalid if one of its keys needs it.
#[derive(Debug)]
pub enum JsonScalar {
    Int(i64),
    Text(String),
    Other,
}

/// Mathematical value of one scalar field.
pub enum ScalarV {
    Int(int),
    Text(Seq<char>),
    Other,
}

impl View for JsonScalar {
    type V = ScalarV;

    open spec fn view(&self) -> ScalarV {
        match self {
            JsonScalar::Int(i) => ScalarV::Int(*i as int),
            JsonScalar::Text(s) => ScalarV::Text(s@),
            JsonScalar::Other => ScalarV::Other,
        }
    }
}

/// Mathematical value of a decoded field list.
pub open spec fn fields_view(fs: Seq<(String, JsonScalar)>) -> Seq<(Seq<char>, ScalarV)> {
    fs.map_values(|p: (String, JsonScalar)| (p.0@, p.1@))
}

/// What decoding one line of configuration text yields: the key/value
/// pairs of the object it spells, or nothing if it spells no object.
/// Decoding is a function of the characters alone.
pub uninterp spec fn json_fields_of(line: Seq<char>) -> Option<Seq<(Seq<char>, ScalarV)>>;

/// Relies on serde_json::from_str: a configuration line is one JSON
/// object per line, decoded here into plain key/value pairs. The decoded
/// value is a function of the line's characters alone; a line that is
/// not a JSON object decodes to `None`.
#[verifier::external_body]
fn decode_json_object(line: &str) -> (r: Option<Vec<(String, JsonScalar)>>)
    ensures
        match r {
            Some(fields) => json_fields_of(line@) == Some(fields_view(fields@)),
            None => json_fields_of(line@) is None,
        },
{
    let m = match serde_json::from_str(line) {
        Ok(serde_json::Value::Object(m)) => m,
        _ => return None,
    };
    let mut out = Vec::new();
    for (k, v) in m {
        out.push((k, match v {
            serde_json::Value::Number(n) => n.as_i64().map_or(JsonScalar::Other, JsonScalar::Int),
            serde_json::Value::String(s) => JsonScalar::Text(s),
            _ => JsonScalar::Other,
        }));
    }
    Some(out)
}

/// Character-for-character equality of two text slices.
pub fn str_eq(a: &str, b: &str) -> (r: bool)
    ensures
        r == (a@ == b@),
{
    let sa: String = String::from_str(a);
    let sb: String = String::from_str(b);
    sa == sb
}

/// Blank space for the purpose of line classification.
pub open spec fn spec_is_space(c: char) -> bool {
    c == ' ' || c == '\t' || c == '\r' || c == '\n'
}

fn is_space(c: char) -> (r: bool)
    ensures
        r == spec_is_space(c),
{
    c == ' ' || c == '\t' || c == '\r' || c == '\n'
}

/// A line is skipped when it holds nothing but blank space, or when its
/// first non-blank character is `#`. Skipped lines produce no record and
/// no warning.
pub open spec fn spec_is_skip_line(s: Seq<char>) -> bool
    decreases s.len(),
{
    if s.len() == 0 {
        true
    } else if spec_is_space(s[0]) {
        spec_is_skip_line(s.drop_first())
    } else {
        s[0] == '#'
    }
}

/// Classifies one line: `true` means the line carries no record.
pub fn is_skip_line(line: &str) -> (r: bool)
    ensures
        r == spec_is_skip_line(line@),
{
    let n = line.unicode_len();
    let mut i: usize = 0;
    proof {
        assert(line@.skip(0) =~= line@);
    }
    while i < n
        invariant
            0 <= i <= n,
            n == line@.len(),
            spec_is_skip_line(line@) == spec_is_skip_line(line@.skip(i as int)),
            forall|j: int| 0 <= j < i ==> spec_is_space(line@[j]),
        decreases n - i,
    {
        let c = line.get_char(i);
        if !is_space(c) {
            assert(line@.skip(i as int)[0] == c);
            return c == '#';
        }
        proof {
            assert(line@.skip(i as int).drop_first() =~= line@.skip(i + 1));
        }
        i = i + 1;
    }
    assert(line@.skip(i as int).len() == 0);
    true
}

/// The value of the first field with the given key, if any.
pub open spec fn field_lookup(fs: Seq<(Seq<char>, ScalarV)>, key: Seq<char>) -> Option<ScalarV>
    decreases fs.len(),
{
    if fs.len() == 0 {
        None
    } else if fs[0].0 == key {
        Some(fs[0].1)
    } else {
        field_lookup(fs.drop_first(), key)
    }
}

/// Finds the field with the given key in a decoded line.
pub fn lookup<'a>(fields: &'a Vec<(String, JsonScalar)>, key: &str) -> (r: Option<
    &'a JsonScalar,
>)
    ensures
        match r {
            Some(v) => field_lookup(fields_view(fields@), key@) == Some(v@),
            None => field_lookup(fields_view(fields@), key@) is None,
        },
{
    let ghost fv = fields_view(fields@);
    let n = fields.len();
    let mut i: usize = 0;
    proof {
        assert(fv.skip(0) =~= fv);
    }
    while i < n
        invariant
            0 <= i <= n,
            n == fields@.len(),
            fv == fields_view(fields@),
            fv.len() == n,
            forall|j: int| 0 <= j < fv.len() ==> fv[j] == (fields@[j].0@, fields@[j].1@),
            field_lookup(fv, key@) == field_lookup(fv.skip(i as int), key@),
            forall|j: int| 0 <= j < i ==> fv[j].0 != key@,
        decreases n - i,
    {
        if str_eq(fields[i].0.as_str(), key) {
            assert(fv.skip(i as int)[0] == fv[i as int]);
            return Some(&fields[i].1);
        }
        proof {
            assert(fv.skip(i as int)[0] == fv[i as int]);
            assert(fv.skip(i as int).drop_first() =~= fv.skip(i + 1));
        }
        i = i + 1;
    }
    assert(fv.skip(i as int).len() == 0);
    None
}

/// One field of a record: absent, present with the wrong kind of value,
/// or present with a usable value.
pub enum FieldV<T> {
    Missing,
    Bad,
    Val(T),
}

/// The text field under the given key.
pub open spec fn spec_text_field(fs: Seq<(Seq<char>, ScalarV)>, key: Seq<char>) -> FieldV<
    Seq<char>,
> {
    match field_lookup(fs, key) {
        None => FieldV::Missing,
        Some(ScalarV::Text(s)) => FieldV::Val(s),
        Some(_) => FieldV::Bad,
    }
}

/// The integer field under the given key.
pub open spec fn spec_int_field(fs: Seq<(Seq<char>, ScalarV)>, key: Seq<char>) -> FieldV<int> {
    match field_lookup(fs, key) {
        None => FieldV::Missing,
        Some(ScalarV::Int(i)) => FieldV::Val(i),
        Some(_) => FieldV::Bad,
    }
}

/// A field that may stand under either of two keys; the first key wins.
pub open spec fn spec_text_field2(
    fs: Seq<(Seq<char>, ScalarV)>,
    key: Seq<char>,
    alias: Seq<char>,
) -> FieldV<Seq<char>> {
    match spec_text_field(fs, key) {
        FieldV::Missing => spec_text_field(fs, alias),
        r => r,
    }
}

/// As `spec_text_field2`, for integer fields.
pub open spec fn spec_int_field2(
    fs: Seq<(Seq<char>, ScalarV)>,
    key: Seq<char>,
    alias: Seq<char>,
) -> FieldV<int> {
    match spec_int_field(fs, key) {
        FieldV::Missing => spec_int_field(fs, alias),
        r => r,
    }
}

/// Reads the text field under the given key: `Ok(None)` when absent,
/// `Err` when present but not text.
pub fn get_text(fields: &Vec<(String, JsonScalar)>, key: &str) -> (r: Result<Option<String>, ()>)
    ensures
        match spec_text_field(fields_view(fields@), key@) {
            FieldV::Missing => r == Ok::<Option<String>, ()>(None),
            FieldV::Bad => r is Err,
            FieldV::Val(s) => r matches Ok(Some(v)) && v@ == s,
        },
{
    match lookup(fields, key) {
        None => Ok(None),
        Some(JsonScalar::Text(s)) => Ok(Some(s.clone())),
        Some(_) => Err(()),
    }
}

/// Reads the integer field under the given key: `Ok(None)` when absent,
/// `Err` when present but not an integer.
pub fn get_int(fields: &Vec<(String, JsonScalar)>, key: &str) -> (r: Result<Option<i64>, ()>)
    ensures
        match spec_int_field(fields_view(fields@), key@) {
            FieldV::Missing => r == Ok::<Option<i64>, ()>(None),
            FieldV::Bad => r is Err,
            FieldV::Val(i) => r matches Ok(Some(v)) && v as int == i,
        },
{
    match lookup(fields, key) {
        None => Ok(None),
        Some(JsonScalar::Int(i)) => Ok(Some(*i)),
        Some(_) => Err(()),
    }
}

/// As `get_text`, for a field that may stand under either of two keys.
pub fn get_text2(fields: &Vec<(String, JsonScalar)>, key: &str, alias: &str) -> (r: Result<
    Option<String>,
    (),
>)
    ensures
        match spec_text_field2(fields_view(fields@), key@, alias@) {
            FieldV::Missing => r == Ok::<Option<String>, ()>(None),
            FieldV::Bad => r is Err,
            FieldV::Val(s) => r matches Ok(Some(v)) && v@ == s,
        },
{
    match lookup(fields, key) {
        None => get_text(fields, alias),
        Some(JsonScalar::Text(s)) => Ok(Some(s.clone())),
        Some(_) => Err(()),
    }
}

/// As `get_int`, for a field that may stand under either of two keys.
pub fn get_int2(fields: &Vec<(String, JsonScalar)>, key: &str, alias: &str) -> (r: Result<
    Option<i64>,
    (),
>)
    ensures
        match spec_int_field2(fields_view(fields@), key@, alias@) {
            FieldV::Missing => r == Ok::<Option<i64>, ()>(None),
            FieldV::Bad => r is Err,
            FieldV::Val(i) => r matches Ok(Some(v)) && v as int == i,
        },
{
    match lookup(fields, key) {
        None => get_int(fields, alias),
        Some(JsonScalar::Int(i)) => Ok(Some(*i)),
        Some(_) => Err(()),
    }
}

/// Clones an optional owned string.
pub fn clone_opt_string(s: &Option<String>) -> (r: Option<String>)
    ensures
        r == *s,
{
    match s {
        Some(x) => Some(x.clone()),
        None => None,
    }
}

/// One diagnostic produced while loading configuration lines, by the
/// zero-based index of the offending line.
#[derive(Clone, Copy, Debug, PartialEq, Eq, Structural)]
pub enum LoadWarning {
    /// The line is neither blank, a comment, nor a record.
    MalformedLine { line: usize },
    /// The line is a record, but one of its fields is out of range or of
    /// the wrong kind, or a required field is missing.
    InvalidLine { line: usize },
    /// The validated cgroup definition at this position could not be
    /// created in the kernel; it is dropped from the live table.
    CgroupFailed { index: usize },
}

/// A string-keyed map, with each value replaced by its mathematical
/// value.
pub open spec fn view_map<V: View>(m: Map<Seq<char>, V>) -> Map<Seq<char>, V::V> {
    m.map_values(|v: V| v@)
}

/// Inserting into a map and then abstracting its values is the same as
/// abstracting first and inserting the abstracted value.
pub proof fn lemma_view_map_insert<V: View>(m: Map<Seq<char>, V>, k: Seq<char>, v: V)
    ensures
        view_map(m.insert(k, v)) =~= view_map(m).insert(k, v@),
{
}

/// The abstraction of the empty map is empty.
pub proof fn lemma_view_map_empty<V: View>()
    ensures
        view_map(Map::<Seq<char>, V>::empty()) =~= Map::<Seq<char>, V::V>::empty(),
{
}

/// A key maps to an abstracted value exactly when it maps to the
/// underlying value.
pub proof fn lemma_view_map_get<V: View>(m: Map<Seq<char>, V>, k: Seq<char>)
    ensures
        view_map(m).contains_key(k) == m.contains_key(k),
        m.contains_key(k) ==> view_map(m)[k] == m[k]@,
{
}

/// What one configuration line contributes: nothing (blank or comment),
/// a warning (text that decodes to no record), or the record's fields.
#[derive(Debug)]
pub enum LineParse {
    Skipped,
    Malformed,
    Fields(Vec<(String, JsonScalar)>),
}

/// Mathematical value of one line's contribution.
pub enum LineParseV {
    Skipped,
    Malformed,
    Fields(Seq<(Seq<char>, ScalarV)>),
}

impl View for LineParse {
    type V = LineParseV;

    open spec fn view(&self) -> LineParseV {
        match self {
            LineParse::Skipped => LineParseV::Skipped,
            LineParse::Malformed => LineParseV::Malformed,
            LineParse::Fields(fs) => LineParseV::Fields(fields_view(fs@)),
        }
    }
}

/// The contribution of one line of configuration text.
pub open spec fn spec_parse_line(line: Seq<char>) -> LineParseV {
    if spec_is_skip_line(line) {
        LineParseV::Skipped
    } else {
        match json_fields_of(line) {
            Some(fs) => LineParseV::Fields(fs),
            None => LineParseV::Malformed,
        }
    }
}

/// Parses one line of configuration text. A blank line and a comment
/// line are skipped; any other line either decodes to a record's fields
/// or is malformed, and a malformed line never affects its neighbours.
pub fn parse_line(line: &str) -> (r: LineParse)
    ensures
        r@ == spec_parse_line(line@),
{
    if is_skip_line(line) {
        LineParse::Skipped
    } else {
        match decode_json_object(line) {
            Some(fields) => LineParse::Fields(fields),
            None => LineParse::Malformed,
        }
    }
}

/// Parses a sequence of configuration lines, one by one and
/// independently: line `i` of the result is exactly the contribution of
/// line `i` of the input.
pub fn parse(lines: &Vec<String>) -> (r: Vec<LineParse>)
    ensures
        r@.len() == lines@.len(),
        forall|i: int| 0 <= i < r@.len() ==> #[trigger] r@[i]@ == spec_parse_line(lines@[i]@),
{
    let n = lines.len();
    let mut out: Vec<LineParse> = Vec::new();
    let mut i: usize = 0;
    while i < n
        invariant
            0 <= i <= n,
            n == lines@.len(),
            out@.len() == i,
            forall|j: int| 0 <= j < i ==> #[trigger] out@[j]@ == spec_parse_line(lines@[j]@),
        decreases n - i,
    {
        out.push(parse_line(lines[i].as_str()));
        i = i + 1;
    }
    out
}

} // verus!
