//! The profile sample model and its reconstruction from pprof data.
//!
//! A pprof profile stores strings once, in a string table, and refers to
//! them — and to mappings, functions and locations — by numeric ids. This
//! module defines the resolved sample model (strings in place of ids) and
//! the fetch functions that rebuild it, failing exactly when an id resolves
//! to nothing. Times are carried as plain nanosecond counts.

use vstd::prelude::*;

verus! {

/// Why a pprof id could not be resolved.
#[derive(Clone, Copy, Debug, PartialEq, Eq, Structural)]
pub enum ProfileError {
    StringNotFound,
    MappingNotFound,
    FunctionNotFound,
    LocationNotFound,
}

/// A value type of the raw profile: string-table ids.
#[derive(Clone, Copy, Debug, PartialEq, Eq, Structural)]
pub struct PprofValueType {
    pub typ: i64,
    pub unit: i64,
}

/// A mapping of the raw profile.
#[derive(Clone, Copy, Debug, PartialEq, Eq, Structural)]
pub struct PprofMapping {
    pub id: u64,
    pub memory_start: u64,
    pub memory_limit: u64,
    pub file_offset: u64,
    pub filename: i64,
    pub build_id: i64,
}

/// A function of the raw profile.
#[derive(Clone, Copy, Debug, PartialEq, Eq, Structural)]
pub struct PprofFunction {
    pub id: u64,
    pub name: i64,
    pub system_name: i64,
    pub filename: i64,
    pub start_line: i64,
}

/// A source line of the raw profile.
#[derive(Clone, Copy, Debug, PartialEq, Eq, Structural)]
pub struct PprofLine {
    pub function_id: u64,
    pub line: i64,
}

/// A location of the raw profile.
#[derive(Clone, Debug)]
pub struct PprofLocation {
    pub id: u64,
    pub mapping_id: u64,
    pub address: u64,
    pub lines: Vec<PprofLine>,
    pub is_folded: bool,
}

/// A label of the raw profile (string-table ids; 0 means absent).
#[derive(Clone, Copy, Debug, PartialEq, Eq, Structural)]
pub struct PprofLabel {
    pub key: i64,
    pub str: i64,
    pub num: i64,
    pub num_unit: i64,
}

/// A sample of the raw profile.
#[derive(Clone, Debug)]
pub struct PprofSample {
    pub location_ids: Vec<u64>,
    pub values: Vec<i64>,
    pub labels: Vec<PprofLabel>,
}

/// A raw pprof profile, as its wire format stores it.
#[derive(Debug)]
pub struct PprofProfile {
    pub string_table: Vec<String>,
    pub mappings: Vec<PprofMapping>,
    pub functions: Vec<PprofFunction>,
    pub locations: Vec<PprofLocation>,
    pub sample_types: Vec<PprofValueType>,
    pub samples: Vec<PprofSample>,
    pub period_type: Option<PprofValueType>,
    pub period: i64,
    pub duration_nanos: i64,
    pub time_nanos: i64,
}

/// A resolved value type.
#[derive(Clone, Copy, Debug, Eq, PartialEq)]
pub struct ValueType<'a> {
    pub typ: &'a str,
    pub unit: &'a str,
}

/// A resolved period.
#[derive(Copy, Clone, Debug, Eq, PartialEq)]
pub struct Period<'a> {
    pub typ: ValueType<'a>,
    pub value: i64,
}

/// A resolved mapping: where a binary is loaded and what identifies it.
#[derive(Copy, Clone, Debug, Eq, PartialEq)]
pub struct Mapping<'a> {
    pub memory_start: u64,
    pub memory_limit: u64,
    pub file_offset: u64,
    pub filename: &'a str,
    pub build_id: &'a str,
}

/// A resolved function.
#[derive(Copy, Clone, Debug, Eq, PartialEq)]
pub struct Function<'a> {
    pub name: &'a str,
    pub system_name: &'a str,
    pub filename: &'a str,
    pub start_line: i64,
}

/// A resolved source line.
#[derive(Clone, Copy, Debug, Eq, PartialEq)]
pub struct Line<'a> {
    pub function: Function<'a>,
    pub line: i64,
}

/// A resolved location; `lines` lists inlined functions, callee first.
#[derive(Clone, Debug)]
pub struct Location<'a> {
    pub mapping: Mapping<'a>,
    pub address: u64,
    pub lines: Vec<Line<'a>>,
    pub is_folded: bool,
}

/// A resolved label: extra context on a sample. At most one of `str` and
/// `num` should carry information; `num_unit` qualifies `num`.
#[derive(Copy, Clone, Debug, Eq, PartialEq)]
pub struct Label<'a> {
    pub key: &'a str,
    pub str: Option<&'a str>,
    pub num: i64,
    pub num_unit: Option<&'a str>,
}

impl<'a> Label<'a> {
    /// Whether the label keeps to the one-of-`str`-and-`num` discipline.
    pub fn uses_at_most_one_of_str_and_num(&self) -> (r: bool)
        ensures
            r == (self.str is None || (self.num == 0 && self.num_unit is None)),
    {
        self.str.is_none() || (self.num == 0 && self.num_unit.is_none())
    }
}

/// A resolved sample. The leaf is at `locations[0]`; `values` line up with
/// the profile's sample types.
#[derive(Clone, Debug)]
pub struct Sample<'a> {
    pub locations: Vec<Location<'a>>,
    pub values: Vec<i64>,
    pub labels: Vec<Label<'a>>,
}

/// A resolved profile. Times stay plain: the duration in nanoseconds, and
/// the start instant as signed nanoseconds from the epoch.
#[derive(Debug)]
pub struct Profile<'a> {
    pub duration_nanos: u64,
    pub period: Option<(i64, ValueType<'a>)>,
    pub sample_types: Vec<ValueType<'a>>,
    pub samples: Vec<Sample<'a>>,
    pub start_time_nanos: i64,
}

/// The string a table id names, or the exact failure.
pub open spec fn spec_string(p: &PprofProfile, id: i64) -> Result<Seq<char>, ProfileError> {
    if 0 <= id < p.string_table@.len() {
        Ok(p.string_table@[id as int]@)
    } else {
        Err(ProfileError::StringNotFound)
    }
}

/// Fetches a string by table id; fails exactly when the id is out of range.
pub fn string_table_fetch<'a>(p: &'a PprofProfile, id: i64) -> (r: Result<&'a String, ProfileError>)
    ensures
        r is Ok <==> spec_string(p, id) is Ok,
        r is Ok ==> r->Ok_0@ == spec_string(p, id)->Ok_0,
        r is Err ==> r->Err_0 == spec_string(p, id)->Err_0,
{
    if id >= 0 && (id as u64) < (p.string_table.len() as u64) {
        Ok(&p.string_table[id as usize])
    } else {
        Err(ProfileError::StringNotFound)
    }
}

/// The resolved content of a mapping.
pub ghost struct MappingV {
    pub memory_start: u64,
    pub memory_limit: u64,
    pub file_offset: u64,
    pub filename: Seq<char>,
    pub build_id: Seq<char>,
}

/// The resolved content of a function.
pub ghost struct FunctionV {
    pub name: Seq<char>,
    pub system_name: Seq<char>,
    pub filename: Seq<char>,
    pub start_line: i64,
}

/// The resolved content of a line.
pub ghost struct LineV {
    pub function: FunctionV,
    pub line: i64,
}

/// The resolved content of a location.
pub ghost struct LocationV {
    pub mapping: MappingV,
    pub address: u64,
    pub lines: Seq<LineV>,
    pub is_folded: bool,
}

/// The resolved content of a label.
pub ghost struct LabelV {
    pub key: Seq<char>,
    pub str: Option<Seq<char>>,
    pub num: i64,
    pub num_unit: Option<Seq<char>>,
}

/// The resolved content of a sample.
pub ghost struct SampleV {
    pub locations: Seq<LocationV>,
    pub values: Seq<i64>,
    pub labels: Seq<LabelV>,
}

/// The resolved content of a value type.
pub ghost struct ValueTypeV {
    pub typ: Seq<char>,
    pub unit: Seq<char>,
}

/// The resolved content of a profile.
pub ghost struct ProfileV {
    pub duration_nanos: u64,
    pub period: Option<(i64, ValueTypeV)>,
    pub sample_types: Seq<ValueTypeV>,
    pub samples: Seq<SampleV>,
    pub start_time_nanos: i64,
}

impl<'a> View for ValueType<'a> {
    type V = ValueTypeV;

    open spec fn view(&self) -> ValueTypeV {
        ValueTypeV { typ: self.typ@, unit: self.unit@ }
    }
}

impl<'a> View for Mapping<'a> {
    type V = MappingV;

    open spec fn view(&self) -> MappingV {
        MappingV {
            memory_start: self.memory_start,
            memory_limit: self.memory_limit,
            file_offset: self.file_offset,
            filename: self.filename@,
            build_id: self.build_id@,
        }
    }
}

impl<'a> View for Function<'a> {
    type V = FunctionV;

    open spec fn view(&self) -> FunctionV {
        FunctionV {
            name: self.name@,
            system_name: self.system_name@,
            filename: self.filename@,
            start_line: self.start_line,
        }
    }
}

impl<'a> View for Line<'a> {
    type V = LineV;

    open spec fn view(&self) -> LineV {
        LineV { function: self.function@, line: self.line }
    }
}

impl<'a> View for Location<'a> {
    type V = LocationV;

    open spec fn view(&self) -> LocationV {
        LocationV {
            mapping: self.mapping@,
            address: self.address,
            lines: line_views(self.lines@),
            is_folded: self.is_folded,
        }
    }
}

impl<'a> View for Label<'a> {
    type V = LabelV;

    open spec fn view(&self) -> LabelV {
        LabelV {
            key: self.key@,
            str: match self.str {
                Option::Some(s) => Option::Some(s@),
                Option::None => Option::None,
            },
            num: self.num,
            num_unit: match self.num_unit {
                Option::Some(s) => Option::Some(s@),
                Option::None => Option::None,
            },
        }
    }
}

impl<'a> View for Sample<'a> {
    type V = SampleV;

    open spec fn view(&self) -> SampleV {
        SampleV {
            locations: location_views(self.locations@),
            values: self.values@,
            labels: label_views(self.labels@),
        }
    }
}

impl<'a> View for Profile<'a> {
    type V = ProfileV;

    open spec fn view(&self) -> ProfileV {
        ProfileV {
            duration_nanos: self.duration_nanos,
            period: match self.period {
                Option::Some((v, t)) => Option::Some((v, t@)),
                Option::None => Option::None,
            },
            sample_types: valuetype_views(self.sample_types@),
            samples: sample_views(self.samples@),
            start_time_nanos: self.start_time_nanos,
        }
    }
}

/// All results of a list, or its leftmost failure.
pub open spec fn collect<T>(rs: Seq<Result<T, ProfileError>>) -> Result<Seq<T>, ProfileError>
    decreases rs.len(),
{
    if rs.len() == 0 {
        Ok(Seq::empty())
    } else {
        match collect(rs.drop_last()) {
            Err(e) => Err(e),
            Ok(pre) => match rs.last() {
                Err(e) => Err(e),
                Ok(v) => Ok(pre.push(v)),
            },
        }
    }
}

/// A list without failures collects to its values.
pub proof fn lemma_collect_ok<T>(rs: Seq<Result<T, ProfileError>>)
    requires
        forall|j: int| 0 <= j < rs.len() ==> (#[trigger] rs[j]) is Ok,
    ensures
        collect(rs) == Ok::<Seq<T>, ProfileError>(ok_values(rs)),
    decreases rs.len(),
{
    if rs.len() == 0 {
        assert(ok_values(rs) =~= Seq::<T>::empty());
    } else {
        lemma_collect_ok(rs.drop_last());
        assert(ok_values(rs) =~= ok_values(rs.drop_last()).push(rs.last()->Ok_0));
    }
}

/// A list whose first failure sits at `i` collects to that failure.
pub proof fn lemma_collect_err<T>(rs: Seq<Result<T, ProfileError>>, i: int)
    requires
        0 <= i < rs.len(),
        forall|j: int| 0 <= j < i ==> (#[trigger] rs[j]) is Ok,
        rs[i] is Err,
    ensures
        collect(rs) == Err::<Seq<T>, ProfileError>(rs[i]->Err_0),
    decreases rs.len(),
{
    if i == rs.len() - 1 {
        lemma_collect_ok(rs.drop_last());
    } else {
        lemma_collect_err(rs.drop_last(), i);
    }
}


/// The values of an all-successful result list.
pub open spec fn ok_values<T>(rs: Seq<Result<T, ProfileError>>) -> Seq<T> {
    rs.map_values(|r: Result<T, ProfileError>| r->Ok_0)
}

/// One more element extends the value list by its value.
pub proof fn lemma_ok_values_take<T>(rs: Seq<Result<T, ProfileError>>, i: int)
    requires
        0 <= i < rs.len(),
    ensures
        ok_values(rs.subrange(0, i + 1)) == ok_values(rs.subrange(0, i)).push(rs[i]->Ok_0),
{
    let a = ok_values(rs.subrange(0, i + 1));
    let b = ok_values(rs.subrange(0, i)).push(rs[i]->Ok_0);
    assert forall|q: int| 0 <= q < a.len() implies a[q] == b[q] by {
        assert(a[q] == rs.subrange(0, i + 1)[q]->Ok_0);
        if q < i {
            assert(ok_values(rs.subrange(0, i))[q] == rs.subrange(0, i)[q]->Ok_0);
        }
    }
    assert(a =~= b);
}

/// The views of a line list.
pub open spec fn line_views(s: Seq<Line>) -> Seq<LineV> {
    s.map_values(|l: Line| l@)
}

/// Pushing a line pushes its view.
pub proof fn lemma_line_views_push(s: Seq<Line>, x: Line)
    ensures
        line_views(s.push(x)) == line_views(s).push(x@),
{
    assert forall|q: int| 0 <= q < line_views(s.push(x)).len() implies line_views(s.push(x))[q]
        == line_views(s).push(x@)[q] by {
        assert(line_views(s.push(x))[q] == s.push(x)[q]@);
        if q < s.len() {
            assert(s.push(x)[q] == s[q]);
            assert(line_views(s)[q] == s[q]@);
        }
    }
    assert(line_views(s.push(x)) =~= line_views(s).push(x@));
}

/// The views of a location list.
pub open spec fn location_views(s: Seq<Location>) -> Seq<LocationV> {
    s.map_values(|l: Location| l@)
}

/// Pushing a location pushes its view.
pub proof fn lemma_location_views_push(s: Seq<Location>, x: Location)
    ensures
        location_views(s.push(x)) == location_views(s).push(x@),
{
    assert forall|q: int| 0 <= q < location_views(s.push(x)).len() implies location_views(
        s.push(x),
    )[q] == location_views(s).push(x@)[q] by {
        assert(location_views(s.push(x))[q] == s.push(x)[q]@);
        if q < s.len() {
            assert(s.push(x)[q] == s[q]);
            assert(location_views(s)[q] == s[q]@);
        }
    }
    assert(location_views(s.push(x)) =~= location_views(s).push(x@));
}

/// The views of a label list.
pub open spec fn label_views(s: Seq<Label>) -> Seq<LabelV> {
    s.map_values(|l: Label| l@)
}

/// Pushing a label pushes its view.
pub proof fn lemma_label_views_push(s: Seq<Label>, x: Label)
    ensures
        label_views(s.push(x)) == label_views(s).push(x@),
{
    assert forall|q: int| 0 <= q < label_views(s.push(x)).len() implies label_views(s.push(x))[q]
        == label_views(s).push(x@)[q] by {
        assert(label_views(s.push(x))[q] == s.push(x)[q]@);
        if q < s.len() {
            assert(s.push(x)[q] == s[q]);
            assert(label_views(s)[q] == s[q]@);
        }
    }
    assert(label_views(s.push(x)) =~= label_views(s).push(x@));
}

/// The views of a sample list.
pub open spec fn sample_views(s: Seq<Sample>) -> Seq<SampleV> {
    s.map_values(|x: Sample| x@)
}

/// Pushing a sample pushes its view.
pub proof fn lemma_sample_views_push(s: Seq<Sample>, x: Sample)
    ensures
        sample_views(s.push(x)) == sample_views(s).push(x@),
{
    assert forall|q: int| 0 <= q < sample_views(s.push(x)).len() implies sample_views(s.push(x))[q]
        == sample_views(s).push(x@)[q] by {
        assert(sample_views(s.push(x))[q] == s.push(x)[q]@);
        if q < s.len() {
            assert(s.push(x)[q] == s[q]);
            assert(sample_views(s)[q] == s[q]@);
        }
    }
    assert(sample_views(s.push(x)) =~= sample_views(s).push(x@));
}

/// The views of a value-type list.
pub open spec fn valuetype_views(s: Seq<ValueType>) -> Seq<ValueTypeV> {
    s.map_values(|x: ValueType| x@)
}

/// Pushing a value type pushes its view.
pub proof fn lemma_valuetype_views_push(s: Seq<ValueType>, x: ValueType)
    ensures
        valuetype_views(s.push(x)) == valuetype_views(s).push(x@),
{
    assert forall|q: int| 0 <= q < valuetype_views(s.push(x)).len() implies valuetype_views(
        s.push(x),
    )[q] == valuetype_views(s).push(x@)[q] by {
        assert(valuetype_views(s.push(x))[q] == s.push(x)[q]@);
        if q < s.len() {
            assert(s.push(x)[q] == s[q]);
            assert(valuetype_views(s)[q] == s[q]@);
        }
    }
    assert(valuetype_views(s.push(x)) =~= valuetype_views(s).push(x@));
}

/// The index of the first mapping with the given id, or the length.
pub open spec fn mapping_idx(s: Seq<PprofMapping>, id: u64, from: int) -> int
    decreases s.len() - from,
{
    if from < 0 || from >= s.len() {
        s.len() as int
    } else if s[from].id == id {
        from
    } else {
        mapping_idx(s, id, from + 1)
    }
}

proof fn lemma_mapping_idx(s: Seq<PprofMapping>, id: u64, from: int)
    requires
        0 <= from <= s.len(),
    ensures
        from <= mapping_idx(s, id, from) <= s.len(),
        mapping_idx(s, id, from) < s.len() ==> s[mapping_idx(s, id, from)].id == id,
        forall|j: int| from <= j < mapping_idx(s, id, from) ==> s[j].id != id,
    decreases s.len() - from,
{
    if from < s.len() && s[from].id != id {
        lemma_mapping_idx(s, id, from + 1);
    }
}

/// The index of the first function with the given id, or the length.
pub open spec fn function_idx(s: Seq<PprofFunction>, id: u64, from: int) -> int
    decreases s.len() - from,
{
    if from < 0 || from >= s.len() {
        s.len() as int
    } else if s[from].id == id {
        from
    } else {
        function_idx(s, id, from + 1)
    }
}

proof fn lemma_function_idx(s: Seq<PprofFunction>, id: u64, from: int)
    requires
        0 <= from <= s.len(),
    ensures
        from <= function_idx(s, id, from) <= s.len(),
        function_idx(s, id, from) < s.len() ==> s[function_idx(s, id, from)].id == id,
        forall|j: int| from <= j < function_idx(s, id, from) ==> s[j].id != id,
    decreases s.len() - from,
{
    if from < s.len() && s[from].id != id {
        lemma_function_idx(s, id, from + 1);
    }
}

/// The index of the first location with the given id, or the length.
pub open spec fn location_idx(s: Seq<PprofLocation>, id: u64, from: int) -> int
    decreases s.len() - from,
{
    if from < 0 || from >= s.len() {
        s.len() as int
    } else if s[from].id == id {
        from
    } else {
        location_idx(s, id, from + 1)
    }
}

proof fn lemma_location_idx(s: Seq<PprofLocation>, id: u64, from: int)
    requires
        0 <= from <= s.len(),
    ensures
        from <= location_idx(s, id, from) <= s.len(),
        location_idx(s, id, from) < s.len() ==> s[location_idx(s, id, from)].id == id,
        forall|j: int| from <= j < location_idx(s, id, from) ==> s[j].id != id,
    decreases s.len() - from,
{
    if from < s.len() && s[from].id != id {
        lemma_location_idx(s, id, from + 1);
    }
}

/// The mapping an id resolves to: id 0 is the empty mapping; an unknown id
/// or an unresolvable string id is the exact failure.
pub open spec fn spec_mapping(p: &PprofProfile, id: u64) -> Result<MappingV, ProfileError> {
    if id == 0 {
        Ok(
            MappingV {
                memory_start: 0,
                memory_limit: 0,
                file_offset: 0,
                filename: Seq::empty(),
                build_id: Seq::empty(),
            },
        )
    } else {
        let i = mapping_idx(p.mappings@, id, 0);
        if i == p.mappings@.len() {
            Err(ProfileError::MappingNotFound)
        } else {
            let m = p.mappings@[i];
            match spec_string(p, m.filename) {
                Err(e) => Err(e),
                Ok(f) => match spec_string(p, m.build_id) {
                    Err(e) => Err(e),
                    Ok(b) => Ok(
                        MappingV {
                            memory_start: m.memory_start,
                            memory_limit: m.memory_limit,
                            file_offset: m.file_offset,
                            filename: f,
                            build_id: b,
                        },
                    ),
                },
            }
        }
    }
}

/// Fetches a mapping by id.
pub fn mapping_fetch<'a>(p: &'a PprofProfile, id: u64) -> (r: Result<Mapping<'a>, ProfileError>)
    ensures
        r is Ok <==> spec_mapping(p, id) is Ok,
        r is Ok ==> r->Ok_0@ == spec_mapping(p, id)->Ok_0,
        r is Err ==> r->Err_0 == spec_mapping(p, id)->Err_0,
{
    if id == 0 {
        proof {
            reveal_strlit("");
            assert(""@ =~= Seq::<char>::empty());
        }
        return Ok(
            Mapping { memory_start: 0, memory_limit: 0, file_offset: 0, filename: "", build_id: "" },
        );
    }
    let n = p.mappings.len();
    let mut i: usize = 0;
    proof {
        lemma_mapping_idx(p.mappings@, id, 0);
    }
    while i < n
        invariant
            id != 0,
            i <= n == p.mappings@.len(),
            forall|j: int| 0 <= j < i ==> p.mappings@[j].id != id,
        decreases n - i,
    {
        if p.mappings[i].id == id {
            proof {
                lemma_mapping_idx(p.mappings@, id, 0);
                assert(mapping_idx(p.mappings@, id, 0) == i) by {
                    let f = mapping_idx(p.mappings@, id, 0);
                    if f < i {
                        assert(p.mappings@[f].id != id);
                    }
                }
            }
            let m = &p.mappings[i];
            let filename = match string_table_fetch(p, m.filename) {
                Ok(f) => f,
                Err(e) => {
                    return Err(e);
                },
            };
            let build_id = match string_table_fetch(p, m.build_id) {
                Ok(b) => b,
                Err(e) => {
                    return Err(e);
                },
            };
            return Ok(
                Mapping {
                    memory_start: m.memory_start,
                    memory_limit: m.memory_limit,
                    file_offset: m.file_offset,
                    filename: filename.as_str(),
                    build_id: build_id.as_str(),
                },
            );
        }
        i = i + 1;
    }
    proof {
        lemma_mapping_idx(p.mappings@, id, 0);
        assert(mapping_idx(p.mappings@, id, 0) == n) by {
            let f = mapping_idx(p.mappings@, id, 0);
            if f < n {
                assert(p.mappings@[f].id != id);
            }
        }
    }
    Err(ProfileError::MappingNotFound)
}

/// The function an id resolves to: id 0 is the empty function.
pub open spec fn spec_function(p: &PprofProfile, id: u64) -> Result<FunctionV, ProfileError> {
    if id == 0 {
        Ok(
            FunctionV {
                name: Seq::empty(),
                system_name: Seq::empty(),
                filename: Seq::empty(),
                start_line: 0,
            },
        )
    } else {
        let i = function_idx(p.functions@, id, 0);
        if i == p.functions@.len() {
            Err(ProfileError::FunctionNotFound)
        } else {
            let f = p.functions@[i];
            match spec_string(p, f.name) {
                Err(e) => Err(e),
                Ok(name) => match spec_string(p, f.system_name) {
                    Err(e) => Err(e),
                    Ok(system_name) => match spec_string(p, f.filename) {
                        Err(e) => Err(e),
                        Ok(filename) => Ok(
                            FunctionV { name, system_name, filename, start_line: f.start_line },
                        ),
                    },
                },
            }
        }
    }
}

/// Fetches a function by id.
pub fn function_fetch<'a>(p: &'a PprofProfile, id: u64) -> (r: Result<Function<'a>, ProfileError>)
    ensures
        r is Ok <==> spec_function(p, id) is Ok,
        r is Ok ==> r->Ok_0@ == spec_function(p, id)->Ok_0,
        r is Err ==> r->Err_0 == spec_function(p, id)->Err_0,
{
    if id == 0 {
        proof {
            reveal_strlit("");
            assert(""@ =~= Seq::<char>::empty());
        }
        return Ok(Function { name: "", system_name: "", filename: "", start_line: 0 });
    }
    let n = p.functions.len();
    let mut i: usize = 0;
    while i < n
        invariant
            id != 0,
            i <= n == p.functions@.len(),
            forall|j: int| 0 <= j < i ==> p.functions@[j].id != id,
        decreases n - i,
    {
        if p.functions[i].id == id {
            proof {
                lemma_function_idx(p.functions@, id, 0);
                assert(function_idx(p.functions@, id, 0) == i) by {
                    let f = function_idx(p.functions@, id, 0);
                    if f < i {
                        assert(p.functions@[f].id != id);
                    }
                }
            }
            let f = &p.functions[i];
            let name = match string_table_fetch(p, f.name) {
                Ok(s) => s,
                Err(e) => {
                    return Err(e);
                },
            };
            let system_name = match string_table_fetch(p, f.system_name) {
                Ok(s) => s,
                Err(e) => {
                    return Err(e);
                },
            };
            let filename = match string_table_fetch(p, f.filename) {
                Ok(s) => s,
                Err(e) => {
                    return Err(e);
                },
            };
            return Ok(
                Function {
                    name: name.as_str(),
                    system_name: system_name.as_str(),
                    filename: filename.as_str(),
                    start_line: f.start_line,
                },
            );
        }
        i = i + 1;
    }
    proof {
        lemma_function_idx(p.functions@, id, 0);
        assert(function_idx(p.functions@, id, 0) == n) by {
            let f = function_idx(p.functions@, id, 0);
            if f < n {
                assert(p.functions@[f].id != id);
            }
        }
    }
    Err(ProfileError::FunctionNotFound)
}

/// The line a raw line resolves to.
pub open spec fn spec_line(p: &PprofProfile, l: PprofLine) -> Result<LineV, ProfileError> {
    match spec_function(p, l.function_id) {
        Err(e) => Err(e),
        Ok(function) => Ok(LineV { function, line: l.line }),
    }
}

/// The lines a raw line list resolves to, or its leftmost failure.
pub open spec fn spec_lines(p: &PprofProfile, ls: Seq<PprofLine>) -> Result<
    Seq<LineV>,
    ProfileError,
> {
    collect(ls.map_values(|l: PprofLine| spec_line(p, l)))
}

/// Resolves every line of a location.
pub fn lines_fetch<'a>(p: &'a PprofProfile, lines: &Vec<PprofLine>) -> (r: Result<
    Vec<Line<'a>>,
    ProfileError,
>)
    ensures
        r is Ok <==> spec_lines(p, lines@) is Ok,
        r is Ok ==> line_views(r->Ok_0@) == spec_lines(p, lines@)->Ok_0,
        r is Err ==> r->Err_0 == spec_lines(p, lines@)->Err_0,
{
    let ghost rs = lines@.map_values(|l: PprofLine| spec_line(p, l));
    let n = lines.len();
    let mut out: Vec<Line<'a>> = Vec::new();
    let mut i: usize = 0;
    proof {
        assert(line_views(out@) =~= ok_values(rs.subrange(0, 0)));
    }
    while i < n
        invariant
            i <= n == lines@.len() == rs.len(),
            rs == lines@.map_values(|l: PprofLine| spec_line(p, l)),
            forall|j: int| 0 <= j < i ==> (#[trigger] rs[j]) is Ok,
            line_views(out@) == ok_values(rs.subrange(0, i as int)),
        decreases n - i,
    {
        let l = &lines[i];
        let ghost pre = out@;
        proof {
            assert(rs[i as int] == spec_line(p, lines@[i as int]));
        }
        let function = match function_fetch(p, l.function_id) {
            Ok(f) => f,
            Err(e) => {
                proof {
                    lemma_collect_err(rs, i as int);
                }
                return Err(e);
            },
        };
        let line = Line { function, line: l.line };
        proof {
            assert(line@ == rs[i as int]->Ok_0);
        }
        out.push(line);
        proof {
            lemma_line_views_push(pre, line);
            lemma_ok_values_take(rs, i as int);
        }
        i = i + 1;
    }
    proof {
        lemma_collect_ok(rs);
        assert(rs.subrange(0, n as int) =~= rs);
    }
    Ok(out)
}

/// The location an id resolves to: id 0 is the empty location.
pub open spec fn spec_location(p: &PprofProfile, id: u64) -> Result<LocationV, ProfileError> {
    if id == 0 {
        Ok(
            LocationV {
                mapping: MappingV {
                    memory_start: 0,
                    memory_limit: 0,
                    file_offset: 0,
                    filename: Seq::empty(),
                    build_id: Seq::empty(),
                },
                address: 0,
                lines: Seq::empty(),
                is_folded: false,
            },
        )
    } else {
        let i = location_idx(p.locations@, id, 0);
        if i == p.locations@.len() {
            Err(ProfileError::LocationNotFound)
        } else {
            let l = p.locations@[i];
            match spec_mapping(p, l.mapping_id) {
                Err(e) => Err(e),
                Ok(mapping) => match spec_lines(p, l.lines@) {
                    Err(e) => Err(e),
                    Ok(lines) => Ok(
                        LocationV { mapping, address: l.address, lines, is_folded: l.is_folded },
                    ),
                },
            }
        }
    }
}

/// Fetches a location by id.
pub fn location_fetch<'a>(p: &'a PprofProfile, id: u64) -> (r: Result<Location<'a>, ProfileError>)
    ensures
        r is Ok <==> spec_location(p, id) is Ok,
        r is Ok ==> r->Ok_0@ == spec_location(p, id)->Ok_0,
        r is Err ==> r->Err_0 == spec_location(p, id)->Err_0,
{
    if id == 0 {
        proof {
            reveal_strlit("");
            assert(""@ =~= Seq::<char>::empty());
        }
        let loc = Location {
            mapping: Mapping {
                memory_start: 0,
                memory_limit: 0,
                file_offset: 0,
                filename: "",
                build_id: "",
            },
            address: 0,
            lines: Vec::new(),
            is_folded: false,
        };
        proof {
            assert(loc@.lines =~= Seq::<LineV>::empty());
        }
        return Ok(loc);
    }
    let n = p.locations.len();
    let mut i: usize = 0;
    while i < n
        invariant
            id != 0,
            i <= n == p.locations@.len(),
            forall|j: int| 0 <= j < i ==> p.locations@[j].id != id,
        decreases n - i,
    {
        if p.locations[i].id == id {
            proof {
                lemma_location_idx(p.locations@, id, 0);
                assert(location_idx(p.locations@, id, 0) == i) by {
                    let f = location_idx(p.locations@, id, 0);
                    if f < i {
                        assert(p.locations@[f].id != id);
                    }
                }
            }
            let l = &p.locations[i];
            let mapping = match mapping_fetch(p, l.mapping_id) {
                Ok(m) => m,
                Err(e) => {
                    return Err(e);
                },
            };
            let lines = match lines_fetch(p, &l.lines) {
                Ok(ls) => ls,
                Err(e) => {
                    return Err(e);
                },
            };
            return Ok(Location { mapping, address: l.address, lines, is_folded: l.is_folded });
        }
        i = i + 1;
    }
    proof {
        lemma_location_idx(p.locations@, id, 0);
        assert(location_idx(p.locations@, id, 0) == n) by {
            let f = location_idx(p.locations@, id, 0);
            if f < n {
                assert(p.locations@[f].id != id);
            }
        }
    }
    Err(ProfileError::LocationNotFound)
}

/// The locations an id list resolves to, or its leftmost failure.
pub open spec fn spec_locations(p: &PprofProfile, ids: Seq<u64>) -> Result<
    Seq<LocationV>,
    ProfileError,
> {
    collect(ids.map_values(|id: u64| spec_location(p, id)))
}

/// Resolves every location of a sample.
pub fn locations_fetch<'a>(p: &'a PprofProfile, ids: &Vec<u64>) -> (r: Result<
    Vec<Location<'a>>,
    ProfileError,
>)
    ensures
        r is Ok <==> spec_locations(p, ids@) is Ok,
        r is Ok ==> location_views(r->Ok_0@) == spec_locations(p, ids@)->Ok_0,
        r is Err ==> r->Err_0 == spec_locations(p, ids@)->Err_0,
{
    let ghost rs = ids@.map_values(|id: u64| spec_location(p, id));
    let n = ids.len();
    let mut out: Vec<Location<'a>> = Vec::new();
    let mut i: usize = 0;
    proof {
        assert(location_views(out@) =~= ok_values(rs.subrange(0, 0)));
    }
    while i < n
        invariant
            i <= n == ids@.len() == rs.len(),
            rs == ids@.map_values(|id: u64| spec_location(p, id)),
            forall|j: int| 0 <= j < i ==> (#[trigger] rs[j]) is Ok,
            location_views(out@) == ok_values(rs.subrange(0, i as int)),
        decreases n - i,
    {
        let ghost pre = out@;
        proof {
            assert(rs[i as int] == spec_location(p, ids@[i as int]));
        }
        let loc = match location_fetch(p, ids[i]) {
            Ok(l) => l,
            Err(e) => {
                proof {
                    lemma_collect_err(rs, i as int);
                }
                return Err(e);
            },
        };
        proof {
            assert(loc@ == rs[i as int]->Ok_0);
        }
        out.push(loc);
        proof {
            lemma_location_views_push(pre, loc);
            lemma_ok_values_take(rs, i as int);
        }
        i = i + 1;
    }
    proof {
        lemma_collect_ok(rs);
        assert(rs.subrange(0, n as int) =~= rs);
    }
    Ok(out)
}

/// The label a raw label resolves to: a string id of 0 means the field is
/// absent.
pub open spec fn spec_label(p: &PprofProfile, l: PprofLabel) -> Result<LabelV, ProfileError> {
    match spec_string(p, l.key) {
        Err(e) => Err(e),
        Ok(key) => {
            let str_r: Result<Option<Seq<char>>, ProfileError> = if l.str == 0 {
                Ok(None)
            } else {
                match spec_string(p, l.str) {
                    Err(e) => Err(e),
                    Ok(v) => Ok(Some(v)),
                }
            };
            match str_r {
                Err(e) => Err(e),
                Ok(sv) => {
                    let unit_r: Result<Option<Seq<char>>, ProfileError> = if l.num_unit == 0 {
                        Ok(None)
                    } else {
                        match spec_string(p, l.num_unit) {
                            Err(e) => Err(e),
                            Ok(v) => Ok(Some(v)),
                        }
                    };
                    match unit_r {
                        Err(e) => Err(e),
                        Ok(uv) => Ok(LabelV { key, str: sv, num: l.num, num_unit: uv }),
                    }
                },
            }
        },
    }
}

/// The labels a raw label list resolves to, or its leftmost failure.
pub open spec fn spec_labels(p: &PprofProfile, ls: Seq<PprofLabel>) -> Result<
    Seq<LabelV>,
    ProfileError,
> {
    collect(ls.map_values(|l: PprofLabel| spec_label(p, l)))
}

/// Resolves one label.
fn label_fetch<'a>(p: &'a PprofProfile, l: &PprofLabel) -> (r: Result<Label<'a>, ProfileError>)
    ensures
        r is Ok <==> spec_label(p, *l) is Ok,
        r is Ok ==> r->Ok_0@ == spec_label(p, *l)->Ok_0,
        r is Err ==> r->Err_0 == spec_label(p, *l)->Err_0,
{
    let key = match string_table_fetch(p, l.key) {
        Ok(k) => k,
        Err(e) => {
            return Err(e);
        },
    };
    let str_v: Option<&'a str> = if l.str == 0 {
        None
    } else {
        match string_table_fetch(p, l.str) {
            Ok(v) => Some(v.as_str()),
            Err(e) => {
                return Err(e);
            },
        }
    };
    let unit_v: Option<&'a str> = if l.num_unit == 0 {
        None
    } else {
        match string_table_fetch(p, l.num_unit) {
            Ok(v) => Some(v.as_str()),
            Err(e) => {
                return Err(e);
            },
        }
    };
    Ok(Label { key: key.as_str(), str: str_v, num: l.num, num_unit: unit_v })
}

/// The sample a raw sample resolves to: locations first, then labels.
pub open spec fn spec_sample(p: &PprofProfile, s: PprofSample) -> Result<SampleV, ProfileError> {
    match spec_locations(p, s.location_ids@) {
        Err(e) => Err(e),
        Ok(locations) => match spec_labels(p, s.labels@) {
            Err(e) => Err(e),
            Ok(labels) => Ok(SampleV { locations, values: s.values@, labels }),
        },
    }
}

/// The samples a raw profile resolves to, or its leftmost failure.
pub open spec fn spec_samples(p: &PprofProfile, ss: Seq<PprofSample>) -> Result<
    Seq<SampleV>,
    ProfileError,
> {
    collect(ss.map_values(|s: PprofSample| spec_sample(p, s)))
}

/// Resolves one sample.
fn sample_fetch<'a>(p: &'a PprofProfile, s: &PprofSample) -> (r: Result<Sample<'a>, ProfileError>)
    ensures
        r is Ok <==> spec_sample(p, *s) is Ok,
        r is Ok ==> r->Ok_0@ == spec_sample(p, *s)->Ok_0,
        r is Err ==> r->Err_0 == spec_sample(p, *s)->Err_0,
{
    let locations = match locations_fetch(p, &s.location_ids) {
        Ok(ls) => ls,
        Err(e) => {
            return Err(e);
        },
    };
    let ghost rs = s.labels@.map_values(|l: PprofLabel| spec_label(p, l));
    let n = s.labels.len();
    let mut labels: Vec<Label<'a>> = Vec::new();
    let mut i: usize = 0;
    proof {
        assert(label_views(labels@) =~= ok_values(rs.subrange(0, 0)));
    }
    while i < n
        invariant
            spec_locations(p, s.location_ids@) is Ok,
            i <= n == s.labels@.len() == rs.len(),
            rs == s.labels@.map_values(|l: PprofLabel| spec_label(p, l)),
            forall|j: int| 0 <= j < i ==> (#[trigger] rs[j]) is Ok,
            label_views(labels@) == ok_values(rs.subrange(0, i as int)),
        decreases n - i,
    {
        let ghost pre = labels@;
        proof {
            assert(rs[i as int] == spec_label(p, s.labels@[i as int]));
        }
        let lab = match label_fetch(p, &s.labels[i]) {
            Ok(l) => l,
            Err(e) => {
                proof {
                    lemma_collect_err(rs, i as int);
                }
                return Err(e);
            },
        };
        proof {
            assert(lab@ == rs[i as int]->Ok_0);
        }
        labels.push(lab);
        proof {
            lemma_label_views_push(pre, lab);
            lemma_ok_values_take(rs, i as int);
        }
        i = i + 1;
    }
    proof {
        lemma_collect_ok(rs);
        assert(rs.subrange(0, n as int) =~= rs);
    }
    let values = clone_i64s(&s.values);
    Ok(Sample { locations, values, labels })
}

/// A copy of a value list.
fn clone_i64s(v: &Vec<i64>) -> (r: Vec<i64>)
    ensures
        r@ == v@,
{
    let mut out: Vec<i64> = Vec::new();
    let mut i: usize = 0;
    while i < v.len()
        invariant
            i <= v@.len(),
            out@ =~= v@.subrange(0, i as int),
        decreases v@.len() - i,
    {
        out.push(v[i]);
        proof {
            assert(out@ =~= v@.subrange(0, i + 1));
        }
        i = i + 1;
    }
    proof {
        assert(out@ =~= v@);
    }
    out
}

/// The value type a raw one resolves to.
pub open spec fn spec_value_type(p: &PprofProfile, t: PprofValueType) -> Result<
    ValueTypeV,
    ProfileError,
> {
    match spec_string(p, t.typ) {
        Err(e) => Err(e),
        Ok(typ) => match spec_string(p, t.unit) {
            Err(e) => Err(e),
            Ok(unit) => Ok(ValueTypeV { typ, unit }),
        },
    }
}

/// The period a raw profile declares, if any.
pub open spec fn spec_period(p: &PprofProfile) -> Result<
    Option<(i64, ValueTypeV)>,
    ProfileError,
> {
    match p.period_type {
        None => Ok(None),
        Some(t) => match spec_value_type(p, t) {
            Err(e) => Err(e),
            Ok(tv) => Ok(Some((p.period, tv))),
        },
    }
}

/// The sample types a raw profile declares, or the leftmost failure.
pub open spec fn spec_sample_types(p: &PprofProfile) -> Result<Seq<ValueTypeV>, ProfileError> {
    collect(p.sample_types@.map_values(|t: PprofValueType| spec_value_type(p, t)))
}

/// The resolved profile: the period, then the sample types, then the
/// samples; the first unresolvable id decides the failure. The duration
/// must already be non-negative; the start instant is carried as signed
/// nanoseconds from the epoch.
pub open spec fn spec_profile(p: &PprofProfile) -> Result<ProfileV, ProfileError> {
    match spec_period(p) {
        Err(e) => Err(e),
        Ok(period) => match spec_sample_types(p) {
            Err(e) => Err(e),
            Ok(sample_types) => match spec_samples(p, p.samples@) {
                Err(e) => Err(e),
                Ok(samples) => Ok(
                    ProfileV {
                        duration_nanos: p.duration_nanos as u64,
                        period,
                        sample_types,
                        samples,
                        start_time_nanos: p.time_nanos,
                    },
                ),
            },
        },
    }
}

/// Resolves one value type.
fn value_type_fetch<'a>(p: &'a PprofProfile, t: &PprofValueType) -> (r: Result<
    ValueType<'a>,
    ProfileError,
>)
    ensures
        r is Ok <==> spec_value_type(p, *t) is Ok,
        r is Ok ==> r->Ok_0@ == spec_value_type(p, *t)->Ok_0,
        r is Err ==> r->Err_0 == spec_value_type(p, *t)->Err_0,
{
    let typ = match string_table_fetch(p, t.typ) {
        Ok(v) => v,
        Err(e) => {
            return Err(e);
        },
    };
    let unit = match string_table_fetch(p, t.unit) {
        Ok(v) => v,
        Err(e) => {
            return Err(e);
        },
    };
    Ok(ValueType { typ: typ.as_str(), unit: unit.as_str() })
}

impl<'a> Profile<'a> {
    /// Resolves a whole raw profile, failing on the first id that resolves
    /// to nothing. The raw duration must be non-negative.
    pub fn try_from(pprof: &'a PprofProfile) -> (r: Result<Profile<'a>, ProfileError>)
        requires
            pprof.duration_nanos >= 0,
        ensures
            r is Ok <==> spec_profile(pprof) is Ok,
            r is Ok ==> r->Ok_0@ == spec_profile(pprof)->Ok_0,
            r is Err ==> r->Err_0 == spec_profile(pprof)->Err_0,
    {
        let duration_nanos = pprof.duration_nanos as u64;
        let start_time_nanos = pprof.time_nanos;
        let period: Option<(i64, ValueType<'a>)> = match &pprof.period_type {
            Some(t) => match value_type_fetch(pprof, t) {
                Ok(tv) => Some((pprof.period, tv)),
                Err(e) => {
                    return Err(e);
                },
            },
            None => None,
        };
        let ghost trs = pprof.sample_types@.map_values(|t: PprofValueType| spec_value_type(pprof, t));
        let n = pprof.sample_types.len();
        let mut sample_types: Vec<ValueType<'a>> = Vec::new();
        let mut i: usize = 0;
        proof {
            assert(valuetype_views(sample_types@) =~= ok_values(trs.subrange(0, 0)));
        }
        while i < n
            invariant
                spec_period(pprof) is Ok,
                i <= n == pprof.sample_types@.len() == trs.len(),
                trs == pprof.sample_types@.map_values(|t: PprofValueType| spec_value_type(pprof, t)),
                forall|j: int| 0 <= j < i ==> (#[trigger] trs[j]) is Ok,
                valuetype_views(sample_types@) == ok_values(trs.subrange(0, i as int)),
            decreases n - i,
        {
            let ghost pre = sample_types@;
            proof {
                assert(trs[i as int] == spec_value_type(pprof, pprof.sample_types@[i as int]));
            }
            let tv = match value_type_fetch(pprof, &pprof.sample_types[i]) {
                Ok(v) => v,
                Err(e) => {
                    proof {
                        lemma_collect_err(trs, i as int);
                    }
                    return Err(e);
                },
            };
            proof {
                assert(tv@ == trs[i as int]->Ok_0);
            }
            sample_types.push(tv);
            proof {
                lemma_valuetype_views_push(pre, tv);
                lemma_ok_values_take(trs, i as int);
            }
            i = i + 1;
        }
        proof {
            lemma_collect_ok(trs);
            assert(trs.subrange(0, n as int) =~= trs);
        }
        let ghost srs = pprof.samples@.map_values(|x: PprofSample| spec_sample(pprof, x));
        let sn = pprof.samples.len();
        let mut samples: Vec<Sample<'a>> = Vec::new();
        let mut k: usize = 0;
        proof {
            assert(sample_views(samples@) =~= ok_values(srs.subrange(0, 0)));
        }
        while k < sn
            invariant
                spec_period(pprof) is Ok,
                spec_sample_types(pprof) is Ok,
                k <= sn == pprof.samples@.len() == srs.len(),
                srs == pprof.samples@.map_values(|x: PprofSample| spec_sample(pprof, x)),
                forall|j: int| 0 <= j < k ==> (#[trigger] srs[j]) is Ok,
                sample_views(samples@) == ok_values(srs.subrange(0, k as int)),
            decreases sn - k,
        {
            let ghost pre = samples@;
            proof {
                assert(srs[k as int] == spec_sample(pprof, pprof.samples@[k as int]));
            }
            let smp = match sample_fetch(pprof, &pprof.samples[k]) {
                Ok(v) => v,
                Err(e) => {
                    proof {
                        lemma_collect_err(srs, k as int);
                    }
                    return Err(e);
                },
            };
            proof {
                assert(smp@ == srs[k as int]->Ok_0);
            }
            samples.push(smp);
            proof {
                lemma_sample_views_push(pre, smp);
                lemma_ok_values_take(srs, k as int);
            }
            k = k + 1;
        }
        proof {
            lemma_collect_ok(srs);
            assert(srs.subrange(0, sn as int) =~= srs);
        }
        Ok(Profile { duration_nanos, period, sample_types, samples, start_time_nanos })
    }
}

/// Why an upscaling rule is rejected.
#[derive(Clone, Copy, Debug, PartialEq, Eq, Structural)]
pub enum UpscalingError {
    /// A value offset points past the profile's value columns.
    OffsetOutOfRange,
    /// A Poisson rule needs a positive sampling distance.
    ZeroSamplingDistance,
}

/// How recorded sample values are scaled back up. The proportional factor
/// is carried as the bit pattern of its 64-bit float; the validity check
/// never reads it.
pub enum UpscalingInfo {
    Poisson { sum_value_offset: usize, count_value_offset: usize, sampling_distance: u64 },
    Proportional { scale_bits: u64 },
}

impl UpscalingInfo {
    /// A Poisson rule must point inside the value columns and use a
    /// positive sampling distance; a proportional rule is always valid.
    pub fn check_validity(&self, number_of_values: usize) -> (r: Result<(), UpscalingError>)
        ensures
            match *self {
                UpscalingInfo::Poisson { sum_value_offset, count_value_offset, sampling_distance } => {
                    &&& r is Ok <==> (sum_value_offset < number_of_values && count_value_offset
                        < number_of_values && sampling_distance != 0)
                    &&& r is Err ==> r->Err_0 == (if !(sum_value_offset < number_of_values
                        && count_value_offset < number_of_values) {
                        UpscalingError::OffsetOutOfRange
                    } else {
                        UpscalingError::ZeroSamplingDistance
                    })
                },
                UpscalingInfo::Proportional { scale_bits } => r is Ok,
            },
    {
        match self {
            UpscalingInfo::Poisson { sum_value_offset, count_value_offset, sampling_distance } => {
                if !(*sum_value_offset < number_of_values && *count_value_offset
                    < number_of_values) {
                    return Err(UpscalingError::OffsetOutOfRange);
                }
                if *sampling_distance == 0 {
                    return Err(UpscalingError::ZeroSamplingDistance);
                }
                Ok(())
            },
            UpscalingInfo::Proportional { scale_bits: _ } => Ok(()),
        }
    }
}


} // verus!
