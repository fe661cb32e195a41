//! The concurrency-safe, capacity-bounded metric store.
//!
//! The aggregator maps a metric identity — the pair of name and tag list —
//! to one accumulation entry. Counters sum, gauges keep the last value,
//! distributions feed a sketch. The number of distinct identities never
//! grows past the capacity fixed at construction: once the table is full, an
//! insert for a fresh identity fails and the observation is dropped, while
//! an insert for a tracked identity always succeeds and touches only its own
//! entry. Two read-only projections export the state: a flat series of the
//! scalar entries and a payload of the serialized distribution sketches.
//! The caller guards the aggregator with one exclusive lock around every
//! insert and every export snapshot; nothing here performs I/O or unbounded
//! work under that lock.

use crate::decimal::{DecNum, MAX_SCALE};
use crate::metric::{Metric, MetricKind, MetricV};
use crate::sketch::{Sketch, SketchV};
use crate::text::{join_with, seq_views};
use vstd::prelude::*;

verus! {

/// Why an insert was refused.
#[derive(Clone, Copy, Debug, PartialEq, Eq, Structural)]
pub enum AggregatorError {
    /// The table already tracks `capacity` distinct identities and the
    /// observation's identity is not among them.
    Full,
}

/// Why an aggregator could not be built.
#[derive(Clone, Copy, Debug, PartialEq, Eq, Structural)]
pub enum ConfigError {
    /// A capacity of zero could hold nothing.
    ZeroCapacity,
    /// A default tag was empty or held a `,`, `|` or line feed.
    InvalidDefaultTag,
}

/// The accumulated state of one identity.
#[derive(Clone, Debug)]
pub enum EntryData {
    /// Running sum of every value since the entry was created.
    Counter(DecNum),
    /// The last value seen.
    Gauge(DecNum),
    /// A sketch of all values seen.
    Distribution(Sketch),
}

/// One tracked identity with its accumulated state.
#[derive(Clone, Debug)]
pub struct Entry {
    pub name: String,
    pub tags: Vec<String>,
    pub data: EntryData,
}

/// The mathematical content of an entry's state.
pub ghost enum EntryDataV {
    Counter(DecNum),
    Gauge(DecNum),
    Distribution(SketchV),
}

/// The mathematical content of an entry.
pub ghost struct EntryV {
    pub name: Seq<char>,
    pub tags: Seq<Seq<char>>,
    pub data: EntryDataV,
}

impl EntryData {
    pub open spec fn view(self) -> EntryDataV {
        match self {
            EntryData::Counter(c) => EntryDataV::Counter(c),
            EntryData::Gauge(g) => EntryDataV::Gauge(g),
            EntryData::Distribution(s) => EntryDataV::Distribution(s.view()),
        }
    }

    /// Counters accumulate at full scale, gauges hold a wire value, a
    /// sketch keeps its own invariant.
    pub open spec fn wf(self) -> bool {
        match self {
            EntryData::Counter(c) => c.acc_wf(),
            EntryData::Gauge(g) => g.wf(),
            EntryData::Distribution(s) => s.wf(),
        }
    }
}

impl View for Entry {
    type V = EntryV;

    open spec fn view(&self) -> EntryV {
        EntryV { name: self.name@, tags: seq_views(self.tags@), data: self.data.view() }
    }
}

/// Whether an entry carries the given identity.
pub open spec fn id_match(e: EntryV, name: Seq<char>, tags: Seq<Seq<char>>) -> bool {
    e.name == name && e.tags == tags
}

/// No two entries share an identity.
pub open spec fn entries_unique(s: Seq<EntryV>) -> bool {
    forall|i: int, j: int|
        0 <= i < j < s.len() ==> !(s[i].name == s[j].name && s[i].tags == s[j].tags)
}

/// The state a fresh identity starts in, given its first observation.
pub open spec fn spec_fresh(m: MetricV) -> EntryDataV {
    match m.kind {
        MetricKind::Counter => EntryDataV::Counter(
            (DecNum { neg: false, mant: 0, scale: MAX_SCALE }).spec_acc_add(m.value),
        ),
        MetricKind::Gauge => EntryDataV::Gauge(m.value),
        MetricKind::Distribution => EntryDataV::Distribution(
            Sketch::spec_observe(
                SketchV {
                    cnt: 0,
                    min: m.value,
                    max: m.value,
                    sum: DecNum { neg: false, mant: 0, scale: MAX_SCALE },
                    buckets: Seq::empty(),
                },
                m.value,
            ),
        ),
    }
}

/// How one observation merges into a tracked entry: sum for counters,
/// replace for gauges, sketch-ingest for distributions. An observation of a
/// different kind than the entry restarts the entry under the new kind.
pub open spec fn spec_merge(d: EntryDataV, m: MetricV) -> EntryDataV {
    match (d, m.kind) {
        (EntryDataV::Counter(c), MetricKind::Counter) => EntryDataV::Counter(c.spec_acc_add(m.value)),
        (EntryDataV::Gauge(_), MetricKind::Gauge) => EntryDataV::Gauge(m.value),
        (EntryDataV::Distribution(sv), MetricKind::Distribution) => EntryDataV::Distribution(
            Sketch::spec_observe(sv, m.value),
        ),
        _ => spec_fresh(m),
    }
}

/// What one insert does to the table: a tracked identity is merged in
/// place and succeeds; a fresh identity is appended while room remains and
/// is refused once the table holds `cap` identities.
pub open spec fn spec_insert(s: Seq<EntryV>, cap: nat, m: MetricV) -> (Seq<EntryV>, bool) {
    if exists|i: int| 0 <= i < s.len() && id_match(s[i], m.name, m.tags) {
        let i = choose|i: int| 0 <= i < s.len() && id_match(s[i], m.name, m.tags);
        (s.update(i, EntryV { name: s[i].name, tags: s[i].tags, data: spec_merge(s[i].data, m) }), true)
    } else if s.len() < cap {
        (s.push(EntryV { name: m.name, tags: m.tags, data: spec_fresh(m) }), true)
    } else {
        (s, false)
    }
}

/// A batch of inserts, one after the other, failures skipped.
pub open spec fn spec_insert_all(s: Seq<EntryV>, cap: nat, ms: Seq<MetricV>) -> Seq<EntryV>
    decreases ms.len(),
{
    if ms.len() == 0 {
        s
    } else {
        spec_insert_all(spec_insert(s, cap, ms[0]).0, cap, ms.drop_first())
    }
}

/// A usable default tag: nonempty and free of the characters that would
/// corrupt the joined export tags.
pub open spec fn valid_tag(t: Seq<char>) -> bool {
    t.len() >= 1 && forall|j: int| 0 <= j < t.len() ==> t[j] != ',' && t[j] != '|' && t[j] != '\n'
}

/// Whether every tag of a list is usable.
pub open spec fn tags_wf(ts: Seq<Seq<char>>) -> bool {
    forall|k: int| 0 <= k < ts.len() ==> valid_tag(#[trigger] ts[k])
}

/// The views of a sequence of entries.
pub open spec fn entry_views(s: Seq<Entry>) -> Seq<EntryV> {
    s.map_values(|e: Entry| e@)
}

/// Pushing an entry pushes its view.
proof fn lemma_entry_views_push(s: Seq<Entry>, e: Entry)
    ensures
        entry_views(s.push(e)) == entry_views(s).push(e@),
{
    assert forall|q: int| 0 <= q < entry_views(s.push(e)).len() implies entry_views(s.push(e))[q]
        == entry_views(s).push(e@)[q] by {
        assert(entry_views(s.push(e))[q] == s.push(e)[q]@);
        if q < s.len() {
            assert(s.push(e)[q] == s[q]);
            assert(entry_views(s)[q] == s[q]@);
        }
    }
    assert(entry_views(s.push(e)) =~= entry_views(s).push(e@));
}

/// Updating an entry updates its view.
proof fn lemma_entry_views_update(s: Seq<Entry>, i: int, e: Entry)
    requires
        0 <= i < s.len(),
    ensures
        entry_views(s.update(i, e)) == entry_views(s).update(i, e@),
{
    assert forall|q: int| 0 <= q < entry_views(s.update(i, e)).len() implies entry_views(
        s.update(i, e),
    )[q] == entry_views(s).update(i, e@)[q] by {
        assert(entry_views(s.update(i, e))[q] == s.update(i, e)[q]@);
        if q != i {
            assert(s.update(i, e)[q] == s[q]);
            assert(entry_views(s)[q] == s[q]@);
        }
    }
    assert(entry_views(s.update(i, e)) =~= entry_views(s).update(i, e@));
}

/// The capacity-bounded store.
#[derive(Debug)]
pub struct Aggregator {
    entries: Vec<Entry>,
    default_tags: Vec<String>,
    capacity: usize,
}

/// One scalar export record.
#[derive(Clone, Debug)]
pub struct SeriesRecord {
    pub name: String,
    /// The accumulated value, trailing fraction zeros stripped.
    pub value: DecNum,
    /// Default tags and observation tags, joined with commas in order.
    pub tags: String,
}

/// The mathematical content of a series record.
pub ghost struct SeriesRecordV {
    pub name: Seq<char>,
    pub value: DecNum,
    pub tags: Seq<char>,
}

impl View for SeriesRecord {
    type V = SeriesRecordV;

    open spec fn view(&self) -> SeriesRecordV {
        SeriesRecordV { name: self.name@, value: self.value, tags: self.tags@ }
    }
}

/// One exported distribution.
#[derive(Clone, Debug)]
pub struct SketchRecord {
    pub name: String,
    /// Default tags and observation tags, joined with commas in order.
    pub tags: String,
    /// The sketch, serialized to its binary encoding.
    pub payload: Vec<u8>,
}

/// The mathematical content of a sketch record.
pub ghost struct SketchRecordV {
    pub name: Seq<char>,
    pub tags: Seq<char>,
    pub payload: Seq<u8>,
}

impl View for SketchRecord {
    type V = SketchRecordV;

    open spec fn view(&self) -> SketchRecordV {
        SketchRecordV { name: self.name@, tags: self.tags@, payload: self.payload@ }
    }
}

/// The distribution export shape.
pub struct SketchPayload {
    pub sketches: Vec<SketchRecord>,
}

/// The export tag string of an entry: default tags first, then the
/// observation's tags, in their original order, joined with commas.
pub open spec fn spec_export_tags(defaults: Seq<Seq<char>>, tags: Seq<Seq<char>>) -> Seq<char> {
    join_with(defaults + tags, ',')
}

/// A metric with no tags of its own exports exactly the default tags — an
/// empty default set gives the empty tag string — and a metric with tags
/// exports them joined after the defaults, in their original order.
pub proof fn lemma_export_tags(defaults: Seq<Seq<char>>, tags: Seq<Seq<char>>)
    ensures
        tags.len() == 0 ==> spec_export_tags(defaults, tags) == join_with(defaults, ','),
        defaults.len() == 0 ==> spec_export_tags(defaults, tags) == join_with(tags, ','),
        defaults.len() == 0 && tags.len() == 0 ==> spec_export_tags(defaults, tags)
            == Seq::<char>::empty(),
{
    if tags.len() == 0 {
        assert(defaults + tags =~= defaults);
    }
    if defaults.len() == 0 {
        assert(defaults + tags =~= tags);
    }
}

/// The series the scalar entries export, in table order.
pub open spec fn spec_series(s: Seq<EntryV>, defaults: Seq<Seq<char>>) -> Seq<SeriesRecordV>
    decreases s.len(),
{
    if s.len() == 0 {
        Seq::empty()
    } else {
        spec_series(s.drop_last(), defaults) + match s.last().data {
            EntryDataV::Counter(c) => seq![
                SeriesRecordV {
                    name: s.last().name,
                    value: c.spec_normal(),
                    tags: spec_export_tags(defaults, s.last().tags),
                },
            ],
            EntryDataV::Gauge(g) => seq![
                SeriesRecordV {
                    name: s.last().name,
                    value: g.spec_normal(),
                    tags: spec_export_tags(defaults, s.last().tags),
                },
            ],
            EntryDataV::Distribution(_) => Seq::empty(),
        }
    }
}

/// The sketches the distribution entries export, in table order.
pub open spec fn spec_sketches(s: Seq<EntryV>, defaults: Seq<Seq<char>>) -> Seq<SketchRecordV>
    decreases s.len(),
{
    if s.len() == 0 {
        Seq::empty()
    } else {
        spec_sketches(s.drop_last(), defaults) + match s.last().data {
            EntryDataV::Distribution(sv) => seq![
                SketchRecordV {
                    name: s.last().name,
                    tags: spec_export_tags(defaults, s.last().tags),
                    payload: crate::sketch::spec_sketch_bytes(sv),
                },
            ],
            _ => Seq::empty(),
        }
    }
}

/// The views of a sequence of series records.
pub open spec fn series_views(rs: Seq<SeriesRecord>) -> Seq<SeriesRecordV> {
    rs.map_values(|r: SeriesRecord| r@)
}

/// The views of a sequence of sketch records.
pub open spec fn sketch_views(rs: Seq<SketchRecord>) -> Seq<SketchRecordV> {
    rs.map_values(|r: SketchRecord| r@)
}

/// Whether the views of two tag lists are equal.
fn tags_equal(a: &Vec<String>, b: &Vec<String>) -> (r: bool)
    ensures
        r == (seq_views(a@) == seq_views(b@)),
{
    if a.len() != b.len() {
        proof {
            assert(seq_views(a@).len() != seq_views(b@).len());
        }
        return false;
    }
    let n = a.len();
    let mut i: usize = 0;
    while i < n
        invariant
            i <= n == a@.len() == b@.len(),
            forall|j: int| 0 <= j < i ==> seq_views(a@)[j] == seq_views(b@)[j],
        decreases n - i,
    {
        if !a[i].eq(&b[i]) {
            proof {
                assert(seq_views(a@)[i as int] != seq_views(b@)[i as int]);
            }
            return false;
        }
        i = i + 1;
    }
    proof {
        assert(seq_views(a@) =~= seq_views(b@));
    }
    true
}

/// The concatenation of two tag lists.
fn concat_tags(a: &Vec<String>, b: &Vec<String>) -> (r: Vec<String>)
    ensures
        seq_views(r@) == seq_views(a@) + seq_views(b@),
{
    let mut out: Vec<String> = Vec::new();
    let mut i: usize = 0;
    proof {
        assert(seq_views(out@) =~= seq_views(a@).subrange(0, 0));
    }
    while i < a.len()
        invariant
            i <= a@.len(),
            seq_views(out@) == seq_views(a@).subrange(0, i as int),
        decreases a@.len() - i,
    {
        let ghost pre = out@;
        let x = a[i].clone();
        out.push(x);
        proof {
            crate::text::lemma_seq_views_push(pre, x);
            assert(seq_views(a@)[i as int] == a@[i as int]@);
            assert(seq_views(a@).subrange(0, i + 1) =~= seq_views(a@).subrange(0, i as int).push(
                seq_views(a@)[i as int],
            ));
        }
        i = i + 1;
    }
    let mut j: usize = 0;
    proof {
        assert(seq_views(a@).subrange(0, a@.len() as int) =~= seq_views(a@));
        assert(seq_views(b@).subrange(0, 0) =~= Seq::<Seq<char>>::empty());
        assert(seq_views(out@) =~= seq_views(a@) + seq_views(b@).subrange(0, 0));
    }
    while j < b.len()
        invariant
            j <= b@.len(),
            seq_views(out@) == seq_views(a@) + seq_views(b@).subrange(0, j as int),
        decreases b@.len() - j,
    {
        let ghost pre = out@;
        let x = b[j].clone();
        out.push(x);
        proof {
            crate::text::lemma_seq_views_push(pre, x);
            assert(seq_views(b@)[j as int] == b@[j as int]@);
            assert(seq_views(b@).subrange(0, j + 1) =~= seq_views(b@).subrange(0, j as int).push(
                seq_views(b@)[j as int],
            ));
            assert(seq_views(out@) =~= seq_views(a@) + seq_views(b@).subrange(0, j + 1));
        }
        j = j + 1;
    }
    proof {
        assert(seq_views(b@).subrange(0, b@.len() as int) =~= seq_views(b@));
    }
    out
}

impl Aggregator {
    /// The tracked entries, in insertion order.
    pub closed spec fn view(&self) -> Seq<EntryV> {
        entry_views(self.entries@)
    }

    /// The fixed identity ceiling.
    pub closed spec fn spec_capacity(&self) -> usize {
        self.capacity
    }

    /// The tags every export record carries first.
    pub closed spec fn spec_default_tags(&self) -> Seq<Seq<char>> {
        seq_views(self.default_tags@)
    }

    /// Internal consistency: distinct identities, well-formed entry states,
    /// the table within its positive capacity, usable default tags.
    pub closed spec fn wf(&self) -> bool {
        &&& entries_unique(self.view())
        &&& forall|i: int| 0 <= i < self.entries@.len() ==> (#[trigger] self.entries@[i]).data.wf()
        &&& self.entries@.len() <= self.capacity
        &&& self.capacity >= 1
        &&& tags_wf(self.spec_default_tags())
    }

    /// Builds an empty aggregator, refusing a zero capacity and malformed
    /// default tags.
    pub fn new(default_tags: Vec<String>, capacity: usize) -> (r: Result<Aggregator, ConfigError>)
        ensures
            r is Ok <==> (capacity >= 1 && tags_wf(seq_views(default_tags@))),
            r is Ok ==> {
                &&& r->Ok_0.wf()
                &&& r->Ok_0.view() == Seq::<EntryV>::empty()
                &&& r->Ok_0.spec_capacity() == capacity
                &&& r->Ok_0.spec_default_tags() == seq_views(default_tags@)
            },
            r is Err ==> r->Err_0 == (if capacity == 0 {
                ConfigError::ZeroCapacity
            } else {
                ConfigError::InvalidDefaultTag
            }),
    {
        if capacity == 0 {
            return Err(ConfigError::ZeroCapacity);
        }
        let mut k: usize = 0;
        while k < default_tags.len()
            invariant
                k <= default_tags@.len(),
                capacity >= 1,
                forall|j: int| 0 <= j < k ==> valid_tag(#[trigger] seq_views(default_tags@)[j]),
            decreases default_tags@.len() - k,
        {
            if !tag_ok(&default_tags[k]) {
                proof {
                    assert(seq_views(default_tags@)[k as int] == default_tags@[k as int]@);
                }
                return Err(ConfigError::InvalidDefaultTag);
            }
            proof {
                assert(seq_views(default_tags@)[k as int] == default_tags@[k as int]@);
            }
            k = k + 1;
        }
        let agg = Aggregator { entries: Vec::new(), default_tags, capacity };
        proof {
            assert(agg.view() =~= Seq::<EntryV>::empty());
        }
        Ok(agg)
    }

    /// The index tracking the given identity, if any.
    fn find_idx(&self, name: &String, tags: &Vec<String>) -> (r: Option<usize>)
        ensures
            match r {
                Some(i) => i < self.view().len() && id_match(
                    self.view()[i as int],
                    name@,
                    seq_views(tags@),
                ),
                None => forall|j: int|
                    0 <= j < self.view().len() ==> !id_match(
                        #[trigger] self.view()[j],
                        name@,
                        seq_views(tags@),
                    ),
            },
    {
        let n = self.entries.len();
        let mut i: usize = 0;
        while i < n
            invariant
                i <= n == self.entries@.len(),
                forall|j: int|
                    0 <= j < i ==> !id_match(#[trigger] self.view()[j], name@, seq_views(tags@)),
            decreases n - i,
        {
            if self.entries[i].name.eq(name) && tags_equal(&self.entries[i].tags, tags) {
                return Some(i);
            }
            i = i + 1;
        }
        None
    }

    /// Inserts one observation. A tracked identity always merges in place;
    /// a fresh identity is appended while room remains, and refused — the
    /// table unchanged — once `capacity` identities are tracked.
    pub fn insert(&mut self, m: Metric) -> (r: Result<(), AggregatorError>)
        requires
            old(self).wf(),
            m.value.wf(),
        ensures
            final(self).wf(),
            final(self).spec_capacity() == old(self).spec_capacity(),
            final(self).spec_default_tags() == old(self).spec_default_tags(),
            final(self).view() == spec_insert(
                old(self).view(),
                old(self).spec_capacity() as nat,
                m@,
            ).0,
            r is Ok <==> spec_insert(old(self).view(), old(self).spec_capacity() as nat, m@).1,
            r is Err ==> r->Err_0 == AggregatorError::Full,
    {
        let ghost s0 = self.view();
        match self.find_idx(&m.name, &m.tags) {
            Some(i) => {
                proof {
                    let j = choose|j: int|
                        0 <= j < s0.len() && id_match(s0[j], m@.name, m@.tags);
                    if j != i {
                        assert(s0[j].name == s0[i as int].name && s0[j].tags == s0[i as int].tags);
                        assert(false);
                    }
                }
                let same = match &self.entries[i].data {
                    EntryData::Counter(_) => matches!(m.kind, MetricKind::Counter),
                    EntryData::Gauge(_) => matches!(m.kind, MetricKind::Gauge),
                    EntryData::Distribution(_) => matches!(m.kind, MetricKind::Distribution),
                };
                if same {
                    let slot = &mut self.entries[i];
                    match &mut slot.data {
                        EntryData::Counter(c) => {
                            *c = c.acc_add(m.value);
                        },
                        EntryData::Gauge(g) => {
                            *g = m.value;
                        },
                        EntryData::Distribution(s) => {
                            s.observe(m.value);
                        },
                    }
                } else {
                    let slot = &mut self.entries[i];
                    slot.data = fresh_data(&m);
                }
                proof {
                    let ne = self.entries@[i as int];
                    assert(self.entries@ =~= old(self).entries@.update(i as int, ne));
                    lemma_entry_views_update(old(self).entries@, i as int, ne);
                    assert(ne@.data == spec_merge(s0[i as int].data, m@));
                    assert(ne@.name == s0[i as int].name && ne@.tags == s0[i as int].tags);
                    assert(self.view() =~= spec_insert(s0, old(self).spec_capacity() as nat, m@).0);
                    assert forall|p: int, q: int|
                        0 <= p < q < self.view().len() implies !(self.view()[p].name
                        == self.view()[q].name && self.view()[p].tags == self.view()[q].tags) by {
                        assert(self.view()[p].name == s0[p].name && self.view()[p].tags == s0[p].tags);
                        assert(self.view()[q].name == s0[q].name && self.view()[q].tags == s0[q].tags);
                    }
                    assert forall|q: int| 0 <= q < self.entries@.len() implies (#[trigger] self.entries@[q]).data.wf() by {
                        if q != i {
                            assert(self.entries@[q] == old(self).entries@[q]);
                        }
                    }
                }
                Ok(())
            },
            None => {
                if self.entries.len() < self.capacity {
                    let data = fresh_data(&m);
                    self.entries.push(Entry { name: m.name, tags: m.tags, data });
                    proof {
                        let ne = self.entries@.last();
                        lemma_entry_views_push(old(self).entries@, ne);
                        assert(self.entries@ =~= old(self).entries@.push(ne));
                        assert(ne@.name == m@.name && ne@.tags == m@.tags);
                        assert(ne@.data == spec_fresh(m@));
                        assert(self.view() =~= spec_insert(
                            s0,
                            old(self).spec_capacity() as nat,
                            m@,
                        ).0);
                        assert forall|p: int, q: int|
                            0 <= p < q < self.view().len() implies !(self.view()[p].name
                            == self.view()[q].name && self.view()[p].tags
                            == self.view()[q].tags) by {
                            if q < s0.len() {
                                assert(self.view()[p] == s0[p] && self.view()[q] == s0[q]);
                            } else {
                                assert(self.view()[p] == s0[p]);
                                assert(!id_match(s0[p], m@.name, m@.tags));
                            }
                        }
                        assert forall|q: int| 0 <= q < self.entries@.len() implies (
                        #[trigger] self.entries@[q]).data.wf() by {
                            if q < old(self).entries@.len() {
                                assert(self.entries@[q] == old(self).entries@[q]);
                            }
                        }
                    }
                    Ok(())
                } else {
                    Err(AggregatorError::Full)
                }
            },
        }
    }

    /// A point-in-time snapshot of all counter and gauge entries, in table
    /// order: resolved name, normalized value, and the default and
    /// observation tags joined in their original order. A metric without
    /// tags exports the default tags alone — empty defaults give an empty
    /// tag string.
    pub fn to_series(&self) -> (r: Vec<SeriesRecord>)
        requires
            self.wf(),
        ensures
            series_views(r@) == spec_series(self.view(), self.spec_default_tags()),
    {
        let n = self.entries.len();
        let mut out: Vec<SeriesRecord> = Vec::new();
        let mut i: usize = 0;
        proof {
            assert(self.view().subrange(0, 0) =~= Seq::<EntryV>::empty());
            assert(series_views(out@) =~= spec_series(
                self.view().subrange(0, 0),
                self.spec_default_tags(),
            ));
        }
        while i < n
            invariant
                i <= n == self.entries@.len(),
                self.wf(),
                series_views(out@) == spec_series(
                    self.view().subrange(0, i as int),
                    self.spec_default_tags(),
                ),
            decreases n - i,
        {
            let ghost pre = series_views(out@);
            let e = &self.entries[i];
            let scalar = match &e.data {
                EntryData::Counter(_) => true,
                EntryData::Gauge(_) => true,
                EntryData::Distribution(_) => false,
            };
            if scalar {
                let value = match &e.data {
                    EntryData::Counter(c) => c.normal(),
                    EntryData::Gauge(g) => g.normal(),
                    EntryData::Distribution(_) => DecNum::zero_acc(),
                };
                proof {
                    reveal_strlit(",");
                }
                let combined = concat_tags(&self.default_tags, &e.tags);
                let tags = crate::text::join_strings(&combined, ",");
                let rec = SeriesRecord { name: e.name.clone(), value, tags };
                out.push(rec);
            }
            proof {
                let cur = self.view().subrange(0, i + 1);
                assert(cur.drop_last() =~= self.view().subrange(0, i as int));
                assert(cur.last() == self.view()[i as int]);
                assert(series_views(out@) =~= spec_series(cur, self.spec_default_tags()));
            }
            i = i + 1;
        }
        proof {
            assert(self.view().subrange(0, n as int) =~= self.view());
        }
        out
    }

    /// A point-in-time snapshot of all distribution entries, in table
    /// order, each sketch serialized to its binary encoding, with the same
    /// tag discipline as the series export.
    pub fn distributions_to_protobuf(&self) -> (r: SketchPayload)
        requires
            self.wf(),
        ensures
            sketch_views(r.sketches@) == spec_sketches(self.view(), self.spec_default_tags()),
    {
        let n = self.entries.len();
        let mut out: Vec<SketchRecord> = Vec::new();
        let mut i: usize = 0;
        proof {
            assert(self.view().subrange(0, 0) =~= Seq::<EntryV>::empty());
            assert(sketch_views(out@) =~= spec_sketches(
                self.view().subrange(0, 0),
                self.spec_default_tags(),
            ));
        }
        while i < n
            invariant
                i <= n == self.entries@.len(),
                self.wf(),
                sketch_views(out@) == spec_sketches(
                    self.view().subrange(0, i as int),
                    self.spec_default_tags(),
                ),
            decreases n - i,
        {
            let e = &self.entries[i];
            match &e.data {
                EntryData::Distribution(s) => {
                    proof {
                        reveal_strlit(",");
                    }
                    let payload = s.to_bytes();
                    let combined = concat_tags(&self.default_tags, &e.tags);
                    let tags = crate::text::join_strings(&combined, ",");
                    let rec = SketchRecord { name: e.name.clone(), tags, payload };
                    out.push(rec);
                },
                _ => {},
            }
            proof {
                let cur = self.view().subrange(0, i + 1);
                assert(cur.drop_last() =~= self.view().subrange(0, i as int));
                assert(cur.last() == self.view()[i as int]);
                assert(sketch_views(out@) =~= spec_sketches(cur, self.spec_default_tags()));
            }
            i = i + 1;
        }
        proof {
            assert(self.view().subrange(0, n as int) =~= self.view());
        }
        SketchPayload { sketches: out }
    }
}

/// Whether a default tag is usable.
fn tag_ok(t: &String) -> (r: bool)
    ensures
        r == valid_tag(t@),
{
    let s = t.as_str();
    let n = s.unicode_len();
    if n == 0 {
        return false;
    }
    let mut i: usize = 0;
    while i < n
        invariant
            i <= n == s@.len(),
            s@ == t@,
            forall|j: int| 0 <= j < i ==> s@[j] != ',' && s@[j] != '|' && s@[j] != '\n',
        decreases n - i,
    {
        let c = s.get_char(i);
        if c == ',' || c == '|' || c == '\n' {
            return false;
        }
        i = i + 1;
    }
    true
}

/// The starting state for a fresh identity.
fn fresh_data(m: &Metric) -> (r: EntryData)
    requires
        m.value.wf(),
    ensures
        r.view() == spec_fresh(m@),
        r.wf(),
{
    match m.kind {
        MetricKind::Counter => EntryData::Counter(DecNum::zero_acc().acc_add(m.value)),
        MetricKind::Gauge => EntryData::Gauge(m.value),
        MetricKind::Distribution => EntryData::Distribution(Sketch::of(m.value)),
    }
}

} // verus!
