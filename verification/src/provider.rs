//! The index registry / multiplexer: owns one `Index` partition per sheet
//! name, creates partitions lazily on first ingest, routes ingestion
//! batches to the right partition, and remembers which (version, sheet)
//! tags have been ingested so that re-ingestion of the same tag is a
//! no-op.

use vstd::prelude::*;

use crate::data::SheetData;
use crate::data::SheetView;
use crate::data::VersionKey;
use crate::error::Error;
use crate::index::spec_sheet_documents;
use crate::index::sheet_documents;
use crate::index::Index;
use crate::index::IndexView;
use crate::schema::spec_build_schema;

verus! {

/// Largest number of partitions a registry can hold: partition indices
/// must fit the low half of a partition tag.
pub const PARTITION_LIMIT: u64 = 0x1_0000_0000;

/// One registry entry: a sheet name and its partition.
#[derive(Debug)]
pub struct SheetEntry {
    pub name: String,
    pub index: Index,
}

/// Mathematical image of a registry entry.
pub struct SheetEntryView {
    pub name: Seq<char>,
    pub index: IndexView,
}

impl View for SheetEntry {
    type V = SheetEntryView;

    open spec fn view(&self) -> SheetEntryView {
        SheetEntryView { name: self.name@, index: self.index@ }
    }
}

impl DeepView for SheetEntry {
    type V = SheetEntryView;

    open spec fn deep_view(&self) -> SheetEntryView {
        self.view()
    }
}

/// The registry: the per-sheet partitions and the set of partition tags
/// already ingested.
#[derive(Debug)]
pub struct Provider {
    pub sheets: Vec<SheetEntry>,
    pub ingested: Vec<u64>,
}

/// Mathematical image of the registry.
pub struct ProviderView {
    pub sheets: Seq<SheetEntryView>,
    pub ingested: Seq<u64>,
}

impl View for Provider {
    type V = ProviderView;

    open spec fn view(&self) -> ProviderView {
        ProviderView { sheets: self.sheets.deep_view(), ingested: self.ingested@ }
    }
}

/// The partition tag of one (version, partition index) pair: the version
/// in the high half, the partition index in the low half. Injective while
/// the index stays below `PARTITION_LIMIT`.
pub open spec fn key_of(version: VersionKey, i: int) -> u64 {
    ((version.0 * 0x1_0000_0000 + i) as u64)
}

/// Partition tags are injective in (version, partition index).
pub proof fn lemma_key_of_injective(v1: VersionKey, i1: int, v2: VersionKey, i2: int)
    requires
        0 <= i1 < 0x1_0000_0000,
        0 <= i2 < 0x1_0000_0000,
        key_of(v1, i1) == key_of(v2, i2),
    ensures
        v1 == v2,
        i1 == i2,
{
    assert(v1.0 * 0x1_0000_0000 + i1 == v2.0 * 0x1_0000_0000 + i2);
}

/// Computes the partition tag.
pub fn partition_tag(version: VersionKey, i: usize) -> (r: u64)
    requires
        0 <= i < PARTITION_LIMIT,
    ensures
        r == key_of(version, i as int),
{
    (version.0 as u64) * 0x1_0000_0000u64 + (i as u64)
}

impl ProviderView {
    /// Registry names are distinct and the partition count fits the tag's
    /// low half.
    pub open spec fn well_formed(&self) -> bool {
        &&& self.sheets.len() <= PARTITION_LIMIT
        &&& forall|i: int, j: int|
            0 <= i < j < self.sheets.len() ==> (#[trigger] self.sheets[i]).name != (
            #[trigger] self.sheets[j]).name
    }
}

/// Index of the first registry entry with the given sheet name, or -1.
pub open spec fn spec_sheet_index(reg: Seq<SheetEntryView>, name: Seq<char>) -> int
    decreases reg.len(),
{
    if reg.len() == 0 {
        -1
    } else if reg[0].name == name {
        0
    } else {
        let rest = spec_sheet_index(reg.drop_first(), name);
        if rest == -1 {
            -1
        } else {
            rest + 1
        }
    }
}

/// What `spec_sheet_index` finds.
pub proof fn lemma_sheet_index_props(reg: Seq<SheetEntryView>, name: Seq<char>)
    ensures
        (spec_sheet_index(reg, name) == -1) == (forall|k: int|
            0 <= k < reg.len() ==> (#[trigger] reg[k]).name != name),
        spec_sheet_index(reg, name) != -1 ==> {
            let j = spec_sheet_index(reg, name);
            &&& 0 <= j < reg.len()
            &&& reg[j].name == name
        },
    decreases reg.len(),
{
    if reg.len() > 0 {
        lemma_sheet_index_props(reg.drop_first(), name);
        assert(forall|k: int| 1 <= k < reg.len() ==> #[trigger] reg[k] == reg.drop_first()[k - 1]);
    }
}

/// Walking a no-match prefix shifts `spec_sheet_index` by that prefix.
pub proof fn lemma_sheet_index_skip(reg: Seq<SheetEntryView>, name: Seq<char>, i: int)
    requires
        0 <= i <= reg.len(),
        forall|k: int| 0 <= k < i ==> (#[trigger] reg[k]).name != name,
    ensures
        spec_sheet_index(reg, name) == {
            let rest = spec_sheet_index(reg.skip(i), name);
            if rest == -1 {
                -1
            } else {
                rest + i
            }
        },
    decreases i,
{
    if i == 0 {
        assert(reg.skip(0) =~= reg);
    } else {
        assert(reg.skip(1) =~= reg.drop_first());
        assert(forall|k: int| 0 <= k < i - 1 ==> #[trigger] reg.drop_first()[k] == reg[k + 1]);
        lemma_sheet_index_skip(reg.drop_first(), name, i - 1);
        assert(reg.drop_first().skip(i - 1) =~= reg.skip(i));
        let rest_all = spec_sheet_index(reg.skip(i), name);
        lemma_sheet_index_props(reg.skip(i), name);
        assert(rest_all != -1 ==> rest_all >= 0);
        assert(reg.len() > 0 && reg[0].name != name);
        assert(spec_sheet_index(reg, name) == {
            let rest = spec_sheet_index(reg.drop_first(), name);
            if rest == -1 {
                -1int
            } else {
                rest + 1
            }
        });
    }
}

/// Finds the registry entry for a sheet name.
pub fn find_sheet(sheets: &Vec<SheetEntry>, name: &String) -> (r: Option<usize>)
    ensures
        match r {
            Some(j) => 0 <= j < sheets.deep_view().len() && spec_sheet_index(
                sheets.deep_view(),
                name@,
            ) == j as int,
            None => spec_sheet_index(sheets.deep_view(), name@) == -1,
        },
{
    let ghost reg = sheets.deep_view();
    let mut i: usize = 0;
    while i < sheets.len()
        invariant
            0 <= i <= reg.len(),
            reg == sheets.deep_view(),
            reg.len() == sheets@.len(),
            forall|k: int| 0 <= k < i ==> (#[trigger] reg[k]).name != name@,
        decreases reg.len() - i,
    {
        if sheets[i].name == *name {
            proof {
                lemma_sheet_index_skip(reg, name@, i as int);
                assert(reg.skip(i as int)[0] == reg[i as int]);
                assert(spec_sheet_index(reg.skip(i as int), name@) == 0);
            }
            return Some(i);
        }
        proof {
            assert(reg[i as int].name == sheets@[i as int].name@);
        }
        i += 1;
    }
    proof {
        lemma_sheet_index_skip(reg, name@, reg.len() as int);
        assert(reg.skip(reg.len() as int) =~= Seq::<SheetEntryView>::empty());
    }
    None
}

/// One (version, sheet) pair routed into the registry: the sheet's
/// partition is created on first sight; a tag already ingested is
/// skipped; a malformed sheet is marked ingested but contributes no
/// documents; `None` only when a fresh partition would not fit the tag's
/// low half.
pub open spec fn spec_ingest_one(p: ProviderView, version: VersionKey, sheet: SheetView) -> Option<
    ProviderView,
> {
    let si = spec_sheet_index(p.sheets, sheet.name);
    if si == -1 && p.sheets.len() >= PARTITION_LIMIT {
        None
    } else {
        let reg = if si == -1 {
            p.sheets.push(
                SheetEntryView {
                    name: sheet.name,
                    index: IndexView {
                        schema: spec_build_schema(sheet.columns, sheet.languages),
                        docs: Seq::empty(),
                    },
                },
            )
        } else {
            p.sheets
        };
        let j = if si == -1 {
            p.sheets.len() as int
        } else {
            si
        };
        let tag = key_of(version, j);
        if p.ingested.contains(tag) {
            Some(ProviderView { sheets: reg, ingested: p.ingested })
        } else {
            let fresh = if sheet.well_formed() {
                spec_sheet_documents(tag, sheet)
            } else {
                Seq::empty()
            };
            Some(
                ProviderView {
                    sheets: reg.update(
                        j,
                        SheetEntryView {
                            name: reg[j].name,
                            index: IndexView {
                                schema: reg[j].index.schema,
                                docs: crate::index::spec_commit_documents(reg[j].index.docs, fresh),
                            },
                        },
                    ),
                    ingested: p.ingested.push(tag),
                },
            )
        }
    }
}

/// A whole batch routed in order; a capacity failure aborts the rest.
pub open spec fn spec_provider_ingest(
    p: ProviderView,
    batch: Seq<(VersionKey, SheetView)>,
) -> Option<ProviderView>
    decreases batch.len(),
{
    if batch.len() == 0 {
        Some(p)
    } else {
        match spec_ingest_one(p, batch[0].0, batch[0].1) {
            None => None,
            Some(p1) => spec_provider_ingest(p1, batch.drop_first()),
        }
    }
}

pub proof fn lemma_provider_ingest_push(
    p: ProviderView,
    batch: Seq<(VersionKey, SheetView)>,
    e: (VersionKey, SheetView),
)
    ensures
        spec_provider_ingest(p, batch.push(e)) == match spec_provider_ingest(p, batch) {
            None => None,
            Some(p1) => spec_ingest_one(p1, e.0, e.1),
        },
    decreases batch.len(),
{
    if batch.len() == 0 {
        assert(batch.push(e)[0] == e);
        assert(batch.push(e).drop_first() =~= Seq::<(VersionKey, SheetView)>::empty());
        assert(spec_provider_ingest(p, batch) == Some(p));
        match spec_ingest_one(p, e.0, e.1) {
            None => {
                assert(spec_provider_ingest(p, batch.push(e)) is None);
            },
            Some(p1) => {
                assert(spec_provider_ingest(p, batch.push(e)) == spec_provider_ingest(
                    p1,
                    batch.push(e).drop_first(),
                ));
                assert(spec_provider_ingest(p1, Seq::<(VersionKey, SheetView)>::empty()) == Some(
                    p1,
                ));
            },
        }
    } else {
        assert(batch.push(e)[0] == batch[0]);
        assert(batch.push(e).drop_first() =~= batch.drop_first().push(e));
        match spec_ingest_one(p, batch[0].0, batch[0].1) {
            None => {},
            Some(p1) => {
                lemma_provider_ingest_push(p1, batch.drop_first(), e);
            },
        }
    }
}

/// Whether a tag is already recorded.
pub fn contains_tag(tags: &Vec<u64>, tag: u64) -> (r: bool)
    ensures
        r == tags@.contains(tag),
{
    let mut i: usize = 0;
    while i < tags.len()
        invariant
            0 <= i <= tags@.len(),
            forall|k: int| 0 <= k < i ==> tags@[k] != tag,
        decreases tags@.len() - i,
    {
        if tags[i] == tag {
            return true;
        }
        i += 1;
    }
    proof {
        assert(forall|k: int| 0 <= k < tags@.len() ==> tags@[k] != tag);
    }
    false
}

impl Provider {
    /// An empty registry.
    pub fn new() -> (r: Provider)
        ensures
            r@.sheets == Seq::<SheetEntryView>::empty(),
            r@.ingested == Seq::<u64>::empty(),
            r@.well_formed(),
    {
        let p = Provider { sheets: Vec::new(), ingested: Vec::new() };
        proof {
            assert(p@.sheets =~= Seq::<SheetEntryView>::empty());
            assert(p@.ingested =~= Seq::<u64>::empty());
        }
        p
    }

    /// Routes a batch of (version, sheet) pairs into their partitions:
    /// exactly `spec_provider_ingest`. Fails only when a fresh partition
    /// would exceed `PARTITION_LIMIT`; the pairs routed before the failure
    /// stay committed.
    pub fn ingest(&mut self, batch: &Vec<(VersionKey, SheetData)>) -> (r: Result<(), Error>)
        requires
            old(self)@.well_formed(),
        ensures
            final(self)@.well_formed(),
            match r {
                Ok(()) => Some(final(self)@) == spec_provider_ingest(
                    old(self)@,
                    batch.deep_view(),
                ),
                Err(e) => e.spec_is_fatal() && spec_provider_ingest(
                    old(self)@,
                    batch.deep_view(),
                ) is None,
            },
    {
        let ghost batchv = batch.deep_view();
        let mut i: usize = 0;
        proof {
            assert(batchv.take(0int) =~= Seq::<(VersionKey, SheetView)>::empty());
        }
        while i < batch.len()
            invariant
                0 <= i <= batchv.len(),
                batchv == batch.deep_view(),
                batchv.len() == batch@.len(),
                self@.well_formed(),
                Some(self@) == spec_provider_ingest(old(self)@, batchv.take(i as int)),
            decreases batchv.len() - i,
        {
            let ghost pre = self@;
            let version = batch[i].0;
            let sheet = &batch[i].1;
            proof {
                assert(batchv[i as int] == (batch@[i as int].0, batch@[i as int].1@));
            }
            let j: usize = match find_sheet(&self.sheets, &sheet.name) {
                Some(j) => j,
                None => {
                    if self.sheets.len() as u64 >= PARTITION_LIMIT {
                        proof {
                            lemma_provider_ingest_push(
                                old(self)@,
                                batchv.take(i as int),
                                batchv[i as int],
                            );
                            assert(batchv.take(i + 1 as int) =~= batchv.take(i as int).push(
                                batchv[i as int],
                            ));
                            assert(spec_ingest_one(pre, version, sheet@) is None);
                            assert(spec_provider_ingest(old(self)@, batchv.take(i + 1 as int))
                                is None);
                            lemma_ingest_prefix_none(old(self)@, batchv, i + 1 as int);
                        }
                        return Err(
                            Error::Failure(String::from_str("partition limit reached")),
                        );
                    }
                    let entry = SheetEntry { name: sheet.name.clone(), index: Index::new(sheet) };
                    let ghost entry_view = entry@;
                    self.sheets.push(entry);
                    proof {
                        assert(self@.sheets =~= pre.sheets.push(entry_view));
                        lemma_sheet_index_props(pre.sheets, sheet@.name);
                        assert forall|a: int, b: int|
                            0 <= a < b < self@.sheets.len() implies (
                        #[trigger] self@.sheets[a]).name != (#[trigger] self@.sheets[b]).name by {
                            if b < pre.sheets.len() {
                                assert(self@.sheets[a] == pre.sheets[a]);
                                assert(self@.sheets[b] == pre.sheets[b]);
                            } else {
                                assert(self@.sheets[b].name == sheet@.name);
                                assert(self@.sheets[a] == pre.sheets[a]);
                            }
                        }
                        assert(self@.well_formed());
                    }
                    self.sheets.len() - 1
                },
            };
            let ghost reg = self@.sheets;
            proof {
                assert(ProviderView { sheets: reg, ingested: self@.ingested }.well_formed());
            }
            let tag = partition_tag(version, j);
            if !contains_tag(&self.ingested, tag) {
                self.ingested.push(tag);
                if sheet.check_well_formed() {
                    let docs = sheet_documents(tag, sheet);
                    let mut entry = self.sheets.remove(j);
                    let ghost entry_pre = entry@;
                    crate::index::commit_documents(&mut entry.index.docs, &docs);
                    proof {
                        assert(entry@.index.docs == crate::index::spec_commit_documents(
                            entry_pre.index.docs,
                            spec_sheet_documents(tag, sheet@),
                        ));
                    }
                    let ghost after_remove = self@.sheets;
                    self.sheets.insert(j, entry);
                    proof {
                        assert(self@.sheets =~= after_remove.insert(j as int, entry@));
                        assert(self@.sheets =~= reg.update(j as int, entry@));
                    }
                } else {
                    let mut entry = self.sheets.remove(j);
                    let ghost entry_pre = entry@;
                    let ghost after_remove = self@.sheets;
                    proof {
                        assert(crate::index::spec_commit_documents(
                            entry_pre.index.docs,
                            Seq::<crate::index::DocumentView>::empty(),
                        ) == entry_pre.index.docs);
                    }
                    self.sheets.insert(j, entry);
                    proof {
                        assert(self@.sheets =~= after_remove.insert(j as int, entry_pre));
                        assert(self@.sheets =~= reg.update(j as int, entry_pre));
                        assert(reg.update(j as int, entry_pre) =~= reg);
                    }
                }
            }
            proof {
                lemma_provider_ingest_push(old(self)@, batchv.take(i as int), batchv[i as int]);
                assert(batchv.take(i + 1 as int) =~= batchv.take(i as int).push(batchv[i as int]));
                assert(Some(self@) == spec_ingest_one(pre, version, sheet@));
                assert(self@.sheets.len() == reg.len());
                assert forall|a: int| 0 <= a < self@.sheets.len() implies (
                #[trigger] self@.sheets[a]).name == reg[a].name by {}
                assert forall|a: int, b: int|
                    0 <= a < b < self@.sheets.len() implies (#[trigger] self@.sheets[a]).name != (
                #[trigger] self@.sheets[b]).name by {
                    assert(reg[a].name != reg[b].name);
                }
                assert(self@.well_formed());
            }
            i += 1;
        }
        proof {
            assert(batchv.take(batchv.len() as int) =~= batchv);
        }
        Ok(())
    }
}

/// A failing prefix fails the whole batch.
pub proof fn lemma_ingest_prefix_none(
    p: ProviderView,
    batch: Seq<(VersionKey, SheetView)>,
    i: int,
)
    requires
        0 <= i <= batch.len(),
        spec_provider_ingest(p, batch.take(i)) is None,
    ensures
        spec_provider_ingest(p, batch) is None,
    decreases i,
{
    if i == 0 {
        assert(batch.take(0int) =~= Seq::<(VersionKey, SheetView)>::empty());
        assert(spec_provider_ingest(p, batch.take(0int)) == Some(p));
    } else {
        if batch.len() > 0 {
            assert(batch.take(i)[0] == batch[0]);
            assert(batch.take(i).drop_first() =~= batch.drop_first().take(i - 1));
            match spec_ingest_one(p, batch[0].0, batch[0].1) {
                None => {},
                Some(p1) => {
                    lemma_ingest_prefix_none(p1, batch.drop_first(), i - 1);
                },
            }
        }
    }
}

/// The merged hits of a sequence of per-sheet scoped queries: each entry
/// is answered by its sheet's partition (a sheet without a partition
/// yields nothing), a fatal failure anywhere aborts the whole call.
pub open spec fn spec_gather(
    reg: Seq<SheetEntryView>,
    version: VersionKey,
    queries: Seq<(Seq<char>, crate::query::post::NodeView)>,
    limit: Option<u32>,
    depth: nat,
) -> Option<Seq<crate::index::IndexResult>>
    decreases queries.len(),
{
    if queries.len() == 0 {
        Some(Seq::empty())
    } else {
        match crate::resolve::spec_search_one(
            reg,
            version,
            queries[0].0,
            queries[0].1,
            limit,
            depth,
        ) {
            None => None,
            Some(rs) => match spec_gather(reg, version, queries.drop_first(), limit, depth) {
                None => None,
                Some(rest) => Some(rs + rest),
            },
        }
    }
}

pub proof fn lemma_gather_push(
    reg: Seq<SheetEntryView>,
    version: VersionKey,
    queries: Seq<(Seq<char>, crate::query::post::NodeView)>,
    q: (Seq<char>, crate::query::post::NodeView),
    limit: Option<u32>,
    depth: nat,
)
    ensures
        spec_gather(reg, version, queries.push(q), limit, depth) == (match spec_gather(
            reg,
            version,
            queries,
            limit,
            depth,
        ) {
            None => None,
            Some(acc) => match crate::resolve::spec_search_one(reg, version, q.0, q.1, limit, depth) {
                None => None::<Seq<crate::index::IndexResult>>,
                Some(rs) => Some(acc + rs),
            },
        }),
    decreases queries.len(),
{
    if queries.len() == 0 {
        assert(queries.push(q)[0] == q);
        assert(queries.push(q).drop_first() =~= Seq::<(
            Seq<char>,
            crate::query::post::NodeView,
        )>::empty());
        match crate::resolve::spec_search_one(reg, version, q.0, q.1, limit, depth) {
            None => {},
            Some(rs) => {
                assert(spec_gather(
                    reg,
                    version,
                    Seq::<(Seq<char>, crate::query::post::NodeView)>::empty(),
                    limit,
                    depth,
                ) == Some(Seq::<crate::index::IndexResult>::empty()));
                assert(rs + Seq::<crate::index::IndexResult>::empty() =~= rs);
                assert(Seq::<crate::index::IndexResult>::empty() + rs =~= rs);
            },
        }
    } else {
        assert(queries.push(q)[0] == queries[0]);
        assert(queries.push(q).drop_first() =~= queries.drop_first().push(q));
        match crate::resolve::spec_search_one(
            reg,
            version,
            queries[0].0,
            queries[0].1,
            limit,
            depth,
        ) {
            None => {},
            Some(rs) => {
                lemma_gather_push(reg, version, queries.drop_first(), q, limit, depth);
                match spec_gather(reg, version, queries.drop_first(), limit, depth) {
                    None => {},
                    Some(acc) => {
                        match crate::resolve::spec_search_one(reg, version, q.0, q.1, limit, depth) {
                            None => {},
                            Some(qs) => {
                                assert(rs + (acc + qs) =~= (rs + acc) + qs);
                            },
                        }
                    },
                }
            },
        }
    }
}

/// The sheet name a hit is reported under: the registry entry named by
/// the low half of the hit's partition tag. Hits only ever carry tags of
/// existing partitions; the fallback empty name keeps the function total.
pub open spec fn sheet_name_for(reg: Seq<SheetEntryView>, key: u64) -> Seq<char> {
    let i = (key as int) % 0x1_0000_0000;
    if i < reg.len() {
        reg[i].name
    } else {
        Seq::empty()
    }
}

/// Ranked hits decorated with their sheet names.
pub open spec fn spec_attach(reg: Seq<SheetEntryView>, rs: Seq<crate::index::IndexResult>) -> Seq<
    crate::search::SearchResultView,
> {
    rs.map_values(
        |r: crate::index::IndexResult|
            crate::search::SearchResultView {
                score: r.score,
                sheet: sheet_name_for(reg, r.sheet_key),
                row_id: r.row_id,
                subrow_id: r.subrow_id,
            },
    )
}

/// Ranking order of the merge: descending score; ties broken by the
/// sheet name (lexicographically by character), then row id, then subrow
/// id, and finally by partition tag, so that hits of one sheet under
/// different versions still rank deterministically.
pub open spec fn named_le(
    reg: Seq<SheetEntryView>,
    a: crate::index::IndexResult,
    b: crate::index::IndexResult,
) -> bool {
    if a.score != b.score {
        a.score > b.score
    } else {
        let na = sheet_name_for(reg, a.sheet_key);
        let nb = sheet_name_for(reg, b.sheet_key);
        if na != nb {
            crate::rank::chars_le(na, nb)
        } else if a.row_id != b.row_id {
            a.row_id < b.row_id
        } else if a.subrow_id != b.subrow_id {
            a.subrow_id < b.subrow_id
        } else {
            a.sheet_key <= b.sheet_key
        }
    }
}

/// The merge order as a relation value.
pub open spec fn named_order(reg: Seq<SheetEntryView>) -> spec_fn(
    crate::index::IndexResult,
    crate::index::IndexResult,
) -> bool {
    |a: crate::index::IndexResult, b: crate::index::IndexResult| named_le(reg, a, b)
}

/// The merge order is a total ordering.
pub proof fn lemma_named_order_total(reg: Seq<SheetEntryView>)
    ensures
        vstd::relations::total_ordering(named_order(reg)),
{
    let r = named_order(reg);
    assert forall|a: crate::index::IndexResult| #[trigger] r(a, a) by {}
    assert forall|a: crate::index::IndexResult, b: crate::index::IndexResult|
        #[trigger] r(a, b) && #[trigger] r(b, a) implies a == b by {
        if a.score == b.score {
            let na = sheet_name_for(reg, a.sheet_key);
            let nb = sheet_name_for(reg, b.sheet_key);
            if na != nb {
                crate::rank::lemma_chars_le_antisym(na, nb);
            }
        }
    }
    assert forall|a: crate::index::IndexResult, b: crate::index::IndexResult, c: crate::index::IndexResult|
        #[trigger] r(a, b) && #[trigger] r(b, c) implies r(a, c) by {
        if a.score == b.score && b.score == c.score {
            let na = sheet_name_for(reg, a.sheet_key);
            let nb = sheet_name_for(reg, b.sheet_key);
            let nc = sheet_name_for(reg, c.sheet_key);
            if na != nb && nb != nc {
                crate::rank::lemma_chars_le_trans(na, nb, nc);
                if na == nc {
                    crate::rank::lemma_chars_le_antisym(na, nb);
                }
            }
        }
    }
    assert forall|a: crate::index::IndexResult, b: crate::index::IndexResult|
        !(#[trigger] r(a, b)) implies r(b, a) by {
        if a.score == b.score {
            let na = sheet_name_for(reg, a.sheet_key);
            let nb = sheet_name_for(reg, b.sheet_key);
            if na != nb {
                crate::rank::lemma_chars_le_total(na, nb);
            }
        }
    }
}

/// The sheet name a hit ranks and reports under.
fn hit_sheet_name<'a>(sheets: &'a Vec<SheetEntry>, hit: &crate::index::IndexResult) -> (r: &'a str)
    ensures
        r@ == sheet_name_for(sheets.deep_view(), hit.sheet_key),
{
    broadcast use vstd::string::group_string_axioms;

    let idx = (hit.sheet_key % 0x1_0000_0000u64) as usize;
    proof {
        assert(idx as int == (hit.sheet_key as int) % 0x1_0000_0000);
    }
    if idx < sheets.len() {
        sheets[idx].name.as_str()
    } else {
        let empty: &str = "";
        proof {
            reveal_strlit("");
            assert(empty@ =~= Seq::<char>::empty());
        }
        empty
    }
}

/// Decides `named_le` over the registry.
fn named_le_exec(
    sheets: &Vec<SheetEntry>,
    a: &crate::index::IndexResult,
    b: &crate::index::IndexResult,
) -> (r: bool)
    ensures
        r == named_le(sheets.deep_view(), *a, *b),
{
    if a.score != b.score {
        return a.score > b.score;
    }
    let na = hit_sheet_name(sheets, a);
    let nb = hit_sheet_name(sheets, b);
    let le_ab = crate::rank::str_le(na, nb);
    let le_ba = crate::rank::str_le(nb, na);
    if le_ab && le_ba {
        proof {
            crate::rank::lemma_chars_le_antisym(na@, nb@);
        }
        if a.row_id != b.row_id {
            a.row_id < b.row_id
        } else if a.subrow_id != b.subrow_id {
            a.subrow_id < b.subrow_id
        } else {
            a.sheet_key <= b.sheet_key
        }
    } else {
        proof {
            if na@ == nb@ {
                crate::rank::lemma_chars_le_refl(na@);
            }
        }
        le_ab
    }
}

/// Sorts merged hits into the merge order: exactly the
/// specification-level sort.
fn sort_results_named(sheets: &Vec<SheetEntry>, input: Vec<crate::index::IndexResult>) -> (r: Vec<
    crate::index::IndexResult,
>)
    ensures
        r@ == input@.sort_by(named_order(sheets.deep_view())),
        vstd::relations::sorted_by(r@, named_order(sheets.deep_view())),
        r@.to_multiset() == input@.to_multiset(),
        r@.len() == input@.len(),
{
    broadcast use vstd::seq_lib::group_to_multiset_ensures;

    let ghost reg = sheets.deep_view();
    proof {
        lemma_named_order_total(reg);
    }
    let mut out: Vec<crate::index::IndexResult> = Vec::new();
    let mut i: usize = 0;
    proof {
        assert(input@.take(0int) =~= Seq::<crate::index::IndexResult>::empty());
        assert(out@.to_multiset() =~= input@.take(0int).to_multiset());
    }
    while i < input.len()
        invariant
            0 <= i <= input@.len(),
            reg == sheets.deep_view(),
            vstd::relations::sorted_by(out@, named_order(reg)),
            out@.to_multiset() == input@.take(i as int).to_multiset(),
            out@.len() == i,
        decreases input@.len() - i,
    {
        let x = input[i];
        let mut j: usize = 0;
        while j < out.len() && named_le_exec(sheets, &out[j], &x)
            invariant
                0 <= j <= out@.len(),
                reg == sheets.deep_view(),
                forall|k: int| 0 <= k < j ==> named_le(reg, #[trigger] out@[k], x),
            decreases out@.len() - j,
        {
            j += 1;
        }
        let ghost pre = out@;
        out.insert(j, x);
        proof {
            lemma_named_order_total(reg);
            assert(out@ == pre.insert(j as int, x));
            crate::rank::lemma_insert_multiset(pre, j as int, x);
            assert(input@.take(i + 1 as int) =~= input@.take(i as int).push(x));
            vstd::seq_lib::to_multiset_build(input@.take(i as int), x);
            assert(input@.take(i as int).push(x).to_multiset() =~= input@.take(
                i as int,
            ).to_multiset().insert(x));
            assert(input@.take(i + 1 as int).to_multiset() =~= input@.take(
                i as int,
            ).to_multiset().insert(x));
            let r = named_order(reg);
            assert forall|a: int, b: int| 0 <= a < b < out@.len() implies r(
                out@[a],
                out@[b],
            ) by {
                if b < j {
                    assert(out@[a] == pre[a] && out@[b] == pre[b]);
                } else if a < j && b == j {
                    assert(out@[a] == pre[a] && out@[b] == x);
                } else if a < j && b > j {
                    assert(out@[a] == pre[a] && out@[b] == pre[b - 1]);
                } else if a == j {
                    assert(out@[a] == x && out@[b] == pre[b - 1]);
                    if j < pre.len() {
                        assert(!named_le(reg, pre[j as int], x));
                        assert(r(x, pre[j as int]) || r(pre[j as int], x));
                        assert(r(x, pre[j as int]));
                        assert(r(pre[j as int], pre[b - 1]) || j as int == b - 1);
                    }
                } else {
                    assert(out@[a] == pre[a - 1] && out@[b] == pre[b - 1]);
                }
            }
        }
        i += 1;
    }
    proof {
        assert(input@.take(input@.len() as int) =~= input@);
        input@.lemma_sort_by_ensures(named_order(reg));
        vstd::seq_lib::lemma_sorted_unique(out@, input@.sort_by(named_order(reg)), named_order(reg));
        assert(out@.to_multiset().len() == out@.len());
        assert(input@.sort_by(named_order(reg)).to_multiset().len() == input@.sort_by(
            named_order(reg),
        ).len());
    }
    out
}

/// The registry's answer to a fan-out search: per-entry answers merged,
/// globally re-ranked, truncated to the limit, and decorated with sheet
/// names.
pub open spec fn spec_provider_search(
    reg: Seq<SheetEntryView>,
    version: VersionKey,
    queries: Seq<(Seq<char>, crate::query::post::NodeView)>,
    limit: Option<u32>,
    depth: nat,
) -> Option<Seq<crate::search::SearchResultView>> {
    match spec_gather(reg, version, queries, limit, depth) {
        None => None,
        Some(all) => Some(
            spec_attach(
                reg,
                crate::resolve::spec_limited(all.sort_by(named_order(reg)), limit),
            ),
        ),
    }
}

impl Provider {
    /// One sheet's answer to one scoped query (`spec_search_one`): the
    /// named partition is searched under this version's partition tag; a
    /// sheet without a partition yields no hits.
    pub fn search_one(
        &self,
        version: VersionKey,
        sheet: &String,
        node: &crate::query::post::Node,
        limit: Option<u32>,
        executor: &crate::search::Executor,
        depth: u32,
    ) -> (r: Result<Vec<crate::index::IndexResult>, Error>)
        requires
            executor.provider@ == self@,
            self@.well_formed(),
        ensures
            match crate::resolve::spec_search_one(
                self@.sheets,
                version,
                sheet@,
                node@,
                limit,
                depth as nat,
            ) {
                None => r matches Err(e) && e.spec_is_fatal(),
                Some(rs) => r matches Ok(v) && v@ == rs,
            },
        decreases depth, crate::query::post::nv_height(node@), 8int,
    {
        let si = match find_sheet(&self.sheets, sheet) {
            Some(si) => si,
            None => {
                let empty: Vec<crate::index::IndexResult> = Vec::new();
                proof {
                    assert(empty@ =~= Seq::<crate::index::IndexResult>::empty());
                }
                return Ok(empty);
            },
        };
        proof {
            assert(si < self@.sheets.len() <= PARTITION_LIMIT);
        }
        let tag = partition_tag(version, si);
        let entry = &self.sheets[si];
        proof {
            assert(entry@ == self@.sheets[si as int]);
        }
        entry.index.search(version, tag, node, limit, executor, depth)
    }

    /// Fans per-sheet queries out to their partitions, merges the hits,
    /// re-ranks them globally, truncates to the limit and decorates each
    /// hit with its sheet name (`spec_provider_search`).
    pub fn search(
        &self,
        version: VersionKey,
        queries: &Vec<(String, crate::query::post::Node)>,
        limit: Option<u32>,
        executor: &crate::search::Executor,
    ) -> (r: Result<Vec<crate::search::SearchResult>, Error>)
        requires
            executor.provider@ == self@,
            self@.well_formed(),
        ensures
            match spec_provider_search(
                self@.sheets,
                version,
                queries.deep_view(),
                limit,
                crate::resolve::RELATION_DEPTH_LIMIT as nat,
            ) {
                None => r matches Err(e) && e.spec_is_fatal(),
                Some(rs) => r matches Ok(v) && v.deep_view() == rs,
            },
    {
        let ghost qv = queries.deep_view();
        let ghost depth = crate::resolve::RELATION_DEPTH_LIMIT as nat;
        let mut merged: Vec<crate::index::IndexResult> = Vec::new();
        let mut i: usize = 0;
        proof {
            assert(qv.take(0int) =~= Seq::<(Seq<char>, crate::query::post::NodeView)>::empty());
            assert(merged@ =~= Seq::<crate::index::IndexResult>::empty());
        }
        while i < queries.len()
            invariant
                0 <= i <= qv.len(),
                qv == queries.deep_view(),
                qv.len() == queries@.len(),
                depth == crate::resolve::RELATION_DEPTH_LIMIT as nat,
                executor.provider@ == self@,
                self@.well_formed(),
                Some(merged@) == spec_gather(self@.sheets, version, qv.take(i as int), limit, depth),
            decreases qv.len() - i,
        {
            let entry = &queries[i];
            proof {
                assert(qv[i as int] == (queries@[i as int].0@, crate::query::post::node_view(
                    queries@[i as int].1,
                )));
            }
            let rs = match self.search_one(
                version,
                &entry.0,
                &entry.1,
                limit,
                executor,
                crate::resolve::RELATION_DEPTH_LIMIT,
            ) {
                Ok(rs) => rs,
                Err(e) => {
                    proof {
                        assert(entry.0@ == qv[i as int].0);
                        assert(entry.1@ == qv[i as int].1);
                        assert(e.spec_is_fatal());
                        let sres = crate::resolve::spec_search_one(
                            self@.sheets,
                            version,
                            entry.0@,
                            entry.1@,
                            limit,
                            crate::resolve::RELATION_DEPTH_LIMIT as nat,
                        );
                        assert(sres is None);
                        assert(crate::resolve::RELATION_DEPTH_LIMIT as nat == depth);
                        assert(crate::resolve::spec_search_one(
                            self@.sheets,
                            version,
                            qv[i as int].0,
                            qv[i as int].1,
                            limit,
                            depth,
                        ) is None);
                        lemma_gather_push(self@.sheets, version, qv.take(i as int), qv[i as int], limit, depth);
                        assert(qv.take(i + 1 as int) =~= qv.take(i as int).push(qv[i as int]));
                        assert(spec_gather(self@.sheets, version, qv.take(i + 1 as int), limit, depth) is None);
                        lemma_gather_prefix_none(self@.sheets, version, qv, limit, depth, i + 1 as int);
                    }
                    return Err(e);
                },
            };
            let ghost pre_merged = merged@;
            let ghost rsv = rs@;
            proof {
                assert(entry.0@ == qv[i as int].0);
                assert(entry.1@ == qv[i as int].1);
                assert(Some(rsv) == crate::resolve::spec_search_one(
                    self@.sheets,
                    version,
                    qv[i as int].0,
                    qv[i as int].1,
                    limit,
                    depth,
                ));
            }
            let mut rs_vec = rs;
            merged.append(&mut rs_vec);
            proof {
                assert(merged@ =~= pre_merged + rsv);
                lemma_gather_push(self@.sheets, version, qv.take(i as int), qv[i as int], limit, depth);
                assert(qv.take(i + 1 as int) =~= qv.take(i as int).push(qv[i as int]));
                assert(Some(merged@) == spec_gather(
                    self@.sheets,
                    version,
                    qv.take(i + 1 as int),
                    limit,
                    depth,
                ));
            }
            i += 1;
        }
        proof {
            assert(qv.take(qv.len() as int) =~= qv);
        }
        let sorted = sort_results_named(&self.sheets, merged);
        let mut limited = sorted;
        match limit {
            None => {},
            Some(n) => {
                if (n as usize) < limited.len() {
                    limited.truncate(n as usize);
                } else {
                    proof {
                        assert(limited@.take(limited@.len() as int) =~= limited@);
                    }
                }
            },
        }
        let ghost ranked = limited@;
        let mut out: Vec<crate::search::SearchResult> = Vec::new();
        let mut i: usize = 0;
        proof {
            assert(out.deep_view() =~= spec_attach(self@.sheets, ranked).take(0int));
        }
        while i < limited.len()
            invariant
                0 <= i <= ranked.len(),
                ranked == limited@,
                ranked.len() == limited@.len(),
                self@.well_formed(),
                out.deep_view() == spec_attach(self@.sheets, ranked).take(i as int),
            decreases ranked.len() - i,
        {
            let hit = limited[i];
            let idx_u64 = hit.sheet_key % 0x1_0000_0000u64;
            let idx = idx_u64 as usize;
            let name: String = if idx < self.sheets.len() {
                self.sheets[idx].name.clone()
            } else {
                String::new()
            };
            proof {
                assert(idx as int == (hit.sheet_key as int) % 0x1_0000_0000);
                assert(name@ == sheet_name_for(self@.sheets, hit.sheet_key));
            }
            let ghost pre_out = out.deep_view();
            out.push(
                crate::search::SearchResult {
                    score: hit.score,
                    sheet: name,
                    row_id: hit.row_id,
                    subrow_id: hit.subrow_id,
                },
            );
            proof {
                assert(out.deep_view() =~= pre_out.push(
                    crate::search::SearchResultView {
                        score: ranked[i as int].score,
                        sheet: sheet_name_for(self@.sheets, ranked[i as int].sheet_key),
                        row_id: ranked[i as int].row_id,
                        subrow_id: ranked[i as int].subrow_id,
                    },
                ));
                assert(spec_attach(self@.sheets, ranked).take(i + 1 as int) =~= spec_attach(
                    self@.sheets,
                    ranked,
                ).take(i as int).push(spec_attach(self@.sheets, ranked)[i as int]));
            }
            i += 1;
        }
        proof {
            assert(spec_attach(self@.sheets, ranked).take(ranked.len() as int) =~= spec_attach(
                self@.sheets,
                ranked,
            ));
            assert(ranked == crate::resolve::spec_limited(
                spec_gather(self@.sheets, version, qv, limit, depth)->Some_0.sort_by(
                    named_order(self@.sheets),
                ),
                limit,
            ));
            assert(out.deep_view() == spec_provider_search(
                self@.sheets,
                version,
                qv,
                limit,
                depth,
            )->Some_0);
        }
        Ok(out)
    }
}

/// A failing prefix fails the whole gather.
pub proof fn lemma_gather_prefix_none(
    reg: Seq<SheetEntryView>,
    version: VersionKey,
    queries: Seq<(Seq<char>, crate::query::post::NodeView)>,
    limit: Option<u32>,
    depth: nat,
    i: int,
)
    requires
        0 <= i <= queries.len(),
        spec_gather(reg, version, queries.take(i), limit, depth) is None,
    ensures
        spec_gather(reg, version, queries, limit, depth) is None,
    decreases i,
{
    if i == 0 {
        assert(queries.take(0int) =~= Seq::<(Seq<char>, crate::query::post::NodeView)>::empty());
    } else {
        if queries.len() > 0 {
            assert(queries.take(i)[0] == queries[0]);
            assert(queries.take(i).drop_first() =~= queries.drop_first().take(i - 1));
            match crate::resolve::spec_search_one(
                reg,
                version,
                queries[0].0,
                queries[0].1,
                limit,
                depth,
            ) {
                None => {},
                Some(rs) => {
                    lemma_gather_prefix_none(reg, version, queries.drop_first(), limit, depth, i - 1);
                },
            }
        }
    }
}

} // verus!
