//! The library-wide laws: idempotent ingestion (at the registry and at
//! the partition writer), the round-trip shape of ingest-then-search, the
//! pagination bound, and the isolation of non-fatal normalization
//! failures. Each is proved against the specification functions that the
//! executable functions' contracts pin their results to.

use vstd::prelude::*;

use crate::data::LanguageRowsView;
use crate::data::RowView;
use crate::data::SheetView;
use crate::data::VersionKey;
use crate::index::doc_key;
use crate::index::lemma_find_doc_props;
use crate::index::rq_matches;
use crate::index::spec_commit_documents;
use crate::index::spec_doc_replace;
use crate::index::spec_find_doc;
use crate::index::spec_find_doc_key;
use crate::index::spec_index_ingest;
use crate::index::lemma_find_doc_key_first;
use crate::index::lemma_find_doc_key_props;
use crate::index::spec_ingest_langs;
use crate::index::spec_ingest_rows;
use crate::index::spec_sheet_documents;
use crate::index::spec_upsert;
use crate::index::DocumentView;
use crate::index::ResolvedQueryView;
use crate::provider::key_of;
use crate::provider::lemma_sheet_index_props;
use crate::provider::spec_ingest_one;
use crate::provider::spec_sheet_index;
use crate::provider::ProviderView;
use crate::provider::SheetEntryView;

verus! {

/// A document list is coherent for a partition tag when every document
/// carries the tag and no two documents share a row identity.
pub open spec fn docs_coherent(docs: Seq<DocumentView>, tag: u64) -> bool {
    &&& forall|i: int| 0 <= i < docs.len() ==> (#[trigger] docs[i]).sheet_key == tag
    &&& forall|i: int, j: int|
        0 <= i < j < docs.len() ==> doc_key(#[trigger] docs[i]) != doc_key(#[trigger] docs[j])
}

/// The row identities present in a document list.
pub open spec fn docs_row_keys(docs: Seq<DocumentView>) -> Set<(u32, u16)> {
    Set::new(
        |k: (u32, u16)|
            exists|i: int|
                0 <= i < docs.len() && ((#[trigger] docs[i]).row_id, docs[i].subrow_id) == k,
    )
}

/// The row identities present in one language's rows.
pub open spec fn rows_keys(rows: Seq<RowView>) -> Set<(u32, u16)> {
    Set::new(
        |k: (u32, u16)|
            exists|i: int| 0 <= i < rows.len() && ((#[trigger] rows[i]).row_id, rows[i].subrow_id)
                == k,
    )
}

/// The row identities present in a sheet, over all its languages.
pub open spec fn sheet_row_keys(langrows: Seq<LanguageRowsView>) -> Set<(u32, u16)>
    decreases langrows.len(),
{
    if langrows.len() == 0 {
        Set::empty()
    } else {
        rows_keys(langrows[0].rows) + sheet_row_keys(langrows.drop_first())
    }
}

/// Folding one row in keeps the documents coherent and adds exactly that
/// row's identity to the key set.
pub proof fn lemma_upsert_keys(
    docs: Seq<DocumentView>,
    tag: u64,
    columns: Seq<crate::data::ColumnView>,
    language: crate::data::Language,
    row: RowView,
)
    requires
        docs_coherent(docs, tag),
    ensures
        docs_coherent(spec_upsert(docs, tag, columns, language, row), tag),
        docs_row_keys(spec_upsert(docs, tag, columns, language, row)) =~= docs_row_keys(
            docs,
        ).insert((row.row_id, row.subrow_id)),
{
    let out = spec_upsert(docs, tag, columns, language, row);
    let j = spec_find_doc(docs, row.row_id, row.subrow_id);
    lemma_find_doc_props(docs, row.row_id, row.subrow_id);
    if j != -1 {
        assert(out.len() == docs.len());
        assert(forall|i: int|
            0 <= i < docs.len() ==> ((#[trigger] out[i]).row_id, out[i].subrow_id) == (
            docs[i].row_id,
            docs[i].subrow_id,
            ) && out[i].sheet_key == docs[i].sheet_key);
        assert(docs_row_keys(docs).contains((row.row_id, row.subrow_id)));
        assert forall|k: (u32, u16)| docs_row_keys(out).contains(k) implies docs_row_keys(
            docs,
        ).insert((row.row_id, row.subrow_id)).contains(k) by {
            let i = choose|i: int|
                0 <= i < out.len() && ((#[trigger] out[i]).row_id, out[i].subrow_id) == k;
            assert((docs[i].row_id, docs[i].subrow_id) == k);
        }
        assert forall|k: (u32, u16)|
            docs_row_keys(docs).insert((row.row_id, row.subrow_id)).contains(
                k,
            ) implies docs_row_keys(out).contains(k) by {
            if docs_row_keys(docs).contains(k) {
                let i = choose|i: int|
                    0 <= i < docs.len() && ((#[trigger] docs[i]).row_id, docs[i].subrow_id) == k;
                assert(((out[i]).row_id, out[i].subrow_id) == k);
            } else {
                assert(k == (row.row_id, row.subrow_id));
                assert(((out[j]).row_id, out[j].subrow_id) == k);
            }
        }
    } else {
        assert(out =~= docs.push(
            DocumentView {
                sheet_key: tag,
                row_id: row.row_id,
                subrow_id: row.subrow_id,
                fields: crate::index::spec_hydrate(columns, language, row.fields),
            },
        ));
        assert forall|k: (u32, u16)| docs_row_keys(out).contains(k) implies docs_row_keys(
            docs,
        ).insert((row.row_id, row.subrow_id)).contains(k) by {
            let i = choose|i: int|
                0 <= i < out.len() && ((#[trigger] out[i]).row_id, out[i].subrow_id) == k;
            if i < docs.len() {
                assert((docs[i].row_id, docs[i].subrow_id) == k);
            }
        }
        assert forall|k: (u32, u16)|
            docs_row_keys(docs).insert((row.row_id, row.subrow_id)).contains(
                k,
            ) implies docs_row_keys(out).contains(k) by {
            if docs_row_keys(docs).contains(k) {
                let i = choose|i: int|
                    0 <= i < docs.len() && ((#[trigger] docs[i]).row_id, docs[i].subrow_id) == k;
                assert(((out[i]).row_id, out[i].subrow_id) == k);
            } else {
                assert(((out[out.len() - 1]).row_id, out[out.len() - 1].subrow_id) == k);
            }
        }
    }
}

/// Folding a language's rows in keeps the documents coherent and adds
/// exactly those rows' identities.
pub proof fn lemma_ingest_rows_keys(
    docs: Seq<DocumentView>,
    tag: u64,
    columns: Seq<crate::data::ColumnView>,
    language: crate::data::Language,
    rows: Seq<RowView>,
)
    requires
        docs_coherent(docs, tag),
    ensures
        docs_coherent(spec_ingest_rows(docs, tag, columns, language, rows), tag),
        docs_row_keys(spec_ingest_rows(docs, tag, columns, language, rows)) =~= docs_row_keys(docs)
            + rows_keys(rows),
    decreases rows.len(),
{
    if rows.len() == 0 {
        assert(docs_row_keys(docs) + rows_keys(rows) =~= docs_row_keys(docs));
    } else {
        lemma_upsert_keys(docs, tag, columns, language, rows[0]);
        lemma_ingest_rows_keys(
            spec_upsert(docs, tag, columns, language, rows[0]),
            tag,
            columns,
            language,
            rows.drop_first(),
        );
        assert forall|k: (u32, u16)| rows_keys(rows).contains(k) implies rows_keys(
            rows.drop_first(),
        ).insert((rows[0].row_id, rows[0].subrow_id)).contains(k) by {
            let i = choose|i: int|
                0 <= i < rows.len() && ((#[trigger] rows[i]).row_id, rows[i].subrow_id) == k;
            if i > 0 {
                assert((rows.drop_first()[i - 1].row_id, rows.drop_first()[i - 1].subrow_id) == k);
            }
        }
        assert forall|k: (u32, u16)|
            rows_keys(rows.drop_first()).insert((rows[0].row_id, rows[0].subrow_id)).contains(
                k,
            ) implies rows_keys(rows).contains(k) by {
            if rows_keys(rows.drop_first()).contains(k) {
                let i = choose|i: int|
                    0 <= i < rows.drop_first().len() && ((#[trigger] rows.drop_first()[i]).row_id,
                    rows.drop_first()[i].subrow_id) == k;
                assert((rows[i + 1].row_id, rows[i + 1].subrow_id) == k);
            } else {
                assert((rows[0].row_id, rows[0].subrow_id) == k);
            }
        }
        assert(docs_row_keys(spec_ingest_rows(docs, tag, columns, language, rows))
            =~= docs_row_keys(docs) + rows_keys(rows));
    }
}

/// Folding every language in keeps the documents coherent and adds the
/// sheet's whole key set.
pub proof fn lemma_ingest_langs_keys(
    docs: Seq<DocumentView>,
    tag: u64,
    columns: Seq<crate::data::ColumnView>,
    langrows: Seq<LanguageRowsView>,
)
    requires
        docs_coherent(docs, tag),
    ensures
        docs_coherent(spec_ingest_langs(docs, tag, columns, langrows), tag),
        docs_row_keys(spec_ingest_langs(docs, tag, columns, langrows)) =~= docs_row_keys(docs)
            + sheet_row_keys(langrows),
    decreases langrows.len(),
{
    if langrows.len() == 0 {
        assert(docs_row_keys(docs) + sheet_row_keys(langrows) =~= docs_row_keys(docs));
    } else {
        lemma_ingest_rows_keys(docs, tag, columns, langrows[0].language, langrows[0].rows);
        lemma_ingest_langs_keys(
            spec_ingest_rows(docs, tag, columns, langrows[0].language, langrows[0].rows),
            tag,
            columns,
            langrows.drop_first(),
        );
        assert(docs_row_keys(spec_ingest_langs(docs, tag, columns, langrows)) =~= docs_row_keys(
            docs,
        ) + sheet_row_keys(langrows));
    }
}

/// Round trip, ingestion half: the documents one sheet contributes carry
/// the partition tag, no two of them share a row identity, and their
/// identities are exactly the (row, subrow) pairs present in the sheet —
/// one document per pair, whatever languages the rows came in.
pub proof fn lemma_sheet_documents_round_trip(tag: u64, sheet: SheetView)
    ensures
        docs_coherent(spec_sheet_documents(tag, sheet), tag),
        docs_row_keys(spec_sheet_documents(tag, sheet)) =~= sheet_row_keys(sheet.rows),
{
    assert(docs_coherent(Seq::<DocumentView>::empty(), tag));
    lemma_ingest_langs_keys(Seq::empty(), tag, sheet.columns, sheet.rows);
    assert(docs_row_keys(Seq::<DocumentView>::empty()) =~= Set::<(u32, u16)>::empty());
    assert(Set::<(u32, u16)>::empty() + sheet_row_keys(sheet.rows) =~= sheet_row_keys(sheet.rows));
}

/// Round trip, search half: when every document of a partition matches the
/// resolved query, the evaluation yields exactly one hit per document, in
/// order, each carrying its document's identity.
pub proof fn lemma_eval_all_match(docs: Seq<DocumentView>, rq: ResolvedQueryView)
    requires
        forall|i: int| 0 <= i < docs.len() ==> rq_matches(#[trigger] docs[i], rq),
    ensures
        crate::resolve::spec_eval_partition(docs, rq).len() == docs.len(),
        forall|i: int|
            0 <= i < docs.len() ==> {
                let r = #[trigger] crate::resolve::spec_eval_partition(docs, rq)[i];
                r.sheet_key == docs[i].sheet_key && r.row_id == docs[i].row_id && r.subrow_id
                    == docs[i].subrow_id
            },
    decreases docs.len(),
{
    if docs.len() > 0 {
        assert(forall|i: int|
            0 <= i < docs.drop_first().len() ==> rq_matches(
                #[trigger] docs.drop_first()[i],
                rq,
            ));
        lemma_eval_all_match(docs.drop_first(), rq);
        assert(rq_matches(docs[0], rq));
        assert forall|i: int| 0 <= i < docs.len() implies {
            let r = #[trigger] crate::resolve::spec_eval_partition(docs, rq)[i];
            r.sheet_key == docs[i].sheet_key && r.row_id == docs[i].row_id && r.subrow_id
                == docs[i].subrow_id
        } by {
            if i > 0 {
                assert(crate::resolve::spec_eval_partition(docs, rq)[i]
                    == crate::resolve::spec_eval_partition(docs.drop_first(), rq)[i - 1]);
                assert(docs.drop_first()[i - 1] == docs[i]);
            }
        }
    }
}

/// Two registries whose entries carry the same names in the same order
/// agree on every sheet lookup.
pub proof fn lemma_sheet_index_names(reg1: Seq<SheetEntryView>, reg2: Seq<SheetEntryView>, name: Seq<char>)
    requires
        reg1.len() == reg2.len(),
        forall|k: int| 0 <= k < reg1.len() ==> (#[trigger] reg1[k]).name == reg2[k].name,
    ensures
        spec_sheet_index(reg1, name) == spec_sheet_index(reg2, name),
    decreases reg1.len(),
{
    if reg1.len() > 0 {
        assert(forall|k: int|
            0 <= k < reg1.drop_first().len() ==> (#[trigger] reg1.drop_first()[k]).name
                == reg2.drop_first()[k].name && reg1.drop_first()[k] == reg1[k + 1]
                && reg2.drop_first()[k] == reg2[k + 1]);
        lemma_sheet_index_names(reg1.drop_first(), reg2.drop_first(), name);
    }
}

/// Idempotence: routing the same (version, sheet) pair into a registry
/// twice is the same as routing it once. The second pass finds the tag
/// already recorded and changes nothing — neither the partitions nor the
/// ingested set.
pub proof fn lemma_reingest_idempotent(p: ProviderView, version: VersionKey, sheet: SheetView)
    requires
        p.well_formed(),
        spec_ingest_one(p, version, sheet) is Some,
    ensures
        spec_ingest_one(spec_ingest_one(p, version, sheet)->Some_0, version, sheet)
            == spec_ingest_one(p, version, sheet),
{
    let p1 = spec_ingest_one(p, version, sheet)->Some_0;
    let si = spec_sheet_index(p.sheets, sheet.name);
    lemma_sheet_index_props(p.sheets, sheet.name);
    if si == -1 {
        let created = SheetEntryView {
            name: sheet.name,
            index: crate::index::IndexView {
                schema: crate::schema::spec_build_schema(sheet.columns, sheet.languages),
                docs: Seq::empty(),
            },
        };
        let reg = p.sheets.push(created);
        let j = p.sheets.len() as int;
        let tag = key_of(version, j);
        assert(forall|k: int|
            0 <= k < p.sheets.len() ==> #[trigger] reg[k] == p.sheets[k] && reg[k].name
                != sheet.name);
        if p.ingested.contains(tag) {
            assert(p1.sheets == reg);
            lemma_sheet_index_props(p1.sheets, sheet.name);
            assert(p1.sheets[j].name == sheet.name);
            assert(spec_sheet_index(p1.sheets, sheet.name) != -1);
            let si2 = spec_sheet_index(p1.sheets, sheet.name);
            lemma_sheet_index_first(p1.sheets, sheet.name, j);
            assert(si2 == j);
            assert(p1.ingested.contains(key_of(version, si2)));
            assert(spec_ingest_one(p1, version, sheet) == Some(
                ProviderView { sheets: p1.sheets, ingested: p1.ingested },
            ));
            assert(ProviderView { sheets: p1.sheets, ingested: p1.ingested } == p1);
        } else {
            assert(p1.sheets.len() == reg.len());
            assert(forall|k: int|
                0 <= k < reg.len() ==> (#[trigger] p1.sheets[k]).name == reg[k].name);
            assert(p1.sheets[j].name == sheet.name);
            lemma_sheet_index_first(p1.sheets, sheet.name, j);
            assert(spec_sheet_index(p1.sheets, sheet.name) == j);
            assert(p1.ingested == p.ingested.push(tag));
            assert(p1.ingested[p1.ingested.len() - 1] == tag);
            assert(p1.ingested.contains(tag));
            assert(spec_ingest_one(p1, version, sheet) == Some(
                ProviderView { sheets: p1.sheets, ingested: p1.ingested },
            ));
            assert(ProviderView { sheets: p1.sheets, ingested: p1.ingested } == p1);
        }
    } else {
        let j = si;
        let tag = key_of(version, j);
        assert(0 <= j < p.sheets.len());
        assert(p.sheets[j].name == sheet.name);
        if p.ingested.contains(tag) {
            assert(p1 == ProviderView { sheets: p.sheets, ingested: p.ingested });
            assert(p1.sheets =~= p.sheets);
            assert(spec_ingest_one(p1, version, sheet) == Some(
                ProviderView { sheets: p1.sheets, ingested: p1.ingested },
            ));
            assert(ProviderView { sheets: p1.sheets, ingested: p1.ingested } == p1);
        } else {
            assert(p1.sheets.len() == p.sheets.len());
            assert(forall|k: int|
                0 <= k < p.sheets.len() ==> (#[trigger] p1.sheets[k]).name == p.sheets[k].name);
            lemma_sheet_index_names(p1.sheets, p.sheets, sheet.name);
            assert(spec_sheet_index(p1.sheets, sheet.name) == j);
            assert(p1.ingested == p.ingested.push(tag));
            assert(p1.ingested[p1.ingested.len() - 1] == tag);
            assert(p1.ingested.contains(tag));
            assert(spec_ingest_one(p1, version, sheet) == Some(
                ProviderView { sheets: p1.sheets, ingested: p1.ingested },
            ));
            assert(ProviderView { sheets: p1.sheets, ingested: p1.ingested } == p1);
        }
    }
}

/// A registry whose first `j` entries have other names, and whose entry
/// `j` has the name, looks the name up at `j`.
pub proof fn lemma_sheet_index_first(reg: Seq<SheetEntryView>, name: Seq<char>, j: int)
    requires
        0 <= j < reg.len(),
        forall|k: int| 0 <= k < j ==> (#[trigger] reg[k]).name != name,
        reg[j].name == name,
    ensures
        spec_sheet_index(reg, name) == j,
{
    crate::provider::lemma_sheet_index_skip(reg, name, j);
    assert(reg.skip(j)[0] == reg[j]);
    assert(spec_sheet_index(reg.skip(j), name) == 0);
}

/// Pagination: the service never returns more hits than the effective
/// limit, which is the requested limit (or the default when none is
/// requested) clamped to the configured maximum.
pub proof fn lemma_pagination_bound(
    reg: Seq<SheetEntryView>,
    pagination: crate::search::PaginationConfig,
    version: VersionKey,
    query: crate::query::pre::NodeView,
    language: crate::data::Language,
    sheet_filter: Option<Seq<Seq<char>>>,
    limit: Option<u32>,
    sheets: Seq<SheetView>,
)
    requires
        crate::search::spec_service_search(
            reg,
            pagination,
            version,
            query,
            language,
            sheet_filter,
            limit,
            sheets,
        ) is Some,
    ensures
        ({
            let requested = match limit {
                Some(n) => n,
                None => pagination.limit_default,
            };
            let effective = if requested <= pagination.limit_max {
                requested
            } else {
                pagination.limit_max
            };
            crate::search::spec_service_search(
                reg,
                pagination,
                version,
                query,
                language,
                sheet_filter,
                limit,
                sheets,
            )->Some_0.len() <= effective
        }),
{
}

/// Non-fatal isolation: a candidate sheet whose normalization fails is
/// dropped from the fan-out, and the remaining candidates' queries are
/// exactly those of the list without it.
pub proof fn lemma_nonfatal_isolation(
    names: Seq<Seq<char>>,
    query: crate::query::pre::NodeView,
    language: crate::data::Language,
    sheets: Seq<SheetView>,
)
    requires
        names.len() >= 1,
        crate::normalize::spec_normalize(sheets, query, names[0], language) is Dropped,
    ensures
        crate::search::spec_normalized_queries(names, query, language, sheets)
            == crate::search::spec_normalized_queries(names.drop_first(), query, language, sheets),
{
}

/// Round trip, end to end at the partition level: a partition holding
/// exactly one sheet's documents, searched without a limit with a query
/// that matches every document, answers with exactly one hit per
/// (row, subrow) pair present in the sheet, each hit carrying the
/// partition tag.
pub proof fn lemma_index_round_trip(
    reg: Seq<SheetEntryView>,
    version: VersionKey,
    idx: crate::index::IndexView,
    tag: u64,
    sheet: SheetView,
    node: crate::query::post::NodeView,
    rq: ResolvedQueryView,
    depth: nat,
)
    requires
        idx.docs == spec_sheet_documents(tag, sheet),
        crate::resolve::spec_resolve(reg, version, idx.schema, node, depth)
            == crate::resolve::Resolution::Resolved(rq),
        forall|i: int|
            0 <= i < idx.docs.len() ==> rq_matches(
                #[trigger] idx.docs[i],
                ResolvedQueryView::Boolean(
                    seq![
                        (crate::query::Occur::Must, rq),
                        (crate::query::Occur::Must, ResolvedQueryView::SheetKey(tag)),
                    ],
                ),
            ),
    ensures
        crate::resolve::spec_index_search(reg, version, idx, tag, node, None, depth) is Some,
        ({
            let rs = crate::resolve::spec_index_search(
                reg,
                version,
                idx,
                tag,
                node,
                None,
                depth,
            )->Some_0;
            &&& rs.len() == idx.docs.len()
            &&& forall|i: int| 0 <= i < rs.len() ==> (#[trigger] rs[i]).sheet_key == tag
            &&& forall|k: (u32, u16)|
                sheet_row_keys(sheet.rows).contains(k) ==> exists|i: int|
                    0 <= i < rs.len() && ((#[trigger] rs[i]).row_id, rs[i].subrow_id) == k
            &&& forall|a: int, b: int|
                0 <= a < b < rs.len() ==> ((#[trigger] rs[a]).row_id, rs[a].subrow_id) != ((
                #[trigger] rs[b]).row_id, rs[b].subrow_id)
        }),
{
    broadcast use vstd::seq_lib::group_to_multiset_ensures;

    let docs = idx.docs;
    let full = ResolvedQueryView::Boolean(
        seq![
            (crate::query::Occur::Must, rq),
            (crate::query::Occur::Must, ResolvedQueryView::SheetKey(tag)),
        ],
    );
    lemma_sheet_documents_round_trip(tag, sheet);
    lemma_eval_all_match(docs, full);
    let hits = crate::resolve::spec_eval_partition(docs, full);
    crate::rank::lemma_result_order_total();
    hits.lemma_sort_by_ensures(crate::rank::result_order());
    let sorted = hits.sort_by(crate::rank::result_order());
    assert(crate::resolve::spec_limited(sorted, None) == sorted);
    let rs = crate::resolve::spec_index_search(reg, version, idx, tag, node, None, depth)->Some_0;
    assert(rs == sorted);
    assert(sorted.len() == sorted.to_multiset().len());
    assert(hits.len() == hits.to_multiset().len());
    assert(rs.len() == docs.len());

    // Hits are pairwise distinct: distinct row identities make distinct values.
    assert forall|a: int, b: int|
        0 <= a < hits.len() && 0 <= b < hits.len() && a != b implies hits[a] != hits[b] by {
        assert((hits[a].row_id, hits[a].subrow_id) == (docs[a].row_id, docs[a].subrow_id));
        assert((hits[b].row_id, hits[b].subrow_id) == (docs[b].row_id, docs[b].subrow_id));
        assert(doc_key(docs[a]) != doc_key(docs[b]));
        assert(docs[a].sheet_key == tag && docs[b].sheet_key == tag);
    }
    assert(hits.no_duplicates());
    hits.lemma_multiset_has_no_duplicates();
    sorted.lemma_multiset_has_no_duplicates_conv();

    // Every hit of the ranked answer is one of the evaluation's hits.
    assert forall|i: int| 0 <= i < rs.len() implies exists|j: int|
        0 <= j < hits.len() && hits[j] == #[trigger] rs[i] by {
        assert(sorted.contains(sorted[i]));
        assert(sorted.to_multiset().contains(sorted[i]));
        assert(hits.to_multiset().contains(sorted[i]));
        assert(hits.contains(sorted[i]));
    }
    assert forall|i: int| 0 <= i < rs.len() implies (#[trigger] rs[i]).sheet_key == tag by {
        let j = choose|j: int| 0 <= j < hits.len() && hits[j] == rs[i];
        assert(hits[j].sheet_key == docs[j].sheet_key);
    }

    // One hit per sheet row key.
    assert forall|k: (u32, u16)| sheet_row_keys(sheet.rows).contains(k) implies exists|i: int|
        0 <= i < rs.len() && ((#[trigger] rs[i]).row_id, rs[i].subrow_id) == k by {
        assert(docs_row_keys(docs).contains(k));
        let d = choose|d: int|
            0 <= d < docs.len() && ((#[trigger] docs[d]).row_id, docs[d].subrow_id) == k;
        assert((hits[d].row_id, hits[d].subrow_id) == k);
        assert(hits.contains(hits[d]));
        assert(hits.to_multiset().contains(hits[d]));
        assert(sorted.to_multiset().contains(hits[d]));
        assert(sorted.contains(hits[d]));
        let i = choose|i: int| 0 <= i < sorted.len() && sorted[i] == hits[d];
        assert(((rs[i]).row_id, rs[i].subrow_id) == k);
    }

    // At most one hit per row key.
    assert forall|a: int, b: int|
        0 <= a < b < rs.len() implies ((#[trigger] rs[a]).row_id, rs[a].subrow_id) != ((
    #[trigger] rs[b]).row_id, rs[b].subrow_id) by {
        assert(sorted[a] != sorted[b]);
        assert(sorted.contains(sorted[a]) && sorted.contains(sorted[b]));
        assert(sorted.to_multiset().contains(sorted[a]) && sorted.to_multiset().contains(
            sorted[b],
        ));
        assert(hits.contains(sorted[a]) && hits.contains(sorted[b]));
        let ja = choose|j: int| 0 <= j < hits.len() && hits[j] == sorted[a];
        let jb = choose|j: int| 0 <= j < hits.len() && hits[j] == sorted[b];
        assert(ja != jb);
        if (rs[a].row_id, rs[a].subrow_id) == (rs[b].row_id, rs[b].subrow_id) {
            assert((docs[ja].row_id, docs[ja].subrow_id) == (docs[jb].row_id, docs[jb].subrow_id));
            assert(docs[ja].sheet_key == tag && docs[jb].sheet_key == tag);
            assert(doc_key(docs[ja]) == doc_key(docs[jb]));
            assert(false);
        }
    }
}

/// Equality query: a document holding the unsigned value 5 under a field
/// matches an exact-match term for 5 on that field and no term for any
/// other value.
pub proof fn lemma_equality_exact(doc: DocumentView, field: Seq<char>, other: u64)
    requires
        crate::index::doc_has(doc, field, crate::index::DocValueView::U64(5)),
        forall|i: int|
            0 <= i < doc.fields.len() ==> #[trigger] doc.fields[i] == (
                field,
                crate::index::DocValueView::U64(5),
            ),
        other != 5,
    ensures
        rq_matches(doc, ResolvedQueryView::TermU64 { field, value: 5 }),
        !rq_matches(doc, ResolvedQueryView::TermU64 { field, value: other }),
{
}

/// Relation join: the materialized candidate set of a relation over an
/// unsigned field matches a document exactly when the field holds the row
/// id of some hit of the nested search.
pub proof fn lemma_relation_membership(doc: DocumentView, fname: Seq<char>, ids: Seq<u32>)
    ensures
        ({
            let ts = ResolvedQueryView::TermSetU64 {
                field: fname,
                values: ids.map_values(|r: u32| r as u64),
            };
            rq_matches(doc, ts) <==> exists|i: int|
                0 <= i < ids.len() && crate::index::doc_has(
                    doc,
                    fname,
                    crate::index::DocValueView::U64((#[trigger] ids[i]) as u64),
                )
        }),
{
    let values = ids.map_values(|r: u32| r as u64);
    if crate::index::set_matches_u64(doc, fname, values) {
        let i = choose|i: int|
            0 <= i < values.len() && crate::index::doc_has(
                doc,
                fname,
                crate::index::DocValueView::U64(#[trigger] values[i]),
            );
        assert(values[i] == ids[i] as u64);
        assert(crate::index::doc_has(
            doc,
            fname,
            crate::index::DocValueView::U64(ids[i] as u64),
        ));
    }
    if exists|i: int|
        0 <= i < ids.len() && crate::index::doc_has(
            doc,
            fname,
            crate::index::DocValueView::U64((#[trigger] ids[i]) as u64),
        ) {
        let i = choose|i: int|
            0 <= i < ids.len() && crate::index::doc_has(
                doc,
                fname,
                crate::index::DocValueView::U64((#[trigger] ids[i]) as u64),
            );
        assert(values[i] == ids[i] as u64);
        assert(crate::index::set_matches_u64(doc, fname, values));
    }
}

/// Committing a document with a different identity moves neither the
/// position nor the value of an identity already found.
pub proof fn lemma_replace_other(
    docs: Seq<DocumentView>,
    g: DocumentView,
    key: u64,
    row_id: u32,
    subrow_id: u16,
    j: int,
)
    requires
        !(g.sheet_key == key && g.row_id == row_id && g.subrow_id == subrow_id),
        0 <= j < docs.len(),
        spec_find_doc_key(docs, key, row_id, subrow_id) == j,
    ensures
        ({
            let out = spec_doc_replace(docs, g);
            &&& docs.len() <= out.len()
            &&& out[j] == docs[j]
            &&& spec_find_doc_key(out, key, row_id, subrow_id) == j
        }),
{
    lemma_find_doc_key_props(docs, key, row_id, subrow_id);
    let out = spec_doc_replace(docs, g);
    let jg = spec_find_doc_key(docs, g.sheet_key, g.row_id, g.subrow_id);
    lemma_find_doc_key_props(docs, g.sheet_key, g.row_id, g.subrow_id);
    if jg != -1 {
        assert(jg != j);
        assert(out[j] == docs[j]);
        assert(forall|l: int|
            0 <= l < j ==> !((#[trigger] out[l]).sheet_key == key && out[l].row_id == row_id
                && out[l].subrow_id == subrow_id));
        lemma_find_doc_key_first(out, key, row_id, subrow_id, j);
    } else {
        assert(out[j] == docs[j]);
        assert(forall|l: int|
            0 <= l < j ==> !((#[trigger] out[l]).sheet_key == key && out[l].row_id == row_id
                && out[l].subrow_id == subrow_id));
        lemma_find_doc_key_first(out, key, row_id, subrow_id, j);
    }
}

/// Committing documents with different identities leaves an identity
/// already found in place and unchanged.
pub proof fn lemma_commit_other(
    docs: Seq<DocumentView>,
    rest: Seq<DocumentView>,
    key: u64,
    row_id: u32,
    subrow_id: u16,
    j: int,
)
    requires
        0 <= j < docs.len(),
        spec_find_doc_key(docs, key, row_id, subrow_id) == j,
        forall|g: int|
            0 <= g < rest.len() ==> !((#[trigger] rest[g]).sheet_key == key && rest[g].row_id
                == row_id && rest[g].subrow_id == subrow_id),
    ensures
        ({
            let out = spec_commit_documents(docs, rest);
            &&& j < out.len()
            &&& out[j] == docs[j]
            &&& spec_find_doc_key(out, key, row_id, subrow_id) == j
        }),
    decreases rest.len(),
{
    if rest.len() > 0 {
        lemma_replace_other(docs, rest[0], key, row_id, subrow_id, j);
        let docs1 = spec_doc_replace(docs, rest[0]);
        assert(forall|g: int|
            0 <= g < rest.drop_first().len() ==> #[trigger] rest.drop_first()[g] == rest[g + 1]);
        lemma_commit_other(docs1, rest.drop_first(), key, row_id, subrow_id, j);
    }
}

/// After committing a list of documents with pairwise-distinct identities,
/// each one is found at its identity, unchanged.
pub proof fn lemma_commit_find(docs: Seq<DocumentView>, fresh: Seq<DocumentView>)
    requires
        forall|a: int, b: int|
            0 <= a < b < fresh.len() ==> doc_key(#[trigger] fresh[a]) != doc_key(
                #[trigger] fresh[b],
            ),
    ensures
        forall|i: int|
            0 <= i < fresh.len() ==> ({
                let out = spec_commit_documents(docs, fresh);
                let f = #[trigger] fresh[i];
                let j = spec_find_doc_key(out, f.sheet_key, f.row_id, f.subrow_id);
                &&& 0 <= j < out.len()
                &&& out[j] == f
            }),
    decreases fresh.len(),
{
    if fresh.len() > 0 {
        let d0 = fresh[0];
        let docs1 = spec_doc_replace(docs, d0);
        let j0 = spec_find_doc_key(docs, d0.sheet_key, d0.row_id, d0.subrow_id);
        lemma_find_doc_key_props(docs, d0.sheet_key, d0.row_id, d0.subrow_id);
        let p0: int = if j0 != -1 {
            j0
        } else {
            docs.len() as int
        };
        assert(0 <= p0 < docs1.len() && docs1[p0] == d0);
        assert(forall|l: int|
            0 <= l < p0 ==> !((#[trigger] docs1[l]).sheet_key == d0.sheet_key && docs1[l].row_id
                == d0.row_id && docs1[l].subrow_id == d0.subrow_id));
        lemma_find_doc_key_first(docs1, d0.sheet_key, d0.row_id, d0.subrow_id, p0);
        assert(forall|g: int|
            0 <= g < fresh.drop_first().len() ==> #[trigger] fresh.drop_first()[g] == fresh[g
                + 1]);
        assert(forall|g: int|
            0 <= g < fresh.drop_first().len() ==> doc_key(#[trigger] fresh.drop_first()[g])
                != doc_key(d0));
        assert(forall|g: int|
            0 <= g < fresh.drop_first().len() ==> !((#[trigger] fresh.drop_first()[g]).sheet_key
                == d0.sheet_key && fresh.drop_first()[g].row_id == d0.row_id
                && fresh.drop_first()[g].subrow_id == d0.subrow_id));
        lemma_commit_other(docs1, fresh.drop_first(), d0.sheet_key, d0.row_id, d0.subrow_id, p0);
        lemma_commit_find(docs1, fresh.drop_first());
        let out = spec_commit_documents(docs, fresh);
        assert(out == spec_commit_documents(docs1, fresh.drop_first()));
        assert forall|i: int| 0 <= i < fresh.len() implies ({
            let f = #[trigger] fresh[i];
            let j = spec_find_doc_key(out, f.sheet_key, f.row_id, f.subrow_id);
            &&& 0 <= j < out.len()
            &&& out[j] == f
        }) by {
            if i > 0 {
                assert(fresh.drop_first()[i - 1] == fresh[i]);
            }
        }
    }
}

/// Committing documents that are each already found at their identity
/// changes nothing.
pub proof fn lemma_commit_self(r: Seq<DocumentView>, fresh: Seq<DocumentView>)
    requires
        forall|i: int|
            0 <= i < fresh.len() ==> ({
                let f = #[trigger] fresh[i];
                let j = spec_find_doc_key(r, f.sheet_key, f.row_id, f.subrow_id);
                &&& 0 <= j < r.len()
                &&& r[j] == f
            }),
    ensures
        spec_commit_documents(r, fresh) == r,
    decreases fresh.len(),
{
    if fresh.len() > 0 {
        let f0 = fresh[0];
        let j = spec_find_doc_key(r, f0.sheet_key, f0.row_id, f0.subrow_id);
        assert(0 <= j < r.len() && r[j] == f0);
        assert(spec_doc_replace(r, f0) =~= r);
        assert(forall|g: int|
            0 <= g < fresh.drop_first().len() ==> #[trigger] fresh.drop_first()[g] == fresh[g
                + 1]);
        lemma_commit_self(r, fresh.drop_first());
        assert(spec_commit_documents(r, fresh) == spec_commit_documents(
            spec_doc_replace(r, f0),
            fresh.drop_first(),
        ));
        assert(spec_doc_replace(r, f0) == r);
    }
}

/// Idempotence at the partition writer: committing the same (tag, sheet)
/// batch twice leaves the document list exactly as one pass left it — one
/// document per row identity, never duplicated.
pub proof fn lemma_index_reingest_idempotent(docs: Seq<DocumentView>, tag: u64, sheet: SheetView)
    ensures
        ({
            let once = spec_index_ingest(docs, seq![(tag, sheet)]);
            spec_index_ingest(once, seq![(tag, sheet)]) == once
        }),
{
    let batch: Seq<(u64, SheetView)> = seq![(tag, sheet)];
    let fresh = if sheet.well_formed() {
        spec_sheet_documents(tag, sheet)
    } else {
        Seq::<DocumentView>::empty()
    };
    assert(batch[0] == (tag, sheet));
    assert(batch.drop_first() =~= Seq::<(u64, SheetView)>::empty());
    let once = spec_index_ingest(docs, batch);
    assert(once == spec_index_ingest(
        spec_commit_documents(docs, fresh),
        Seq::<(u64, SheetView)>::empty(),
    ));
    assert(once == spec_commit_documents(docs, fresh));
    assert(spec_index_ingest(once, batch) == spec_index_ingest(
        spec_commit_documents(once, fresh),
        Seq::<(u64, SheetView)>::empty(),
    ));
    assert(spec_index_ingest(once, batch) == spec_commit_documents(once, fresh));
    if sheet.well_formed() {
        lemma_sheet_documents_round_trip(tag, sheet);
        assert(forall|a: int, b: int|
            0 <= a < b < fresh.len() ==> doc_key(#[trigger] fresh[a]) != doc_key(
                #[trigger] fresh[b],
            ));
        lemma_commit_find(docs, fresh);
        lemma_commit_self(once, fresh);
    } else {
        assert(spec_commit_documents(once, Seq::<DocumentView>::empty()) == once);
    }
}

} // verus!
