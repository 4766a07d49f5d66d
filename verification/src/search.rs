//! The public entry point of the search subsystem and the executor that
//! relation predicates recurse through.

use vstd::prelude::*;
use vstd::string::StringExecFns;

use crate::data::Language;
use crate::data::SheetData;
use crate::data::VersionKey;
use crate::error::Error;
use crate::index::IndexResult;
use crate::normalize::spec_normalize;
use crate::normalize::Normalization;
use crate::normalize::Normalizer;
use crate::provider::spec_provider_search;
use crate::provider::Provider;
use crate::query::post;
use crate::query::post::nv_height;
use crate::query::pre;
use crate::resolve::spec_search_one;
use crate::resolve::RELATION_DEPTH_LIMIT;

verus! {

/// Pagination policy: the result limit used when a caller asks for none,
/// and the hard ceiling no request may exceed.
#[derive(PartialEq, Eq, Structural, Clone, Copy, Debug)]
pub struct PaginationConfig {
    pub limit_default: u32,
    pub limit_max: u32,
}

/// Configuration of the search service.
#[derive(PartialEq, Eq, Structural, Clone, Copy, Debug)]
pub struct Config {
    pub pagination: PaginationConfig,
}

/// One hit handed back to callers: the ranking score and the hit's
/// (sheet, row, subrow) identity. Field values are not carried; a separate
/// hydration step fetches display data by key.
#[derive(Debug)]
pub struct SearchResult {
    pub score: u64,
    pub sheet: String,
    pub row_id: u32,
    pub subrow_id: u16,
}

/// Mathematical image of a search hit.
pub struct SearchResultView {
    pub score: u64,
    pub sheet: Seq<char>,
    pub row_id: u32,
    pub subrow_id: u16,
}

impl View for SearchResult {
    type V = SearchResultView;

    open spec fn view(&self) -> SearchResultView {
        SearchResultView {
            score: self.score,
            sheet: self.sheet@,
            row_id: self.row_id,
            subrow_id: self.subrow_id,
        }
    }
}

impl DeepView for SearchResult {
    type V = SearchResultView;

    open spec fn deep_view(&self) -> SearchResultView {
        self.view()
    }
}

/// Runs nested searches for relation predicates; holds the registry the
/// whole query executes against.
pub struct Executor<'a> {
    pub provider: &'a Provider,
}

impl Executor<'_> {
    /// A nested, unlimited search of one sheet, under a recursion budget.
    /// Relies on the registry alone; fatal errors abort the outer query.
    pub(crate) fn search_bounded(
        &self,
        version: VersionKey,
        sheet: &String,
        node: &post::Node,
        depth: u32,
    ) -> (r: Result<Vec<IndexResult>, Error>)
        requires
            self.provider@.well_formed(),
        ensures
            match spec_search_one(
                self.provider@.sheets,
                version,
                sheet@,
                node@,
                None,
                depth as nat,
            ) {
                None => r matches Err(e) && e.spec_is_fatal(),
                Some(rs) => r matches Ok(v) && v@ == rs,
            },
        decreases depth, nv_height(node@), 9int,
    {
        self.provider.search_one(version, sheet, node, None, self, depth)
    }

    /// Fans a set of per-sheet queries out across the registry and merges
    /// the answers into one ranked, limit-truncated sequence.
    pub fn search(
        &self,
        version: VersionKey,
        queries: &Vec<(String, post::Node)>,
        limit: Option<u32>,
    ) -> (r: Result<Vec<SearchResult>, Error>)
        requires
            self.provider@.well_formed(),
        ensures
            match spec_provider_search(
                self.provider@.sheets,
                version,
                queries.deep_view(),
                limit,
                RELATION_DEPTH_LIMIT as nat,
            ) {
                None => r matches Err(e) && e.spec_is_fatal(),
                Some(rs) => r matches Ok(v) && v.deep_view() == rs,
            },
    {
        self.provider.search(version, queries, limit, self)
    }
}

/// The search service: the public search entry point and the owner of the
/// index registry that the background ingestion loop fills.
pub struct Search {
    pub pagination_config: PaginationConfig,
    pub provider: Provider,
}

/// What the service pipeline returns: the effective limit is
/// `min(requested or default, max)`; candidate sheets are the caller's
/// filter or the full list, first occurrence of each name only; the query
/// is normalized once per candidate sheet, sheets whose normalization
/// fails non-fatally are dropped; and the normalized per-sheet queries are
/// fanned out and merged by the registry.
pub open spec fn spec_service_search(
    reg: Seq<crate::provider::SheetEntryView>,
    pagination: PaginationConfig,
    version: VersionKey,
    query: pre::NodeView,
    language: Language,
    sheet_filter: Option<Seq<Seq<char>>>,
    limit: Option<u32>,
    sheets: Seq<crate::data::SheetView>,
) -> Option<Seq<SearchResultView>> {
    let requested = match limit {
        Some(n) => n,
        None => pagination.limit_default,
    };
    let effective = if requested <= pagination.limit_max {
        requested
    } else {
        pagination.limit_max
    };
    let names = match sheet_filter {
        Some(names) => names,
        None => sheets.map_values(|s: crate::data::SheetView| s.name),
    };
    let queries = spec_normalized_queries(dedup_names(names, 0), query, language, sheets);
    spec_provider_search(reg, version, queries, Some(effective), RELATION_DEPTH_LIMIT as nat)
}

/// The candidate names with later duplicates removed, scanning from `i`.
pub open spec fn dedup_names(names: Seq<Seq<char>>, i: int) -> Seq<Seq<char>>
    decreases names.len() - i,
{
    if i < 0 || i >= names.len() {
        Seq::empty()
    } else if names.take(i).contains(names[i]) {
        dedup_names(names, i + 1)
    } else {
        seq![names[i]] + dedup_names(names, i + 1)
    }
}

/// The per-sheet normalized queries of the candidate names, keeping the
/// candidate order and dropping sheets whose normalization fails.
pub open spec fn spec_normalized_queries(
    names: Seq<Seq<char>>,
    query: pre::NodeView,
    language: Language,
    sheets: Seq<crate::data::SheetView>,
) -> Seq<(Seq<char>, post::NodeView)>
    decreases names.len(),
{
    if names.len() == 0 {
        Seq::empty()
    } else {
        let rest = spec_normalized_queries(names.drop_first(), query, language, sheets);
        match spec_normalize(sheets, query, names[0], language) {
            Normalization::Normalized(n) => seq![(names[0], n)] + rest,
            Normalization::Dropped(_) => rest,
        }
    }
}

impl Search {
    /// A fresh service around an empty registry.
    pub fn new(config: Config) -> (r: Result<Search, Error>)
        ensures
            r matches Ok(s) && s.pagination_config == config.pagination
                && s.provider@.sheets.len() == 0 && s.provider@.ingested.len() == 0
                && s.provider@.well_formed(),
    {
        Ok(Search { pagination_config: config.pagination, provider: Provider::new() })
    }

    /// Routes one batch of (version, sheet) data into the registry. The
    /// background loop calls this for the current version set whenever the
    /// version-discovery subsystem announces a change; a tag already
    /// ingested is skipped, so re-ingestion of unchanged data is a no-op.
    pub fn ingest(&mut self, batch: &Vec<(VersionKey, SheetData)>) -> (r: Result<(), Error>)
        requires
            old(self)@.provider_wf(),
        ensures
            final(self)@.provider_wf(),
            final(self).pagination_config == old(self).pagination_config,
            match r {
                Ok(()) => Some(final(self).provider@) == crate::provider::spec_provider_ingest(
                    old(self).provider@,
                    batch.deep_view(),
                ),
                Err(e) => e.spec_is_fatal() && crate::provider::spec_provider_ingest(
                    old(self).provider@,
                    batch.deep_view(),
                ) is None,
            },
    {
        self.provider.ingest(batch)
    }

    /// Resolves a user query against a chosen version: normalizes it per
    /// candidate sheet, applies the pagination policy, and fans out to the
    /// registry. `sheets` is the version's sheet list as handed over by
    /// the data source.
    pub fn search(
        &self,
        version: VersionKey,
        query: &pre::Node,
        language: Language,
        sheet_filter: Option<Vec<String>>,
        limit: Option<u32>,
        sheets: &Vec<SheetData>,
    ) -> (r: Result<Vec<SearchResult>, Error>)
        requires
            self@.provider_wf(),
        ensures
            match spec_service_search(
                self.provider@.sheets,
                self.pagination_config,
                version,
                query@,
                language,
                match sheet_filter {
                    Some(f) => Some(f.deep_view()),
                    None => None,
                },
                limit,
                sheets.deep_view(),
            ) {
                None => r matches Err(e) && e.spec_is_fatal(),
                Some(rs) => r matches Ok(v) && v.deep_view() == rs,
            },
    {
        let requested = match limit {
            Some(n) => n,
            None => self.pagination_config.limit_default,
        };
        let result_limit = if requested <= self.pagination_config.limit_max {
            requested
        } else {
            self.pagination_config.limit_max
        };
        let names: Vec<String> = match sheet_filter {
            Some(f) => f,
            None => {
                let mut names: Vec<String> = Vec::new();
                let mut i: usize = 0;
                proof {
                    assert(names.deep_view() =~= sheets.deep_view().map_values(
                        |s: crate::data::SheetView| s.name,
                    ).take(0int));
                }
                while i < sheets.len()
                    invariant
                        0 <= i <= sheets@.len(),
                        sheets.deep_view().len() == sheets@.len(),
                        names.deep_view() == sheets.deep_view().map_values(
                            |s: crate::data::SheetView| s.name,
                        ).take(i as int),
                    decreases sheets@.len() - i,
                {
                    let ghost pre_names = names.deep_view();
                    names.push(sheets[i].name.clone());
                    proof {
                        let m = sheets.deep_view().map_values(|s: crate::data::SheetView| s.name);
                        assert(names.deep_view() =~= pre_names.push(m[i as int]));
                        assert(m.take(i + 1 as int) =~= m.take(i as int).push(m[i as int]));
                    }
                    i += 1;
                }
                proof {
                    let m = sheets.deep_view().map_values(|s: crate::data::SheetView| s.name);
                    assert(m.take(m.len() as int) =~= m);
                }
                names
            },
        };
        let deduped = dedup_exec(&names);
        let normalizer = Normalizer { sheets };
        let mut queries: Vec<(String, post::Node)> = Vec::new();
        let ghost names_v = deduped.deep_view();
        let mut i: usize = 0;
        proof {
            assert(names_v.skip(0) =~= names_v);
            assert(queries.deep_view() =~= Seq::<(Seq<char>, post::NodeView)>::empty());
        }
        while i < deduped.len()
            invariant
                0 <= i <= names_v.len(),
                names_v == deduped.deep_view(),
                names_v.len() == deduped@.len(),
                normalizer.sheets.deep_view() == sheets.deep_view(),
                spec_normalized_queries(names_v, query@, language, sheets.deep_view())
                    == queries.deep_view() + spec_normalized_queries(
                    names_v.skip(i as int),
                    query@,
                    language,
                    sheets.deep_view(),
                ),
            decreases names_v.len() - i,
        {
            let ghost pre_q = queries.deep_view();
            proof {
                assert(names_v.skip(i as int)[0] == names_v[i as int]);
                assert(names_v.skip(i as int).drop_first() =~= names_v.skip(i + 1 as int));
            }
            proof {
                assert(deduped@[i as int]@ == names_v[i as int]);
            }
            match normalizer.normalize(query, &deduped[i], language) {
                Ok(normalized) => {
                    proof {
                        assert(spec_normalize(sheets.deep_view(), query@, names_v[i as int], language)
                            == Normalization::Normalized(post::node_view(normalized)));
                        assert(spec_normalized_queries(
                            names_v.skip(i as int),
                            query@,
                            language,
                            sheets.deep_view(),
                        ) == seq![(names_v[i as int], post::node_view(normalized))]
                            + spec_normalized_queries(
                            names_v.skip(i + 1 as int),
                            query@,
                            language,
                            sheets.deep_view(),
                        ));
                    }
                    let name = deduped[i].clone();
                    queries.push((name, normalized));
                    proof {
                        assert(queries.deep_view() =~= pre_q.push(
                            (names_v[i as int], post::node_view(normalized)),
                        ));
                        assert(pre_q + (seq![(names_v[i as int], post::node_view(normalized))]
                            + spec_normalized_queries(
                            names_v.skip(i + 1 as int),
                            query@,
                            language,
                            sheets.deep_view(),
                        )) =~= queries.deep_view() + spec_normalized_queries(
                            names_v.skip(i + 1 as int),
                            query@,
                            language,
                            sheets.deep_view(),
                        ));
                    }
                },
                Err(e) => {
                    proof {
                        assert(spec_normalize(sheets.deep_view(), query@, names_v[i as int], language)
                            is Dropped);
                        assert(spec_normalized_queries(
                            names_v.skip(i as int),
                            query@,
                            language,
                            sheets.deep_view(),
                        ) == spec_normalized_queries(
                            names_v.skip(i + 1 as int),
                            query@,
                            language,
                            sheets.deep_view(),
                        ));
                    }
                    // Normalization never fails fatally; the check mirrors
                    // the error policy and the proof shows it is dead.
                    if e.is_fatal() {
                        proof {
                            assert(false);
                        }
                        return Err(e);
                    }
                },
            }
            i += 1;
        }
        proof {
            assert(names_v.skip(names_v.len() as int) =~= Seq::<Seq<char>>::empty());
            assert(spec_normalized_queries(
                Seq::<Seq<char>>::empty(),
                query@,
                language,
                sheets.deep_view(),
            ) =~= Seq::<(Seq<char>, post::NodeView)>::empty());
            assert(queries.deep_view() + Seq::<(Seq<char>, post::NodeView)>::empty()
                =~= queries.deep_view());
        }
        let executor = Executor { provider: &self.provider };
        executor.search(version, &queries, Some(result_limit))
    }
}

impl View for Search {
    type V = SearchView;

    open spec fn view(&self) -> SearchView {
        SearchView { pagination_config: self.pagination_config, provider: self.provider@ }
    }
}

/// Mathematical image of the service.
pub struct SearchView {
    pub pagination_config: PaginationConfig,
    pub provider: crate::provider::ProviderView,
}

impl SearchView {
    pub open spec fn provider_wf(&self) -> bool {
        self.provider.well_formed()
    }
}

/// The candidate names with duplicates after the first occurrence
/// removed.
pub fn dedup_exec(names: &Vec<String>) -> (r: Vec<String>)
    ensures
        r.deep_view() == dedup_names(names.deep_view(), 0),
{
    let ghost nv = names.deep_view();
    let mut out: Vec<String> = Vec::new();
    let mut i: usize = 0;
    proof {
        assert(out.deep_view() =~= Seq::<Seq<char>>::empty());
    }
    while i < names.len()
        invariant
            0 <= i <= nv.len(),
            nv == names.deep_view(),
            nv.len() == names@.len(),
            out.deep_view() + dedup_names(nv, i as int) == dedup_names(nv, 0),
            forall|k: int| 0 <= k < out.deep_view().len() ==> nv.take(i as int).contains(#[trigger] out.deep_view()[k]),
            forall|k: int|
                0 <= k < i ==> (nv.take(i as int).contains(#[trigger] nv[k]) ==> out.deep_view().contains(nv[k])),
        decreases nv.len() - i,
    {
        let mut seen = false;
        let mut j: usize = 0;
        while j < out.len()
            invariant
                0 <= j <= out@.len(),
                out.deep_view().len() == out@.len(),
                0 <= i < nv.len(),
                nv == names.deep_view(),
                nv.len() == names@.len(),
                seen == exists|k: int| 0 <= k < j && #[trigger] out.deep_view()[k] == nv[i as int],
            decreases out@.len() - j,
        {
            if out[j] == names[i] {
                proof {
                    assert(out.deep_view()[j as int] == nv[i as int]);
                }
                seen = true;
            }
            j += 1;
        }
        let ghost pre_out = out.deep_view();
        if !seen {
            out.push(names[i].clone());
            proof {
                assert(out.deep_view() =~= pre_out.push(nv[i as int]));
            }
        }
        proof {
            let contained = nv.take(i as int).contains(nv[i as int]);
            if seen {
                let k = choose|k: int| 0 <= k < pre_out.len() && #[trigger] pre_out[k] == nv[i as int];
                assert(nv.take(i as int).contains(pre_out[k]));
                assert(contained);
                assert(dedup_names(nv, i as int) == dedup_names(nv, i + 1 as int));
            } else {
                if contained {
                    let k = choose|k: int| 0 <= k < i && #[trigger] nv.take(i as int)[k] == nv[i as int];
                    assert(nv[k] == nv[i as int]);
                    assert(nv.take(i as int).contains(nv[k]));
                    assert(pre_out.contains(nv[k]));
                    let m = choose|m: int| 0 <= m < pre_out.len() && #[trigger] pre_out[m] == nv[k];
                    assert(false);
                }
                assert(dedup_names(nv, i as int) == seq![nv[i as int]] + dedup_names(
                    nv,
                    i + 1 as int,
                ));
                assert(pre_out + (seq![nv[i as int]] + dedup_names(nv, i + 1 as int))
                    =~= out.deep_view() + dedup_names(nv, i + 1 as int));
            }
            assert forall|k: int|
                0 <= k < out.deep_view().len() implies nv.take(i + 1 as int).contains(
                #[trigger] out.deep_view()[k],
            ) by {
                if k < pre_out.len() {
                    let m = choose|m: int|
                        0 <= m < i && #[trigger] nv.take(i as int)[m] == pre_out[k];
                    assert(nv.take(i + 1 as int)[m] == pre_out[k]);
                } else {
                    assert(out.deep_view()[k] == nv[i as int]);
                    assert(nv.take(i + 1 as int)[i as int] == nv[i as int]);
                }
            }
            assert forall|k: int|
                0 <= k < i + 1 && nv.take(i + 1 as int).contains(#[trigger] nv[k]) implies out.deep_view().contains(
                nv[k],
            ) by {
                if k < i {
                    assert(nv.take(i as int)[k] == nv[k]);
                    assert(nv.take(i as int).contains(nv[k]));
                    if pre_out.contains(nv[k]) {
                        let m = choose|m: int|
                            0 <= m < pre_out.len() && #[trigger] pre_out[m] == nv[k];
                        assert(out.deep_view()[m] == nv[k]);
                    }
                } else {
                    if seen {
                        let m = choose|m: int|
                            0 <= m < pre_out.len() && #[trigger] pre_out[m] == nv[i as int];
                        assert(out.deep_view()[m] == nv[k]);
                    } else {
                        assert(out.deep_view()[out.deep_view().len() - 1] == nv[i as int]);
                    }
                }
            }
        }
        i += 1;
    }
    proof {
        assert(dedup_names(nv, nv.len() as int) =~= Seq::<Seq<char>>::empty());
        assert(out.deep_view() + Seq::<Seq<char>>::empty() =~= out.deep_view());
    }
    out
}

} // verus!
