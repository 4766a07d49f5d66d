//! Compiles one post-normalization query node into the native query
//! representation of one partition. Relation predicates are resolved by a
//! nested search against the target sheet with no result limit, whose row
//! ids are materialized as a set-membership query; the nesting is bounded
//! by an explicit recursion budget so that deep or cyclic relation chains
//! become a reported failure instead of unbounded recursion.

use vstd::prelude::*;

use crate::data::VersionKey;
use crate::error::Error;
use crate::error::FieldTypeError;
use crate::error::SchemaMismatchError;
use crate::index::cap_u64;
use crate::index::rq_matches;
use crate::index::rq_score;
use crate::index::DocumentView;
use crate::index::IndexResult;
use crate::index::IndexView;
use crate::index::ResolvedQuery;
use crate::index::ResolvedQueryView;
use crate::provider::key_of;
use crate::provider::spec_sheet_index;
use crate::provider::SheetEntryView;
use crate::query::post;
use crate::query::post::nv_clauses_height;
use crate::query::post::nv_height;
use crate::query::post::NodeView;
use crate::query::post::OperationView;
use crate::query::post::leaf_view;
use crate::query::post::relation_view;
use crate::query::post::RelationView;
use crate::query::Occur;
use crate::query::Value;
use crate::rank::result_order;
use crate::schema::schema_lookup;
use crate::schema::spec_column_field_name;
use crate::schema::spec_schema_lookup;
use crate::schema::FieldKind;
use crate::schema::SchemaField;
use crate::schema::SchemaFieldView;
use crate::search::Executor;

verus! {

/// How many nested relation searches one query may spawn before
/// resolution fails.
pub const RELATION_DEPTH_LIMIT: u32 = 8;

/// Outcome of resolving one node against one partition's schema: a native
/// query; a non-fatal schema mismatch (the named field is absent from the
/// partition's directory) or value mismatch (the query value does not fit
/// the named field's storage type), either of which drops the scoped
/// query from the search; or a fatal failure (unimplemented term types,
/// relation conditions, exhausted recursion budget, and anything fatal
/// inside a nested search).
pub enum Resolution {
    Resolved(ResolvedQueryView),
    SchemaMiss(Seq<char>),
    ValueMiss(Seq<char>),
    Failed,
}

pub enum ClausesResolution {
    Resolved(Seq<(Occur, ResolvedQueryView)>),
    SchemaMiss(Seq<char>),
    ValueMiss(Seq<char>),
    Failed,
}

/// The hits one partition yields for one scoped query, in ranking order,
/// truncated to `limit`.
pub open spec fn spec_limited(rs: Seq<IndexResult>, limit: Option<u32>) -> Seq<IndexResult> {
    match limit {
        None => rs,
        Some(n) => rs.take(
            if n <= rs.len() {
                n as int
            } else {
                rs.len() as int
            },
        ),
    }
}

/// The results of evaluating a resolved query over a partition's document
/// list, in document order.
pub open spec fn spec_eval_partition(docs: Seq<DocumentView>, rq: ResolvedQueryView) -> Seq<
    IndexResult,
>
    decreases docs.len(),
{
    if docs.len() == 0 {
        Seq::empty()
    } else {
        let head = if rq_matches(docs[0], rq) {
            seq![
                IndexResult {
                    score: cap_u64(rq_score(docs[0], rq)),
                    sheet_key: docs[0].sheet_key,
                    row_id: docs[0].row_id,
                    subrow_id: docs[0].subrow_id,
                },
            ]
        } else {
            Seq::<IndexResult>::empty()
        };
        head + spec_eval_partition(docs.drop_first(), rq)
    }
}

pub proof fn lemma_eval_partition_push(docs: Seq<DocumentView>, rq: ResolvedQueryView, d: DocumentView)
    ensures
        spec_eval_partition(docs.push(d), rq) == spec_eval_partition(docs, rq) + (if rq_matches(
            d,
            rq,
        ) {
            seq![
                IndexResult {
                    score: cap_u64(rq_score(d, rq)),
                    sheet_key: d.sheet_key,
                    row_id: d.row_id,
                    subrow_id: d.subrow_id,
                },
            ]
        } else {
            Seq::<IndexResult>::empty()
        }),
    decreases docs.len(),
{
    let tail = if rq_matches(d, rq) {
        seq![
            IndexResult {
                score: cap_u64(rq_score(d, rq)),
                sheet_key: d.sheet_key,
                row_id: d.row_id,
                subrow_id: d.subrow_id,
            },
        ]
    } else {
        Seq::<IndexResult>::empty()
    };
    if docs.len() == 0 {
        assert(docs.push(d)[0] == d);
        assert(docs.push(d).drop_first() =~= Seq::<DocumentView>::empty());
        assert(spec_eval_partition(docs.push(d).drop_first(), rq) =~= Seq::<IndexResult>::empty());
        assert(spec_eval_partition(docs, rq) =~= Seq::<IndexResult>::empty());
        assert(spec_eval_partition(docs.push(d), rq) =~= tail);
        assert(spec_eval_partition(docs, rq) + tail =~= tail);
    } else {
        assert(docs.push(d)[0] == docs[0]);
        assert(docs.push(d).drop_first() =~= docs.drop_first().push(d));
        lemma_eval_partition_push(docs.drop_first(), rq, d);
        let head = if rq_matches(docs[0], rq) {
            seq![
                IndexResult {
                    score: cap_u64(rq_score(docs[0], rq)),
                    sheet_key: docs[0].sheet_key,
                    row_id: docs[0].row_id,
                    subrow_id: docs[0].subrow_id,
                },
            ]
        } else {
            Seq::<IndexResult>::empty()
        };
        assert(spec_eval_partition(docs.push(d), rq) == head + (spec_eval_partition(
            docs.drop_first(),
            rq,
        ) + tail));
        assert(head + (spec_eval_partition(docs.drop_first(), rq) + tail) =~= (head
            + spec_eval_partition(docs.drop_first(), rq)) + tail);
    }
}

/// Resolution of an exact-match leaf: the query value coerces to the
/// field's storage type (unsigned to unsigned, or unsigned to signed with
/// a range check, dropping the clause when the value does not fit); a
/// comparison against a text or float field is unimplemented and fatal.
pub open spec fn spec_resolve_equal(fname: Seq<char>, kind: FieldKind, v: Value) -> Resolution {
    match v {
        Value::U64(u) => match kind {
            FieldKind::U64 => Resolution::Resolved(
                ResolvedQueryView::TermU64 { field: fname, value: u },
            ),
            FieldKind::I64 => if u <= i64::MAX as u64 {
                Resolution::Resolved(ResolvedQueryView::TermI64 { field: fname, value: u as i64 })
            } else {
                Resolution::ValueMiss(fname)
            },
            _ => Resolution::Failed,
        },
    }
}

/// Resolution of the materialized candidate row ids of a relation: each id
/// coerces to the leaf field's storage type; candidates against a text or
/// float field are unimplemented and fatal unless there are none.
pub open spec fn spec_relation_terms(fname: Seq<char>, kind: FieldKind, ids: Seq<u32>) -> Resolution {
    match kind {
        FieldKind::U64 => Resolution::Resolved(
            ResolvedQueryView::TermSetU64 { field: fname, values: ids.map_values(|r: u32| r as u64) },
        ),
        FieldKind::I64 => Resolution::Resolved(
            ResolvedQueryView::TermSetI64 { field: fname, values: ids.map_values(|r: u32| r as i64) },
        ),
        _ => if ids.len() == 0 {
            Resolution::Resolved(
                ResolvedQueryView::TermSetU64 { field: fname, values: Seq::empty() },
            )
        } else {
            Resolution::Failed
        },
    }
}

/// Resolves one node against one partition schema, within one registry
/// and version, with a relation recursion budget.
pub open spec fn spec_resolve(
    reg: Seq<SheetEntryView>,
    version: VersionKey,
    schema: Seq<SchemaFieldView>,
    node: NodeView,
    depth: nat,
) -> Resolution
    decreases depth, nv_height(node), 1int,
{
    match node {
        NodeView::Group(clauses) => match spec_resolve_clauses(reg, version, schema, clauses, depth) {
            ClausesResolution::Resolved(rcs) => Resolution::Resolved(
                ResolvedQueryView::Boolean(rcs),
            ),
            ClausesResolution::SchemaMiss(f) => Resolution::SchemaMiss(f),
            ClausesResolution::ValueMiss(f) => Resolution::ValueMiss(f),
            ClausesResolution::Failed => Resolution::Failed,
        },
        NodeView::Leaf(leaf) => spec_resolve_leaf(reg, version, schema, leaf, depth),
    }
}

/// Resolution of one leaf: its concrete column and language name the index
/// field, which must exist in the partition's directory (else the clause
/// is dropped, non-fatally); the operation then resolves against the
/// field's storage type.
pub open spec fn spec_resolve_leaf(
    reg: Seq<SheetEntryView>,
    version: VersionKey,
    schema: Seq<SchemaFieldView>,
    leaf: post::LeafView,
    depth: nat,
) -> Resolution
    decreases depth, 0nat, 1int,
{
    let fname = spec_column_field_name(leaf.column, leaf.language);
    match spec_schema_lookup(schema, fname) {
        None => Resolution::SchemaMiss(fname),
        Some(kind) => match leaf.operation {
            OperationView::Equal(v) => spec_resolve_equal(fname, kind, v),
            OperationView::Relation(rel) => spec_resolve_relation(
                reg,
                version,
                fname,
                kind,
                rel,
                depth,
            ),
        },
    }
}

/// Clauses resolve in order; the first non-resolved clause decides the
/// whole group's outcome.
pub open spec fn spec_resolve_clauses(
    reg: Seq<SheetEntryView>,
    version: VersionKey,
    schema: Seq<SchemaFieldView>,
    clauses: Seq<(Occur, NodeView)>,
    depth: nat,
) -> ClausesResolution
    decreases depth, nv_clauses_height(clauses), 2int,
{
    if clauses.len() == 0 {
        ClausesResolution::Resolved(Seq::empty())
    } else {
        proof {
            assert(nv_height(clauses[0].1) >= 1);
        }
        match spec_resolve(reg, version, schema, clauses[0].1, depth) {
            Resolution::Resolved(rq) => match spec_resolve_clauses(
                reg,
                version,
                schema,
                clauses.drop_first(),
                depth,
            ) {
                ClausesResolution::Resolved(rest) => ClausesResolution::Resolved(
                    seq![(clauses[0].0, rq)] + rest,
                ),
                ClausesResolution::SchemaMiss(f) => ClausesResolution::SchemaMiss(f),
                ClausesResolution::ValueMiss(f) => ClausesResolution::ValueMiss(f),
                ClausesResolution::Failed => ClausesResolution::Failed,
            },
            Resolution::SchemaMiss(f) => ClausesResolution::SchemaMiss(f),
            Resolution::ValueMiss(f) => ClausesResolution::ValueMiss(f),
            Resolution::Failed => ClausesResolution::Failed,
        }
    }
}

/// A relation leaf: an unresolved extra condition is fatal (silently
/// ignoring it would return over-broad results), an exhausted budget is
/// fatal, and otherwise the target sheet is sub-searched with no limit and
/// the hits' row ids become the candidate set.
pub open spec fn spec_resolve_relation(
    reg: Seq<SheetEntryView>,
    version: VersionKey,
    fname: Seq<char>,
    kind: FieldKind,
    rel: RelationView,
    depth: nat,
) -> Resolution
    decreases depth, 0nat, 0int,
{
    if rel.condition is Some {
        Resolution::Failed
    } else if depth == 0 {
        Resolution::Failed
    } else {
        match spec_relation_ids(reg, version, rel.sheet, *rel.query, (depth - 1) as nat) {
            None => Resolution::Failed,
            Some(ids) => spec_relation_terms(fname, kind, ids),
        }
    }
}

/// The row ids matching a nested query in the named sheet's partition. A
/// sheet without a partition contributes no candidates.
pub open spec fn spec_relation_ids(
    reg: Seq<SheetEntryView>,
    version: VersionKey,
    sheet: Seq<char>,
    inner: NodeView,
    depth: nat,
) -> Option<Seq<u32>>
    decreases depth, nv_height(inner), 8int,
{
    match spec_search_one(reg, version, sheet, inner, None, depth) {
        None => None,
        Some(rs) => Some(rs.map_values(|r: IndexResult| r.row_id)),
    }
}

/// One partition's answer to one scoped query: the node is resolved
/// against the partition's schema (a non-fatal drop yields no hits, a
/// fatal failure aborts), combined with the partition-tag filter, and
/// evaluated over the partition's documents; the hits come back ranked
/// and truncated to `limit`.
pub open spec fn spec_index_search(
    reg: Seq<SheetEntryView>,
    version: VersionKey,
    idx: IndexView,
    tag: u64,
    node: NodeView,
    limit: Option<u32>,
    depth: nat,
) -> Option<Seq<IndexResult>>
    decreases depth, nv_height(node), 5int,
{
    match spec_resolve(reg, version, idx.schema, node, depth) {
        Resolution::Failed => None,
        Resolution::SchemaMiss(_) => Some(Seq::empty()),
        Resolution::ValueMiss(_) => Some(Seq::empty()),
        Resolution::Resolved(rq) => {
            let full = ResolvedQueryView::Boolean(
                seq![(Occur::Must, rq), (Occur::Must, ResolvedQueryView::SheetKey(tag))],
            );
            Some(
                spec_limited(spec_eval_partition(idx.docs, full).sort_by(result_order()), limit),
            )
        },
    }
}

/// The answer of the named sheet's partition; a sheet without a partition
/// has no documents and yields no hits.
pub open spec fn spec_search_one(
    reg: Seq<SheetEntryView>,
    version: VersionKey,
    sheet: Seq<char>,
    node: NodeView,
    limit: Option<u32>,
    depth: nat,
) -> Option<Seq<IndexResult>>
    decreases depth, nv_height(node), 7int,
{
    let si = spec_sheet_index(reg, sheet);
    if si == -1 {
        Some(Seq::empty())
    } else {
        spec_index_search(reg, version, reg[si].index, key_of(version, si), node, limit, depth)
    }
}

/// What a resolver call returns: exactly the outcome of `spec_resolve`.
/// A schema mismatch comes back as the schema-mismatch error naming the
/// missing field, a value mismatch as the field-type error naming the
/// field, and a fatal outcome as the fatal failure.
pub open spec fn resolve_post(
    reg: Seq<SheetEntryView>,
    version: VersionKey,
    schema: Seq<SchemaFieldView>,
    node: NodeView,
    depth: nat,
    r: Result<ResolvedQuery, Error>,
) -> bool {
    match spec_resolve(reg, version, schema, node, depth) {
        Resolution::Resolved(rqv) => r matches Ok(q) && q@ == rqv,
        Resolution::SchemaMiss(f) => r matches Err(Error::SchemaMismatch(d)) && d.field@ == f,
        Resolution::ValueMiss(f) => r matches Err(Error::FieldType(d)) && d.field@ == f,
        Resolution::Failed => r matches Err(e) && e.spec_is_fatal(),
    }
}

/// Compiles post-normalization nodes into native queries for one
/// partition, resolving relation predicates through the executor.
pub struct QueryResolver<'a> {
    pub version: VersionKey,
    pub schema: &'a Vec<SchemaField>,
    pub executor: &'a Executor<'a>,
}

impl QueryResolver<'_> {
    /// The registry the executor's nested searches run against.
    pub open spec fn reg(&self) -> Seq<SheetEntryView> {
        self.executor.provider@.sheets
    }

    pub fn resolve(&self, node: &post::Node, depth: u32) -> (r: Result<ResolvedQuery, Error>)
        requires
            self.executor.provider@.well_formed(),
        ensures
            resolve_post(self.reg(), self.version, self.schema.deep_view(), node@, depth as nat, r),
        decreases depth, nv_height(node@), 1int,
    {
        match node {
            post::Node::Group(group) => {
                proof {
                    assert(node@ == NodeView::Group(post::clauses_view(group.clauses@)));
                }
                self.resolve_clause(group, depth)
            },
            post::Node::Leaf(leaf) => {
                proof {
                    assert(node@ is Leaf);
                }
                self.resolve_leaf(leaf, depth)
            },
        }
    }

    fn resolve_clause(&self, group: &post::Group, depth: u32) -> (r: Result<ResolvedQuery, Error>)
        requires
            self.executor.provider@.well_formed(),
        ensures
            match spec_resolve_clauses(
                self.reg(),
                self.version,
                self.schema.deep_view(),
                post::clauses_view(group.clauses@),
                depth as nat,
            ) {
                ClausesResolution::Resolved(rcs) => r matches Ok(q) && q@
                    == ResolvedQueryView::Boolean(rcs),
                ClausesResolution::SchemaMiss(f) => r matches Err(Error::SchemaMismatch(d))
                    && d.field@ == f,
                ClausesResolution::ValueMiss(f) => r matches Err(Error::FieldType(d)) && d.field@
                    == f,
                ClausesResolution::Failed => r matches Err(e) && e.spec_is_fatal(),
            },
        decreases depth, nv_clauses_height(post::clauses_view(group.clauses@)), 2int,
    {
        let ghost cv = post::clauses_view(group.clauses@);
        let ghost reg = self.reg();
        let ghost schema = self.schema.deep_view();
        proof {
            post::lemma_clauses_view(group.clauses@);
        }
        let mut subqueries: Vec<(Occur, ResolvedQuery)> = Vec::new();
        let mut i: usize = 0;
        proof {
            assert(cv.skip(0) =~= cv);
            assert(crate::index::rq_clauses_view(subqueries@) =~= Seq::<(
                Occur,
                ResolvedQueryView,
            )>::empty());
        }
        while i < group.clauses.len()
            invariant
                0 <= i <= group.clauses@.len(),
                cv == post::clauses_view(group.clauses@),
                cv.len() == group.clauses@.len(),
                forall|k: int|
                    0 <= k < group.clauses@.len() ==> #[trigger] cv[k] == (
                    group.clauses@[k].0,
                    post::node_view(group.clauses@[k].1),
                    ),
                reg == self.reg(),
                schema == self.schema.deep_view(),
                self.executor.provider@.well_formed(),
                spec_resolve_clauses(reg, self.version, schema, cv, depth as nat) == (
                match spec_resolve_clauses(reg, self.version, schema, cv.skip(i as int), depth as nat) {
                    ClausesResolution::Resolved(rest) => ClausesResolution::Resolved(
                        crate::index::rq_clauses_view(subqueries@) + rest,
                    ),
                    ClausesResolution::SchemaMiss(f) => ClausesResolution::SchemaMiss(f),
                    ClausesResolution::ValueMiss(f) => ClausesResolution::ValueMiss(f),
                    ClausesResolution::Failed => ClausesResolution::Failed,
                }),
            decreases group.clauses@.len() - i,
        {
            let clause = &group.clauses[i];
            proof {
                post::lemma_nv_clause_height(cv, i as int);
            }
            let resolved = match self.resolve(&clause.1, depth) {
                Ok(q) => q,
                Err(e) => {
                    proof {
                        assert(cv.skip(i as int)[0] == cv[i as int]);
                        assert(!(spec_resolve(
                            reg,
                            self.version,
                            schema,
                            cv[i as int].1,
                            depth as nat,
                        ) is Resolved));
                    }
                    return Err(e);
                },
            };
            let occur = clause.0;
            let ghost pre = subqueries@;
            subqueries.push((occur, resolved));
            proof {
                assert(subqueries@ =~= pre.push((occur, resolved)));
                crate::index::lemma_rq_clauses_view(subqueries@);
                crate::index::lemma_rq_clauses_view(pre);
                assert(crate::index::rq_clauses_view(subqueries@) =~= crate::index::rq_clauses_view(
                    pre,
                ).push((occur, crate::index::rq_view(resolved))));
                assert(cv.skip(i as int)[0] == cv[i as int]);
                assert(cv.skip(i as int).drop_first() =~= cv.skip(i + 1 as int));
                assert(cv[i as int].0 == occur);
                assert forall|rest: Seq<(Occur, ResolvedQueryView)>|
                    true implies (seq![(occur, crate::index::rq_view(resolved))] + rest)
                    =~= Seq::<(Occur, ResolvedQueryView)>::empty().push(
                    (occur, crate::index::rq_view(resolved)),
                ) + rest by {}
                assert forall|rest: Seq<(Occur, ResolvedQueryView)>|
                    true implies crate::index::rq_clauses_view(pre) + (seq![
                    (occur, crate::index::rq_view(resolved)),
                ] + rest) =~= crate::index::rq_clauses_view(subqueries@) + rest by {}
            }
            i += 1;
        }
        proof {
            assert(cv.skip(cv.len() as int) =~= Seq::<(Occur, NodeView)>::empty());
            assert(spec_resolve_clauses(
                reg,
                self.version,
                schema,
                Seq::<(Occur, NodeView)>::empty(),
                depth as nat,
            ) == ClausesResolution::Resolved(Seq::<(Occur, ResolvedQueryView)>::empty()));
            assert(crate::index::rq_clauses_view(subqueries@) + Seq::<(
                Occur,
                ResolvedQueryView,
            )>::empty() =~= crate::index::rq_clauses_view(subqueries@));
        }
        let out = ResolvedQuery::Boolean(subqueries);
        proof {
            assert(out@ == ResolvedQueryView::Boolean(crate::index::rq_clauses_view(subqueries@)));
        }
        Ok(out)
    }

    fn resolve_leaf(&self, leaf: &post::Leaf, depth: u32) -> (r: Result<ResolvedQuery, Error>)
        requires
            self.executor.provider@.well_formed(),
        ensures
            match spec_resolve_leaf(
                self.reg(),
                self.version,
                self.schema.deep_view(),
                leaf_view(*leaf),
                depth as nat,
            ) {
                Resolution::Resolved(rqv) => r matches Ok(q) && q@ == rqv,
                Resolution::SchemaMiss(f) => r matches Err(Error::SchemaMismatch(d)) && d.field@
                    == f,
                Resolution::ValueMiss(f) => r matches Err(Error::FieldType(d)) && d.field@ == f,
                Resolution::Failed => r matches Err(e) && e.spec_is_fatal(),
            },
        decreases depth, 0nat, 1int,
    {
        let field_name = crate::schema::column_field_name(&leaf.field.column, leaf.field.language);
        let kind = match schema_lookup(self.schema, &field_name) {
            Some(kind) => kind,
            None => {
                return Err(
                    Error::SchemaMismatch(
                        SchemaMismatchError {
                            field: field_name,
                            reason: String::from_str("field does not exist in search index"),
                        },
                    ),
                );
            },
        };
        match &leaf.operation {
            post::Operation::Equal(value) => self.value_to_term(value, kind, field_name),
            post::Operation::Relation(relation) => {
                proof {
                    assert(leaf_view(*leaf).operation == OperationView::Relation(
                        relation_view(*relation),
                    ));
                }
                self.resolve_relation(relation, kind, field_name, depth)
            },
        }
    }

    /// Turns a query literal into an exact-match term against a field of
    /// the given storage type.
    fn value_to_term(&self, value: &Value, kind: FieldKind, field_name: String) -> (r: Result<
        ResolvedQuery,
        Error,
    >)
        ensures
            match spec_resolve_equal(field_name@, kind, *value) {
                Resolution::Resolved(rqv) => r matches Ok(q) && q@ == rqv,
                Resolution::SchemaMiss(f) => r matches Err(Error::SchemaMismatch(d)) && d.field@
                    == f,
                Resolution::ValueMiss(f) => r matches Err(Error::FieldType(d)) && d.field@ == f,
                Resolution::Failed => r matches Err(e) && e.spec_is_fatal(),
            },
    {
        match kind {
            FieldKind::U64 => match self.value_to_u64(value) {
                Some(v) => Ok(ResolvedQuery::TermU64 { field: field_name, value: v }),
                None => Err(
                    Error::FieldType(
                        FieldTypeError {
                            field: field_name,
                            expected: String::from_str("u64"),
                            got: String::from_str("value out of range"),
                        },
                    ),
                ),
            },
            FieldKind::I64 => match self.value_to_i64(value) {
                Some(v) => Ok(ResolvedQuery::TermI64 { field: field_name, value: v }),
                None => Err(
                    Error::FieldType(
                        FieldTypeError {
                            field: field_name,
                            expected: String::from_str("i64"),
                            got: String::from_str("value out of range"),
                        },
                    ),
                ),
            },
            _ => Err(Error::Failure(String::from_str("unimplemented term type"))),
        }
    }

    fn value_to_u64(&self, value: &Value) -> (r: Option<u64>)
        ensures
            match *value {
                Value::U64(u) => r == Some(u),
            },
    {
        match value {
            Value::U64(inner) => Some(*inner),
        }
    }

    fn value_to_i64(&self, value: &Value) -> (r: Option<i64>)
        ensures
            match *value {
                Value::U64(u) => if u <= i64::MAX as u64 {
                    r == Some(u as i64)
                } else {
                    r is None
                },
            },
    {
        match value {
            Value::U64(inner) => {
                if *inner <= i64::MAX as u64 {
                    Some(*inner as i64)
                } else {
                    None
                }
            },
        }
    }

    fn resolve_relation(
        &self,
        relation: &post::Relation,
        kind: FieldKind,
        field_name: String,
        depth: u32,
    ) -> (r: Result<ResolvedQuery, Error>)
        requires
            self.executor.provider@.well_formed(),
        ensures
            match spec_resolve_relation(
                self.reg(),
                self.version,
                field_name@,
                kind,
                relation_view(*relation),
                depth as nat,
            ) {
                Resolution::Resolved(rqv) => r matches Ok(q) && q@ == rqv,
                Resolution::SchemaMiss(f) => r matches Err(Error::SchemaMismatch(d)) && d.field@
                    == f,
                Resolution::ValueMiss(f) => r matches Err(Error::FieldType(d)) && d.field@ == f,
                Resolution::Failed => r matches Err(e) && e.spec_is_fatal(),
            },
        decreases depth, 0nat, 0int,
    {
        let ghost rel = relation_view(*relation);
        if relation.target.condition.is_some() {
            proof {
                assert(rel.condition is Some);
            }
            return Err(Error::Failure(String::from_str("relation conditions are not implemented")));
        }
        proof {
            assert(rel.condition is None);
        }
        if depth == 0 {
            return Err(Error::Failure(String::from_str("relation recursion budget exhausted")));
        }
        proof {
            assert(rel.sheet == relation.target.sheet@);
            assert(*rel.query == post::node_view(*relation.target.query));
        }
        let results = match self.executor.search_bounded(
            self.version,
            &relation.target.sheet,
            &relation.target.query,
            depth - 1,
        ) {
            Ok(results) => results,
            Err(e) => {
                proof {
                    assert(spec_search_one(
                        self.reg(),
                        self.version,
                        rel.sheet,
                        *rel.query,
                        None,
                        (depth - 1) as nat,
                    ) is None);
                    assert(spec_relation_ids(
                        self.reg(),
                        self.version,
                        rel.sheet,
                        *rel.query,
                        (depth - 1) as nat,
                    ) is None);
                    assert(spec_resolve_relation(
                        self.reg(),
                        self.version,
                        field_name@,
                        kind,
                        rel,
                        depth as nat,
                    ) is Failed);
                }
                return Err(e);
            },
        };
        let ghost ids = results@.map_values(|r: IndexResult| r.row_id);
        proof {
            assert(spec_relation_ids(
                self.reg(),
                self.version,
                rel.sheet,
                *rel.query,
                (depth - 1) as nat,
            ) == Some(ids));
            assert(spec_resolve_relation(
                self.reg(),
                self.version,
                field_name@,
                kind,
                rel,
                depth as nat,
            ) == spec_relation_terms(field_name@, kind, ids));
        }
        match kind {
            FieldKind::U64 => {
                let mut values: Vec<u64> = Vec::new();
                let mut i: usize = 0;
                while i < results.len()
                    invariant
                        0 <= i <= results@.len(),
                        values@ == results@.take(i as int).map_values(|r: IndexResult| r.row_id
                            as u64),
                    decreases results@.len() - i,
                {
                    values.push(results[i].row_id as u64);
                    proof {
                        assert(results@.take(i + 1 as int) =~= results@.take(i as int).push(
                            results@[i as int],
                        ));
                        assert(results@.take(i + 1 as int).map_values(|r: IndexResult| r.row_id
                            as u64) =~= results@.take(i as int).map_values(|r: IndexResult| r.row_id
                            as u64).push(results@[i as int].row_id as u64));
                    }
                    i += 1;
                }
                proof {
                    assert(results@.take(results@.len() as int) =~= results@);
                    assert(values@ =~= ids.map_values(|r: u32| r as u64));
                }
                Ok(ResolvedQuery::TermSetU64 { field: field_name, values })
            },
            FieldKind::I64 => {
                let mut values: Vec<i64> = Vec::new();
                let mut i: usize = 0;
                while i < results.len()
                    invariant
                        0 <= i <= results@.len(),
                        values@ == results@.take(i as int).map_values(|r: IndexResult| r.row_id
                            as i64),
                    decreases results@.len() - i,
                {
                    values.push(results[i].row_id as i64);
                    proof {
                        assert(results@.take(i + 1 as int) =~= results@.take(i as int).push(
                            results@[i as int],
                        ));
                        assert(results@.take(i + 1 as int).map_values(|r: IndexResult| r.row_id
                            as i64) =~= results@.take(i as int).map_values(|r: IndexResult| r.row_id
                            as i64).push(results@[i as int].row_id as i64));
                    }
                    i += 1;
                }
                proof {
                    assert(results@.take(results@.len() as int) =~= results@);
                    assert(values@ =~= ids.map_values(|r: u32| r as i64));
                }
                Ok(ResolvedQuery::TermSetI64 { field: field_name, values })
            },
            _ => {
                if results.len() == 0 {
                    let values: Vec<u64> = Vec::new();
                    proof {
                        assert(ids.len() == 0);
                        assert(values@ =~= Seq::<u64>::empty());
                    }
                    Ok(ResolvedQuery::TermSetU64 { field: field_name, values })
                } else {
                    Err(Error::Failure(String::from_str("unimplemented term type")))
                }
            },
        }
    }
}

} // verus!
