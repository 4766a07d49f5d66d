//! One physical index partition: its field directory, its documents, and
//! the native query representation it executes. A document is one
//! (partition tag, row id, subrow id) identity plus the multi-valued
//! fields accumulated over every language of its sheet.

use vstd::prelude::*;

use crate::data::ColumnDefinition;
use crate::data::ColumnView;
use crate::data::FieldValue;
use crate::data::FieldValueView;
use crate::data::Language;
use crate::data::LanguageRowsView;
use crate::data::RowData;
use crate::data::RowView;
use crate::data::SheetData;
use crate::data::SheetView;
use crate::query::Occur;
use crate::schema::column_field_name;
use crate::schema::spec_column_field_name;
use crate::schema::build_schema;
use crate::schema::spec_build_schema;
use crate::schema::SchemaField;
use crate::schema::SchemaFieldView;

verus! {

/// One stored field value. Booleans and unsigned integers share the
/// unsigned storage; signed integers the signed one; float values arrive
/// already as opaque bit patterns and are stored as unsigned values.
#[derive(Debug)]
pub enum DocValue {
    U64(u64),
    I64(i64),
    Text(String),
}

/// Mathematical image of a stored value.
pub enum DocValueView {
    U64(u64),
    I64(i64),
    Text(Seq<char>),
}

impl View for DocValue {
    type V = DocValueView;

    open spec fn view(&self) -> DocValueView {
        match self {
            DocValue::U64(v) => DocValueView::U64(*v),
            DocValue::I64(v) => DocValueView::I64(*v),
            DocValue::Text(s) => DocValueView::Text(s@),
        }
    }
}

impl DeepView for DocValue {
    type V = DocValueView;

    open spec fn deep_view(&self) -> DocValueView {
        self.view()
    }
}

/// The indexed unit: one row identity within one partition tag, plus its
/// accumulated field values. A field name may carry several values (one
/// per language for localized columns).
#[derive(Debug)]
pub struct Document {
    pub sheet_key: u64,
    pub row_id: u32,
    pub subrow_id: u16,
    pub fields: Vec<(String, DocValue)>,
}

/// Mathematical image of a document.
pub struct DocumentView {
    pub sheet_key: u64,
    pub row_id: u32,
    pub subrow_id: u16,
    pub fields: Seq<(Seq<char>, DocValueView)>,
}

impl View for Document {
    type V = DocumentView;

    open spec fn view(&self) -> DocumentView {
        DocumentView {
            sheet_key: self.sheet_key,
            row_id: self.row_id,
            subrow_id: self.subrow_id,
            fields: self.fields.deep_view(),
        }
    }
}

impl DeepView for Document {
    type V = DocumentView;

    open spec fn deep_view(&self) -> DocumentView {
        self.view()
    }
}

/// One hit of a partition search: the document's identity and its score.
#[derive(PartialEq, Eq, Structural, Clone, Copy, Debug)]
pub struct IndexResult {
    pub score: u64,
    pub sheet_key: u64,
    pub row_id: u32,
    pub subrow_id: u16,
}

/// The native query representation one post-normalization node resolves
/// into: exact-match terms, set-membership terms (materialized relation
/// candidates), the zero-scored partition-tag filter, and the boolean
/// combinator.
#[derive(Debug)]
pub enum ResolvedQuery {
    Boolean(Vec<(Occur, ResolvedQuery)>),
    TermU64 { field: String, value: u64 },
    TermI64 { field: String, value: i64 },
    TermSetU64 { field: String, values: Vec<u64> },
    TermSetI64 { field: String, values: Vec<i64> },
    SheetKey(u64),
}

/// Mathematical image of a resolved query.
pub enum ResolvedQueryView {
    Boolean(Seq<(Occur, ResolvedQueryView)>),
    TermU64 { field: Seq<char>, value: u64 },
    TermI64 { field: Seq<char>, value: i64 },
    TermSetU64 { field: Seq<char>, values: Seq<u64> },
    TermSetI64 { field: Seq<char>, values: Seq<i64> },
    SheetKey(u64),
}

pub open spec fn rq_view(q: ResolvedQuery) -> ResolvedQueryView
    decreases q,
{
    match q {
        ResolvedQuery::Boolean(clauses) => ResolvedQueryView::Boolean(rq_clauses_view(clauses@)),
        ResolvedQuery::TermU64 { field, value } => ResolvedQueryView::TermU64 {
            field: field@,
            value,
        },
        ResolvedQuery::TermI64 { field, value } => ResolvedQueryView::TermI64 {
            field: field@,
            value,
        },
        ResolvedQuery::TermSetU64 { field, values } => ResolvedQueryView::TermSetU64 {
            field: field@,
            values: values@,
        },
        ResolvedQuery::TermSetI64 { field, values } => ResolvedQueryView::TermSetI64 {
            field: field@,
            values: values@,
        },
        ResolvedQuery::SheetKey(key) => ResolvedQueryView::SheetKey(key),
    }
}

pub open spec fn rq_clauses_view(s: Seq<(Occur, ResolvedQuery)>) -> Seq<(Occur, ResolvedQueryView)>
    decreases s,
{
    if s.len() == 0 {
        Seq::empty()
    } else {
        seq![(s[0].0, rq_view(s[0].1))] + rq_clauses_view(s.drop_first())
    }
}

impl View for ResolvedQuery {
    type V = ResolvedQueryView;

    open spec fn view(&self) -> ResolvedQueryView {
        rq_view(*self)
    }
}

/// `rq_clauses_view` is the element-wise image of its input.
pub proof fn lemma_rq_clauses_view(s: Seq<(Occur, ResolvedQuery)>)
    ensures
        rq_clauses_view(s).len() == s.len(),
        forall|i: int|
            0 <= i < s.len() ==> #[trigger] rq_clauses_view(s)[i] == (s[i].0, rq_view(s[i].1)),
    decreases s,
{
    if s.len() > 0 {
        lemma_rq_clauses_view(s.drop_first());
        assert forall|i: int| 0 <= i < s.len() implies #[trigger] rq_clauses_view(s)[i] == (
        s[i].0,
        rq_view(s[i].1),
        ) by {
            if i > 0 {
                assert(rq_clauses_view(s)[i] == rq_clauses_view(s.drop_first())[i - 1]);
                assert(s.drop_first()[i - 1] == s[i]);
            }
        }
    }
}

/// Whether some value of the named field equals `v`.
pub open spec fn doc_has(doc: DocumentView, field: Seq<char>, v: DocValueView) -> bool {
    exists|i: int|
        0 <= i < doc.fields.len() && #[trigger] doc.fields[i] == (field, v)
}

/// Whether some value of the named field equals one of the given
/// unsigned values.
pub open spec fn set_matches_u64(doc: DocumentView, field: Seq<char>, values: Seq<u64>) -> bool {
    exists|i: int|
        0 <= i < values.len() && doc_has(doc, field, DocValueView::U64(#[trigger] values[i]))
}

/// Whether some value of the named field equals one of the given signed
/// values.
pub open spec fn set_matches_i64(doc: DocumentView, field: Seq<char>, values: Seq<i64>) -> bool {
    exists|i: int|
        0 <= i < values.len() && doc_has(doc, field, DocValueView::I64(#[trigger] values[i]))
}

/// Whether a document matches a resolved query. Boolean semantics: every
/// `Must` clause matches, no `MustNot` clause matches, and, where there is
/// no `Must` clause, at least one `Should` clause matches; in particular
/// an empty boolean query matches nothing.
pub open spec fn rq_matches(doc: DocumentView, q: ResolvedQueryView) -> bool
    decreases q, 1int,
{
    match q {
        ResolvedQueryView::Boolean(clauses) => clauses_match(doc, clauses),
        ResolvedQueryView::TermU64 { field, value } => doc_has(doc, field, DocValueView::U64(value)),
        ResolvedQueryView::TermI64 { field, value } => doc_has(doc, field, DocValueView::I64(value)),
        ResolvedQueryView::TermSetU64 { field, values } => set_matches_u64(doc, field, values),
        ResolvedQueryView::TermSetI64 { field, values } => set_matches_i64(doc, field, values),
        ResolvedQueryView::SheetKey(key) => doc.sheet_key == key,
    }
}

pub open spec fn clauses_match(doc: DocumentView, clauses: Seq<(Occur, ResolvedQueryView)>) -> bool
    decreases clauses, 0int,
{
    &&& forall|i: int|
        0 <= i < clauses.len() && (#[trigger] clauses[i]).0 is MustNot ==> !rq_matches(
            doc,
            clauses[i].1,
        )
    &&& if exists|i: int| 0 <= i < clauses.len() && (#[trigger] clauses[i]).0 is Must {
        forall|i: int|
            0 <= i < clauses.len() && (#[trigger] clauses[i]).0 is Must ==> rq_matches(
                doc,
                clauses[i].1,
            )
    } else {
        exists|i: int|
            0 <= i < clauses.len() && (#[trigger] clauses[i]).0 is Should && rq_matches(
                doc,
                clauses[i].1,
            )
    }
}

/// The score of a matching document: term and set matches score one, the
/// partition-tag filter scores zero, and a boolean group sums the scores
/// of its matching positive (`Must`/`Should`) clauses.
pub open spec fn rq_score(doc: DocumentView, q: ResolvedQueryView) -> int
    decreases q, 2int,
{
    match q {
        ResolvedQueryView::Boolean(clauses) => clauses_score(doc, clauses),
        ResolvedQueryView::SheetKey(_) => 0,
        _ => 1,
    }
}

pub open spec fn clause_weight(doc: DocumentView, c: (Occur, ResolvedQueryView)) -> int
    decreases c, 3int,
{
    if (c.0 is Must || c.0 is Should) && rq_matches(doc, c.1) {
        rq_score(doc, c.1)
    } else {
        0
    }
}

pub open spec fn clauses_score(doc: DocumentView, s: Seq<(Occur, ResolvedQueryView)>) -> int
    decreases s, 4int,
{
    if s.len() == 0 {
        0
    } else {
        clause_weight(doc, s[0]) + clauses_score(doc, s.drop_first())
    }
}

/// Scores are sums of zeros and ones, so never negative.
pub proof fn lemma_rq_score_nonneg(doc: DocumentView, q: ResolvedQueryView)
    ensures
        rq_score(doc, q) >= 0,
    decreases q, 2int,
{
    match q {
        ResolvedQueryView::Boolean(clauses) => lemma_clauses_score_nonneg(doc, clauses),
        _ => {},
    }
}

pub proof fn lemma_clauses_score_nonneg(doc: DocumentView, s: Seq<(Occur, ResolvedQueryView)>)
    ensures
        clauses_score(doc, s) >= 0,
    decreases s, 4int,
{
    if s.len() > 0 {
        if (s[0].0 is Must || s[0].0 is Should) && rq_matches(doc, s[0].1) {
            lemma_rq_score_nonneg(doc, s[0].1);
        }
        assert(clause_weight(doc, s[0]) >= 0);
        lemma_clauses_score_nonneg(doc, s.drop_first());
        assert(clauses_score(doc, s) == clause_weight(doc, s[0]) + clauses_score(
            doc,
            s.drop_first(),
        ));
    }
}

/// Appending a clause adds its contribution to the clause-list score.
pub proof fn lemma_clauses_score_push(
    doc: DocumentView,
    s: Seq<(Occur, ResolvedQueryView)>,
    c: (Occur, ResolvedQueryView),
)
    ensures
        clauses_score(doc, s.push(c)) == clauses_score(doc, s) + clause_weight(doc, c),
    decreases s.len(),
{
    if s.len() == 0 {
        assert(s.push(c)[0] == c);
        assert(s.push(c).drop_first() =~= Seq::<(Occur, ResolvedQueryView)>::empty());
        assert(clauses_score(doc, s.push(c)) == clause_weight(doc, c) + clauses_score(
            doc,
            s.push(c).drop_first(),
        ));
        assert(clauses_score(doc, s.push(c).drop_first()) == 0);
        assert(clauses_score(doc, s) == 0);
    } else {
        assert(s.push(c).drop_first() =~= s.drop_first().push(c));
        assert(s.push(c)[0] == s[0]);
        lemma_clauses_score_push(doc, s.drop_first(), c);
        assert(clauses_score(doc, s.push(c)) == clause_weight(doc, s[0]) + clauses_score(
            doc,
            s.push(c).drop_first(),
        ));
        assert(clauses_score(doc, s) == clause_weight(doc, s[0]) + clauses_score(
            doc,
            s.drop_first(),
        ));
    }
}

/// Structural height of a resolved query: the termination measure for
/// executable walks of the query.
pub open spec fn rqv_height(q: ResolvedQueryView) -> nat
    decreases q, 1int,
{
    match q {
        ResolvedQueryView::Boolean(clauses) => 1 + rqv_clauses_height(clauses),
        _ => 1,
    }
}

pub open spec fn rqv_clauses_height(s: Seq<(Occur, ResolvedQueryView)>) -> nat
    decreases s, 0int,
{
    if s.len() == 0 {
        0
    } else {
        rqv_height(s[0].1) + rqv_clauses_height(s.drop_first())
    }
}

/// Each clause is strictly lower than the boolean query containing it.
pub proof fn lemma_rqv_clause_height(s: Seq<(Occur, ResolvedQueryView)>, i: int)
    requires
        0 <= i < s.len(),
    ensures
        rqv_height(s[i].1) <= rqv_clauses_height(s),
    decreases s.len(),
{
    if i > 0 {
        lemma_rqv_clause_height(s.drop_first(), i - 1);
        assert(s.drop_first()[i - 1] == s[i]);
    }
}

/// An integer score clamped into the score field's range.
pub open spec fn cap_u64(s: int) -> u64 {
    if s > u64::MAX {
        u64::MAX
    } else if s < 0 {
        0
    } else {
        s as u64
    }
}

/// Whether some value of the named field equals the given unsigned value.
pub fn doc_has_u64(doc: &Document, field: &String, value: u64) -> (r: bool)
    ensures
        r == doc_has(doc@, field@, DocValueView::U64(value)),
{
    let mut i: usize = 0;
    while i < doc.fields.len()
        invariant
            0 <= i <= doc.fields@.len(),
            forall|k: int| 0 <= k < i ==> #[trigger] doc@.fields[k] != (field@, DocValueView::U64(value)),
        decreases doc.fields@.len() - i,
    {
        let entry = &doc.fields[i];
        if entry.0 == *field {
            match &entry.1 {
                DocValue::U64(v) => {
                    if *v == value {
                        assert(doc@.fields[i as int] == (field@, DocValueView::U64(value)));
                        return true;
                    }
                },
                _ => {},
            }
        }
        proof {
            assert(doc@.fields[i as int] == (doc.fields@[i as int].0@, doc.fields@[i as int].1@));
        }
        i += 1;
    }
    false
}

/// Whether some value of the named field equals the given signed value.
pub fn doc_has_i64(doc: &Document, field: &String, value: i64) -> (r: bool)
    ensures
        r == doc_has(doc@, field@, DocValueView::I64(value)),
{
    let mut i: usize = 0;
    while i < doc.fields.len()
        invariant
            0 <= i <= doc.fields@.len(),
            forall|k: int| 0 <= k < i ==> #[trigger] doc@.fields[k] != (field@, DocValueView::I64(value)),
        decreases doc.fields@.len() - i,
    {
        let entry = &doc.fields[i];
        if entry.0 == *field {
            match &entry.1 {
                DocValue::I64(v) => {
                    if *v == value {
                        assert(doc@.fields[i as int] == (field@, DocValueView::I64(value)));
                        return true;
                    }
                },
                _ => {},
            }
        }
        proof {
            assert(doc@.fields[i as int] == (doc.fields@[i as int].0@, doc.fields@[i as int].1@));
        }
        i += 1;
    }
    false
}

/// Saturating addition on scores.
pub fn sat_add(a: u64, b: u64) -> (r: u64)
    ensures
        r == cap_u64(a + b),
{
    if a > u64::MAX - b {
        u64::MAX
    } else {
        a + b
    }
}

/// Evaluates a resolved query against one document: whether it matches,
/// and its (saturating) score.
pub fn eval_query(doc: &Document, q: &ResolvedQuery) -> (r: (bool, u64))
    ensures
        r.0 == rq_matches(doc@, q@),
        r.1 == cap_u64(rq_score(doc@, q@)),
    decreases rqv_height(q@),
{
    match q {
        ResolvedQuery::TermU64 { field, value } => {
            proof {
                assert(q@ == ResolvedQueryView::TermU64 { field: field@, value: *value });
            }
            let m = doc_has_u64(doc, field, *value);
            proof {
                assert(m == rq_matches(doc@, q@));
                assert(rq_score(doc@, q@) == 1);
            }
            (m, 1)
        },
        ResolvedQuery::TermI64 { field, value } => {
            proof {
                assert(q@ == ResolvedQueryView::TermI64 { field: field@, value: *value });
            }
            let m = doc_has_i64(doc, field, *value);
            proof {
                assert(m == rq_matches(doc@, q@));
                assert(rq_score(doc@, q@) == 1);
            }
            (m, 1)
        },
        ResolvedQuery::TermSetU64 { field, values } => {
            proof {
                assert(q@ == ResolvedQueryView::TermSetU64 { field: field@, values: values@ });
            }
            let mut m = false;
            let mut i: usize = 0;
            while i < values.len()
                invariant
                    0 <= i <= values@.len(),
                    m == set_matches_u64(doc@, field@, values@.take(i as int)),
                decreases values@.len() - i,
            {
                if doc_has_u64(doc, field, values[i]) {
                    proof {
                        assert(values@.take(i + 1 as int)[i as int] == values@[i as int]);
                        assert(set_matches_u64(doc@, field@, values@.take(i + 1 as int)));
                    }
                    m = true;
                } else {
                    proof {
                        if set_matches_u64(doc@, field@, values@.take(i + 1 as int)) {
                            let k = choose|k: int|
                                0 <= k < values@.take(i + 1 as int).len() && doc_has(
                                    doc@,
                                    field@,
                                    DocValueView::U64(#[trigger] values@.take(i + 1 as int)[k]),
                                );
                            if k < i {
                                assert(values@.take(i as int)[k] == values@.take(i + 1 as int)[k]);
                                assert(set_matches_u64(doc@, field@, values@.take(i as int)));
                            } else {
                                assert(values@.take(i + 1 as int)[k] == values@[i as int]);
                            }
                        }
                    }
                }
                i += 1;
            }
            proof {
                assert(values@.take(values@.len() as int) =~= values@);
            }
            (m, 1)
        },
        ResolvedQuery::TermSetI64 { field, values } => {
            proof {
                assert(q@ == ResolvedQueryView::TermSetI64 { field: field@, values: values@ });
            }
            let mut m = false;
            let mut i: usize = 0;
            while i < values.len()
                invariant
                    0 <= i <= values@.len(),
                    m == set_matches_i64(doc@, field@, values@.take(i as int)),
                decreases values@.len() - i,
            {
                if doc_has_i64(doc, field, values[i]) {
                    proof {
                        assert(values@.take(i + 1 as int)[i as int] == values@[i as int]);
                        assert(set_matches_i64(doc@, field@, values@.take(i + 1 as int)));
                    }
                    m = true;
                } else {
                    proof {
                        if set_matches_i64(doc@, field@, values@.take(i + 1 as int)) {
                            let k = choose|k: int|
                                0 <= k < values@.take(i + 1 as int).len() && doc_has(
                                    doc@,
                                    field@,
                                    DocValueView::I64(#[trigger] values@.take(i + 1 as int)[k]),
                                );
                            if k < i {
                                assert(values@.take(i as int)[k] == values@.take(i + 1 as int)[k]);
                                assert(set_matches_i64(doc@, field@, values@.take(i as int)));
                            } else {
                                assert(values@.take(i + 1 as int)[k] == values@[i as int]);
                            }
                        }
                    }
                }
                i += 1;
            }
            proof {
                assert(values@.take(values@.len() as int) =~= values@);
            }
            (m, 1)
        },
        ResolvedQuery::SheetKey(key) => {
            proof {
                assert(q@ == ResolvedQueryView::SheetKey(*key));
            }
            (doc.sheet_key == *key, 0)
        },
        ResolvedQuery::Boolean(clauses) => {
            let ghost cv = rq_clauses_view(clauses@);
            proof {
                lemma_rq_clauses_view(clauses@);
                assert(q@ == ResolvedQueryView::Boolean(cv));
            }
            let mut all_must = true;
            let mut has_must = false;
            let mut any_should = false;
            let mut no_mustnot = true;
            let mut score: u64 = 0;
            let mut i: usize = 0;
            while i < clauses.len()
                invariant
                    0 <= i <= clauses@.len(),
                    cv == rq_clauses_view(clauses@),
                    q@ == ResolvedQueryView::Boolean(cv),
                    cv.len() == clauses@.len(),
                    forall|k: int|
                        0 <= k < clauses@.len() ==> #[trigger] cv[k] == (
                        clauses@[k].0,
                        rq_view(clauses@[k].1),
                        ),
                    all_must == forall|k: int|
                        0 <= k < i && (#[trigger] cv[k]).0 is Must ==> rq_matches(doc@, cv[k].1),
                    has_must == exists|k: int| 0 <= k < i && (#[trigger] cv[k]).0 is Must,
                    any_should == exists|k: int|
                        0 <= k < i && (#[trigger] cv[k]).0 is Should && rq_matches(doc@, cv[k].1),
                    no_mustnot == forall|k: int|
                        0 <= k < i && (#[trigger] cv[k]).0 is MustNot ==> !rq_matches(doc@, cv[k].1),
                    score == cap_u64(clauses_score(doc@, cv.take(i as int))),
                decreases clauses@.len() - i,
            {
                let clause = &clauses[i];
                proof {
                    lemma_rqv_clause_height(cv, i as int);
                    assert(cv[i as int].1 == rq_view(clauses@[i as int].1));
                    assert(rqv_height(q@) == 1 + rqv_clauses_height(cv));
                }
                let (m, s) = eval_query(doc, &clause.1);
                let positive = matches!(clause.0, Occur::Must) || matches!(clause.0, Occur::Should);
                let weight: u64 = if positive && m {
                    s
                } else {
                    0
                };
                proof {
                    lemma_rq_score_nonneg(doc@, cv[i as int].1);
                    lemma_clauses_score_nonneg(doc@, cv.take(i as int));
                    lemma_clauses_score_push(doc@, cv.take(i as int), cv[i as int]);
                    assert(cv.take(i + 1 as int) =~= cv.take(i as int).push(cv[i as int]));
                }
                score = sat_add(score, weight);
                match clause.0 {
                    Occur::Must => {
                        has_must = true;
                        if !m {
                            all_must = false;
                        }
                    },
                    Occur::Should => {
                        if m {
                            any_should = true;
                        }
                    },
                    Occur::MustNot => {
                        if m {
                            no_mustnot = false;
                        }
                    },
                }
                i += 1;
            }
            proof {
                assert(cv.take(clauses@.len() as int) =~= cv);
            }
            let matched = no_mustnot && (if has_must {
                all_must
            } else {
                any_should
            });
            proof {
                assert(rq_matches(doc@, q@) == clauses_match(doc@, cv));
                assert(matched == clauses_match(doc@, cv));
            }
            (matched, score)
        },
    }
}

/// Mathematical image of a partition.
pub struct IndexView {
    pub schema: Seq<SchemaFieldView>,
    pub docs: Seq<DocumentView>,
}

/// The identity under which a document is unique within its partition.
pub open spec fn doc_key(d: DocumentView) -> (u64, u32, u16) {
    (d.sheet_key, d.row_id, d.subrow_id)
}

impl IndexView {
    /// No two documents of a partition share (partition tag, row id,
    /// subrow id).
    pub open spec fn well_formed(&self) -> bool {
        forall|i: int, j: int|
            0 <= i < j < self.docs.len() ==> doc_key(#[trigger] self.docs[i]) != doc_key(
                #[trigger] self.docs[j],
            )
    }
}

/// One physical index partition. Its field directory is fixed when the
/// partition is created from a representative sheet and is immutable
/// thereafter; ingestion only ever appends documents.
#[derive(Debug)]
pub struct Index {
    pub schema: Vec<SchemaField>,
    pub docs: Vec<Document>,
}

impl View for Index {
    type V = IndexView;

    open spec fn view(&self) -> IndexView {
        IndexView { schema: self.schema.deep_view(), docs: self.docs.deep_view() }
    }
}

impl DeepView for Index {
    type V = IndexView;

    open spec fn deep_view(&self) -> IndexView {
        self.view()
    }
}

impl Index {
    /// Creates an empty partition whose field directory is derived from a
    /// representative sheet.
    pub fn new(sheet: &SheetData) -> (r: Index)
        ensures
            r@.schema == spec_build_schema(sheet@.columns, sheet@.languages),
            r@.docs == Seq::<DocumentView>::empty(),
            r@.well_formed(),
    {
        let schema = build_schema(&sheet.columns, &sheet.languages);
        let docs: Vec<Document> = Vec::new();
        proof {
            assert(docs.deep_view() =~= Seq::<DocumentView>::empty());
        }
        Index { schema, docs }
    }
}


/// The stored image of one cell value: booleans widen to 0/1, signed
/// integers sign-extend, unsigned integers zero-extend, floats keep their
/// bit pattern as an opaque unsigned value.
pub open spec fn spec_doc_value(v: FieldValueView) -> DocValueView {
    match v {
        FieldValueView::Text(s) => DocValueView::Text(s),
        FieldValueView::Bool(b) => DocValueView::U64(
            if b {
                1
            } else {
                0
            },
        ),
        FieldValueView::I8(x) => DocValueView::I64(x as i64),
        FieldValueView::I16(x) => DocValueView::I64(x as i64),
        FieldValueView::I32(x) => DocValueView::I64(x as i64),
        FieldValueView::I64(x) => DocValueView::I64(x),
        FieldValueView::U8(x) => DocValueView::U64(x as u64),
        FieldValueView::U16(x) => DocValueView::U64(x as u64),
        FieldValueView::U32(x) => DocValueView::U64(x as u64),
        FieldValueView::U64(x) => DocValueView::U64(x),
        FieldValueView::F32Bits(x) => DocValueView::U64(x as u64),
    }
}

/// Executable counterpart of `spec_doc_value`.
pub fn doc_value(v: &FieldValue) -> (r: DocValue)
    ensures
        r@ == spec_doc_value(v@),
{
    match v {
        FieldValue::Text(s) => DocValue::Text(s.clone()),
        FieldValue::Bool(b) => DocValue::U64(
            if *b {
                1
            } else {
                0
            },
        ),
        FieldValue::I8(x) => DocValue::I64(*x as i64),
        FieldValue::I16(x) => DocValue::I64(*x as i64),
        FieldValue::I32(x) => DocValue::I64(*x as i64),
        FieldValue::I64(x) => DocValue::I64(*x),
        FieldValue::U8(x) => DocValue::U64(*x as u64),
        FieldValue::U16(x) => DocValue::U64(*x as u64),
        FieldValue::U32(x) => DocValue::U64(*x as u64),
        FieldValue::U64(x) => DocValue::U64(*x),
        FieldValue::F32Bits(x) => DocValue::U64(*x as u64),
    }
}

/// The field entries one row contributes in one language: one entry per
/// column, named by the field-naming convention.
pub open spec fn spec_hydrate(
    columns: Seq<ColumnView>,
    language: Language,
    fields: Seq<FieldValueView>,
) -> Seq<(Seq<char>, DocValueView)> {
    Seq::new(
        columns.len(),
        |i: int|
            (
                spec_column_field_name(columns[i], language),
                spec_doc_value(fields[i]),
            ),
    )
}

/// Appends one row's field values (in one language) to a document under
/// construction. The document's identity is untouched.
pub fn hydrate_row_document(
    document: &mut Document,
    row: &RowData,
    columns: &Vec<ColumnDefinition>,
    language: Language,
)
    requires
        row@.fields.len() == columns.deep_view().len(),
    ensures
        final(document)@.fields == old(document)@.fields + spec_hydrate(
            columns.deep_view(),
            language,
            row@.fields,
        ),
        final(document).sheet_key == old(document).sheet_key,
        final(document).row_id == old(document).row_id,
        final(document).subrow_id == old(document).subrow_id,
{
    let ghost pre = document@.fields;
    let ghost hv = spec_hydrate(columns.deep_view(), language, row@.fields);
    let mut i: usize = 0;
    while i < columns.len()
        invariant
            0 <= i <= columns@.len(),
            row@.fields.len() == columns.deep_view().len(),
            hv == spec_hydrate(columns.deep_view(), language, row@.fields),
            document@.fields == pre + hv.take(i as int),
            document.sheet_key == old(document).sheet_key,
            document.row_id == old(document).row_id,
            document.subrow_id == old(document).subrow_id,
        decreases columns@.len() - i,
    {
        let name = column_field_name(&columns[i], language);
        let value = doc_value(&row.fields[i]);
        let ghost before = document@.fields;
        document.fields.push((name, value));
        proof {
            assert(document@.fields =~= before.push((name@, value@)));
            assert(hv[i as int] == (name@, value@));
            assert(hv.take(i + 1 as int) =~= hv.take(i as int).push(hv[i as int]));
            assert(document@.fields =~= pre + hv.take(i + 1 as int));
        }
        i += 1;
    }
    proof {
        assert(hv.take(columns.deep_view().len() as int) =~= hv);
    }
}

/// Index of the first document with the given row identity, or -1.
pub open spec fn spec_find_doc(docs: Seq<DocumentView>, row_id: u32, subrow_id: u16) -> int
    decreases docs.len(),
{
    if docs.len() == 0 {
        -1
    } else if docs[0].row_id == row_id && docs[0].subrow_id == subrow_id {
        0
    } else {
        let rest = spec_find_doc(docs.drop_first(), row_id, subrow_id);
        if rest == -1 {
            -1
        } else {
            rest + 1
        }
    }
}

/// What `spec_find_doc` finds: -1 exactly when no document matches, and
/// otherwise the first matching position.
pub proof fn lemma_find_doc_props(docs: Seq<DocumentView>, row_id: u32, subrow_id: u16)
    ensures
        (spec_find_doc(docs, row_id, subrow_id) == -1) == (forall|k: int|
            0 <= k < docs.len() ==> !((#[trigger] docs[k]).row_id == row_id && docs[k].subrow_id
                == subrow_id)),
        spec_find_doc(docs, row_id, subrow_id) != -1 ==> {
            let j = spec_find_doc(docs, row_id, subrow_id);
            &&& 0 <= j < docs.len()
            &&& docs[j].row_id == row_id
            &&& docs[j].subrow_id == subrow_id
        },
    decreases docs.len(),
{
    if docs.len() > 0 {
        lemma_find_doc_props(docs.drop_first(), row_id, subrow_id);
        assert(forall|k: int|
            1 <= k < docs.len() ==> #[trigger] docs[k] == docs.drop_first()[k - 1]);
    }
}

/// Walking a no-match prefix shifts `spec_find_doc` by that prefix.
pub proof fn lemma_find_doc_skip(docs: Seq<DocumentView>, row_id: u32, subrow_id: u16, i: int)
    requires
        0 <= i <= docs.len(),
        forall|k: int|
            0 <= k < i ==> !((#[trigger] docs[k]).row_id == row_id && docs[k].subrow_id
                == subrow_id),
    ensures
        spec_find_doc(docs, row_id, subrow_id) == {
            let rest = spec_find_doc(docs.skip(i), row_id, subrow_id);
            if rest == -1 {
                -1
            } else {
                rest + i
            }
        },
    decreases i,
{
    if i == 0 {
        assert(docs.skip(0) =~= docs);
        assert(spec_find_doc(docs.skip(i), row_id, subrow_id) == spec_find_doc(
            docs,
            row_id,
            subrow_id,
        ));
        assert(spec_find_doc(docs, row_id, subrow_id) == {
            let rest = spec_find_doc(docs.skip(i), row_id, subrow_id);
            if rest == -1 {
                -1int
            } else {
                rest + i
            }
        });
    } else {
        assert(docs.skip(1) =~= docs.drop_first());
        assert(forall|k: int|
            0 <= k < i - 1 ==> #[trigger] docs.drop_first()[k] == docs[k + 1]);
        lemma_find_doc_skip(docs.drop_first(), row_id, subrow_id, i - 1);
        assert(docs.drop_first().skip(i - 1) =~= docs.skip(i));
        let rest_all = spec_find_doc(docs.skip(i), row_id, subrow_id);
        lemma_find_doc_props(docs.skip(i), row_id, subrow_id);
        assert(rest_all != -1 ==> rest_all >= 0);
        assert(spec_find_doc(docs.drop_first(), row_id, subrow_id) == if rest_all == -1 {
            -1int
        } else {
            rest_all + (i - 1)
        });
        assert(docs.len() > 0 && !(docs[0].row_id == row_id && docs[0].subrow_id == subrow_id));
        assert(spec_find_doc(docs, row_id, subrow_id) == {
            let rest = spec_find_doc(docs.drop_first(), row_id, subrow_id);
            if rest == -1 {
                -1int
            } else {
                rest + 1
            }
        });
        assert(spec_find_doc(docs, row_id, subrow_id) == {
            let rest = spec_find_doc(docs.skip(i), row_id, subrow_id);
            if rest == -1 {
                -1int
            } else {
                rest + i
            }
        });
    }
}

/// Finds the in-progress document for a row identity.
pub fn find_doc(docs: &Vec<Document>, row_id: u32, subrow_id: u16) -> (r: Option<usize>)
    ensures
        match r {
            Some(j) => 0 <= j < docs.deep_view().len() && spec_find_doc(
                docs.deep_view(),
                row_id,
                subrow_id,
            ) == j as int,
            None => spec_find_doc(docs.deep_view(), row_id, subrow_id) == -1,
        },
{
    let ghost dv = docs.deep_view();
    let mut i: usize = 0;
    while i < docs.len()
        invariant
            0 <= i <= dv.len(),
            dv == docs.deep_view(),
            dv.len() == docs@.len(),
            forall|k: int|
                0 <= k < i ==> !((#[trigger] dv[k]).row_id == row_id && dv[k].subrow_id
                    == subrow_id),
        decreases dv.len() - i,
    {
        let d = &docs[i];
        if d.row_id == row_id && d.subrow_id == subrow_id {
            proof {
                lemma_find_doc_skip(dv, row_id, subrow_id, i as int);
                assert(dv.skip(i as int)[0] == dv[i as int]);
                assert(spec_find_doc(dv.skip(i as int), row_id, subrow_id) == 0);
            }
            return Some(i);
        }
        proof {
            assert(dv[i as int].row_id == docs@[i as int].row_id && dv[i as int].subrow_id
                == docs@[i as int].subrow_id);
        }
        i += 1;
    }
    proof {
        lemma_find_doc_skip(dv, row_id, subrow_id, dv.len() as int);
        assert(dv.skip(dv.len() as int) =~= Seq::<DocumentView>::empty());
    }
    None
}

/// One row folded into the in-progress document list: the row's fields are
/// appended to its document if one exists, else a fresh document is
/// started under the partition tag `key`.
pub open spec fn spec_upsert(
    docs: Seq<DocumentView>,
    key: u64,
    columns: Seq<ColumnView>,
    language: Language,
    row: RowView,
) -> Seq<DocumentView> {
    let fields = spec_hydrate(columns, language, row.fields);
    let j = spec_find_doc(docs, row.row_id, row.subrow_id);
    if j != -1 {
        docs.update(
            j,
            DocumentView {
                sheet_key: docs[j].sheet_key,
                row_id: docs[j].row_id,
                subrow_id: docs[j].subrow_id,
                fields: docs[j].fields + fields,
            },
        )
    } else {
        docs.push(
            DocumentView { sheet_key: key, row_id: row.row_id, subrow_id: row.subrow_id, fields },
        )
    }
}

/// All rows of one language folded in, in order.
pub open spec fn spec_ingest_rows(
    docs: Seq<DocumentView>,
    key: u64,
    columns: Seq<ColumnView>,
    language: Language,
    rows: Seq<RowView>,
) -> Seq<DocumentView>
    decreases rows.len(),
{
    if rows.len() == 0 {
        docs
    } else {
        spec_ingest_rows(
            spec_upsert(docs, key, columns, language, rows[0]),
            key,
            columns,
            language,
            rows.drop_first(),
        )
    }
}

pub proof fn lemma_ingest_rows_push(
    docs: Seq<DocumentView>,
    key: u64,
    columns: Seq<ColumnView>,
    language: Language,
    rows: Seq<RowView>,
    row: RowView,
)
    ensures
        spec_ingest_rows(docs, key, columns, language, rows.push(row)) == spec_upsert(
            spec_ingest_rows(docs, key, columns, language, rows),
            key,
            columns,
            language,
            row,
        ),
    decreases rows.len(),
{
    if rows.len() == 0 {
        assert(rows.push(row)[0] == row);
        assert(rows.push(row).drop_first() =~= Seq::<RowView>::empty());
        assert(spec_ingest_rows(docs, key, columns, language, rows.push(row))
            == spec_ingest_rows(
            spec_upsert(docs, key, columns, language, row),
            key,
            columns,
            language,
            rows.push(row).drop_first(),
        ));
        assert(spec_ingest_rows(
            spec_upsert(docs, key, columns, language, row),
            key,
            columns,
            language,
            Seq::<RowView>::empty(),
        ) == spec_upsert(docs, key, columns, language, row));
        assert(spec_ingest_rows(docs, key, columns, language, rows) == docs);
    } else {
        assert(rows.push(row)[0] == rows[0]);
        assert(rows.push(row).drop_first() =~= rows.drop_first().push(row));
        lemma_ingest_rows_push(
            spec_upsert(docs, key, columns, language, rows[0]),
            key,
            columns,
            language,
            rows.drop_first(),
            row,
        );
        assert(spec_ingest_rows(docs, key, columns, language, rows.push(row))
            == spec_ingest_rows(
            spec_upsert(docs, key, columns, language, rows[0]),
            key,
            columns,
            language,
            rows.drop_first().push(row),
        ));
        assert(spec_ingest_rows(docs, key, columns, language, rows) == spec_ingest_rows(
            spec_upsert(docs, key, columns, language, rows[0]),
            key,
            columns,
            language,
            rows.drop_first(),
        ));
    }
}

/// Every language's rows folded in, in language order.
pub open spec fn spec_ingest_langs(
    docs: Seq<DocumentView>,
    key: u64,
    columns: Seq<ColumnView>,
    langrows: Seq<LanguageRowsView>,
) -> Seq<DocumentView>
    decreases langrows.len(),
{
    if langrows.len() == 0 {
        docs
    } else {
        spec_ingest_langs(
            spec_ingest_rows(docs, key, columns, langrows[0].language, langrows[0].rows),
            key,
            columns,
            langrows.drop_first(),
        )
    }
}

pub proof fn lemma_ingest_langs_push(
    docs: Seq<DocumentView>,
    key: u64,
    columns: Seq<ColumnView>,
    langrows: Seq<LanguageRowsView>,
    lr: LanguageRowsView,
)
    ensures
        spec_ingest_langs(docs, key, columns, langrows.push(lr)) == spec_ingest_rows(
            spec_ingest_langs(docs, key, columns, langrows),
            key,
            columns,
            lr.language,
            lr.rows,
        ),
    decreases langrows.len(),
{
    if langrows.len() == 0 {
        assert(langrows.push(lr)[0] == lr);
        assert(langrows.push(lr).drop_first() =~= Seq::<LanguageRowsView>::empty());
        assert(spec_ingest_langs(docs, key, columns, langrows.push(lr)) == spec_ingest_langs(
            spec_ingest_rows(docs, key, columns, lr.language, lr.rows),
            key,
            columns,
            langrows.push(lr).drop_first(),
        ));
        assert(spec_ingest_langs(
            spec_ingest_rows(docs, key, columns, lr.language, lr.rows),
            key,
            columns,
            Seq::<LanguageRowsView>::empty(),
        ) == spec_ingest_rows(docs, key, columns, lr.language, lr.rows));
        assert(spec_ingest_langs(docs, key, columns, langrows) == docs);
    } else {
        assert(langrows.push(lr)[0] == langrows[0]);
        assert(langrows.push(lr).drop_first() =~= langrows.drop_first().push(lr));
        lemma_ingest_langs_push(
            spec_ingest_rows(docs, key, columns, langrows[0].language, langrows[0].rows),
            key,
            columns,
            langrows.drop_first(),
            lr,
        );
        assert(spec_ingest_langs(docs, key, columns, langrows.push(lr)) == spec_ingest_langs(
            spec_ingest_rows(docs, key, columns, langrows[0].language, langrows[0].rows),
            key,
            columns,
            langrows.drop_first().push(lr),
        ));
        assert(spec_ingest_langs(docs, key, columns, langrows) == spec_ingest_langs(
            spec_ingest_rows(docs, key, columns, langrows[0].language, langrows[0].rows),
            key,
            columns,
            langrows.drop_first(),
        ));
    }
}

/// The document list one sheet contributes under partition tag `key`: one
/// document per distinct row identity, accumulating every language's field
/// values in order.
pub open spec fn spec_sheet_documents(key: u64, sheet: SheetView) -> Seq<
    DocumentView,
> {
    spec_ingest_langs(Seq::empty(), key, sheet.columns, sheet.rows)
}

/// Builds the documents of one sheet (`spec_sheet_documents`).
pub fn sheet_documents(key: u64, sheet: &SheetData) -> (r: Vec<Document>)
    requires
        sheet@.well_formed(),
    ensures
        r.deep_view() == spec_sheet_documents(key, sheet@),
{
    let mut docs: Vec<Document> = Vec::new();
    let ghost columns = sheet@.columns;
    proof {
        assert(docs.deep_view() =~= Seq::<DocumentView>::empty());
        assert(sheet@.rows.take(0int) =~= Seq::<LanguageRowsView>::empty());
    }
    let mut li: usize = 0;
    while li < sheet.rows.len()
        invariant
            0 <= li <= sheet@.rows.len(),
            sheet@.well_formed(),
            columns == sheet@.columns,
            docs.deep_view() == spec_ingest_langs(
                Seq::empty(),
                key,
                columns,
                sheet@.rows.take(li as int),
            ),
        decreases sheet@.rows.len() - li,
    {
        let lang_rows = &sheet.rows[li];
        let ghost lang = lang_rows@.language;
        let ghost base = docs.deep_view();
        proof {
            assert(lang_rows@ == sheet@.rows[li as int]);
            assert(lang_rows@.rows.take(0int) =~= Seq::<RowView>::empty());
        }
        let mut rj: usize = 0;
        while rj < lang_rows.rows.len()
            invariant
                0 <= rj <= lang_rows@.rows.len(),
                sheet@.well_formed(),
                columns == sheet@.columns,
                lang == lang_rows@.language,
                lang_rows@ == sheet@.rows[li as int],
                0 <= li < sheet@.rows.len(),
                docs.deep_view() == spec_ingest_rows(
                    base,
                    key,
                    columns,
                    lang,
                    lang_rows@.rows.take(rj as int),
                ),
            decreases lang_rows@.rows.len() - rj,
        {
            let row = &lang_rows.rows[rj];
            let ghost pre = docs.deep_view();
            proof {
                assert(row@ == lang_rows@.rows[rj as int]);
                assert(row@.fields.len() == columns.len());
            }
            match find_doc(&docs, row.row_id, row.subrow_id) {
                Some(j) => {
                    let mut d = docs.remove(j);
                    hydrate_row_document(&mut d, row, &sheet.columns, lang_rows.language);
                    docs.insert(j, d);
                    proof {
                        assert(docs.deep_view() =~= pre.remove(j as int).insert(j as int, d@));
                        assert(pre.remove(j as int).insert(j as int, d@) =~= pre.update(
                            j as int,
                            d@,
                        ));
                        assert(d@ == DocumentView {
                            sheet_key: pre[j as int].sheet_key,
                            row_id: pre[j as int].row_id,
                            subrow_id: pre[j as int].subrow_id,
                            fields: pre[j as int].fields + spec_hydrate(columns, lang, row@.fields),
                        });
                        assert(docs.deep_view() =~= spec_upsert(pre, key, columns, lang, row@));
                    }
                },
                None => {
                    let mut d = Document {
                        sheet_key: key,
                        row_id: row.row_id,
                        subrow_id: row.subrow_id,
                        fields: Vec::new(),
                    };
                    proof {
                        assert(d@.fields =~= Seq::<(Seq<char>, DocValueView)>::empty());
                    }
                    hydrate_row_document(&mut d, row, &sheet.columns, lang_rows.language);
                    docs.push(d);
                    proof {
                        assert(d@.fields =~= spec_hydrate(columns, lang, row@.fields));
                        assert(docs.deep_view() =~= pre.push(d@));
                        assert(docs.deep_view() =~= spec_upsert(pre, key, columns, lang, row@));
                    }
                },
            }
            proof {
                lemma_ingest_rows_push(
                    base,
                    key,
                    columns,
                    lang,
                    lang_rows@.rows.take(rj as int),
                    lang_rows@.rows[rj as int],
                );
                assert(lang_rows@.rows.take(rj + 1 as int) =~= lang_rows@.rows.take(
                    rj as int,
                ).push(lang_rows@.rows[rj as int]));
            }
            rj += 1;
        }
        proof {
            assert(lang_rows@.rows.take(lang_rows@.rows.len() as int) =~= lang_rows@.rows);
            lemma_ingest_langs_push(
                Seq::empty(),
                key,
                columns,
                sheet@.rows.take(li as int),
                sheet@.rows[li as int],
            );
            assert(sheet@.rows.take(li + 1 as int) =~= sheet@.rows.take(li as int).push(
                sheet@.rows[li as int],
            ));
        }
        li += 1;
    }
    proof {
        assert(sheet@.rows.take(sheet@.rows.len() as int) =~= sheet@.rows);
    }
    docs
}

/// One scoped query answered from this partition: the node resolves
/// against this partition's field directory (through the executor for
/// relation predicates), is combined with the exact-match filter on the
/// partition tag, and is evaluated over the committed documents; the hits
/// come back ranked and truncated to `limit`. A non-fatal resolution
/// error drops the scoped query (no hits); a fatal one aborts the call.
impl Index {
    pub fn search(
        &self,
        version: crate::data::VersionKey,
        sheet_key: u64,
        node: &crate::query::post::Node,
        limit: Option<u32>,
        executor: &crate::search::Executor,
        depth: u32,
    ) -> (r: Result<Vec<IndexResult>, crate::error::Error>)
        requires
            executor.provider@.well_formed(),
        ensures
            match crate::resolve::spec_index_search(
                executor.provider@.sheets,
                version,
                self@,
                sheet_key,
                node@,
                limit,
                depth as nat,
            ) {
                None => r matches Err(e) && e.spec_is_fatal(),
                Some(rs) => r matches Ok(v) && v@ == rs,
            },
        decreases depth, crate::query::post::nv_height(node@), 7int,
    {
        let resolver = crate::resolve::QueryResolver {
            version,
            schema: &self.schema,
            executor,
        };
        let resolved = match resolver.resolve(node, depth) {
            Ok(q) => q,
            Err(e) => {
                if e.is_fatal() {
                    return Err(e);
                }
                let empty: Vec<IndexResult> = Vec::new();
                proof {
                    assert(empty@ =~= Seq::<IndexResult>::empty());
                }
                return Ok(empty);
            },
        };
        let ghost rqv = rq_view(resolved);
        let mut clauses: Vec<(Occur, ResolvedQuery)> = Vec::new();
        clauses.push((Occur::Must, resolved));
        clauses.push((Occur::Must, ResolvedQuery::SheetKey(sheet_key)));
        let full = ResolvedQuery::Boolean(clauses);
        let ghost fullv = ResolvedQueryView::Boolean(
            seq![
                (Occur::Must, rqv),
                (Occur::Must, ResolvedQueryView::SheetKey(sheet_key)),
            ],
        );
        proof {
            match &full {
                ResolvedQuery::Boolean(cl) => {
                    lemma_rq_clauses_view(cl@);
                    assert(rq_clauses_view(cl@) =~= seq![
                        (Occur::Must, rqv),
                        (Occur::Must, ResolvedQueryView::SheetKey(sheet_key)),
                    ]);
                    assert(full@ == fullv);
                },
                _ => {
                    assert(false);
                },
            }
        }
        let mut hits: Vec<IndexResult> = Vec::new();
        let ghost docsv = self@.docs;
        let mut i: usize = 0;
        proof {
            assert(docsv.take(0int) =~= Seq::<DocumentView>::empty());
            assert(hits@ =~= Seq::<IndexResult>::empty());
        }
        while i < self.docs.len()
            invariant
                0 <= i <= self.docs@.len(),
                docsv == self@.docs,
                docsv.len() == self.docs@.len(),
                full@ == fullv,
                hits@ == crate::resolve::spec_eval_partition(docsv.take(i as int), fullv),
            decreases self.docs@.len() - i,
        {
            let doc = &self.docs[i];
            proof {
                assert(doc@ == docsv[i as int]);
            }
            let (matched, score) = eval_query(doc, &full);
            let ghost pre_hits = hits@;
            if matched {
                hits.push(
                    IndexResult {
                        score,
                        sheet_key: doc.sheet_key,
                        row_id: doc.row_id,
                        subrow_id: doc.subrow_id,
                    },
                );
            }
            proof {
                crate::resolve::lemma_eval_partition_push(
                    docsv.take(i as int),
                    fullv,
                    docsv[i as int],
                );
                assert(docsv.take(i + 1 as int) =~= docsv.take(i as int).push(docsv[i as int]));
                if rq_matches(docsv[i as int], fullv) {
                    assert(hits@ =~= pre_hits.push(
                        IndexResult {
                            score: cap_u64(rq_score(docsv[i as int], fullv)),
                            sheet_key: docsv[i as int].sheet_key,
                            row_id: docsv[i as int].row_id,
                            subrow_id: docsv[i as int].subrow_id,
                        },
                    ));
                    assert(hits@ =~= crate::resolve::spec_eval_partition(
                        docsv.take(i + 1 as int),
                        fullv,
                    ));
                } else {
                    assert(hits@ =~= crate::resolve::spec_eval_partition(
                        docsv.take(i + 1 as int),
                        fullv,
                    ));
                }
            }
            i += 1;
        }
        proof {
            assert(docsv.take(docsv.len() as int) =~= docsv);
        }
        let mut out = crate::rank::sort_results(hits);
        match limit {
            None => {},
            Some(n) => {
                if (n as usize) < out.len() {
                    out.truncate(n as usize);
                    proof {
                        assert(out@ =~= crate::resolve::spec_limited(
                            crate::resolve::spec_eval_partition(docsv, fullv).sort_by(
                                crate::rank::result_order(),
                            ),
                            limit,
                        ));
                    }
                } else {
                    proof {
                        let sorted = crate::resolve::spec_eval_partition(docsv, fullv).sort_by(
                            crate::rank::result_order(),
                        );
                        assert(sorted.take(sorted.len() as int) =~= sorted);
                        assert(out@ =~= crate::resolve::spec_limited(sorted, limit));
                    }
                }
            },
        }
        Ok(out)
    }
}

/// Index of the first document with the given full identity — partition
/// tag, row id and subrow id — or -1.
pub open spec fn spec_find_doc_key(
    docs: Seq<DocumentView>,
    key: u64,
    row_id: u32,
    subrow_id: u16,
) -> int
    decreases docs.len(),
{
    if docs.len() == 0 {
        -1
    } else if docs[0].sheet_key == key && docs[0].row_id == row_id && docs[0].subrow_id
        == subrow_id {
        0
    } else {
        let rest = spec_find_doc_key(docs.drop_first(), key, row_id, subrow_id);
        if rest == -1 {
            -1
        } else {
            rest + 1
        }
    }
}

/// What `spec_find_doc_key` finds: -1 exactly when no document matches,
/// and otherwise the first matching position.
pub proof fn lemma_find_doc_key_props(docs: Seq<DocumentView>, key: u64, row_id: u32, subrow_id: u16)
    ensures
        (spec_find_doc_key(docs, key, row_id, subrow_id) == -1) == (forall|k: int|
            0 <= k < docs.len() ==> !((#[trigger] docs[k]).sheet_key == key && docs[k].row_id
                == row_id && docs[k].subrow_id == subrow_id)),
        spec_find_doc_key(docs, key, row_id, subrow_id) != -1 ==> {
            let j = spec_find_doc_key(docs, key, row_id, subrow_id);
            &&& 0 <= j < docs.len()
            &&& docs[j].sheet_key == key && docs[j].row_id == row_id && docs[j].subrow_id
                == subrow_id
            &&& forall|l: int|
                0 <= l < j ==> !((#[trigger] docs[l]).sheet_key == key && docs[l].row_id == row_id
                    && docs[l].subrow_id == subrow_id)
        },
    decreases docs.len(),
{
    if docs.len() > 0 {
        lemma_find_doc_key_props(docs.drop_first(), key, row_id, subrow_id);
        assert(forall|k: int|
            1 <= k < docs.len() ==> #[trigger] docs[k] == docs.drop_first()[k - 1]);
    }
}

/// A document list whose first `j` entries miss the identity, and whose
/// entry `j` carries it, finds the identity at `j`.
pub proof fn lemma_find_doc_key_first(
    docs: Seq<DocumentView>,
    key: u64,
    row_id: u32,
    subrow_id: u16,
    j: int,
)
    requires
        0 <= j < docs.len(),
        forall|l: int|
            0 <= l < j ==> !((#[trigger] docs[l]).sheet_key == key && docs[l].row_id == row_id
                && docs[l].subrow_id == subrow_id),
        docs[j].sheet_key == key && docs[j].row_id == row_id && docs[j].subrow_id == subrow_id,
    ensures
        spec_find_doc_key(docs, key, row_id, subrow_id) == j,
    decreases j,
{
    if j > 0 {
        assert(forall|l: int|
            0 <= l < j - 1 ==> #[trigger] docs.drop_first()[l] == docs[l + 1]);
        assert(docs.drop_first()[j - 1] == docs[j]);
        lemma_find_doc_key_first(docs.drop_first(), key, row_id, subrow_id, j - 1);
    }
}

/// Finds the committed document with the given full identity.
pub fn find_doc_key(docs: &Vec<Document>, key: u64, row_id: u32, subrow_id: u16) -> (r: Option<
    usize,
>)
    ensures
        match r {
            Some(j) => 0 <= j < docs.deep_view().len() && spec_find_doc_key(
                docs.deep_view(),
                key,
                row_id,
                subrow_id,
            ) == j as int,
            None => spec_find_doc_key(docs.deep_view(), key, row_id, subrow_id) == -1,
        },
{
    let ghost dv = docs.deep_view();
    let mut i: usize = 0;
    while i < docs.len()
        invariant
            0 <= i <= dv.len(),
            dv == docs.deep_view(),
            dv.len() == docs@.len(),
            forall|k: int|
                0 <= k < i ==> !((#[trigger] dv[k]).sheet_key == key && dv[k].row_id == row_id
                    && dv[k].subrow_id == subrow_id),
        decreases dv.len() - i,
    {
        let d = &docs[i];
        if d.sheet_key == key && d.row_id == row_id && d.subrow_id == subrow_id {
            proof {
                lemma_find_doc_key_first(dv, key, row_id, subrow_id, i as int);
            }
            return Some(i);
        }
        proof {
            assert(dv[i as int] == docs@[i as int]@);
        }
        i += 1;
    }
    proof {
        lemma_find_doc_key_props(dv, key, row_id, subrow_id);
    }
    None
}

/// A field-by-field copy of a document; the copy views identically.
pub fn duplicate_document(doc: &Document) -> (r: Document)
    ensures
        r@ == doc@,
{
    let mut fields: Vec<(String, DocValue)> = Vec::new();
    let mut i: usize = 0;
    proof {
        assert(fields.deep_view() =~= doc@.fields.take(0int));
    }
    while i < doc.fields.len()
        invariant
            0 <= i <= doc.fields@.len(),
            doc@.fields.len() == doc.fields@.len(),
            fields.deep_view() == doc@.fields.take(i as int),
        decreases doc.fields@.len() - i,
    {
        let entry = &doc.fields[i];
        let value = match &entry.1 {
            DocValue::U64(v) => DocValue::U64(*v),
            DocValue::I64(v) => DocValue::I64(*v),
            DocValue::Text(s) => DocValue::Text(s.clone()),
        };
        let ghost pre = fields.deep_view();
        fields.push((entry.0.clone(), value));
        proof {
            assert(fields.deep_view() =~= pre.push(doc@.fields[i as int]));
            assert(doc@.fields.take(i + 1 as int) =~= doc@.fields.take(i as int).push(
                doc@.fields[i as int],
            ));
        }
        i += 1;
    }
    proof {
        assert(doc@.fields.take(doc@.fields.len() as int) =~= doc@.fields);
    }
    let out = Document {
        sheet_key: doc.sheet_key,
        row_id: doc.row_id,
        subrow_id: doc.subrow_id,
        fields,
    };
    out
}

/// One incoming document committed into a partition: it replaces the
/// first committed document with the same (tag, row id, subrow id), or is
/// appended when none exists. Re-ingestion therefore replaces by row
/// identity rather than accumulating duplicates.
pub open spec fn spec_doc_replace(docs: Seq<DocumentView>, d: DocumentView) -> Seq<DocumentView> {
    let j = spec_find_doc_key(docs, d.sheet_key, d.row_id, d.subrow_id);
    if j != -1 {
        docs.update(j, d)
    } else {
        docs.push(d)
    }
}

/// A list of incoming documents committed in order.
pub open spec fn spec_commit_documents(docs: Seq<DocumentView>, fresh: Seq<DocumentView>) -> Seq<
    DocumentView,
>
    decreases fresh.len(),
{
    if fresh.len() == 0 {
        docs
    } else {
        spec_commit_documents(spec_doc_replace(docs, fresh[0]), fresh.drop_first())
    }
}

pub proof fn lemma_commit_documents_push(
    docs: Seq<DocumentView>,
    fresh: Seq<DocumentView>,
    d: DocumentView,
)
    ensures
        spec_commit_documents(docs, fresh.push(d)) == spec_doc_replace(
            spec_commit_documents(docs, fresh),
            d,
        ),
    decreases fresh.len(),
{
    if fresh.len() == 0 {
        assert(fresh.push(d)[0] == d);
        assert(fresh.push(d).drop_first() =~= Seq::<DocumentView>::empty());
        assert(spec_commit_documents(docs, fresh.push(d)) == spec_commit_documents(
            spec_doc_replace(docs, d),
            Seq::<DocumentView>::empty(),
        ));
        assert(spec_commit_documents(spec_doc_replace(docs, d), Seq::<DocumentView>::empty())
            == spec_doc_replace(docs, d));
        assert(spec_commit_documents(docs, fresh) == docs);
    } else {
        assert(fresh.push(d)[0] == fresh[0]);
        assert(fresh.push(d).drop_first() =~= fresh.drop_first().push(d));
        lemma_commit_documents_push(spec_doc_replace(docs, fresh[0]), fresh.drop_first(), d);
        assert(spec_commit_documents(docs, fresh.push(d)) == spec_commit_documents(
            spec_doc_replace(docs, fresh[0]),
            fresh.drop_first().push(d),
        ));
        assert(spec_commit_documents(docs, fresh) == spec_commit_documents(
            spec_doc_replace(docs, fresh[0]),
            fresh.drop_first(),
        ));
    }
}

/// Commits a list of incoming documents into a partition's document list:
/// exactly `spec_commit_documents`.
pub fn commit_documents(target: &mut Vec<Document>, fresh: &Vec<Document>)
    ensures
        final(target).deep_view() == spec_commit_documents(
            old(target).deep_view(),
            fresh.deep_view(),
        ),
{
    let ghost fv = fresh.deep_view();
    let mut i: usize = 0;
    proof {
        assert(fv.take(0int) =~= Seq::<DocumentView>::empty());
    }
    while i < fresh.len()
        invariant
            0 <= i <= fv.len(),
            fv == fresh.deep_view(),
            fv.len() == fresh@.len(),
            target.deep_view() == spec_commit_documents(old(target).deep_view(), fv.take(i as int)),
        decreases fv.len() - i,
    {
        let d = duplicate_document(&fresh[i]);
        let ghost pre = target.deep_view();
        proof {
            assert(d@ == fv[i as int]);
        }
        match find_doc_key(target, d.sheet_key, d.row_id, d.subrow_id) {
            Some(j) => {
                let _replaced = target.remove(j);
                target.insert(j, d);
                proof {
                    assert(target.deep_view() =~= pre.remove(j as int).insert(j as int, fv[i as int]));
                    assert(pre.remove(j as int).insert(j as int, fv[i as int]) =~= pre.update(
                        j as int,
                        fv[i as int],
                    ));
                    assert(target.deep_view() =~= spec_doc_replace(pre, fv[i as int]));
                }
            },
            None => {
                target.push(d);
                proof {
                    assert(target.deep_view() =~= pre.push(fv[i as int]));
                    assert(target.deep_view() =~= spec_doc_replace(pre, fv[i as int]));
                }
            },
        }
        proof {
            lemma_commit_documents_push(old(target).deep_view(), fv.take(i as int), fv[i as int]);
            assert(fv.take(i + 1 as int) =~= fv.take(i as int).push(fv[i as int]));
        }
        i += 1;
    }
    proof {
        assert(fv.take(fv.len() as int) =~= fv);
    }
}

/// A whole ingestion batch folded into one partition: each pair's sheet
/// contributes its documents under its partition tag, each document
/// replacing any committed document with the same (tag, row id, subrow
/// id); a malformed sheet is skipped and contributes nothing.
pub open spec fn spec_index_ingest(docs: Seq<DocumentView>, batch: Seq<(u64, SheetView)>) -> Seq<
    DocumentView,
>
    decreases batch.len(),
{
    if batch.len() == 0 {
        docs
    } else {
        let fresh = if batch[0].1.well_formed() {
            spec_sheet_documents(batch[0].0, batch[0].1)
        } else {
            Seq::<DocumentView>::empty()
        };
        spec_index_ingest(spec_commit_documents(docs, fresh), batch.drop_first())
    }
}

pub proof fn lemma_index_ingest_push(
    docs: Seq<DocumentView>,
    batch: Seq<(u64, SheetView)>,
    e: (u64, SheetView),
)
    ensures
        spec_index_ingest(docs, batch.push(e)) == spec_commit_documents(
            spec_index_ingest(docs, batch),
            (if e.1.well_formed() {
                spec_sheet_documents(e.0, e.1)
            } else {
                Seq::<DocumentView>::empty()
            }),
        ),
    decreases batch.len(),
{
    let fresh_e = if e.1.well_formed() {
        spec_sheet_documents(e.0, e.1)
    } else {
        Seq::<DocumentView>::empty()
    };
    if batch.len() == 0 {
        assert(batch.push(e)[0] == e);
        assert(batch.push(e).drop_first() =~= Seq::<(u64, SheetView)>::empty());
        assert(spec_index_ingest(docs, batch.push(e)) == spec_index_ingest(
            spec_commit_documents(docs, fresh_e),
            Seq::<(u64, SheetView)>::empty(),
        ));
        assert(spec_index_ingest(
            spec_commit_documents(docs, fresh_e),
            Seq::<(u64, SheetView)>::empty(),
        ) == spec_commit_documents(docs, fresh_e));
        assert(spec_index_ingest(docs, batch) == docs);
    } else {
        assert(batch.push(e)[0] == batch[0]);
        assert(batch.push(e).drop_first() =~= batch.drop_first().push(e));
        let fresh0 = if batch[0].1.well_formed() {
            spec_sheet_documents(batch[0].0, batch[0].1)
        } else {
            Seq::<DocumentView>::empty()
        };
        lemma_index_ingest_push(spec_commit_documents(docs, fresh0), batch.drop_first(), e);
        assert(spec_index_ingest(docs, batch.push(e)) == spec_index_ingest(
            spec_commit_documents(docs, fresh0),
            batch.drop_first().push(e),
        ));
        assert(spec_index_ingest(docs, batch) == spec_index_ingest(
            spec_commit_documents(docs, fresh0),
            batch.drop_first(),
        ));
    }
}

impl Index {
    /// Bulk write: builds each sheet's documents under its partition tag
    /// and commits them all in one pass over the batch, each document
    /// replacing any committed document with the same (tag, row id,
    /// subrow id) — re-ingesting the same data leaves the document list
    /// unchanged. A sheet whose rows do not line up with its columns or
    /// languages is skipped; that is not fatal to the batch. The field
    /// directory never changes.
    pub fn ingest(&mut self, sheets: &Vec<(u64, SheetData)>) -> (r: Result<(), crate::error::Error>)
        ensures
            r is Ok,
            final(self)@.schema == old(self)@.schema,
            final(self)@.docs == spec_index_ingest(old(self)@.docs, sheets.deep_view()),
    {
        let ghost batch = sheets.deep_view();
        let mut i: usize = 0;
        proof {
            assert(batch.take(0int) =~= Seq::<(u64, SheetView)>::empty());
        }
        while i < sheets.len()
            invariant
                0 <= i <= batch.len(),
                batch == sheets.deep_view(),
                batch.len() == sheets@.len(),
                self@.schema == old(self)@.schema,
                self@.docs == spec_index_ingest(old(self)@.docs, batch.take(i as int)),
            decreases batch.len() - i,
        {
            let entry = &sheets[i];
            let ghost pre_docs = self@.docs;
            proof {
                assert(batch[i as int] == (sheets@[i as int].0, sheets@[i as int].1@));
            }
            if entry.1.check_well_formed() {
                let fresh = sheet_documents(entry.0, &entry.1);
                commit_documents(&mut self.docs, &fresh);
                proof {
                    assert(self@.docs == spec_commit_documents(
                        pre_docs,
                        spec_sheet_documents(batch[i as int].0, batch[i as int].1),
                    ));
                }
            } else {
                proof {
                    assert(spec_commit_documents(pre_docs, Seq::<DocumentView>::empty())
                        == pre_docs);
                }
            }
            proof {
                lemma_index_ingest_push(old(self)@.docs, batch.take(i as int), batch[i as int]);
                assert(batch.take(i + 1 as int) =~= batch.take(i as int).push(batch[i as int]));
            }
            i += 1;
        }
        proof {
            assert(batch.take(batch.len() as int) =~= batch);
        }
        Ok(())
    }
}

} // verus!
