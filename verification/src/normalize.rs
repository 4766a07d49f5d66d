//! Translates a user-supplied, field-name-based pre-query into a
//! post-query bound to one concrete sheet's column set and one display
//! language. Pure: it reads the data source's sheet list and nothing
//! else. A reference to a field or sheet that does not exist, or to a
//! language a localized column does not carry, drops the sheet
//! non-fatally.

use vstd::prelude::*;
use vstd::string::StringExecFns;

use crate::data::ColumnDefinition;
use crate::data::ColumnView;
use crate::data::Language;
use crate::data::SheetData;
use crate::data::SheetView;
use crate::error::Error;
use crate::error::SchemaMismatchError;
use crate::query::post;
use crate::query::pre;
use crate::query::pre::lemma_pnv_clause_height;
use crate::query::pre::pnv_clauses_height;
use crate::query::pre::pnv_op_height;
use crate::query::pre::pnv_height;
use crate::query::Occur;

verus! {

/// Outcome of normalizing one node against one sheet: the grounded node,
/// or a non-fatal drop carrying the name it failed on — the unknown sheet,
/// the unknown field, or the field whose language the sheet does not
/// carry.
pub enum Normalization {
    Normalized(post::NodeView),
    Dropped(Seq<char>),
}

pub enum NormalizationClauses {
    Normalized(Seq<(Occur, post::NodeView)>),
    Dropped(Seq<char>),
}

/// Index of the first sheet with the given name, or -1.
pub open spec fn spec_find_sheet_data(sheets: Seq<SheetView>, name: Seq<char>) -> int
    decreases sheets.len(),
{
    if sheets.len() == 0 {
        -1
    } else if sheets[0].name == name {
        0
    } else {
        let rest = spec_find_sheet_data(sheets.drop_first(), name);
        if rest == -1 {
            -1
        } else {
            rest + 1
        }
    }
}

pub proof fn lemma_find_sheet_data_skip(sheets: Seq<SheetView>, name: Seq<char>, i: int)
    requires
        0 <= i <= sheets.len(),
        forall|k: int| 0 <= k < i ==> (#[trigger] sheets[k]).name != name,
    ensures
        spec_find_sheet_data(sheets, name) == {
            let rest = spec_find_sheet_data(sheets.skip(i), name);
            if rest == -1 {
                -1
            } else {
                rest + i
            }
        },
        spec_find_sheet_data(sheets, name) != -1 ==> 0 <= spec_find_sheet_data(sheets, name)
            < sheets.len() && sheets[spec_find_sheet_data(sheets, name)].name == name,
    decreases i, sheets.len(),
{
    if i == 0 {
        assert(sheets.skip(0) =~= sheets);
        if sheets.len() > 0 && !(sheets[0].name == name) {
            lemma_find_sheet_data_skip(sheets.drop_first(), name, 0);
            assert(forall|k: int|
                1 <= k < sheets.len() ==> #[trigger] sheets[k] == sheets.drop_first()[k - 1]);
        }
    } else {
        assert(sheets.skip(1) =~= sheets.drop_first());
        assert(forall|k: int|
            0 <= k < i - 1 ==> #[trigger] sheets.drop_first()[k] == sheets[k + 1]);
        lemma_find_sheet_data_skip(sheets.drop_first(), name, i - 1);
        assert(sheets.drop_first().skip(i - 1) =~= sheets.skip(i));
        let rest_all = spec_find_sheet_data(sheets.skip(i), name);
        lemma_find_sheet_data_skip(sheets.skip(i), name, 0);
        assert(rest_all != -1 ==> rest_all >= 0);
        assert(sheets.len() > 0 && sheets[0].name != name);
    }
}

/// Finds the sheet with the given name in the data source's list.
pub fn find_sheet_data<'a>(sheets: &'a Vec<SheetData>, name: &String) -> (r: Option<&'a SheetData>)
    ensures
        match r {
            Some(sheet) => {
                let si = spec_find_sheet_data(sheets.deep_view(), name@);
                &&& si != -1
                &&& 0 <= si < sheets.deep_view().len()
                &&& sheet@ == sheets.deep_view()[si]
            },
            None => spec_find_sheet_data(sheets.deep_view(), name@) == -1,
        },
{
    let ghost sv = sheets.deep_view();
    let mut i: usize = 0;
    while i < sheets.len()
        invariant
            0 <= i <= sv.len(),
            sv == sheets.deep_view(),
            sv.len() == sheets@.len(),
            forall|k: int| 0 <= k < i ==> (#[trigger] sv[k]).name != name@,
        decreases sv.len() - i,
    {
        if sheets[i].name == *name {
            proof {
                lemma_find_sheet_data_skip(sv, name@, i as int);
                assert(sv.skip(i as int)[0] == sv[i as int]);
                assert(spec_find_sheet_data(sv.skip(i as int), name@) == 0);
            }
            return Some(&sheets[i]);
        }
        proof {
            assert(sv[i as int].name == sheets@[i as int].name@);
        }
        i += 1;
    }
    proof {
        lemma_find_sheet_data_skip(sv, name@, sv.len() as int);
        assert(sv.skip(sv.len() as int) =~= Seq::<SheetView>::empty());
    }
    None
}

/// Index of the first column with the given name, or -1.
pub open spec fn spec_find_column(columns: Seq<ColumnView>, name: Seq<char>) -> int
    decreases columns.len(),
{
    if columns.len() == 0 {
        -1
    } else if columns[0].name == name {
        0
    } else {
        let rest = spec_find_column(columns.drop_first(), name);
        if rest == -1 {
            -1
        } else {
            rest + 1
        }
    }
}

pub proof fn lemma_find_column_skip(columns: Seq<ColumnView>, name: Seq<char>, i: int)
    requires
        0 <= i <= columns.len(),
        forall|k: int| 0 <= k < i ==> (#[trigger] columns[k]).name != name,
    ensures
        spec_find_column(columns, name) == {
            let rest = spec_find_column(columns.skip(i), name);
            if rest == -1 {
                -1
            } else {
                rest + i
            }
        },
        spec_find_column(columns, name) != -1 ==> 0 <= spec_find_column(columns, name)
            < columns.len() && columns[spec_find_column(columns, name)].name == name,
    decreases i, columns.len(),
{
    if i == 0 {
        assert(columns.skip(0) =~= columns);
        if columns.len() > 0 && !(columns[0].name == name) {
            lemma_find_column_skip(columns.drop_first(), name, 0);
            assert(forall|k: int|
                1 <= k < columns.len() ==> #[trigger] columns[k] == columns.drop_first()[k - 1]);
        }
    } else {
        assert(columns.skip(1) =~= columns.drop_first());
        assert(forall|k: int|
            0 <= k < i - 1 ==> #[trigger] columns.drop_first()[k] == columns[k + 1]);
        lemma_find_column_skip(columns.drop_first(), name, i - 1);
        assert(columns.drop_first().skip(i - 1) =~= columns.skip(i));
        let rest_all = spec_find_column(columns.skip(i), name);
        lemma_find_column_skip(columns.skip(i), name, 0);
        assert(rest_all != -1 ==> rest_all >= 0);
        assert(columns.len() > 0 && columns[0].name != name);
    }
}

/// Finds the column with the given name.
pub fn find_column<'a>(columns: &'a Vec<ColumnDefinition>, name: &String) -> (r: Option<
    &'a ColumnDefinition,
>)
    ensures
        match r {
            Some(column) => {
                let ci = spec_find_column(columns.deep_view(), name@);
                &&& ci != -1
                &&& 0 <= ci < columns.deep_view().len()
                &&& column@ == columns.deep_view()[ci]
            },
            None => spec_find_column(columns.deep_view(), name@) == -1,
        },
{
    let ghost cv = columns.deep_view();
    let mut i: usize = 0;
    while i < columns.len()
        invariant
            0 <= i <= cv.len(),
            cv == columns.deep_view(),
            cv.len() == columns@.len(),
            forall|k: int| 0 <= k < i ==> (#[trigger] cv[k]).name != name@,
        decreases cv.len() - i,
    {
        if columns[i].name == *name {
            proof {
                lemma_find_column_skip(cv, name@, i as int);
                assert(cv.skip(i as int)[0] == cv[i as int]);
                assert(spec_find_column(cv.skip(i as int), name@) == 0);
            }
            return Some(&columns[i]);
        }
        proof {
            assert(cv[i as int].name == columns@[i as int].name@);
        }
        i += 1;
    }
    proof {
        lemma_find_column_skip(cv, name@, cv.len() as int);
        assert(cv.skip(cv.len() as int) =~= Seq::<ColumnView>::empty());
    }
    None
}

/// Normalizes one node against the named sheet: every leaf's field name
/// must resolve to a column of that sheet, its effective language (the
/// leaf's override or the given default) must be carried by the sheet for
/// localized columns, and relation targets are normalized recursively
/// against their own sheet.
pub open spec fn spec_normalize(
    sheets: Seq<SheetView>,
    node: pre::NodeView,
    sheet_name: Seq<char>,
    language: Language,
) -> Normalization
    decreases node, 1int,
{
    let si = spec_find_sheet_data(sheets, sheet_name);
    if si == -1 {
        Normalization::Dropped(sheet_name)
    } else {
        let sheet = sheets[si];
        match node {
            pre::NodeView::Group(clauses) => match spec_normalize_clauses(
                sheets,
                clauses,
                sheet_name,
                language,
            ) {
                NormalizationClauses::Normalized(cs) => Normalization::Normalized(
                    post::NodeView::Group(cs),
                ),
                NormalizationClauses::Dropped(f) => Normalization::Dropped(f),
            },
            pre::NodeView::Leaf(leaf) => {
                let ci = spec_find_column(sheet.columns, leaf.field_name);
                if ci == -1 {
                    Normalization::Dropped(leaf.field_name)
                } else {
                    let column = sheet.columns[ci];
                    let lang = match leaf.language {
                        Some(l) => l,
                        None => language,
                    };
                    if column.kind is Text && !sheet.languages.contains(lang) {
                        Normalization::Dropped(leaf.field_name)
                    } else {
                        match leaf.operation {
                            pre::OperationView::Equal(v) => Normalization::Normalized(
                                post::NodeView::Leaf(
                                    post::LeafView {
                                        column,
                                        language: lang,
                                        operation: post::OperationView::Equal(v),
                                    },
                                ),
                            ),
                            pre::OperationView::Relation(rel) => match spec_normalize(
                                sheets,
                                *rel.query,
                                rel.sheet,
                                language,
                            ) {
                                Normalization::Dropped(f) => Normalization::Dropped(f),
                                Normalization::Normalized(inner) => match rel.condition {
                                    None => Normalization::Normalized(
                                        post::NodeView::Leaf(
                                            post::LeafView {
                                                column,
                                                language: lang,
                                                operation: post::OperationView::Relation(
                                                    post::RelationView {
                                                        sheet: rel.sheet,
                                                        query: Box::new(inner),
                                                        condition: None,
                                                    },
                                                ),
                                            },
                                        ),
                                    ),
                                    Some(c) => match spec_normalize(sheets, *c, rel.sheet, language) {
                                        Normalization::Dropped(f) => Normalization::Dropped(f),
                                        Normalization::Normalized(cn) => Normalization::Normalized(
                                            post::NodeView::Leaf(
                                                post::LeafView {
                                                    column,
                                                    language: lang,
                                                    operation: post::OperationView::Relation(
                                                        post::RelationView {
                                                            sheet: rel.sheet,
                                                            query: Box::new(inner),
                                                            condition: Some(Box::new(cn)),
                                                        },
                                                    ),
                                                },
                                            ),
                                        ),
                                    },
                                },
                            },
                        }
                    }
                }
            },
        }
    }
}

/// Clauses normalize in order; the first dropped clause drops the group.
pub open spec fn spec_normalize_clauses(
    sheets: Seq<SheetView>,
    clauses: Seq<(Occur, pre::NodeView)>,
    sheet_name: Seq<char>,
    language: Language,
) -> NormalizationClauses
    decreases clauses, 0int,
{
    if clauses.len() == 0 {
        NormalizationClauses::Normalized(Seq::empty())
    } else {
        match spec_normalize(sheets, clauses[0].1, sheet_name, language) {
            Normalization::Normalized(n) => match spec_normalize_clauses(
                sheets,
                clauses.drop_first(),
                sheet_name,
                language,
            ) {
                NormalizationClauses::Normalized(rest) => NormalizationClauses::Normalized(
                    seq![(clauses[0].0, n)] + rest,
                ),
                NormalizationClauses::Dropped(f) => NormalizationClauses::Dropped(f),
            },
            Normalization::Dropped(f) => NormalizationClauses::Dropped(f),
        }
    }
}

/// Translates pre-queries against one version's sheet list.
pub struct Normalizer<'a> {
    pub sheets: &'a Vec<SheetData>,
}

impl Normalizer<'_> {
    /// Grounds `query` to the named sheet: exactly `spec_normalize`, with
    /// a non-fatal schema-mismatch error where the specification drops.
    pub fn normalize(&self, query: &pre::Node, sheet: &String, language: Language) -> (r: Result<
        post::Node,
        Error,
    >)
        ensures
            match spec_normalize(self.sheets.deep_view(), query@, sheet@, language) {
                Normalization::Normalized(n) => r matches Ok(node) && node@ == n,
                Normalization::Dropped(f) => r matches Err(
                    crate::error::Error::SchemaMismatch(d),
                ) && d.field@ == f,
            },
        decreases pnv_height(query@), 1int,
    {
        let ghost sv = self.sheets.deep_view();
        let sheet_data = match find_sheet_data(self.sheets, sheet) {
            Some(s) => s,
            None => {
                return Err(
                    Error::SchemaMismatch(
                        SchemaMismatchError {
                            field: sheet.clone(),
                            reason: String::from_str("sheet does not exist"),
                        },
                    ),
                );
            },
        };
        let ghost si = spec_find_sheet_data(sv, sheet@);
        match query {
            pre::Node::Group(group) => {
                proof {
                    assert(query@ == pre::NodeView::Group(pre::clauses_view(group.clauses@)));
                    pre::lemma_clauses_view(group.clauses@);
                }
                let ghost cv = pre::clauses_view(group.clauses@);
                let mut clauses: Vec<(Occur, post::Node)> = Vec::new();
                let mut i: usize = 0;
                proof {
                    assert(cv.skip(0) =~= cv);
                    assert(post::clauses_view(clauses@) =~= Seq::<(
                        Occur,
                        post::NodeView,
                    )>::empty());
                }
                while i < group.clauses.len()
                    invariant
                        0 <= i <= group.clauses@.len(),
                        sv == self.sheets.deep_view(),
                        query@ == pre::NodeView::Group(cv),
                        spec_find_sheet_data(sv, sheet@) != -1,
                        cv == pre::clauses_view(group.clauses@),
                        cv.len() == group.clauses@.len(),
                        forall|k: int|
                            0 <= k < group.clauses@.len() ==> #[trigger] cv[k] == (
                            group.clauses@[k].0,
                            pre::node_view(group.clauses@[k].1),
                            ),
                        spec_normalize_clauses(sv, cv, sheet@, language) == (
                        match spec_normalize_clauses(sv, cv.skip(i as int), sheet@, language) {
                            NormalizationClauses::Normalized(rest) => NormalizationClauses::Normalized(
                                post::clauses_view(clauses@) + rest,
                            ),
                            NormalizationClauses::Dropped(f) => NormalizationClauses::Dropped(f),
                        }),
                    decreases group.clauses@.len() - i,
                {
                    let clause = &group.clauses[i];
                    proof {
                        lemma_pnv_clause_height(cv, i as int);
                        assert(cv.skip(i as int)[0] == cv[i as int]);
                        assert(cv.skip(i as int).drop_first() =~= cv.skip(i + 1 as int));
                        assert(pnv_height(query@) == 1 + pnv_clauses_height(cv));
                        assert(pnv_height(cv[i as int].1) < pnv_height(query@));
                    }
                    let normalized = match self.normalize(&clause.1, sheet, language) {
                        Ok(n) => n,
                        Err(e) => {
                            proof {
                                assert(spec_normalize(sv, cv[i as int].1, sheet@, language)
                                    is Dropped);
                                assert(spec_normalize_clauses(sv, cv.skip(i as int), sheet@, language)
                                    is Dropped);
                                assert(spec_normalize_clauses(sv, cv, sheet@, language)
                                    matches NormalizationClauses::Dropped(f) && spec_normalize(
                                    sv,
                                    query@,
                                    sheet@,
                                    language,
                                ) == Normalization::Dropped(f));
                            }
                            return Err(e);
                        },
                    };
                    let occur = clause.0;
                    let ghost pre_cl = clauses@;
                    clauses.push((occur, normalized));
                    proof {
                        assert(clauses@ =~= pre_cl.push((occur, normalized)));
                        post::lemma_clauses_view(clauses@);
                        post::lemma_clauses_view(pre_cl);
                        assert(post::clauses_view(clauses@) =~= post::clauses_view(pre_cl).push(
                            (occur, post::node_view(normalized)),
                        ));
                        assert forall|rest: Seq<(Occur, post::NodeView)>|
                            true implies post::clauses_view(pre_cl) + (seq![
                            (occur, post::node_view(normalized)),
                        ] + rest) =~= post::clauses_view(clauses@) + rest by {}
                        assert(cv[i as int].0 == occur);
                        assert(spec_normalize(sv, cv[i as int].1, sheet@, language)
                            == Normalization::Normalized(post::node_view(normalized)));
                        assert(spec_normalize_clauses(sv, cv.skip(i as int), sheet@, language) == (
                        match spec_normalize_clauses(sv, cv.skip(i + 1 as int), sheet@, language) {
                            NormalizationClauses::Normalized(rest) => NormalizationClauses::Normalized(
                                seq![(occur, post::node_view(normalized))] + rest,
                            ),
                            NormalizationClauses::Dropped(f) => NormalizationClauses::Dropped(f),
                        }));
                    }
                    i += 1;
                }
                proof {
                    assert(cv.skip(cv.len() as int) =~= Seq::<(Occur, pre::NodeView)>::empty());
                    assert(spec_normalize_clauses(
                        sv,
                        Seq::<(Occur, pre::NodeView)>::empty(),
                        sheet@,
                        language,
                    ) == NormalizationClauses::Normalized(Seq::<(Occur, post::NodeView)>::empty()));
                    assert(post::clauses_view(clauses@) + Seq::<(Occur, post::NodeView)>::empty()
                        =~= post::clauses_view(clauses@));
                    assert(spec_normalize_clauses(sv, cv, sheet@, language)
                        == NormalizationClauses::Normalized(post::clauses_view(clauses@)));
                }
                let out = post::Node::Group(post::Group { clauses });
                proof {
                    assert(out@ == post::NodeView::Group(post::clauses_view(clauses@)));
                    assert(spec_normalize(sv, query@, sheet@, language)
                        == Normalization::Normalized(out@));
                }
                Ok(out)
            },
            pre::Node::Leaf(leaf) => {
                let ghost lv = pre::leaf_view(*leaf);
                proof {
                    assert(query@ == pre::NodeView::Leaf(lv));
                    assert(sheet_data@ == sv[si]);
                    assert(sheet_data.columns.deep_view() == sv[si].columns);
                    assert(lv.field_name == leaf.field.name@);
                }
                let column = match find_column(&sheet_data.columns, &leaf.field.name) {
                    Some(c) => c,
                    None => {
                        proof {
                            assert(spec_find_column(sv[si].columns, lv.field_name) == -1);
                            assert(spec_normalize(sv, query@, sheet@, language)
                                is Dropped);
                        }
                        return Err(
                            Error::SchemaMismatch(
                                SchemaMismatchError {
                                    field: leaf.field.name.clone(),
                                    reason: String::from_str(
                                        "field does not exist on the target sheet",
                                    ),
                                },
                            ),
                        );
                    },
                };
                let ghost ci = spec_find_column(sv[si].columns, lv.field_name);
                proof {
                    assert(column@ == sv[si].columns[ci]);
                    assert(lv.language == leaf.field.language);
                }
                let lang = match leaf.field.language {
                    Some(l) => l,
                    None => language,
                };
                let localized = matches!(column.kind, crate::data::ColumnKind::Text);
                if localized && !language_supported(&sheet_data.languages, lang) {
                    proof {
                        assert(sheet_data@.languages == sv[si].languages);
                        assert(spec_normalize(sv, query@, sheet@, language)
                            == Normalization::Dropped(lv.field_name));
                    }
                    return Err(
                        Error::SchemaMismatch(
                            SchemaMismatchError {
                                field: leaf.field.name.clone(),
                                reason: String::from_str(
                                    "language is not carried by the target sheet",
                                ),
                            },
                        ),
                    );
                }
                proof {
                    assert(sheet_data@.languages == sv[si].languages);
                    assert(!(sv[si].columns[ci].kind is Text && !sv[si].languages.contains(lang)));
                }
                match &leaf.operation {
                    pre::Operation::Equal(v) => {
                        proof {
                            assert(lv.operation == pre::OperationView::Equal(*v));
                        }
                        let out = post::Node::Leaf(
                            post::Leaf {
                                field: post::FieldReference { column: column.duplicate(), language: lang },
                                operation: post::Operation::Equal(*v),
                            },
                        );
                        proof {
                            assert(out@ == post::NodeView::Leaf(
                                post::LeafView {
                                    column: sv[si].columns[ci],
                                    language: lang,
                                    operation: post::OperationView::Equal(*v),
                                },
                            ));
                            assert(spec_normalize(sv, query@, sheet@, language)
                                == Normalization::Normalized(out@));
                        }
                        Ok(out)
                    },
                    pre::Operation::Relation(relation) => {
                        let ghost relv = pre::relation_view(*relation);
                        proof {
                            assert(lv.operation == pre::OperationView::Relation(relv));
                            assert(pnv_height(query@) == 1 + pnv_op_height(lv.operation));
                            assert(pnv_op_height(lv.operation) >= 1 + pnv_height(*relv.query));
                            assert(*relv.query == pre::node_view(*relation.target.query));
                            assert(relv.sheet == relation.target.sheet@);
                        }
                        let inner = match self.normalize(
                            &relation.target.query,
                            &relation.target.sheet,
                            language,
                        ) {
                            Ok(n) => n,
                            Err(e) => {
                                proof {
                                    assert(spec_normalize(sv, *relv.query, relv.sheet, language)
                                        matches Normalization::Dropped(f) && spec_normalize(
                                        sv,
                                        query@,
                                        sheet@,
                                        language,
                                    ) == Normalization::Dropped(f));
                                }
                                return Err(e);
                            },
                        };
                        let ghost innerv = post::node_view(inner);
                        let condition: Option<Box<post::Node>> = match &relation.target.condition {
                            None => None,
                            Some(c) => {
                                proof {
                                    assert(relv.condition == Some(
                                        Box::new(pre::node_view(**c)),
                                    ));
                                    assert(pnv_op_height(lv.operation) == 1 + pnv_height(
                                        *relv.query,
                                    ) + pnv_height(pre::node_view(**c)));
                                }
                                match self.normalize(c, &relation.target.sheet, language) {
                                    Ok(n) => Some(Box::new(n)),
                                    Err(e) => {
                                        proof {
                                            assert(spec_normalize(
                                                sv,
                                                pre::node_view(**c),
                                                relv.sheet,
                                                language,
                                            ) matches Normalization::Dropped(f) && spec_normalize(
                                                sv,
                                                query@,
                                                sheet@,
                                                language,
                                            ) == Normalization::Dropped(f));
                                        }
                                        return Err(e);
                                    },
                                }
                            },
                        };
                        let ghost condv: Option<Box<post::NodeView>> = match &condition {
                            None => None,
                            Some(c) => Some(Box::new(post::node_view(**c))),
                        };
                        let new_relation = post::Relation {
                            target: post::RelationTarget {
                                sheet: relation.target.sheet.clone(),
                                query: Box::new(inner),
                                condition,
                            },
                        };
                        let ghost new_relv = post::relation_view(new_relation);
                        proof {
                            assert(new_relv.sheet == relv.sheet);
                            assert(new_relv.query == Box::new(innerv));
                            assert(new_relv.condition == condv);
                        }
                        let out = post::Node::Leaf(
                            post::Leaf {
                                field: post::FieldReference { column: column.duplicate(), language: lang },
                                operation: post::Operation::Relation(new_relation),
                            },
                        );
                        proof {
                            assert(out@ == post::NodeView::Leaf(
                                post::LeafView {
                                    column: sv[si].columns[ci],
                                    language: lang,
                                    operation: post::OperationView::Relation(new_relv),
                                },
                            ));
                            assert(new_relv == post::RelationView {
                                sheet: relv.sheet,
                                query: Box::new(innerv),
                                condition: condv,
                            });
                            assert(spec_normalize(sv, query@, sheet@, language)
                                == Normalization::Normalized(out@));
                        }
                        Ok(out)
                    },
                }
            },
        }
    }
}

/// Whether the sheet carries the given language.
pub fn language_supported(languages: &Vec<Language>, lang: Language) -> (r: bool)
    ensures
        r == languages@.contains(lang),
{
    let mut i: usize = 0;
    while i < languages.len()
        invariant
            0 <= i <= languages@.len(),
            forall|k: int| 0 <= k < i ==> languages@[k] != lang,
        decreases languages@.len() - i,
    {
        if languages[i] == lang {
            return true;
        }
        i += 1;
    }
    false
}

} // verus!
