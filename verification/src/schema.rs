//! Field schema derivation: the deterministic, stable convention that maps
//! a sheet's columns (and the languages it carries) to index field names.
//! Ingestion and query resolution both derive names through this module,
//! so they agree without any runtime lookup table beyond the partition's
//! own field directory.

use vstd::prelude::*;
use vstd::string::StringExecFns;

use crate::data::ColumnDefinition;
use crate::data::ColumnKind;
use crate::data::ColumnView;
use crate::data::Language;

verus! {

/// Native storage type of one index field. Text columns index their
/// strings; every boolean and unsigned column shares the unsigned-integer
/// storage; signed columns share the signed one; float columns are stored
/// as opaque wide values and no query operation is defined on them.
#[derive(PartialEq, Eq, Structural, Clone, Copy, Debug)]
pub enum FieldKind {
    U64,
    I64,
    Text,
    F64,
}

/// One entry of a partition's field directory.
#[derive(Debug)]
pub struct SchemaField {
    pub name: String,
    pub kind: FieldKind,
}

/// Mathematical image of a field directory entry.
pub struct SchemaFieldView {
    pub name: Seq<char>,
    pub kind: FieldKind,
}

impl View for SchemaField {
    type V = SchemaFieldView;

    open spec fn view(&self) -> SchemaFieldView {
        SchemaFieldView { name: self.name@, kind: self.kind }
    }
}

impl DeepView for SchemaField {
    type V = SchemaFieldView;

    open spec fn deep_view(&self) -> SchemaFieldView {
        self.view()
    }
}

/// The locale tag appended to the field names of localized columns.
pub open spec fn spec_language_suffix(l: Language) -> Seq<char> {
    match l {
        Language::Japanese => "ja"@,
        Language::English => "en"@,
        Language::German => "de"@,
        Language::French => "fr"@,
    }
}

pub fn language_suffix(l: Language) -> (r: &'static str)
    ensures
        r@ == spec_language_suffix(l),
{
    match l {
        Language::Japanese => "ja",
        Language::English => "en",
        Language::German => "de",
        Language::French => "fr",
    }
}

/// The index field holding one column's values: localized (text) columns
/// get one field per language, named `column@tag`; all other columns get
/// one field shared by every language, named like the column.
pub open spec fn spec_column_field_name(c: ColumnView, l: Language) -> Seq<char> {
    if c.kind is Text {
        c.name + "@"@ + spec_language_suffix(l)
    } else {
        c.name
    }
}

pub fn column_field_name(column: &ColumnDefinition, language: Language) -> (r: String)
    ensures
        r@ == spec_column_field_name(column@, language),
{
    match column.kind {
        ColumnKind::Text => {
            let mut name = column.name.clone();
            name.append("@");
            name.append(language_suffix(language));
            name
        },
        _ => column.name.clone(),
    }
}

/// Storage type of one column kind.
pub open spec fn spec_field_kind(k: ColumnKind) -> FieldKind {
    match k {
        ColumnKind::Text => FieldKind::Text,
        ColumnKind::Bool => FieldKind::U64,
        ColumnKind::Int8 => FieldKind::I64,
        ColumnKind::Int16 => FieldKind::I64,
        ColumnKind::Int32 => FieldKind::I64,
        ColumnKind::Int64 => FieldKind::I64,
        ColumnKind::UInt8 => FieldKind::U64,
        ColumnKind::UInt16 => FieldKind::U64,
        ColumnKind::UInt32 => FieldKind::U64,
        ColumnKind::UInt64 => FieldKind::U64,
        ColumnKind::Float32 => FieldKind::F64,
    }
}

pub fn field_kind(k: ColumnKind) -> (r: FieldKind)
    ensures
        r == spec_field_kind(k),
{
    match k {
        ColumnKind::Text => FieldKind::Text,
        ColumnKind::Bool => FieldKind::U64,
        ColumnKind::Int8 => FieldKind::I64,
        ColumnKind::Int16 => FieldKind::I64,
        ColumnKind::Int32 => FieldKind::I64,
        ColumnKind::Int64 => FieldKind::I64,
        ColumnKind::UInt8 => FieldKind::U64,
        ColumnKind::UInt16 => FieldKind::U64,
        ColumnKind::UInt32 => FieldKind::U64,
        ColumnKind::UInt64 => FieldKind::U64,
        ColumnKind::Float32 => FieldKind::F64,
    }
}

/// The field directory entries one column contributes.
pub open spec fn spec_column_fields(c: ColumnView, languages: Seq<Language>) -> Seq<SchemaFieldView> {
    if c.kind is Text {
        languages.map_values(
            |l: Language| SchemaFieldView { name: spec_column_field_name(c, l), kind: FieldKind::Text },
        )
    } else {
        seq![SchemaFieldView { name: c.name, kind: spec_field_kind(c.kind) }]
    }
}

/// The whole field directory of a partition holding documents of a sheet
/// with the given columns and languages. The administrative identity of a
/// document (partition tag, row id, subrow id) is not part of the
/// directory; documents carry it directly.
pub open spec fn spec_build_schema(columns: Seq<ColumnView>, languages: Seq<Language>) -> Seq<
    SchemaFieldView,
>
    decreases columns.len(),
{
    if columns.len() == 0 {
        Seq::empty()
    } else {
        spec_column_fields(columns[0], languages) + spec_build_schema(
            columns.drop_first(),
            languages,
        )
    }
}

/// Splitting off the last column splits the directory.
pub proof fn lemma_build_schema_drop_last(columns: Seq<ColumnView>, languages: Seq<Language>)
    requires
        columns.len() > 0,
    ensures
        spec_build_schema(columns, languages) == spec_build_schema(columns.drop_last(), languages)
            + spec_column_fields(columns.last(), languages),
    decreases columns.len(),
{
    if columns.len() == 1 {
        assert(columns.drop_last() =~= Seq::<ColumnView>::empty());
        assert(columns.drop_first() =~= Seq::<ColumnView>::empty());
        assert(spec_build_schema(columns.drop_first(), languages) =~= Seq::<
            SchemaFieldView,
        >::empty());
        assert(spec_build_schema(columns.drop_last(), languages) =~= Seq::<
            SchemaFieldView,
        >::empty());
        assert(spec_build_schema(columns, languages) =~= spec_column_fields(
            columns[0],
            languages,
        ));
    } else {
        lemma_build_schema_drop_last(columns.drop_first(), languages);
        assert(columns.drop_first().drop_last() =~= columns.drop_last().drop_first());
        assert(columns.drop_first().last() == columns.last());
        assert(spec_build_schema(columns.drop_last(), languages) == spec_column_fields(
            columns[0],
            languages,
        ) + spec_build_schema(columns.drop_last().drop_first(), languages));
        assert(spec_build_schema(columns, languages) =~= spec_build_schema(
            columns.drop_last(),
            languages,
        ) + spec_column_fields(columns.last(), languages));
    }
}

/// Builds the field directory for one sheet's columns and languages.
pub fn build_schema(columns: &Vec<ColumnDefinition>, languages: &Vec<Language>) -> (r: Vec<
    SchemaField,
>)
    ensures
        r.deep_view() == spec_build_schema(columns.deep_view(), languages@),
{
    let mut result: Vec<SchemaField> = Vec::new();
    let mut i: usize = 0;
    while i < columns.len()
        invariant
            0 <= i <= columns@.len(),
            result.deep_view() == spec_build_schema(columns.deep_view().take(i as int), languages@),
        decreases columns@.len() - i,
    {
        let column = &columns[i];
        let ghost pre = result.deep_view();
        match column.kind {
            ColumnKind::Text => {
                let mut j: usize = 0;
                while j < languages.len()
                    invariant
                        0 <= j <= languages@.len(),
                        column@ == columns.deep_view()[i as int],
                        0 <= i < columns.deep_view().len(),
                        result.deep_view() == pre + languages@.take(j as int).map_values(
                            |l: Language|
                                SchemaFieldView {
                                    name: spec_column_field_name(column@, l),
                                    kind: FieldKind::Text,
                                },
                        ),
                    decreases languages@.len() - j,
                {
                    let ghost before = result.deep_view();
                    let entry = SchemaField {
                        name: column_field_name(column, languages[j]),
                        kind: FieldKind::Text,
                    };
                    let ghost entry_view = entry@;
                    result.push(entry);
                    assert(result.deep_view() =~= before.push(entry_view));
                    assert(entry_view == SchemaFieldView {
                        name: spec_column_field_name(column@, languages@[j as int]),
                        kind: FieldKind::Text,
                    });
                    assert(languages@.take(j + 1 as int).map_values(
                        |l: Language|
                            SchemaFieldView {
                                name: spec_column_field_name(column@, l),
                                kind: FieldKind::Text,
                            },
                    ) =~= languages@.take(j as int).map_values(
                        |l: Language|
                            SchemaFieldView {
                                name: spec_column_field_name(column@, l),
                                kind: FieldKind::Text,
                            },
                    ).push(
                        SchemaFieldView {
                            name: spec_column_field_name(column@, languages@[j as int]),
                            kind: FieldKind::Text,
                        },
                    ));
                    assert(result.deep_view() =~= pre + languages@.take(j + 1 as int).map_values(
                        |l: Language|
                            SchemaFieldView {
                                name: spec_column_field_name(column@, l),
                                kind: FieldKind::Text,
                            },
                    ));
                    j += 1;
                }
                proof {
                    assert(languages@.take(languages@.len() as int) =~= languages@);
                    assert(spec_column_fields(column@, languages@) == languages@.map_values(
                        |l: Language|
                            SchemaFieldView {
                                name: spec_column_field_name(column@, l),
                                kind: FieldKind::Text,
                            },
                    ));
                }
            },
            _ => {
                let ghost before = result.deep_view();
                let entry = SchemaField { name: column.name.clone(), kind: field_kind(column.kind) };
                let ghost entry_view = entry@;
                result.push(entry);
                proof {
                    assert(result.deep_view() =~= before.push(entry_view));
                }
                proof {
                    assert(spec_column_fields(column@, languages@) =~= seq![
                        SchemaFieldView { name: column@.name, kind: spec_field_kind(column@.kind) },
                    ]);
                    assert(result.deep_view() =~= pre + spec_column_fields(column@, languages@));
                }
            },
        }
        proof {
            lemma_build_schema_drop_last(columns.deep_view().take(i + 1 as int), languages@);
            assert(columns.deep_view().take(i + 1 as int).drop_last() =~= columns.deep_view().take(
                i as int,
            ));
            assert(columns.deep_view().take(i + 1 as int).last() == columns.deep_view()[i as int]);
            assert(result.deep_view() =~= spec_build_schema(
                columns.deep_view().take(i + 1 as int),
                languages@,
            ));
        }
        i += 1;
    }
    proof {
        assert(columns.deep_view().take(columns.deep_view().len() as int) =~= columns.deep_view());
    }
    result
}

/// First schema entry with the given name, if any.
pub open spec fn spec_schema_lookup(schema: Seq<SchemaFieldView>, name: Seq<char>) -> Option<
    FieldKind,
>
    decreases schema.len(),
{
    if schema.len() == 0 {
        None
    } else if schema[0].name == name {
        Some(schema[0].kind)
    } else {
        spec_schema_lookup(schema.drop_first(), name)
    }
}

/// Looks a field up in a partition's directory by name; returns the first
/// match, as `spec_schema_lookup` does.
pub fn schema_lookup(schema: &Vec<SchemaField>, name: &String) -> (r: Option<FieldKind>)
    ensures
        r == spec_schema_lookup(schema.deep_view(), name@),
{
    let mut i: usize = 0;
    proof {
        assert(schema.deep_view().skip(0) =~= schema.deep_view());
    }
    while i < schema.len()
        invariant
            0 <= i <= schema@.len(),
            spec_schema_lookup(schema.deep_view(), name@) == spec_schema_lookup(
                schema.deep_view().skip(i as int),
                name@,
            ),
        decreases schema@.len() - i,
    {
        if schema[i].name == *name {
            assert(schema.deep_view().skip(i as int)[0] == schema.deep_view()[i as int]);
            return Some(schema[i].kind);
        }
        proof {
            assert(schema.deep_view().skip(i as int)[0] == schema.deep_view()[i as int]);
            assert(schema.deep_view().skip(i as int).drop_first() =~= schema.deep_view().skip(
                i + 1 as int,
            ));
        }
        i += 1;
    }
    proof {
        assert(schema.deep_view().skip(schema@.len() as int) =~= Seq::<SchemaFieldView>::empty());
    }
    None
}

} // verus!
