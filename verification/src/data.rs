use vstd::prelude::*;

verus! {

/// Identifier of one immutable snapshot of the entire dataset. Created by
/// the version-discovery subsystem, never mutated, referenced by every
/// document and every query.
#[derive(PartialEq, Eq, Structural, Clone, Copy, Debug, Hash)]
pub struct VersionKey(pub u32);

impl DeepView for VersionKey {
    type V = VersionKey;

    open spec fn deep_view(&self) -> VersionKey {
        *self
    }
}

/// Enumerated locale tag. A sheet may carry parallel per-language values
/// for its text-bearing columns.
#[derive(PartialEq, Eq, Structural, Clone, Copy, Debug, Hash)]
pub enum Language {
    Japanese,
    English,
    German,
    French,
}

/// The type of one sheet column.
#[derive(PartialEq, Eq, Structural, Clone, Copy, Debug)]
pub enum ColumnKind {
    Text,
    Bool,
    Int8,
    Int16,
    Int32,
    Int64,
    UInt8,
    UInt16,
    UInt32,
    UInt64,
    Float32,
}

/// Typed column descriptor belonging to a sheet. Text columns are
/// localized: they carry one value per language the sheet supports.
#[derive(Debug)]
pub struct ColumnDefinition {
    pub name: String,
    pub kind: ColumnKind,
}

/// Mathematical image of a column definition.
pub struct ColumnView {
    pub name: Seq<char>,
    pub kind: ColumnKind,
}

impl View for ColumnDefinition {
    type V = ColumnView;

    open spec fn view(&self) -> ColumnView {
        ColumnView { name: self.name@, kind: self.kind }
    }
}

impl DeepView for ColumnDefinition {
    type V = ColumnView;

    open spec fn deep_view(&self) -> ColumnView {
        self.view()
    }
}

impl ColumnDefinition {
    /// A field-by-field copy whose view equals the source column.
    pub fn duplicate(&self) -> (r: ColumnDefinition)
        ensures
            r@ == self@,
    {
        ColumnDefinition { name: self.name.clone(), kind: self.kind }
    }
}

/// One cell value as read from the data source. Float values are carried
/// as their raw bit pattern: the index stores them opaquely and no query
/// operation is defined on them.
#[derive(Debug)]
pub enum FieldValue {
    Text(String),
    Bool(bool),
    I8(i8),
    I16(i16),
    I32(i32),
    I64(i64),
    U8(u8),
    U16(u16),
    U32(u32),
    U64(u64),
    F32Bits(u32),
}

/// Mathematical image of a cell value.
pub enum FieldValueView {
    Text(Seq<char>),
    Bool(bool),
    I8(i8),
    I16(i16),
    I32(i32),
    I64(i64),
    U8(u8),
    U16(u16),
    U32(u32),
    U64(u64),
    F32Bits(u32),
}

impl View for FieldValue {
    type V = FieldValueView;

    open spec fn view(&self) -> FieldValueView {
        match self {
            FieldValue::Text(s) => FieldValueView::Text(s@),
            FieldValue::Bool(b) => FieldValueView::Bool(*b),
            FieldValue::I8(v) => FieldValueView::I8(*v),
            FieldValue::I16(v) => FieldValueView::I16(*v),
            FieldValue::I32(v) => FieldValueView::I32(*v),
            FieldValue::I64(v) => FieldValueView::I64(*v),
            FieldValue::U8(v) => FieldValueView::U8(*v),
            FieldValue::U16(v) => FieldValueView::U16(*v),
            FieldValue::U32(v) => FieldValueView::U32(*v),
            FieldValue::U64(v) => FieldValueView::U64(*v),
            FieldValue::F32Bits(v) => FieldValueView::F32Bits(*v),
        }
    }
}

impl DeepView for FieldValue {
    type V = FieldValueView;

    open spec fn deep_view(&self) -> FieldValueView {
        self.view()
    }
}

/// One row of a sheet in one language. `fields` is aligned with the
/// sheet's column list. `(row_id, subrow_id)` identifies the row within
/// one sheet and version; subrows model 1-to-many variants of a primary
/// row.
#[derive(Debug)]
pub struct RowData {
    pub row_id: u32,
    pub subrow_id: u16,
    pub fields: Vec<FieldValue>,
}

/// Mathematical image of a row.
pub struct RowView {
    pub row_id: u32,
    pub subrow_id: u16,
    pub fields: Seq<FieldValueView>,
}

impl View for RowData {
    type V = RowView;

    open spec fn view(&self) -> RowView {
        RowView { row_id: self.row_id, subrow_id: self.subrow_id, fields: self.fields.deep_view() }
    }
}

impl DeepView for RowData {
    type V = RowView;

    open spec fn deep_view(&self) -> RowView {
        self.view()
    }
}

/// All rows of a sheet for one language.
#[derive(Debug)]
pub struct LanguageRows {
    pub language: Language,
    pub rows: Vec<RowData>,
}

/// Mathematical image of one language's row list.
pub struct LanguageRowsView {
    pub language: Language,
    pub rows: Seq<RowView>,
}

impl View for LanguageRows {
    type V = LanguageRowsView;

    open spec fn view(&self) -> LanguageRowsView {
        LanguageRowsView { language: self.language, rows: self.rows.deep_view() }
    }
}

impl DeepView for LanguageRows {
    type V = LanguageRowsView;

    open spec fn deep_view(&self) -> LanguageRowsView {
        self.view()
    }
}

/// One logical table as handed over by the data source: its column
/// definitions, the languages it supports, and its rows per language.
#[derive(Debug)]
pub struct SheetData {
    pub name: String,
    pub columns: Vec<ColumnDefinition>,
    pub languages: Vec<Language>,
    pub rows: Vec<LanguageRows>,
}

/// Mathematical image of a sheet.
pub struct SheetView {
    pub name: Seq<char>,
    pub columns: Seq<ColumnView>,
    pub languages: Seq<Language>,
    pub rows: Seq<LanguageRowsView>,
}

impl View for SheetData {
    type V = SheetView;

    open spec fn view(&self) -> SheetView {
        SheetView {
            name: self.name@,
            columns: self.columns.deep_view(),
            languages: self.languages@,
            rows: self.rows.deep_view(),
        }
    }
}

impl DeepView for SheetData {
    type V = SheetView;

    open spec fn deep_view(&self) -> SheetView {
        self.view()
    }
}

impl SheetView {
    /// A sheet is well formed when its row lists line up with its declared
    /// languages and every row carries one value per column.
    pub open spec fn well_formed(&self) -> bool {
        &&& self.rows.len() == self.languages.len()
        &&& forall|i: int|
            0 <= i < self.rows.len() ==> (#[trigger] self.rows[i]).language == self.languages[i]
        &&& forall|i: int, j: int|
            0 <= i < self.rows.len() && 0 <= j < self.rows[i].rows.len() ==> (
            #[trigger] self.rows[i].rows[j]).fields.len() == self.columns.len()
    }
}

impl SheetData {
    /// Runtime check of `SheetView::well_formed`: ingestion skips sheets
    /// whose rows do not line up with their declared columns or languages.
    pub fn check_well_formed(&self) -> (r: bool)
        ensures
            r == self@.well_formed(),
    {
        if self.rows.len() != self.languages.len() {
            return false;
        }
        let mut i: usize = 0;
        while i < self.rows.len()
            invariant
                0 <= i <= self.rows@.len(),
                self.rows@.len() == self.languages@.len(),
                forall|k: int|
                    0 <= k < i ==> (#[trigger] self@.rows[k]).language == self@.languages[k],
                forall|k: int, j: int|
                    0 <= k < i && 0 <= j < self@.rows[k].rows.len() ==> (
                    #[trigger] self@.rows[k].rows[j]).fields.len() == self@.columns.len(),
            decreases self.rows@.len() - i,
        {
            let lang_rows = &self.rows[i];
            if !(lang_rows.language == self.languages[i]) {
                proof {
                    assert(self@.rows[i as int].language != self@.languages[i as int]);
                }
                return false;
            }
            let mut j: usize = 0;
            while j < lang_rows.rows.len()
                invariant
                    0 <= j <= lang_rows.rows@.len(),
                    lang_rows@ == self@.rows[i as int],
                    0 <= i < self@.rows.len(),
                    forall|l: int|
                        0 <= l < j ==> (#[trigger] self@.rows[i as int].rows[l]).fields.len()
                            == self@.columns.len(),
                decreases lang_rows.rows@.len() - j,
            {
                if lang_rows.rows[j].fields.len() != self.columns.len() {
                    proof {
                        assert(self@.rows[i as int].rows[j as int].fields.len()
                            != self@.columns.len());
                    }
                    return false;
                }
                j += 1;
            }
            i += 1;
        }
        true
    }
}

} // verus!
