//! Record types described by their fields, and the conversion of rows into
//! records of such a type.
use vstd::prelude::*;

use crate::value::{
    all_present, base_of, cell_at, default_field, default_value, extract, extract_field,
    field_typed, lemma_extract_typed, CellModel, FieldModel, FieldType, FieldValue, Row, Shape,
};
use vstd::string::StringExecFns;

verus! {

/// A named field of a record type, with its declared type.
#[derive(Clone, Debug, PartialEq, Eq)]
pub struct FieldDescriptor {
    pub name: String,
    pub ty: FieldType,
}

/// Why a record type cannot be described.
#[derive(Clone, Copy, Debug, PartialEq, Eq, Structural)]
pub enum SchemaError {
    /// The record type has no fields.
    NoFields,
    /// A field has an empty name: positional binding needs named fields.
    UnnamedField,
}

/// The mathematical value of a [`RowConsumer`].
pub struct ConsumerModel {
    pub class_name: Seq<char>,
    pub field_names: Seq<Seq<char>>,
    pub field_types: Seq<FieldType>,
    /// `true` for a record type with named fields; `false` for a bare value
    /// type such as `i32`, which has exactly one field.
    pub named: bool,
}

/// A record type: its name and its fields in declaration order. Field `i`
/// binds to the cell at position `i` of a row.
#[derive(Debug)]
pub struct RowConsumer {
    class_name: String,
    fields: Vec<FieldDescriptor>,
    named: bool,
}

impl View for RowConsumer {
    type V = ConsumerModel;

    closed spec fn view(&self) -> ConsumerModel {
        ConsumerModel {
            class_name: self.class_name@,
            field_names: self.fields@.map_values(|f: FieldDescriptor| f.name@),
            field_types: self.fields@.map_values(|f: FieldDescriptor| f.ty),
            named: self.named,
        }
    }
}

impl ConsumerModel {
    /// The number of fields.
    pub open spec fn len(self) -> nat {
        self.field_types.len()
    }

    /// A bare value type has one field; a record type has at least one field,
    /// each with a non-empty name.
    pub open spec fn wf(self) -> bool {
        &&& self.field_names.len() == self.field_types.len()
        &&& if self.named {
            &&& self.len() > 0
            &&& forall|i: int| 0 <= i < self.len() ==> #[trigger] self.field_names[i].len() > 0
        } else {
            self.len() == 1
        }
    }
}

/// The diagnostic recorded when field `i` cannot be read.
pub open spec fn message(c: ConsumerModel, i: int) -> Seq<char> {
    if c.named {
        "Conversion error occurred for field \""@ + c.field_names[i] + "\" on class \""@
            + c.class_name + "\""@
    } else {
        "Conversion error occurred for class \""@ + c.class_name + "\""@
    }
}

/// The value that field `i` takes from a row: what the cell at position `i`
/// reads as, or the field type's default where the read fails.
pub open spec fn field_of(c: ConsumerModel, row: Seq<CellModel>, i: int) -> FieldModel {
    match extract(cell_at(row, i), c.field_types[i]) {
        Some(v) => v,
        None => default_field(c.field_types[i]),
    }
}

/// Whether field `i` reads successfully from a row.
pub open spec fn field_ok(c: ConsumerModel, row: Seq<CellModel>, i: int) -> bool {
    extract(cell_at(row, i), c.field_types[i]) is Some
}

/// The record that a row converts into.
pub open spec fn converted(c: ConsumerModel, row: Seq<CellModel>) -> Seq<FieldModel> {
    Seq::new(c.len(), |i: int| field_of(c, row, i))
}

/// The diagnostics for the first `k` fields, in declaration order: one for
/// each field that does not read successfully.
pub open spec fn diagnostics_upto(c: ConsumerModel, row: Seq<CellModel>, k: int) -> Seq<
    Seq<char>,
>
    decreases k,
{
    if k <= 0 {
        Seq::empty()
    } else if field_ok(c, row, k - 1) {
        diagnostics_upto(c, row, k - 1)
    } else {
        diagnostics_upto(c, row, k - 1).push(message(c, k - 1))
    }
}

/// The diagnostics that converting a row records.
pub open spec fn diagnostics(c: ConsumerModel, row: Seq<CellModel>) -> Seq<Seq<char>> {
    diagnostics_upto(c, row, c.len() as int)
}

/// Whether a row converts without diagnostics.
pub open spec fn row_clean(c: ConsumerModel, row: Seq<CellModel>) -> bool {
    diagnostics(c, row).len() == 0
}

/// Why a query produced no records.
#[derive(Clone, Copy, Debug, PartialEq, Eq, Structural)]
pub enum ConsumeError {
    /// The query ran, but at least one row did not convert cleanly.
    ConversionError,
    /// The query could not run.
    DatabaseConnectionError,
}

/// The cells of each row.
pub open spec fn rows_model(rows: Seq<Row>) -> Seq<Seq<CellModel>> {
    rows.map_values(|r: Row| r@)
}

/// Whether every row of a batch converts without diagnostics.
pub open spec fn batch_clean(c: ConsumerModel, rows: Seq<Seq<CellModel>>) -> bool {
    forall|i: int| 0 <= i < rows.len() ==> row_clean(c, #[trigger] rows[i])
}

/// The records that a batch of rows converts into, in row order.
pub open spec fn converted_all(c: ConsumerModel, rows: Seq<Seq<CellModel>>) -> Seq<
    Seq<FieldModel>,
> {
    rows.map_values(|row: Seq<CellModel>| converted(c, row))
}

/// A converted record: one value per field, in declaration order.
#[derive(Clone, Debug, PartialEq, Eq)]
pub struct Record {
    pub values: Vec<FieldValue>,
}

impl View for Record {
    type V = Seq<FieldModel>;

    open spec fn view(&self) -> Seq<FieldModel> {
        self.values@.map_values(|v: FieldValue| v@)
    }
}

/// The values of each record.
pub open spec fn records_model(v: Seq<Record>) -> Seq<Seq<FieldModel>> {
    v.map_values(|r: Record| r@)
}

/// The characters of each string.
pub open spec fn strings_model(v: Seq<String>) -> Seq<Seq<char>> {
    v.map_values(|s: String| s@)
}

/// What the conversion of one row promises: the record is always complete,
/// and the diagnostics come back exactly when there are some.
pub open spec fn row_outcome(
    c: ConsumerModel,
    row: Seq<CellModel>,
    r: Result<Record, (Record, Vec<String>)>,
) -> bool {
    match r {
        Ok(rec) => rec@ == converted(c, row) && row_clean(c, row),
        Err((rec, d)) => rec@ == converted(c, row) && strings_model(d@) == diagnostics(c, row)
            && !row_clean(c, row),
    }
}

impl RowConsumer {
    #[verifier::type_invariant]
    pub(crate) open spec fn well_formed(&self) -> bool {
        self@.wf()
    }

    /// Describes a record type with named fields, in declaration order.
    /// Fails where there are no fields or a field has an empty name.
    pub fn new(class_name: String, fields: Vec<FieldDescriptor>) -> (r: Result<
        RowConsumer,
        SchemaError,
    >)
        ensures
            match r {
                Ok(c) => c@.wf() && c@.named && c@.class_name == class_name@
                    && c@.field_names == fields@.map_values(|f: FieldDescriptor| f.name@)
                    && c@.field_types == fields@.map_values(|f: FieldDescriptor| f.ty),
                Err(e) => e == (if fields@.len() == 0 {
                    SchemaError::NoFields
                } else {
                    SchemaError::UnnamedField
                }),
            },
            r is Ok <==> fields@.len() > 0 && forall|i: int|
                0 <= i < fields@.len() ==> #[trigger] fields@[i].name@.len() > 0,
    {
        if fields.len() == 0 {
            return Err(SchemaError::NoFields);
        }
        let mut i: usize = 0;
        while i < fields.len()
            invariant
                i <= fields@.len(),
                forall|j: int| 0 <= j < i ==> #[trigger] fields@[j].name@.len() > 0,
            decreases fields@.len() - i,
        {
            if fields[i].name.as_str().is_empty() {
                return Err(SchemaError::UnnamedField);
            }
            i = i + 1;
        }
        let c = RowConsumer { class_name, fields, named: true };
        proof {
            assert forall|i: int| 0 <= i < c@.len() implies #[trigger] c@.field_names[i].len()
                > 0 by {
                assert(c@.field_names[i] == fields@[i].name@);
            }
        }
        Ok(c)
    }

    /// Describes a bare value type, such as `i32`, read from the first cell
    /// of a row.
    pub fn single(class_name: String, ty: FieldType) -> (r: RowConsumer)
        ensures
            r@.wf(),
            !r@.named,
            r@.class_name == class_name@,
            r@.field_types == seq![ty],
    {
        let mut fields: Vec<FieldDescriptor> = Vec::new();
        fields.push(FieldDescriptor { name: String::new(), ty });
        let r = RowConsumer { class_name, fields, named: false };
        assert(r@.field_types =~= seq![ty]);
        r
    }

    /// The name of the record type.
    pub fn class_name(&self) -> (r: &str)
        ensures
            r@ == self@.class_name,
    {
        self.class_name.as_str()
    }

    /// Whether this describes a record type with named fields, as opposed to
    /// a bare value type.
    pub fn is_named(&self) -> (r: bool)
        ensures
            r == self@.named,
    {
        self.named
    }

    /// The name of field `i`.
    pub fn field_name(&self, i: usize) -> (r: &str)
        requires
            i < self@.len(),
        ensures
            r@ == self@.field_names[i as int],
    {
        self.fields[i].name.as_str()
    }

    /// The number of fields.
    pub fn len(&self) -> (r: usize)
        ensures
            r == self@.len(),
    {
        self.fields.len()
    }

    /// The diagnostic for field `i`.
    fn message(&self, i: usize) -> (r: String)
        requires
            i < self@.len(),
        ensures
            r@ == message(self@, i as int),
    {
        proof {
            use_type_invariant(self);
        }
        if self.named {
            let mut m = String::from_str("Conversion error occurred for field \"");
            m.append(self.fields[i].name.as_str());
            m.append("\" on class \"");
            m.append(self.class_name.as_str());
            m.append("\"");
            m
        } else {
            let mut m = String::from_str("Conversion error occurred for class \"");
            m.append(self.class_name.as_str());
            m.append("\"");
            m
        }
    }

    /// Converts one row. Every field is read from the cell at its position;
    /// a field that cannot be read takes its type's default and adds a
    /// diagnostic. The diagnostics come back, with the complete record, only
    /// where there are some.
    pub fn from_row(&self, row: Row) -> (r: Result<Record, (Record, Vec<String>)>)
        ensures
            row_outcome(self@, row@, r),
    {
        proof {
            use_type_invariant(self);
        }
        self.convert_row(&row)
    }

    fn convert_row(&self, row: &Row) -> (r: Result<Record, (Record, Vec<String>)>)
        ensures
            row_outcome(self@, row@, r),
    {
        proof {
            use_type_invariant(self);
        }
        let ghost c = self@;
        let mut values: Vec<FieldValue> = Vec::new();
        let mut errors: Vec<String> = Vec::new();
        let mut i: usize = 0;
        while i < self.fields.len()
            invariant
                c == self@,
                self@.wf(),
                i <= c.len(),
                values@.len() == i,
                forall|j: int| 0 <= j < i ==> (#[trigger] values@[j])@ == field_of(c, row@, j),
                strings_model(errors@) == diagnostics_upto(c, row@, i as int),
            decreases c.len() - i,
        {
            let ty = self.fields[i].ty;
            assert(ty == c.field_types[i as int]);
            match extract_field(row, i, ty) {
                Some(v) => {
                    values.push(v);
                },
                None => {
                    values.push(default_value(ty));
                    let ghost before = errors@;
                    errors.push(self.message(i));
                    assert(strings_model(errors@) =~= strings_model(before).push(
                        message(c, i as int),
                    ));
                },
            }
            i = i + 1;
        }
        let rec = Record { values };
        assert(rec@ =~= converted(c, row@));
        if errors.len() == 0 {
            Ok(rec)
        } else {
            Err((rec, errors))
        }
    }

    /// Converts rows in order. Every row yields a record, clean or not; the
    /// records come back as `Ok` where no row recorded a diagnostic, and as
    /// `Err` otherwise. Which rows or fields failed is not kept.
    pub fn from_rows(&self, rows: Vec<Row>) -> (r: Result<Vec<Record>, Vec<Record>>)
        ensures
            match r {
                Ok(v) => records_model(v@) == converted_all(self@, rows_model(rows@))
                    && batch_clean(self@, rows_model(rows@)),
                Err(v) => records_model(v@) == converted_all(self@, rows_model(rows@))
                    && !batch_clean(self@, rows_model(rows@)),
            },
    {
        proof {
            use_type_invariant(self);
        }
        let ghost c = self@;
        let ghost m = rows_model(rows@);
        let mut has_issue = false;
        let mut data: Vec<Record> = Vec::new();
        let mut i: usize = 0;
        while i < rows.len()
            invariant
                c == self@,
                self@.wf(),
                m == rows_model(rows@),
                i <= rows@.len(),
                data@.len() == i,
                forall|j: int| 0 <= j < i ==> (#[trigger] data@[j])@ == converted(c, m[j]),
                has_issue <==> exists|j: int| 0 <= j < i && !row_clean(c, #[trigger] m[j]),
            decreases rows@.len() - i,
        {
            assert(m[i as int] == rows@[i as int]@);
            match self.convert_row(&rows[i]) {
                Ok(rec) => {
                    data.push(rec);
                },
                Err((rec, _)) => {
                    has_issue = true;
                    data.push(rec);
                },
            }
            i = i + 1;
        }
        assert(records_model(data@) =~= converted_all(c, m));
        if has_issue {
            Err(data)
        } else {
            Ok(data)
        }
    }

    /// Decides the outcome of a query from what the database returned:
    /// `None` where the query could not run, else its rows. The records come
    /// back only where every row converted cleanly; a degraded batch is
    /// discarded.
    pub fn consume(&self, query_result: Option<Vec<Row>>) -> (r: Result<Vec<Record>, ConsumeError>)
        ensures
            match query_result {
                None => r == Err::<Vec<Record>, ConsumeError>(
                    ConsumeError::DatabaseConnectionError,
                ),
                Some(rows) => match r {
                    Ok(v) => batch_clean(self@, rows_model(rows@)) && records_model(v@)
                        == converted_all(self@, rows_model(rows@)),
                    Err(e) => !batch_clean(self@, rows_model(rows@)) && e
                        == ConsumeError::ConversionError,
                },
            },
    {
        proof {
            use_type_invariant(self);
        }
        match query_result {
            None => Err(ConsumeError::DatabaseConnectionError),
            Some(rows) => match self.from_rows(rows) {
                Ok(v) => Ok(v),
                Err(_) => Err(ConsumeError::ConversionError),
            },
        }
    }
}

/// Whether a cell holds a non-null value of the type a field declares: a
/// scalar of the field's base type for a plain or nullable field, an array
/// of that type without `NULL` elements for a list.
pub open spec fn well_typed(cell: CellModel, ty: FieldType) -> bool {
    match cell {
        CellModel::Value(s) => base_of(s) == ty.base && ty.shape != Shape::List,
        CellModel::Array { base, items } => ty.shape == Shape::List && base == ty.base
            && all_present(items, base),
        _ => false,
    }
}

proof fn lemma_no_diagnostics(c: ConsumerModel, row: Seq<CellModel>, k: int)
    requires
        0 <= k,
    ensures
        diagnostics_upto(c, row, k).len() == 0 <==> forall|j: int|
            0 <= j < k ==> #[trigger] field_ok(c, row, j),
    decreases k,
{
    if k > 0 {
        lemma_no_diagnostics(c, row, k - 1);
        if diagnostics_upto(c, row, k).len() == 0 {
            assert forall|j: int| 0 <= j < k implies #[trigger] field_ok(c, row, j) by {
                if j < k - 1 {
                }
            }
        }
    }
}

proof fn lemma_one_diagnostic(c: ConsumerModel, row: Seq<CellModel>, i: int, k: int)
    requires
        0 <= i < k,
        !field_ok(c, row, i),
        forall|j: int| 0 <= j < k && j != i ==> #[trigger] field_ok(c, row, j),
    ensures
        diagnostics_upto(c, row, k) == seq![message(c, i)],
    decreases k,
{
    if k - 1 == i {
        lemma_no_diagnostics(c, row, i);
        assert(diagnostics_upto(c, row, i).push(message(c, i)) =~= seq![message(c, i)]);
    } else {
        lemma_one_diagnostic(c, row, i, k - 1);
    }
}

proof fn lemma_all_diagnostics(c: ConsumerModel, row: Seq<CellModel>, k: int)
    requires
        0 <= k,
        forall|j: int| 0 <= j < k ==> !#[trigger] field_ok(c, row, j),
    ensures
        diagnostics_upto(c, row, k) == Seq::new(k as nat, |j: int| message(c, j)),
    decreases k,
{
    if k == 0 {
        assert(diagnostics_upto(c, row, k) =~= Seq::new(k as nat, |j: int| message(c, j)));
    } else {
        lemma_all_diagnostics(c, row, k - 1);
        assert(diagnostics_upto(c, row, k) =~= Seq::new(k as nat, |j: int| message(c, j)));
    }
}

/// A row with one non-null, correctly typed cell per field converts into a
/// fully populated record, each field holding what its cell reads as, with
/// no diagnostics.
pub proof fn lemma_clean_row(c: ConsumerModel, row: Seq<CellModel>)
    requires
        c.wf(),
        row.len() == c.len(),
        forall|i: int| 0 <= i < c.len() ==> well_typed(#[trigger] row[i], c.field_types[i]),
    ensures
        row_clean(c, row),
        forall|i: int|
            0 <= i < c.len() ==> extract(cell_at(row, i), c.field_types[i]) == Some(
                #[trigger] converted(c, row)[i],
            ),
{
    assert forall|i: int| 0 <= i < c.len() implies #[trigger] field_ok(c, row, i) by {
        assert(cell_at(row, i) == Some(row[i]));
        assert(well_typed(row[i], c.field_types[i]));
    }
    lemma_no_diagnostics(c, row, c.len() as int);
    assert forall|i: int| 0 <= i < c.len() implies extract(cell_at(row, i), c.field_types[i])
        == Some(#[trigger] converted(c, row)[i]) by {
        assert(field_ok(c, row, i));
    }
}

/// Where exactly field `i` fails to read, the record holds the default of
/// field `i`'s type there and every other field's read value, and there is
/// exactly one diagnostic, naming field `i` and the record type.
pub proof fn lemma_one_bad_field(c: ConsumerModel, row: Seq<CellModel>, i: int)
    requires
        c.wf(),
        0 <= i < c.len(),
        !field_ok(c, row, i),
        forall|j: int| 0 <= j < c.len() && j != i ==> #[trigger] field_ok(c, row, j),
    ensures
        diagnostics(c, row) == seq![message(c, i)],
        converted(c, row)[i] == default_field(c.field_types[i]),
        forall|j: int|
            0 <= j < c.len() && j != i ==> extract(cell_at(row, j), c.field_types[j]) == Some(
                #[trigger] converted(c, row)[j],
            ),
{
    lemma_one_diagnostic(c, row, i, c.len() as int);
    assert forall|j: int| 0 <= j < c.len() && j != i implies extract(
        cell_at(row, j),
        c.field_types[j],
    ) == Some(#[trigger] converted(c, row)[j]) by {
        assert(field_ok(c, row, j));
    }
}

/// Where no field reads, the record is made of defaults only, and there is
/// one diagnostic per field, in declaration order.
pub proof fn lemma_all_bad_fields(c: ConsumerModel, row: Seq<CellModel>)
    requires
        c.wf(),
        forall|i: int| 0 <= i < c.len() ==> !#[trigger] field_ok(c, row, i),
    ensures
        diagnostics(c, row) == Seq::new(c.len(), |i: int| message(c, i)),
        converted(c, row) == Seq::new(c.len(), |i: int| default_field(c.field_types[i])),
{
    lemma_all_diagnostics(c, row, c.len() as int);
    assert forall|i: int| 0 <= i < c.len() implies #[trigger] converted(c, row)[i] == default_field(
        c.field_types[i],
    ) by {
        assert(!field_ok(c, row, i));
    }
    assert(converted(c, row) =~= Seq::new(c.len(), |i: int| default_field(c.field_types[i])));
}

/// Converting a batch keeps the number and the order of its rows, and one
/// degraded row, wherever it stands, makes the whole batch degraded.
pub proof fn lemma_degraded_batch(c: ConsumerModel, rows: Seq<Seq<CellModel>>, i: int)
    requires
        0 <= i < rows.len(),
        !row_clean(c, rows[i]),
    ensures
        !batch_clean(c, rows),
        converted_all(c, rows).len() == rows.len(),
        forall|j: int|
            0 <= j < rows.len() ==> #[trigger] converted_all(c, rows)[j] == converted(c, rows[j]),
{
}

/// Whether a record has one value of the declared type per field.
pub open spec fn record_typed(c: ConsumerModel, rec: Seq<FieldModel>) -> bool {
    &&& rec.len() == c.len()
    &&& forall|i: int| 0 <= i < c.len() ==> field_typed(#[trigger] rec[i], c.field_types[i])
}

/// A converted row is a record of the type: one value of the declared type
/// per field.
pub proof fn lemma_converted_typed(c: ConsumerModel, row: Seq<CellModel>)
    ensures
        record_typed(c, converted(c, row)),
{
    assert forall|i: int| 0 <= i < c.len() implies field_typed(
        #[trigger] converted(c, row)[i],
        c.field_types[i],
    ) by {
        lemma_extract_typed(cell_at(row, i), c.field_types[i]);
    }
}

} // verus!
