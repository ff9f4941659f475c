//! Cell values as delivered by the database driver, field types as declared
//! by a record type, and the rule that reads the one as the other.
use vstd::prelude::*;

verus! {

/// The type family of a column or of a declared field.
#[derive(Clone, Copy, Debug, PartialEq, Eq, Structural)]
pub enum BaseType {
    /// `boolean`, read as `bool`.
    Bool,
    /// `"char"`, read as `i8`.
    Char,
    /// `smallint`, read as `i16`.
    SmallInt,
    /// `integer`, read as `i32`.
    Int,
    /// `oid`, read as `u32`.
    Oid,
    /// `bigint`, read as `i64`.
    BigInt,
    /// `text`, `varchar`, `bpchar` and `name`, read as `String`.
    Text,
    /// `bytea`, read as `Vec<u8>`.
    Bytea,
    /// `uuid`, read as a 128-bit value.
    Uuid,
}

/// One non-null value of a column.
#[derive(Clone, Debug, PartialEq, Eq)]
pub enum Scalar {
    Bool(bool),
    Char(i8),
    SmallInt(i16),
    Int(i32),
    Oid(u32),
    BigInt(i64),
    Text(String),
    Bytea(Vec<u8>),
    Uuid(u128),
}

/// The mathematical value of a [`Scalar`].
pub enum ScalarModel {
    Bool(bool),
    Char(i8),
    SmallInt(i16),
    Int(i32),
    Oid(u32),
    BigInt(i64),
    Text(Seq<char>),
    Bytea(Seq<u8>),
    Uuid(u128),
}

impl View for Scalar {
    type V = ScalarModel;

    open spec fn view(&self) -> ScalarModel {
        match self {
            Scalar::Bool(b) => ScalarModel::Bool(*b),
            Scalar::Char(v) => ScalarModel::Char(*v),
            Scalar::SmallInt(v) => ScalarModel::SmallInt(*v),
            Scalar::Int(v) => ScalarModel::Int(*v),
            Scalar::Oid(v) => ScalarModel::Oid(*v),
            Scalar::BigInt(v) => ScalarModel::BigInt(*v),
            Scalar::Text(s) => ScalarModel::Text(s@),
            Scalar::Bytea(b) => ScalarModel::Bytea(b@),
            Scalar::Uuid(v) => ScalarModel::Uuid(*v),
        }
    }
}

/// The type family that a scalar value belongs to.
pub open spec fn base_of(s: ScalarModel) -> BaseType {
    match s {
        ScalarModel::Bool(_) => BaseType::Bool,
        ScalarModel::Char(_) => BaseType::Char,
        ScalarModel::SmallInt(_) => BaseType::SmallInt,
        ScalarModel::Int(_) => BaseType::Int,
        ScalarModel::Oid(_) => BaseType::Oid,
        ScalarModel::BigInt(_) => BaseType::BigInt,
        ScalarModel::Text(_) => BaseType::Text,
        ScalarModel::Bytea(_) => BaseType::Bytea,
        ScalarModel::Uuid(_) => BaseType::Uuid,
    }
}

impl Scalar {
    /// The type family of this value.
    pub fn base(&self) -> (r: BaseType)
        ensures
            r == base_of(self@),
    {
        match self {
            Scalar::Bool(_) => BaseType::Bool,
            Scalar::Char(_) => BaseType::Char,
            Scalar::SmallInt(_) => BaseType::SmallInt,
            Scalar::Int(_) => BaseType::Int,
            Scalar::Oid(_) => BaseType::Oid,
            Scalar::BigInt(_) => BaseType::BigInt,
            Scalar::Text(_) => BaseType::Text,
            Scalar::Bytea(_) => BaseType::Bytea,
            Scalar::Uuid(_) => BaseType::Uuid,
        }
    }

    /// A copy of this value.
    pub fn duplicate(&self) -> (r: Scalar)
        ensures
            r@ == self@,
    {
        match self {
            Scalar::Bool(b) => Scalar::Bool(*b),
            Scalar::Char(v) => Scalar::Char(*v),
            Scalar::SmallInt(v) => Scalar::SmallInt(*v),
            Scalar::Int(v) => Scalar::Int(*v),
            Scalar::Oid(v) => Scalar::Oid(*v),
            Scalar::BigInt(v) => Scalar::BigInt(*v),
            Scalar::Text(s) => Scalar::Text(s.clone()),
            Scalar::Bytea(b) => Scalar::Bytea(b.clone()),
            Scalar::Uuid(v) => Scalar::Uuid(*v),
        }
    }
}

/// One cell of a result row, as the driver delivered it.
#[derive(Clone, Debug, PartialEq, Eq)]
pub enum Cell {
    /// SQL `NULL` in a column of the given type family; `array` tells an
    /// array column from a scalar one.
    Null { base: BaseType, array: bool },
    /// A non-null value of a scalar column.
    Value(Scalar),
    /// A non-null value of an array column whose elements are of type `base`;
    /// `None` stands for a `NULL` element.
    Array { base: BaseType, items: Vec<Option<Scalar>> },
    /// A value of a column type that no declared field type can read.
    Unsupported,
}

/// The mathematical value of a [`Cell`].
pub enum CellModel {
    Null { base: BaseType, array: bool },
    Value(ScalarModel),
    Array { base: BaseType, items: Seq<Option<ScalarModel>> },
    Unsupported,
}

/// The value of an optional scalar.
pub open spec fn option_model(o: Option<Scalar>) -> Option<ScalarModel> {
    match o {
        Some(s) => Some(s@),
        None => None,
    }
}

impl View for Cell {
    type V = CellModel;

    open spec fn view(&self) -> CellModel {
        match self {
            Cell::Null { base, array } => CellModel::Null { base: *base, array: *array },
            Cell::Value(s) => CellModel::Value(s@),
            Cell::Array { base, items } => CellModel::Array {
                base: *base,
                items: items@.map_values(|o: Option<Scalar>| option_model(o)),
            },
            Cell::Unsupported => CellModel::Unsupported,
        }
    }
}

/// How a declared field wraps its base type.
#[derive(Clone, Copy, Debug, PartialEq, Eq, Structural)]
pub enum Shape {
    /// The bare type (`i32`): a `NULL` cannot be read.
    Plain,
    /// An optional value (`Option<i32>`): a `NULL` reads as `None`.
    Nullable,
    /// A list (`Vec<i32>`), read from an array column without `NULL` elements.
    List,
}

/// The declared type of a field.
#[derive(Clone, Copy, Debug, PartialEq, Eq, Structural)]
pub struct FieldType {
    pub base: BaseType,
    pub shape: Shape,
}

/// The value of one field of a record.
#[derive(Clone, Debug, PartialEq, Eq)]
pub enum FieldValue {
    Plain(Scalar),
    Nullable(Option<Scalar>),
    List(Vec<Scalar>),
}

/// The mathematical value of a [`FieldValue`].
pub enum FieldModel {
    Plain(ScalarModel),
    Nullable(Option<ScalarModel>),
    List(Seq<ScalarModel>),
}

impl View for FieldValue {
    type V = FieldModel;

    open spec fn view(&self) -> FieldModel {
        match self {
            FieldValue::Plain(s) => FieldModel::Plain(s@),
            FieldValue::Nullable(o) => FieldModel::Nullable(option_model(*o)),
            FieldValue::List(v) => FieldModel::List(v@.map_values(|s: Scalar| s@)),
        }
    }
}

/// The canonical default of a base type: `false`, zero, the empty text, no
/// bytes, and the nil UUID.
pub open spec fn default_scalar(base: BaseType) -> ScalarModel {
    match base {
        BaseType::Bool => ScalarModel::Bool(false),
        BaseType::Char => ScalarModel::Char(0),
        BaseType::SmallInt => ScalarModel::SmallInt(0),
        BaseType::Int => ScalarModel::Int(0),
        BaseType::Oid => ScalarModel::Oid(0),
        BaseType::BigInt => ScalarModel::BigInt(0),
        BaseType::Text => ScalarModel::Text(Seq::empty()),
        BaseType::Bytea => ScalarModel::Bytea(Seq::empty()),
        BaseType::Uuid => ScalarModel::Uuid(0),
    }
}

/// The canonical default of a field type: the base type's default for a
/// plain field, `None` for a nullable one, the empty list for a list.
pub open spec fn default_field(ty: FieldType) -> FieldModel {
    match ty.shape {
        Shape::Plain => FieldModel::Plain(default_scalar(ty.base)),
        Shape::Nullable => FieldModel::Nullable(None),
        Shape::List => FieldModel::List(Seq::empty()),
    }
}

/// Whether an array element is a non-null value of `base`.
pub open spec fn present(o: Option<ScalarModel>, base: BaseType) -> bool {
    match o {
        Some(s) => base_of(s) == base,
        None => false,
    }
}

/// Whether every element of an array cell is a non-null value of `base`.
pub open spec fn all_present(items: Seq<Option<ScalarModel>>, base: BaseType) -> bool {
    forall|k: int| 0 <= k < items.len() ==> present(#[trigger] items[k], base)
}

/// What reading a cell as a field type yields, or `None` where the read
/// fails: a missing cell (position out of range), a type mismatch, a `NULL`
/// where the field is not nullable, or a `NULL` element in an array.
pub open spec fn extract(cell: Option<CellModel>, ty: FieldType) -> Option<FieldModel> {
    match cell {
        None => None,
        Some(CellModel::Null { base, array }) => {
            if base == ty.base && !array && ty.shape == Shape::Nullable {
                Some(FieldModel::Nullable(None))
            } else {
                None
            }
        },
        Some(CellModel::Value(s)) => {
            if base_of(s) != ty.base {
                None
            } else {
                match ty.shape {
                    Shape::Plain => Some(FieldModel::Plain(s)),
                    Shape::Nullable => Some(FieldModel::Nullable(Some(s))),
                    Shape::List => None,
                }
            }
        },
        Some(CellModel::Array { base, items }) => {
            if ty.shape == Shape::List && base == ty.base && all_present(items, base) {
                Some(FieldModel::List(items.map_values(|o: Option<ScalarModel>| o->0)))
            } else {
                None
            }
        },
        Some(CellModel::Unsupported) => None,
    }
}

/// The default value of a base type.
pub fn default_scalar_value(base: BaseType) -> (r: Scalar)
    ensures
        r@ == default_scalar(base),
{
    match base {
        BaseType::Bool => Scalar::Bool(false),
        BaseType::Char => Scalar::Char(0),
        BaseType::SmallInt => Scalar::SmallInt(0),
        BaseType::Int => Scalar::Int(0),
        BaseType::Oid => Scalar::Oid(0),
        BaseType::BigInt => Scalar::BigInt(0),
        BaseType::Text => Scalar::Text(String::new()),
        BaseType::Bytea => Scalar::Bytea(Vec::new()),
        BaseType::Uuid => Scalar::Uuid(0),
    }
}

/// The default value of a field type.
pub fn default_value(ty: FieldType) -> (r: FieldValue)
    ensures
        r@ == default_field(ty),
{
    match ty.shape {
        Shape::Plain => FieldValue::Plain(default_scalar_value(ty.base)),
        Shape::Nullable => FieldValue::Nullable(None),
        Shape::List => {
            let v: Vec<Scalar> = Vec::new();
            proof {
                assert(v@.map_values(|s: Scalar| s@) =~= Seq::<ScalarModel>::empty());
            }
            FieldValue::List(v)
        },
    }
}

/// Reads the elements of an array cell of type `base` as a list, or fails
/// where an element is `NULL` or of another type.
fn read_list(items: &Vec<Option<Scalar>>, base: BaseType) -> (r: Option<Vec<Scalar>>)
    ensures
        ({
            let m = items@.map_values(|o: Option<Scalar>| option_model(o));
            match r {
                Some(v) => all_present(m, base) && v@.map_values(|s: Scalar| s@)
                    == m.map_values(|o: Option<ScalarModel>| o->0),
                None => !all_present(m, base),
            }
        }),
{
    let ghost m = items@.map_values(|o: Option<Scalar>| option_model(o));
    let mut out: Vec<Scalar> = Vec::new();
    let mut i: usize = 0;
    while i < items.len()
        invariant
            i <= items@.len(),
            m == items@.map_values(|o: Option<Scalar>| option_model(o)),
            all_present(m.subrange(0, i as int), base),
            out@.map_values(|s: Scalar| s@) == m.subrange(0, i as int).map_values(
                |o: Option<ScalarModel>| o->0,
            ),
        decreases items@.len() - i,
    {
        match &items[i] {
            Some(s) => {
                if s.base() != base {
                    proof {
                        assert(m[i as int] == option_model(items@[i as int]));
                        assert(!present(m[i as int], base));
                    }
                    return None;
                }
                let ghost before = out@;
                let d = s.duplicate();
                out.push(d);
                proof {
                    assert(m[i as int] == option_model(items@[i as int]));
                    assert(m[i as int]->0 == d@);
                    assert(out@ == before.push(d));
                    assert(before.map_values(|s: Scalar| s@).push(d@) =~= out@.map_values(
                        |s: Scalar| s@,
                    ));
                    assert(m.subrange(0, i + 1) =~= m.subrange(0, i as int).push(m[i as int]));
                    assert(out@.map_values(|s: Scalar| s@) =~= m.subrange(0, i + 1).map_values(
                        |o: Option<ScalarModel>| o->0,
                    ));
                }
            },
            None => {
                proof {
                    assert(m[i as int] == option_model(items@[i as int]));
                }
                return None;
            },
        }
        i = i + 1;
    }
    proof {
        assert(m.subrange(0, i as int) =~= m);
    }
    Some(out)
}

/// One result row: its cells in column order.
#[derive(Clone, Debug, PartialEq, Eq)]
pub struct Row {
    pub cells: Vec<Cell>,
}

impl View for Row {
    type V = Seq<CellModel>;

    open spec fn view(&self) -> Seq<CellModel> {
        self.cells@.map_values(|c: Cell| c@)
    }
}

/// The cell at position `i`, or `None` where the row has no such position.
pub open spec fn cell_at(row: Seq<CellModel>, i: int) -> Option<CellModel> {
    if 0 <= i < row.len() {
        Some(row[i])
    } else {
        None
    }
}

/// Reads the cell at position `i` of a row as a declared field type.
pub fn extract_field(row: &Row, i: usize, ty: FieldType) -> (r: Option<FieldValue>)
    ensures
        match r {
            Some(v) => extract(cell_at(row@, i as int), ty) == Some(v@),
            None => extract(cell_at(row@, i as int), ty) is None,
        },
{
    if i >= row.cells.len() {
        return None;
    }
    let cell = &row.cells[i];
    assert(cell_at(row@, i as int) == Some(cell@));
    match cell {
        Cell::Null { base, array } => {
            if *base == ty.base && !*array && ty.shape == Shape::Nullable {
                Some(FieldValue::Nullable(None))
            } else {
                None
            }
        },
        Cell::Value(s) => {
            if s.base() != ty.base {
                None
            } else {
                match ty.shape {
                    Shape::Plain => Some(FieldValue::Plain(s.duplicate())),
                    Shape::Nullable => Some(FieldValue::Nullable(Some(s.duplicate()))),
                    Shape::List => None,
                }
            }
        },
        Cell::Array { base, items } => {
            if ty.shape == Shape::List && *base == ty.base {
                match read_list(items, *base) {
                    Some(v) => Some(FieldValue::List(v)),
                    None => None,
                }
            } else {
                None
            }
        },
        Cell::Unsupported => None,
    }
}

/// Whether a field value is of a field type.
pub open spec fn field_typed(v: FieldModel, ty: FieldType) -> bool {
    match v {
        FieldModel::Plain(s) => ty.shape == Shape::Plain && base_of(s) == ty.base,
        FieldModel::Nullable(o) => ty.shape == Shape::Nullable && match o {
            Some(s) => base_of(s) == ty.base,
            None => true,
        },
        FieldModel::List(xs) => ty.shape == Shape::List && forall|k: int|
            0 <= k < xs.len() ==> base_of(#[trigger] xs[k]) == ty.base,
    }
}

/// What a read yields is of the type read, and so is a type's default.
pub proof fn lemma_extract_typed(cell: Option<CellModel>, ty: FieldType)
    ensures
        field_typed(default_field(ty), ty),
        extract(cell, ty) matches Some(v) ==> field_typed(v, ty),
{
    if let Some(CellModel::Array { base, items }) = cell {
        if extract(cell, ty) is Some {
            let xs = items.map_values(|o: Option<ScalarModel>| o->0);
            assert forall|k: int| 0 <= k < xs.len() implies base_of(#[trigger] xs[k])
                == ty.base by {
                assert(present(items[k], base));
            }
        }
    }
}

} // verus!
