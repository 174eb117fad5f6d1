//! Values, types and schemas.
//!
//! These are the plain values that the engine decides on. Columnar arrays stay
//! with the caller, which hands over the values, names and types that a
//! decision reads.
use vstd::prelude::*;

use crate::text::laws::the_first_occurrence_is_found;
use crate::text::{find, find_is};

verus! {

/// The type of a column.
#[derive(Debug, PartialEq, Eq)]
pub enum DataType {
    Null,
    Boolean,
    Int8,
    Int16,
    Int32,
    Int64,
    UInt8,
    UInt16,
    UInt32,
    UInt64,
    Float32,
    Float64,
    Utf8,
    LargeUtf8,
    Utf8View,
    /// Any other type, by its name.
    Other(String),
}

impl DataType {
    /// A copy of this type.
    pub fn copied(&self) -> (r: DataType)
        ensures
            r == *self,
    {
        match self {
            DataType::Null => DataType::Null,
            DataType::Boolean => DataType::Boolean,
            DataType::Int8 => DataType::Int8,
            DataType::Int16 => DataType::Int16,
            DataType::Int32 => DataType::Int32,
            DataType::Int64 => DataType::Int64,
            DataType::UInt8 => DataType::UInt8,
            DataType::UInt16 => DataType::UInt16,
            DataType::UInt32 => DataType::UInt32,
            DataType::UInt64 => DataType::UInt64,
            DataType::Float32 => DataType::Float32,
            DataType::Float64 => DataType::Float64,
            DataType::Utf8 => DataType::Utf8,
            DataType::LargeUtf8 => DataType::LargeUtf8,
            DataType::Utf8View => DataType::Utf8View,
            DataType::Other(name) => DataType::Other(name.clone()),
        }
    }
}

impl DataType {
    /// The name of the type.
    pub open spec fn written_name(self) -> Seq<char> {
        match self {
            DataType::Null => "Null"@,
            DataType::Boolean => "Boolean"@,
            DataType::Int8 => "Int8"@,
            DataType::Int16 => "Int16"@,
            DataType::Int32 => "Int32"@,
            DataType::Int64 => "Int64"@,
            DataType::UInt8 => "UInt8"@,
            DataType::UInt16 => "UInt16"@,
            DataType::UInt32 => "UInt32"@,
            DataType::UInt64 => "UInt64"@,
            DataType::Float32 => "Float32"@,
            DataType::Float64 => "Float64"@,
            DataType::Utf8 => "Utf8"@,
            DataType::LargeUtf8 => "LargeUtf8"@,
            DataType::Utf8View => "Utf8View"@,
            DataType::Other(name) => name@,
        }
    }

    pub fn name(&self) -> (r: &str)
        ensures
            r@ == self.written_name(),
    {
        match self {
            DataType::Null => "Null",
            DataType::Boolean => "Boolean",
            DataType::Int8 => "Int8",
            DataType::Int16 => "Int16",
            DataType::Int32 => "Int32",
            DataType::Int64 => "Int64",
            DataType::UInt8 => "UInt8",
            DataType::UInt16 => "UInt16",
            DataType::UInt32 => "UInt32",
            DataType::UInt64 => "UInt64",
            DataType::Float32 => "Float32",
            DataType::Float64 => "Float64",
            DataType::Utf8 => "Utf8",
            DataType::LargeUtf8 => "LargeUtf8",
            DataType::Utf8View => "Utf8View",
            DataType::Other(name) => name.as_str(),
        }
    }
}

/// A single precision number: its own bits, and the bits of the double
/// precision number that it widens to.
#[derive(Debug, Clone, Copy, PartialEq, Eq, Structural)]
pub struct Single {
    pub bits: u32,
    pub widened: u64,
}

/// A value with its type; `None` is the null of that type, and `Null` the
/// null that has none. Double precision numbers are held by their bits. `T`
/// is the type of text: `String` in values, `Seq<char>` in their views.
#[derive(Debug, PartialEq, Eq)]
pub enum Scalar<T> {
    Null,
    Boolean(Option<bool>),
    Int8(Option<i8>),
    Int16(Option<i16>),
    Int32(Option<i32>),
    Int64(Option<i64>),
    UInt8(Option<u8>),
    UInt16(Option<u16>),
    UInt32(Option<u32>),
    UInt64(Option<u64>),
    Float32(Option<Single>),
    Float64(Option<u64>),
    Utf8(Option<T>),
    LargeUtf8(Option<T>),
    Utf8View(Option<T>),
    /// A value of any other type: the type's name, and a text that tells the
    /// values of that type apart.
    Other { data_type: T, text: Option<T> },
}

pub type ScalarValue = Scalar<String>;

pub type ScalarView = Scalar<Seq<char>>;

/// The view of an optional text.
pub open spec fn text_view(t: Option<String>) -> Option<Seq<char>> {
    match t {
        Some(s) => Some(s@),
        None => None,
    }
}

fn same_optional_text(a: &Option<String>, b: &Option<String>) -> (r: bool)
    ensures
        r == (text_view(*a) == text_view(*b)),
{
    match (a, b) {
        (Some(x), Some(y)) => *x == *y,
        (None, None) => true,
        _ => false,
    }
}

fn copied_text(t: &Option<String>) -> (r: Option<String>)
    ensures
        r == *t,
{
    match t {
        Some(s) => Some(s.clone()),
        None => None,
    }
}

impl View for Scalar<String> {
    type V = Scalar<Seq<char>>;

    open spec fn view(&self) -> Scalar<Seq<char>> {
        match *self {
            Scalar::Null => Scalar::Null,
            Scalar::Boolean(v) => Scalar::Boolean(v),
            Scalar::Int8(v) => Scalar::Int8(v),
            Scalar::Int16(v) => Scalar::Int16(v),
            Scalar::Int32(v) => Scalar::Int32(v),
            Scalar::Int64(v) => Scalar::Int64(v),
            Scalar::UInt8(v) => Scalar::UInt8(v),
            Scalar::UInt16(v) => Scalar::UInt16(v),
            Scalar::UInt32(v) => Scalar::UInt32(v),
            Scalar::UInt64(v) => Scalar::UInt64(v),
            Scalar::Float32(v) => Scalar::Float32(v),
            Scalar::Float64(v) => Scalar::Float64(v),
            Scalar::Utf8(v) => Scalar::Utf8(text_view(v)),
            Scalar::LargeUtf8(v) => Scalar::LargeUtf8(text_view(v)),
            Scalar::Utf8View(v) => Scalar::Utf8View(text_view(v)),
            Scalar::Other { data_type, text } => Scalar::Other {
                data_type: data_type@,
                text: text_view(text),
            },
        }
    }
}

impl<T> Scalar<T> {
    /// Whether this is a null, of any type or none.
    pub open spec fn null(self) -> bool {
        match self {
            Scalar::Null => true,
            Scalar::Boolean(v) => v is None,
            Scalar::Int8(v) => v is None,
            Scalar::Int16(v) => v is None,
            Scalar::Int32(v) => v is None,
            Scalar::Int64(v) => v is None,
            Scalar::UInt8(v) => v is None,
            Scalar::UInt16(v) => v is None,
            Scalar::UInt32(v) => v is None,
            Scalar::UInt64(v) => v is None,
            Scalar::Float32(v) => v is None,
            Scalar::Float64(v) => v is None,
            Scalar::Utf8(v) => v is None,
            Scalar::LargeUtf8(v) => v is None,
            Scalar::Utf8View(v) => v is None,
            Scalar::Other { text, .. } => text is None,
        }
    }

    pub fn is_null(&self) -> (r: bool)
        ensures
            r == self.null(),
    {
        match self {
            Scalar::Null => true,
            Scalar::Boolean(v) => v.is_none(),
            Scalar::Int8(v) => v.is_none(),
            Scalar::Int16(v) => v.is_none(),
            Scalar::Int32(v) => v.is_none(),
            Scalar::Int64(v) => v.is_none(),
            Scalar::UInt8(v) => v.is_none(),
            Scalar::UInt16(v) => v.is_none(),
            Scalar::UInt32(v) => v.is_none(),
            Scalar::UInt64(v) => v.is_none(),
            Scalar::Float32(v) => v.is_none(),
            Scalar::Float64(v) => v.is_none(),
            Scalar::Utf8(v) => v.is_none(),
            Scalar::LargeUtf8(v) => v.is_none(),
            Scalar::Utf8View(v) => v.is_none(),
            Scalar::Other { text, .. } => text.is_none(),
        }
    }
}

impl Scalar<String> {
    /// Whether two values have the same type and the same contents.
    pub fn same(&self, other: &ScalarValue) -> (r: bool)
        ensures
            r == (self@ == other@),
    {
        match (self, other) {
            (Scalar::Null, Scalar::Null) => true,
            (Scalar::Boolean(a), Scalar::Boolean(b)) => *a == *b,
            (Scalar::Int8(a), Scalar::Int8(b)) => *a == *b,
            (Scalar::Int16(a), Scalar::Int16(b)) => *a == *b,
            (Scalar::Int32(a), Scalar::Int32(b)) => *a == *b,
            (Scalar::Int64(a), Scalar::Int64(b)) => *a == *b,
            (Scalar::UInt8(a), Scalar::UInt8(b)) => *a == *b,
            (Scalar::UInt16(a), Scalar::UInt16(b)) => *a == *b,
            (Scalar::UInt32(a), Scalar::UInt32(b)) => *a == *b,
            (Scalar::UInt64(a), Scalar::UInt64(b)) => *a == *b,
            (Scalar::Float32(a), Scalar::Float32(b)) => match (a, b) {
                (Some(x), Some(y)) => *x == *y,
                (None, None) => true,
                _ => false,
            },
            (Scalar::Float64(a), Scalar::Float64(b)) => *a == *b,
            (Scalar::Utf8(a), Scalar::Utf8(b)) => same_optional_text(a, b),
            (Scalar::LargeUtf8(a), Scalar::LargeUtf8(b)) => same_optional_text(a, b),
            (Scalar::Utf8View(a), Scalar::Utf8View(b)) => same_optional_text(a, b),
            (
                Scalar::Other { data_type: s, text: a },
                Scalar::Other { data_type: t, text: b },
            ) => *s == *t && same_optional_text(a, b),
            _ => false,
        }
    }

    /// A copy of this value.
    pub fn copied(&self) -> (r: ScalarValue)
        ensures
            r == *self,
    {
        match self {
            Scalar::Null => Scalar::Null,
            Scalar::Boolean(v) => Scalar::Boolean(*v),
            Scalar::Int8(v) => Scalar::Int8(*v),
            Scalar::Int16(v) => Scalar::Int16(*v),
            Scalar::Int32(v) => Scalar::Int32(*v),
            Scalar::Int64(v) => Scalar::Int64(*v),
            Scalar::UInt8(v) => Scalar::UInt8(*v),
            Scalar::UInt16(v) => Scalar::UInt16(*v),
            Scalar::UInt32(v) => Scalar::UInt32(*v),
            Scalar::UInt64(v) => Scalar::UInt64(*v),
            Scalar::Float32(v) => Scalar::Float32(*v),
            Scalar::Float64(v) => Scalar::Float64(*v),
            Scalar::Utf8(v) => Scalar::Utf8(copied_text(v)),
            Scalar::LargeUtf8(v) => Scalar::LargeUtf8(copied_text(v)),
            Scalar::Utf8View(v) => Scalar::Utf8View(copied_text(v)),
            Scalar::Other { data_type, text } => Scalar::Other {
                data_type: data_type.clone(),
                text: copied_text(text),
            },
        }
    }
}

/// The null of a type.
pub open spec fn null_of(data_type: DataType) -> ScalarView {
    match data_type {
        DataType::Null => Scalar::Null,
        DataType::Boolean => Scalar::Boolean(None),
        DataType::Int8 => Scalar::Int8(None),
        DataType::Int16 => Scalar::Int16(None),
        DataType::Int32 => Scalar::Int32(None),
        DataType::Int64 => Scalar::Int64(None),
        DataType::UInt8 => Scalar::UInt8(None),
        DataType::UInt16 => Scalar::UInt16(None),
        DataType::UInt32 => Scalar::UInt32(None),
        DataType::UInt64 => Scalar::UInt64(None),
        DataType::Float32 => Scalar::Float32(None),
        DataType::Float64 => Scalar::Float64(None),
        DataType::Utf8 => Scalar::Utf8(None),
        DataType::LargeUtf8 => Scalar::LargeUtf8(None),
        DataType::Utf8View => Scalar::Utf8View(None),
        DataType::Other(name) => Scalar::Other { data_type: name@, text: None },
    }
}

pub fn typed_null(data_type: &DataType) -> (r: ScalarValue)
    ensures
        r@ == null_of(*data_type),
        r.null(),
{
    match data_type {
        DataType::Null => Scalar::Null,
        DataType::Boolean => Scalar::Boolean(None),
        DataType::Int8 => Scalar::Int8(None),
        DataType::Int16 => Scalar::Int16(None),
        DataType::Int32 => Scalar::Int32(None),
        DataType::Int64 => Scalar::Int64(None),
        DataType::UInt8 => Scalar::UInt8(None),
        DataType::UInt16 => Scalar::UInt16(None),
        DataType::UInt32 => Scalar::UInt32(None),
        DataType::UInt64 => Scalar::UInt64(None),
        DataType::Float32 => Scalar::Float32(None),
        DataType::Float64 => Scalar::Float64(None),
        DataType::Utf8 => Scalar::Utf8(None),
        DataType::LargeUtf8 => Scalar::LargeUtf8(None),
        DataType::Utf8View => Scalar::Utf8View(None),
        DataType::Other(name) => Scalar::Other { data_type: name.clone(), text: None },
    }
}

/// One column of a schema.
#[derive(Debug, PartialEq, Eq)]
pub struct Field {
    pub name: String,
    pub data_type: DataType,
    pub nullable: bool,
}

impl Field {
    pub fn copied(&self) -> (r: Field)
        ensures
            r == *self,
    {
        Field {
            name: self.name.clone(),
            data_type: self.data_type.copied(),
            nullable: self.nullable,
        }
    }
}

/// The columns of a table or a batch, in order.
#[derive(Debug, PartialEq, Eq)]
pub struct Schema {
    pub fields: Vec<Field>,
}

/// The names of a sequence of columns.
pub open spec fn field_names(fields: Seq<Field>) -> Seq<Seq<char>> {
    fields.map_values(|f: Field| f.name@)
}

impl Schema {
    pub open spec fn names(self) -> Seq<Seq<char>> {
        field_names(self.fields@)
    }

    /// Where a column of that name first stands.
    pub open spec fn position(self, name: Seq<char>) -> Option<int> {
        let i = find(self.names(), name);
        if i < self.fields@.len() {
            Some(i)
        } else {
            None
        }
    }

    pub fn index_of(&self, name: &String) -> (r: Option<usize>)
        ensures
            r is Some <==> self.position(name@) is Some,
            r matches Some(i) ==> self.position(name@) == Some(i as int) && i < self.fields@.len()
                && self.fields@[i as int].name@ == name@,
    {
        let mut i: usize = 0;
        while i < self.fields.len()
            invariant
                i <= self.fields@.len(),
                forall|k: int| 0 <= k < i ==> self.fields@[k].name@ != name@,
            decreases self.fields@.len() - i,
        {
            if self.fields[i].name == *name {
                proof {
                    find_is(self.names(), name@, i as int);
                }
                return Some(i);
            }
            i = i + 1;
        }
        proof {
            find_is(self.names(), name@, i as int);
        }
        None
    }

    pub fn copied(&self) -> (r: Schema)
        ensures
            r.fields@ == self.fields@,
    {
        let mut fields: Vec<Field> = Vec::new();
        let mut i: usize = 0;
        while i < self.fields.len()
            invariant
                i <= self.fields@.len(),
                fields@ == self.fields@.take(i as int),
            decreases self.fields@.len() - i,
        {
            fields.push(self.fields[i].copied());
            i = i + 1;
            assert(fields@ =~= self.fields@.take(i as int));
        }
        assert(fields@ =~= self.fields@);
        Schema { fields }
    }
}

/// A batch of rows, column by column: `columns[c][r]` is the value of column
/// `c` in row `r`.
#[derive(Debug, PartialEq, Eq)]
pub struct RecordBatch {
    pub schema: Schema,
    pub columns: Vec<Vec<ScalarValue>>,
    pub num_rows: usize,
}

impl RecordBatch {
    /// One column per field, one value per row.
    pub open spec fn well_formed(self) -> bool {
        &&& self.columns@.len() == self.schema.fields@.len()
        &&& forall|c: int|
            0 <= c < self.columns@.len() ==> (#[trigger] self.columns@[c])@.len() == self.num_rows
    }

    pub open spec fn cell(self, column: int, row: int) -> ScalarView {
        self.columns@[column]@[row]@
    }
}

/// The views of a sequence of values.
pub open spec fn views(values: Seq<ScalarValue>) -> Seq<ScalarView> {
    values.map_values(|v: ScalarValue| v@)
}

/// Whether a value is of a type.
pub open spec fn is_of_type(value: ScalarView, data_type: DataType) -> bool {
    match value {
        Scalar::Null => data_type is Null,
        Scalar::Boolean(_) => data_type is Boolean,
        Scalar::Int8(_) => data_type is Int8,
        Scalar::Int16(_) => data_type is Int16,
        Scalar::Int32(_) => data_type is Int32,
        Scalar::Int64(_) => data_type is Int64,
        Scalar::UInt8(_) => data_type is UInt8,
        Scalar::UInt16(_) => data_type is UInt16,
        Scalar::UInt32(_) => data_type is UInt32,
        Scalar::UInt64(_) => data_type is UInt64,
        Scalar::Float32(_) => data_type is Float32,
        Scalar::Float64(_) => data_type is Float64,
        Scalar::Utf8(_) => data_type is Utf8,
        Scalar::LargeUtf8(_) => data_type is LargeUtf8,
        Scalar::Utf8View(_) => data_type is Utf8View,
        Scalar::Other { data_type: name, .. } => data_type matches DataType::Other(other)
            && other@ == name,
    }
}

/// Every type has one null: a value of the type is null exactly where it is
/// that one.
pub proof fn every_type_has_one_null(value: ScalarView, data_type: DataType)
    ensures
        is_of_type(null_of(data_type), data_type),
        is_of_type(value, data_type) ==> (value.null() <==> value == null_of(data_type)),
{
}

/// A column is found where it first stands, and not found only where no column
/// has the name.
pub proof fn columns_are_found_by_name(schema: Schema, name: Seq<char>)
    ensures
        match schema.position(name) {
            Some(i) => 0 <= i < schema.fields@.len() && schema.fields@[i].name@ == name && forall|
                k: int,
            |
                0 <= k < i ==> (#[trigger] schema.fields@[k]).name@ != name,
            None => forall|k: int|
                0 <= k < schema.fields@.len() ==> (#[trigger] schema.fields@[k]).name@ != name,
        },
{
    let names = schema.names();
    let i = find(names, name);
    the_first_occurrence_is_found(names, name);
    assert forall|k: int| 0 <= k < i && k < names.len() implies (#[trigger] schema.fields@[k]).name@
        != name by {
        assert(names[k] == schema.fields@[k].name@);
    }
}

/// The view of a value has its type and its contents.
pub proof fn views_keep_the_value(values: Seq<ScalarValue>, i: int)
    requires
        0 <= i < values.len(),
    ensures
        views(values).len() == values.len(),
        match (values[i], views(values)[i]) {
            (Scalar::Null, v) => v is Null,
            (Scalar::Boolean(x), v) => v == Scalar::<Seq<char>>::Boolean(x),
            (Scalar::Int8(x), v) => v == Scalar::<Seq<char>>::Int8(x),
            (Scalar::Int16(x), v) => v == Scalar::<Seq<char>>::Int16(x),
            (Scalar::Int32(x), v) => v == Scalar::<Seq<char>>::Int32(x),
            (Scalar::Int64(x), v) => v == Scalar::<Seq<char>>::Int64(x),
            (Scalar::UInt8(x), v) => v == Scalar::<Seq<char>>::UInt8(x),
            (Scalar::UInt16(x), v) => v == Scalar::<Seq<char>>::UInt16(x),
            (Scalar::UInt32(x), v) => v == Scalar::<Seq<char>>::UInt32(x),
            (Scalar::UInt64(x), v) => v == Scalar::<Seq<char>>::UInt64(x),
            (Scalar::Float32(x), v) => v == Scalar::<Seq<char>>::Float32(x),
            (Scalar::Float64(x), v) => v == Scalar::<Seq<char>>::Float64(x),
            (Scalar::Utf8(x), v) => v matches Scalar::Utf8(y) && same_contents(x, y),
            (Scalar::LargeUtf8(x), v) => v matches Scalar::LargeUtf8(y) && same_contents(x, y),
            (Scalar::Utf8View(x), v) => v matches Scalar::Utf8View(y) && same_contents(x, y),
            (Scalar::Other { data_type, text }, v) => v matches Scalar::Other {
                data_type: other,
                text: y,
            } && data_type@ == other && same_contents(text, y),
        },
{
}

/// Whether an optional text has these characters.
pub open spec fn same_contents(text: Option<String>, chars: Option<Seq<char>>) -> bool {
    match (text, chars) {
        (Some(t), Some(c)) => t@ == c,
        (None, None) => true,
        _ => false,
    }
}

/// The types have names of their own: no two of the plain ones share a name. That of
/// an unsigned type is that of the signed one behind a `U`, and any other type goes
/// by the name that it was given.
pub proof fn types_have_their_own_names(a: DataType, b: DataType)
    ensures
        !(a is Other) && !(b is Other) && a.written_name() == b.written_name() ==> a == b,
        a matches DataType::Other(name) ==> a.written_name() == name@,
        DataType::UInt8.written_name() == seq!['U'] + DataType::Int8.written_name(),
        DataType::UInt16.written_name() == seq!['U'] + DataType::Int16.written_name(),
        DataType::UInt32.written_name() == seq!['U'] + DataType::Int32.written_name(),
        DataType::UInt64.written_name() == seq!['U'] + DataType::Int64.written_name(),
{
    reveal_strlit("Null");
    reveal_strlit("Boolean");
    reveal_strlit("Int8");
    reveal_strlit("Int16");
    reveal_strlit("Int32");
    reveal_strlit("Int64");
    reveal_strlit("UInt8");
    reveal_strlit("UInt16");
    reveal_strlit("UInt32");
    reveal_strlit("UInt64");
    reveal_strlit("Float32");
    reveal_strlit("Float64");
    reveal_strlit("Utf8");
    reveal_strlit("LargeUtf8");
    reveal_strlit("Utf8View");
    let x = a.written_name();
    let y = b.written_name();
    if !(a is Other) && !(b is Other) && x == y {
        assert(x.len() == y.len() && x[0] == y[0] && x.last() == y.last());
    }
    assert("UInt8"@ =~= seq!['U'] + "Int8"@);
    assert("UInt16"@ =~= seq!['U'] + "Int16"@);
    assert("UInt32"@ =~= seq!['U'] + "Int32"@);
    assert("UInt64"@ =~= seq!['U'] + "Int64"@);
}

/// The names of columns are theirs, in their order, and a cell of a batch is the
/// value that its column has in its row.
pub proof fn names_are_those_of_the_fields(
    fields: Seq<Field>,
    i: int,
    batch: RecordBatch,
    c: int,
    r: int,
)
    ensures
        field_names(fields).len() == fields.len(),
        0 <= i < fields.len() ==> field_names(fields)[i] == fields[i].name@,
        batch.well_formed() && 0 <= c < batch.columns@.len() && 0 <= r < batch.num_rows
            ==> batch.columns@[c]@.len() == batch.num_rows && batch.cell(c, r)
            == batch.columns@[c]@[r]@,
        batch.schema.names() == field_names(batch.schema.fields@),
{
}

} // verus!
