//! Arrow data types, fields and schemas.

use vstd::prelude::*;

use std::sync::Arc;

use crate::arrow::metadata::Metadata;
use crate::text::same_text;

verus! {

/// The resolution of a time value.
#[derive(Debug, Clone, Copy, PartialEq, Eq, Structural)]
pub enum TimeUnit {
    Second,
    Millisecond,
    Microsecond,
    Nanosecond,
}

/// The kind of an interval.
#[derive(Debug, Clone, Copy, PartialEq, Eq, Structural)]
pub enum IntervalUnit {
    YearMonth,
    DayTime,
    MonthDayNano,
}

/// The layout of a union.
#[derive(Debug, Clone, Copy, PartialEq, Eq, Structural)]
pub enum UnionMode {
    Sparse,
    Dense,
}

/// A data type without child fields, other than a timestamp.
#[derive(Debug, Clone, Copy, PartialEq, Eq, Structural)]
pub enum LeafType {
    Null,
    Boolean,
    Int8,
    Int16,
    Int32,
    Int64,
    UInt8,
    UInt16,
    UInt32,
    UInt64,
    Float16,
    Float32,
    Float64,
    Date32,
    Date64,
    Time32(TimeUnit),
    Time64(TimeUnit),
    Duration(TimeUnit),
    Interval(IntervalUnit),
    Binary,
    FixedSizeBinary(i32),
    LargeBinary,
    BinaryView,
    Utf8,
    LargeUtf8,
    Utf8View,
    Decimal32(u8, i8),
    Decimal64(u8, i8),
    Decimal128(u8, i8),
    Decimal256(u8, i8),
}

/// A field that several types may share.
pub type FieldRef = Arc<Field>;

/// The child fields of a struct, or the columns of a schema.
pub type Fields = Arc<Vec<FieldRef>>;

/// An Arrow data type.
#[derive(Debug, PartialEq, Eq)]
pub enum DataType {
    Leaf(LeafType),
    Timestamp(TimeUnit, Option<String>),
    List(FieldRef),
    ListView(FieldRef),
    FixedSizeList(FieldRef, i32),
    LargeList(FieldRef),
    LargeListView(FieldRef),
    Struct(Fields),
    Union(Arc<Vec<(i8, FieldRef)>>, UnionMode),
    Dictionary(Arc<DataType>, Arc<DataType>),
    MapOf(FieldRef, bool),
    RunEndEncoded(FieldRef, FieldRef),
}

/// A named, typed and annotated column, at the top level or nested.
#[derive(Debug, PartialEq, Eq)]
pub struct Field {
    pub name: String,
    pub data_type: DataType,
    pub nullable: bool,
    pub metadata: Metadata,
}

/// A list of top-level fields with annotations.
#[derive(Debug, PartialEq, Eq)]
pub struct ArrowSchema {
    pub fields: Fields,
    pub metadata: Metadata,
}

/// What a [`DataType`] is, without its representation.
pub enum DataTypeView {
    Leaf(LeafType),
    Timestamp(TimeUnit, Option<Seq<char>>),
    List(Box<FieldView>),
    ListView(Box<FieldView>),
    FixedSizeList(Box<FieldView>, i32),
    LargeList(Box<FieldView>),
    LargeListView(Box<FieldView>),
    Struct(Seq<FieldView>),
    Union(Seq<(i8, FieldView)>, UnionMode),
    Dictionary(Box<DataTypeView>, Box<DataTypeView>),
    MapOf(Box<FieldView>, bool),
    RunEndEncoded(Box<FieldView>, Box<FieldView>),
}

/// What a [`Field`] is, without its representation.
pub struct FieldView {
    pub name: Seq<char>,
    pub data_type: DataTypeView,
    pub nullable: bool,
    pub metadata: Map<Seq<char>, Seq<char>>,
}

/// What an [`ArrowSchema`] is, without its representation.
pub struct ArrowSchemaView {
    pub fields: Seq<FieldView>,
    pub metadata: Map<Seq<char>, Seq<char>>,
}

/// The text of an optional string.
pub open spec fn optional_text(s: Option<String>) -> Option<Seq<char>> {
    match s {
        Some(text) => Some(text@),
        None => None,
    }
}

impl DataType {
    /// What the type is.
    pub open spec fn model(self) -> DataTypeView
        decreases self,
    {
        match self {
            DataType::Leaf(leaf) => DataTypeView::Leaf(leaf),
            DataType::Timestamp(unit, zone) => DataTypeView::Timestamp(unit, optional_text(zone)),
            DataType::List(field) => DataTypeView::List(Box::new((*field).model())),
            DataType::ListView(field) => DataTypeView::ListView(Box::new((*field).model())),
            DataType::FixedSizeList(field, size) => DataTypeView::FixedSizeList(
                Box::new((*field).model()),
                size,
            ),
            DataType::LargeList(field) => DataTypeView::LargeList(Box::new((*field).model())),
            DataType::LargeListView(field) => DataTypeView::LargeListView(
                Box::new((*field).model()),
            ),
            DataType::Struct(fields) => DataTypeView::Struct(
                Seq::new(
                    fields@.len(),
                    |i: int|
                        if 0 <= i < fields@.len() {
                            (*fields@[i]).model()
                        } else {
                            arbitrary()
                        },
                ),
            ),
            DataType::Union(fields, mode) => DataTypeView::Union(
                Seq::new(
                    fields@.len(),
                    |i: int|
                        if 0 <= i < fields@.len() {
                            (fields@[i].0, (*fields@[i].1).model())
                        } else {
                            arbitrary()
                        },
                ),
                mode,
            ),
            DataType::Dictionary(keys, values) => DataTypeView::Dictionary(
                Box::new((*keys).model()),
                Box::new((*values).model()),
            ),
            DataType::MapOf(field, sorted) => DataTypeView::MapOf(
                Box::new((*field).model()),
                sorted,
            ),
            DataType::RunEndEncoded(ends, values) => DataTypeView::RunEndEncoded(
                Box::new((*ends).model()),
                Box::new((*values).model()),
            ),
        }
    }
}

impl Field {
    /// What the field is.
    pub open spec fn model(self) -> FieldView
        decreases self,
    {
        FieldView {
            name: self.name@,
            data_type: self.data_type.model(),
            nullable: self.nullable,
            metadata: self.metadata@,
        }
    }
}

/// What the fields of a list are.
pub open spec fn field_models(fields: Seq<FieldRef>) -> Seq<FieldView> {
    fields.map_values(|f: FieldRef| (*f).model())
}

impl View for DataType {
    type V = DataTypeView;

    open spec fn view(&self) -> DataTypeView {
        (*self).model()
    }
}

impl View for Field {
    type V = FieldView;

    open spec fn view(&self) -> FieldView {
        (*self).model()
    }
}

impl View for ArrowSchema {
    type V = ArrowSchemaView;

    open spec fn view(&self) -> ArrowSchemaView {
        ArrowSchemaView { fields: field_models(self.fields@), metadata: self.metadata@ }
    }
}

impl Clone for DataType {
    fn clone(&self) -> (r: DataType)
        ensures
            r == *self,
    {
        match self {
            DataType::Leaf(leaf) => DataType::Leaf(*leaf),
            DataType::Timestamp(unit, zone) => match zone {
                Some(text) => DataType::Timestamp(*unit, Some(text.clone())),
                None => DataType::Timestamp(*unit, None),
            },
            DataType::List(field) => DataType::List(field.clone()),
            DataType::ListView(field) => DataType::ListView(field.clone()),
            DataType::FixedSizeList(field, size) => DataType::FixedSizeList(field.clone(), *size),
            DataType::LargeList(field) => DataType::LargeList(field.clone()),
            DataType::LargeListView(field) => DataType::LargeListView(field.clone()),
            DataType::Struct(fields) => DataType::Struct(fields.clone()),
            DataType::Union(fields, mode) => DataType::Union(fields.clone(), *mode),
            DataType::Dictionary(keys, values) => DataType::Dictionary(
                keys.clone(),
                values.clone(),
            ),
            DataType::MapOf(field, sorted) => DataType::MapOf(field.clone(), *sorted),
            DataType::RunEndEncoded(ends, values) => DataType::RunEndEncoded(
                ends.clone(),
                values.clone(),
            ),
        }
    }
}

impl Clone for Field {
    fn clone(&self) -> (r: Field)
        ensures
            r == *self,
    {
        Field {
            name: self.name.clone(),
            data_type: self.data_type.clone(),
            nullable: self.nullable,
            metadata: self.metadata.clone(),
        }
    }
}

impl Field {
    /// A field without annotations.
    pub fn new(name: &str, data_type: DataType, nullable: bool) -> (r: Field)
        ensures
            r@ == (FieldView {
                name: name@,
                data_type: data_type@,
                nullable,
                metadata: Map::empty(),
            }),
    {
        Field { name: name.to_owned(), data_type, nullable, metadata: Metadata::empty() }
    }

    /// The field with its annotations replaced by `metadata`.
    pub fn with_metadata(self, metadata: Metadata) -> (r: Field)
        ensures
            r@ == (FieldView { metadata: metadata@, ..self@ }),
    {
        Field { name: self.name, data_type: self.data_type, nullable: self.nullable, metadata }
    }

    /// The field with its nullability replaced.
    pub fn with_nullable(self, nullable: bool) -> (r: Field)
        ensures
            r@ == (FieldView { nullable, ..self@ }),
    {
        Field { name: self.name, data_type: self.data_type, nullable, metadata: self.metadata }
    }
}

/// The first position in `fields` whose name is `name`, if there is one.
pub open spec fn position_of(fields: Seq<FieldView>, name: Seq<char>) -> Option<int>
    decreases fields.len(),
{
    if fields.len() == 0 {
        None
    } else if fields[0].name == name {
        Some(0)
    } else {
        match position_of(fields.drop_first(), name) {
            Some(i) => Some(i + 1),
            None => None,
        }
    }
}

/// A position is the first of its name exactly when the name stands there and not before.
pub proof fn lemma_position_of(fields: Seq<FieldView>, name: Seq<char>, i: int)
    requires
        0 <= i <= fields.len(),
        forall|j: int| 0 <= j < i ==> (#[trigger] fields[j]).name != name,
    ensures
        i < fields.len() && fields[i].name == name ==> position_of(fields, name) == Some(i),
        i == fields.len() ==> position_of(fields, name) is None,
    decreases i,
{
    if i > 0 {
        let tail = fields.drop_first();
        assert forall|j: int| 0 <= j < i - 1 implies (#[trigger] tail[j]).name != name by {
            assert(tail[j] == fields[j + 1]);
        }
        assert(fields[0].name != name);
        lemma_position_of(tail, name, i - 1);
        if i < fields.len() {
            assert(tail[i - 1] == fields[i]);
        }
    }
}

/// A field that is added behind others is the first of its name where no other has it.
pub proof fn lemma_position_of_push(fields: Seq<FieldView>, field: FieldView, name: Seq<char>)
    ensures
        position_of(fields.push(field), name) == (match position_of(fields, name) {
            Some(i) => Some(i),
            None => if field.name == name {
                Some(fields.len() as int)
            } else {
                None
            },
        }),
        position_of(fields, name) matches Some(i) ==> 0 <= i < fields.len() && fields[i].name
            == name,
    decreases fields.len(),
{
    let longer = fields.push(field);
    if fields.len() == 0 {
        assert(longer.drop_first() =~= fields);
    } else {
        assert(longer.drop_first() =~= fields.drop_first().push(field));
        lemma_position_of_push(fields.drop_first(), field, name);
    }
}

/// The position of the first field of `fields` whose name is `name`.
pub fn find_field(fields: &Vec<FieldRef>, name: &str) -> (r: Option<usize>)
    ensures
        match r {
            Some(i) => i < fields@.len() && position_of(field_models(fields@), name@) == Some(
                i as int,
            ),
            None => position_of(field_models(fields@), name@) is None,
        },
{
    let ghost models = field_models(fields@);
    let mut i: usize = 0;
    while i < fields.len()
        invariant
            i <= fields@.len(),
            models == field_models(fields@),
            forall|j: int| 0 <= j < i ==> (#[trigger] models[j]).name != name@,
        decreases fields@.len() - i,
    {
        assert(models[i as int].name == fields@[i as int].name@);
        if same_text(fields[i].name.as_str(), name) {
            proof {
                lemma_position_of(models, name@, i as int);
            }
            return Some(i);
        }
        i += 1;
    }
    proof {
        lemma_position_of(models, name@, i as int);
    }
    None
}

pub(crate) fn same_optional_text(a: &Option<String>, b: &Option<String>) -> (r: bool)
    ensures
        r == (optional_text(*a) == optional_text(*b)),
{
    match (a, b) {
        (Some(x), Some(y)) => same_text(x.as_str(), y.as_str()),
        (None, None) => true,
        _ => false,
    }
}

/// Whether two data types are the same.
pub fn same_type(a: &DataType, b: &DataType) -> (r: bool)
    ensures
        r == (a@ == b@),
    decreases a,
{
    match (a, b) {
        (DataType::Leaf(x), DataType::Leaf(y)) => *x == *y,
        (DataType::Timestamp(x, zone), DataType::Timestamp(y, other)) => {
            *x == *y && same_optional_text(zone, other)
        },
        (DataType::List(x), DataType::List(y)) => same_field(x, y),
        (DataType::ListView(x), DataType::ListView(y)) => same_field(x, y),
        (DataType::FixedSizeList(x, n), DataType::FixedSizeList(y, m)) => {
            *n == *m && same_field(x, y)
        },
        (DataType::LargeList(x), DataType::LargeList(y)) => same_field(x, y),
        (DataType::LargeListView(x), DataType::LargeListView(y)) => same_field(x, y),
        (DataType::Struct(xs), DataType::Struct(ys)) => {
            let ghost left = a@->Struct_0;
            let ghost right = b@->Struct_0;
            if xs.len() != ys.len() {
                assert(left.len() != right.len());
                return false;
            }
            let mut i: usize = 0;
            while i < xs.len()
                invariant
                    *a == DataType::Struct(*xs),
                    *b == DataType::Struct(*ys),
                    left == a@->Struct_0,
                    right == b@->Struct_0,
                    i <= xs@.len(),
                    xs@.len() == ys@.len(),
                    left.len() == xs@.len(),
                    right.len() == xs@.len(),
                    forall|j: int| 0 <= j < i ==> #[trigger] left[j] == right[j],
                decreases xs@.len() - i,
            {
                assert(decreases_to!(*a => xs@[i as int]));
                if !same_field(&xs[i], &ys[i]) {
                    assert(left[i as int] != right[i as int]);
                    return false;
                }
                i += 1;
            }
            assert(left =~= right);
            true
        },
        (DataType::Union(xs, m), DataType::Union(ys, n)) => {
            let ghost left = a@->Union_0;
            let ghost right = b@->Union_0;
            if *m != *n || xs.len() != ys.len() {
                assert(*m != *n || left.len() != right.len());
                return false;
            }
            let mut i: usize = 0;
            while i < xs.len()
                invariant
                    *a == DataType::Union(*xs, *m),
                    *b == DataType::Union(*ys, *n),
                    left == a@->Union_0,
                    right == b@->Union_0,
                    i <= xs@.len(),
                    xs@.len() == ys@.len(),
                    left.len() == xs@.len(),
                    right.len() == xs@.len(),
                    forall|j: int| 0 <= j < i ==> #[trigger] left[j] == right[j],
                decreases xs@.len() - i,
            {
                assert(decreases_to!(*a => xs@[i as int].1));
                if xs[i].0 != ys[i].0 || !same_field(&xs[i].1, &ys[i].1) {
                    assert(left[i as int] != right[i as int]);
                    return false;
                }
                i += 1;
            }
            assert(left =~= right);
            true
        },
        (DataType::Dictionary(k, v), DataType::Dictionary(l, w)) => {
            same_type(k, l) && same_type(v, w)
        },
        (DataType::MapOf(x, s), DataType::MapOf(y, t)) => *s == *t && same_field(x, y),
        (DataType::RunEndEncoded(e, v), DataType::RunEndEncoded(f, w)) => {
            same_field(e, f) && same_field(v, w)
        },
        _ => false,
    }
}

/// Whether two fields are the same, their annotations included.
pub fn same_field(a: &Field, b: &Field) -> (r: bool)
    ensures
        r == (a@ == b@),
    decreases a,
{
    same_text(a.name.as_str(), b.name.as_str()) && a.nullable == b.nullable && a.metadata
        == b.metadata && same_type(&a.data_type, &b.data_type)
}

impl Clone for ArrowSchema {
    fn clone(&self) -> (r: ArrowSchema)
        ensures
            r == *self,
    {
        ArrowSchema { fields: self.fields.clone(), metadata: self.metadata.clone() }
    }
}

impl ArrowSchema {
    /// A schema without annotations.
    pub fn new(fields: Vec<FieldRef>) -> (r: ArrowSchema)
        ensures
            r@ == (ArrowSchemaView { fields: field_models(fields@), metadata: Map::empty() }),
    {
        ArrowSchema { fields: Arc::new(fields), metadata: Metadata::empty() }
    }

    /// A schema with annotations.
    pub fn new_with_metadata(fields: Vec<FieldRef>, metadata: Metadata) -> (r: ArrowSchema)
        ensures
            r@ == (ArrowSchemaView { fields: field_models(fields@), metadata: metadata@ }),
    {
        ArrowSchema { fields: Arc::new(fields), metadata }
    }

    /// The position of the first column with the given name.
    pub fn column_with_name(&self, name: &str) -> (r: Option<usize>)
        ensures
            match r {
                Some(i) => i < self@.fields.len() && position_of(self@.fields, name@) == Some(
                    i as int,
                ),
                None => position_of(self@.fields, name@) is None,
            },
    {
        find_field(&self.fields, name)
    }

    /// The columns at `indices`, in that order, with the same annotations.
    pub fn project(&self, indices: &Vec<usize>) -> (r: ArrowSchema)
        requires
            forall|k: int| 0 <= k < indices@.len() ==> #[trigger] indices@[k] < self@.fields.len(),
        ensures
            r@ == (ArrowSchemaView {
                fields: indices@.map_values(|i: usize| self@.fields[i as int]),
                metadata: self@.metadata,
            }),
    {
        let mut fields: Vec<FieldRef> = Vec::new();
        let mut k: usize = 0;
        while k < indices.len()
            invariant
                k <= indices@.len(),
                fields@.len() == k,
                forall|j: int|
                    0 <= j < indices@.len() ==> #[trigger] indices@[j] < self@.fields.len(),
                forall|j: int|
                    0 <= j < k ==> #[trigger] fields@[j] == self.fields@[indices@[j] as int],
            decreases indices@.len() - k,
        {
            fields.push(self.fields[indices[k]].clone());
            k += 1;
        }
        assert(field_models(fields@) =~= indices@.map_values(
            |i: usize| self@.fields[i as int],
        ));
        ArrowSchema { fields: Arc::new(fields), metadata: self.metadata.clone() }
    }
}

} // verus!
