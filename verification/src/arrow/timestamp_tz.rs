//! Timestamp time zones of schemas that come from Parquet files.

use vstd::prelude::*;

use std::sync::Arc;

use crate::arrow::notation::type_text;
use crate::arrow::schema::{
    field_models, ArrowSchema, ArrowSchemaView, DataType, DataTypeView, Field, FieldRef, FieldView,
    LeafType,
};
use crate::error::{Error, ErrorKind, ErrorView};
use crate::table::schema::{entry_by_id, FieldEntry, PrimitiveType, Schema};
use crate::text::{parse_i32, parsed_i32, same_text};

verus! {

/// The zone that tables use for timestamps with a time zone.
pub const UTC_TIME_ZONE: &'static str = "+00:00";

/// The annotation under which a Parquet reader records a field's id.
pub const PARQUET_FIELD_ID_META_KEY: &'static str = "PARQUET:field_id";

/// Whether `field`'s annotations give the id of a table field that is a timestamp with zone.
pub open spec fn is_timestamptz(field: FieldView, entries: Seq<FieldEntry>) -> bool {
    &&& field.metadata.contains_key(PARQUET_FIELD_ID_META_KEY@)
    &&& parsed_i32(field.metadata[PARQUET_FIELD_ID_META_KEY@]) matches Some(id)
    &&& entry_by_id(entries, id) matches Some(entry)
    &&& (entry.primitive == Some(PrimitiveType::Timestamptz) || entry.primitive == Some(
        PrimitiveType::TimestamptzNs,
    ))
}

/// The type that `field` is rewritten to: for a timestamp in a zone other than
/// [`UTC_TIME_ZONE`] whose table field is a timestamp with zone, the same in
/// [`UTC_TIME_ZONE`]. Other fields are not rewritten.
pub open spec fn rewritten_type(
    field: FieldView,
    entries: Seq<FieldEntry>,
) -> Option<DataTypeView> {
    match field.data_type {
        DataTypeView::Timestamp(unit, Some(zone)) => if zone != UTC_TIME_ZONE@ && is_timestamptz(
            field,
            entries,
        ) {
            Some(DataTypeView::Timestamp(unit, Some(UTC_TIME_ZONE@)))
        } else {
            None
        },
        _ => None,
    }
}

/// Whether the walk over a schema knows how to pass through `data_type`.
pub open spec fn visitable(data_type: DataTypeView) -> bool
    decreases data_type,
{
    match data_type {
        DataTypeView::Leaf(leaf) => leaf != LeafType::Null,
        DataTypeView::Timestamp(_, _) => true,
        DataTypeView::List(element) => visitable(element.data_type),
        DataTypeView::LargeList(element) => visitable(element.data_type),
        DataTypeView::FixedSizeList(element, _) => visitable(element.data_type),
        DataTypeView::Struct(fields) => forall|i: int|
            0 <= i < fields.len() ==> visitable((#[trigger] fields[i]).data_type),
        DataTypeView::MapOf(pair, _) => match pair.data_type {
            DataTypeView::Struct(fields) => fields.len() == 2 && visitable(fields[0].data_type)
                && visitable(fields[1].data_type),
            _ => false,
        },
        DataTypeView::Dictionary(_, values) => visitable(*values),
        _ => false,
    }
}

/// The field that holds the entries of a map, with its key and value replaced.
pub open spec fn pair_field(pair: FieldView, key: FieldView, value: FieldView) -> FieldView {
    FieldView { data_type: DataTypeView::Struct(seq![key, value]), ..pair }
}

/// What `field` becomes when its type is rebuilt from `data_type`: every nested field is
/// rebuilt in turn, and the zone of each timestamp that is to be rewritten is replaced. The
/// values of a dictionary belong to no field of their own, so that only fields inside them are
/// rewritten.
pub open spec fn coerced(
    field: FieldView,
    data_type: DataTypeView,
    entries: Seq<FieldEntry>,
) -> FieldView
    decreases data_type,
{
    let rebuilt = match data_type {
        DataTypeView::List(element) => DataTypeView::List(
            Box::new(coerced(*element, element.data_type, entries)),
        ),
        DataTypeView::LargeList(element) => DataTypeView::LargeList(
            Box::new(coerced(*element, element.data_type, entries)),
        ),
        DataTypeView::FixedSizeList(element, size) => DataTypeView::FixedSizeList(
            Box::new(coerced(*element, element.data_type, entries)),
            size,
        ),
        DataTypeView::Struct(fields) => DataTypeView::Struct(
            Seq::new(
                fields.len(),
                |i: int|
                    if 0 <= i < fields.len() {
                        coerced(fields[i], fields[i].data_type, entries)
                    } else {
                        arbitrary()
                    },
            ),
        ),
        DataTypeView::MapOf(pair, sorted) => match pair.data_type {
            DataTypeView::Struct(fields) => if fields.len() == 2 {
                DataTypeView::MapOf(
                    Box::new(
                        pair_field(
                            *pair,
                            coerced(fields[0], fields[0].data_type, entries),
                            coerced(fields[1], fields[1].data_type, entries),
                        ),
                    ),
                    sorted,
                )
            } else {
                data_type
            },
            _ => data_type,
        },
        DataTypeView::Dictionary(keys, values) => DataTypeView::Dictionary(
            keys,
            Box::new(coerced(field, *values, entries).data_type),
        ),
        _ => match rewritten_type(field, entries) {
            Some(rewritten) => rewritten,
            None => data_type,
        },
    };
    FieldView { data_type: rebuilt, ..field }
}

/// Whether rebuilding `field` from `data_type` replaces a zone somewhere.
pub open spec fn rewrites(
    field: FieldView,
    data_type: DataTypeView,
    entries: Seq<FieldEntry>,
) -> bool
    decreases data_type,
{
    match data_type {
        DataTypeView::List(element) => rewrites(*element, element.data_type, entries),
        DataTypeView::LargeList(element) => rewrites(*element, element.data_type, entries),
        DataTypeView::FixedSizeList(element, _) => rewrites(*element, element.data_type, entries),
        DataTypeView::Struct(fields) => exists|i: int|
            0 <= i < fields.len() && rewrites(#[trigger] fields[i], fields[i].data_type, entries),
        DataTypeView::MapOf(pair, _) => match pair.data_type {
            DataTypeView::Struct(fields) => fields.len() == 2 && (rewrites(
                fields[0],
                fields[0].data_type,
                entries,
            ) || rewrites(fields[1], fields[1].data_type, entries)),
            _ => false,
        },
        DataTypeView::Dictionary(_, values) => rewrites(field, *values, entries),
        _ => rewritten_type(field, entries) is Some,
    }
}

/// The schema that replaces `schema`: none if the walk cannot pass through some column, or if
/// no zone has to be replaced.
pub open spec fn coerced_schema(
    schema: ArrowSchemaView,
    entries: Seq<FieldEntry>,
) -> Option<ArrowSchemaView> {
    if (forall|i: int|
        0 <= i < schema.fields.len() ==> visitable((#[trigger] schema.fields[i]).data_type)) && (
    exists|i: int|
        0 <= i < schema.fields.len() && rewrites(
            #[trigger] schema.fields[i],
            schema.fields[i].data_type,
            entries,
        )) {
        Some(
            ArrowSchemaView {
                fields: schema.fields.map_values(|f: FieldView| coerced(f, f.data_type, entries)),
                metadata: schema.metadata,
            },
        )
    } else {
        None
    }
}

/// An error that a walk over a schema does not lead to.
pub open spec fn unexpected(message: Seq<char>) -> ErrorView {
    ErrorView { kind: ErrorKind::Unexpected, message }
}

/// Replaces the zone of timestamps by [`UTC_TIME_ZONE`] wherever the table field is a timestamp
/// with zone.
///
/// A Parquet reader gives such columns the zone `UTC`, a table gives them `+00:00`. The two mean
/// the same but are unequal as types, so a schema read from a file has to be brought to the
/// table's form before the two are compared. Returns `None` when nothing has to be rewritten.
pub fn coerce_timestamp_tz(arrow_schema: &ArrowSchema, iceberg_schema: &Schema) -> (r: Option<
    ArrowSchema,
>)
    ensures
        match r {
            Some(schema) => coerced_schema(arrow_schema@, iceberg_schema.entries()) == Some(
                schema@,
            ),
            None => coerced_schema(arrow_schema@, iceberg_schema.entries()) is None,
        },
{
    let mut visitor: TimestampTzCoercionVisitor = TimestampTzCoercionVisitor::new(iceberg_schema);
    match visitor.visit_schema(arrow_schema) {
        Ok(coerced) => if visitor.changed {
            Some(coerced)
        } else {
            None
        },
        Err(_) => None,
    }
}

/// Rebuilds a schema field by field and replaces zones on the way.
pub struct TimestampTzCoercionVisitor<'a> {
    iceberg_schema: &'a Schema,
    /// The fields from the top level down to the one being rebuilt.
    field_stack: Vec<Field>,
    /// Whether a zone has been replaced so far.
    changed: bool,
}

impl<'a> TimestampTzCoercionVisitor<'a> {
    /// The table fields that zones are decided by.
    pub closed spec fn entries(self) -> Seq<FieldEntry> {
        self.iceberg_schema.entries()
    }

    /// The fields from the top level down to the one being rebuilt.
    pub closed spec fn stack(self) -> Seq<Field> {
        self.field_stack@
    }

    /// Whether a zone has been replaced so far.
    pub closed spec fn has_changed(self) -> bool {
        self.changed
    }

    /// A visitor that has seen no field.
    pub fn new(iceberg_schema: &'a Schema) -> (r: TimestampTzCoercionVisitor<'a>)
        ensures
            r.entries() == iceberg_schema.entries(),
            r.stack().len() == 0,
            !r.has_changed(),
    {
        TimestampTzCoercionVisitor { iceberg_schema, field_stack: Vec::new(), changed: false }
    }

    /// The type that `field` is to be rewritten to, if it is.
    pub fn target_type(&self, field: &Field) -> (r: Option<DataType>)
        ensures
            match r {
                Some(data_type) => rewritten_type(field@, self.entries()) == Some(data_type@),
                None => rewritten_type(field@, self.entries()) is None,
            },
    {
        match &field.data_type {
            DataType::Timestamp(unit, Some(zone)) => {
                if same_text(zone.as_str(), UTC_TIME_ZONE) {
                    return None;
                }
                let id: Option<i32> = match field.metadata.get(PARQUET_FIELD_ID_META_KEY) {
                    Some(text) => parse_i32(text.as_str()),
                    None => None,
                };
                let iceberg_is_timestamptz: bool = match id {
                    Some(id) => match self.iceberg_schema.field_by_id(id) {
                        Some(counterpart) => match counterpart.primitive {
                            Some(PrimitiveType::Timestamptz) => true,
                            Some(PrimitiveType::TimestamptzNs) => true,
                            _ => false,
                        },
                        None => false,
                    },
                    None => false,
                };
                if iceberg_is_timestamptz {
                    Some(DataType::Timestamp(*unit, Some(UTC_TIME_ZONE.to_owned())))
                } else {
                    None
                }
            },
            _ => None,
        }
    }

    /// Enters `field`.
    pub fn before_field(&mut self, field: &Field)
        ensures
            final(self).stack() == old(self).stack().push(*field),
            final(self).entries() == old(self).entries(),
            final(self).has_changed() == old(self).has_changed(),
    {
        self.field_stack.push(field.clone());
    }

    /// Leaves the field that was entered last, if there is one.
    pub fn after_field(&mut self)
        ensures
            final(self).stack() == (if old(self).stack().len() > 0 {
                old(self).stack().drop_last()
            } else {
                old(self).stack()
            }),
            final(self).entries() == old(self).entries(),
            final(self).has_changed() == old(self).has_changed(),
    {
        self.field_stack.pop();
    }

    /// The field being rebuilt, with `data_type` for its type.
    fn rebuilt(&self, data_type: DataType, context: &str) -> (r: Result<Field, Error>)
        ensures
            r is Ok <==> self.stack().len() > 0,
            match r {
                Ok(field) => field@ == (FieldView {
                    data_type: data_type@,
                    ..self.stack().last()@
                }),
                Err(error) => error@ == unexpected(context@),
            },
    {
        let depth: usize = self.field_stack.len();
        if depth == 0 {
            return Err(Error::new(ErrorKind::Unexpected, context));
        }
        let info: &Field = &self.field_stack[depth - 1];
        Ok(
            Field::new(info.name.as_str(), data_type, info.nullable).with_metadata(
                info.metadata.clone(),
            ),
        )
    }

    /// Rebuilds the schema from its rebuilt columns.
    pub fn schema(&self, schema: &ArrowSchema, values: Vec<FieldRef>) -> (r: ArrowSchema)
        ensures
            r@ == (ArrowSchemaView {
                fields: field_models(values@),
                metadata: schema@.metadata,
            }),
    {
        ArrowSchema::new_with_metadata(values, schema.metadata.clone())
    }

    /// Rebuilds a struct from its rebuilt children.
    pub fn structure(&self, results: Vec<FieldRef>) -> (r: Result<Field, Error>)
        ensures
            r is Ok <==> self.stack().len() > 0,
            r matches Ok(field) ==> field@ == (FieldView {
                data_type: DataTypeView::Struct(field_models(results@)),
                ..self.stack().last()@
            }),
            r matches Err(error) ==> error@ == unexpected("Field stack underflow in struct"@),
    {
        let data_type: DataType = DataType::Struct(Arc::new(results));
        assert(data_type@ matches DataTypeView::Struct(fields) && fields =~= field_models(
            results@,
        ));
        self.rebuilt(data_type, "Field stack underflow in struct")
    }

    /// Rebuilds a list from its rebuilt element.
    pub fn list(&self, list: &DataType, value: Field) -> (r: Result<Field, Error>)
        ensures
            r is Ok <==> self.stack().len() > 0 && (list is List || list is LargeList
                || list is FixedSizeList),
            r matches Ok(field) ==> field@ == (FieldView {
                data_type: match list@ {
                    DataTypeView::LargeList(_) => DataTypeView::LargeList(Box::new(value@)),
                    DataTypeView::FixedSizeList(_, size) => DataTypeView::FixedSizeList(
                        Box::new(value@),
                        size,
                    ),
                    _ => DataTypeView::List(Box::new(value@)),
                },
                ..self.stack().last()@
            }),
            r matches Err(error) ==> error@ == unexpected(
                if self.stack().len() == 0 {
                    "Field stack underflow in list"@
                } else {
                    "Expected list type, got "@ + type_text(list@)
                },
            ),
    {
        if self.field_stack.is_empty() {
            return Err(Error::new(ErrorKind::Unexpected, "Field stack underflow in list"));
        }
        let list_type: DataType = match list {
            DataType::List(_) => DataType::List(Arc::new(value)),
            DataType::LargeList(_) => DataType::LargeList(Arc::new(value)),
            DataType::FixedSizeList(_, size) => DataType::FixedSizeList(Arc::new(value), *size),
            _ => {
                let mut message: String = "Expected list type, got ".to_owned();
                message.append(list.notation().as_str());
                return Err(Error { kind: ErrorKind::Unexpected, message });
            },
        };
        self.rebuilt(list_type, "Field stack underflow in list")
    }

    /// Rebuilds a map from its rebuilt key and value. The field that holds the entries keeps its
    /// name, nullability and annotations.
    pub fn map(&self, map: &DataType, key: Field, value: Field) -> (r: Result<Field, Error>)
        ensures
            r is Ok <==> self.stack().len() > 0 && map is MapOf,
            r matches Ok(field) ==> field@ == (FieldView {
                data_type: DataTypeView::MapOf(
                    Box::new(pair_field((*map->MapOf_0)@, key@, value@)),
                    map->MapOf_1,
                ),
                ..self.stack().last()@
            }),
            r matches Err(error) ==> error@ == unexpected(
                if self.stack().len() == 0 {
                    "Field stack underflow in map"@
                } else {
                    "Expected map type, got "@ + type_text(map@)
                },
            ),
    {
        if self.field_stack.is_empty() {
            return Err(Error::new(ErrorKind::Unexpected, "Field stack underflow in map"));
        }
        let (pair, sorted): (&FieldRef, bool) = match map {
            DataType::MapOf(pair, sorted) => (pair, *sorted),
            _ => {
                let mut message: String = "Expected map type, got ".to_owned();
                message.append(map.notation().as_str());
                return Err(Error { kind: ErrorKind::Unexpected, message });
            },
        };
        let ghost parts = seq![key@, value@];
        let mut members: Vec<FieldRef> = Vec::new();
        members.push(Arc::new(key));
        members.push(Arc::new(value));
        let struct_type: DataType = DataType::Struct(Arc::new(members));
        assert(struct_type@ matches DataTypeView::Struct(fields) && fields =~= parts);
        let struct_field: Field = Field::new(
            pair.name.as_str(),
            struct_type,
            pair.nullable,
        ).with_metadata(pair.metadata.clone());
        self.rebuilt(
            DataType::MapOf(Arc::new(struct_field), sorted),
            "Field stack underflow in map",
        )
    }

    /// Rebuilds a field without children, in its new zone where it gets one.
    pub fn primitive(&mut self, p: &DataType) -> (r: Result<Field, Error>)
        ensures
            final(self).stack() == old(self).stack(),
            final(self).entries() == old(self).entries(),
            r is Ok <==> old(self).stack().len() > 0,
            match r {
                Ok(field) => {
                    let info = old(self).stack().last()@;
                    let target = rewritten_type(info, old(self).entries());
                    &&& field@ == (FieldView {
                        data_type: match target {
                            Some(data_type) => data_type,
                            None => p@,
                        },
                        ..info
                    })
                    &&& final(self).has_changed() == (old(self).has_changed() || target is Some)
                },
                Err(error) => error@ == unexpected("Field stack underflow in primitive"@)
                    && final(self).has_changed() == old(self).has_changed(),
            },
    {
        let depth: usize = self.field_stack.len();
        if depth == 0 {
            return Err(Error::new(ErrorKind::Unexpected, "Field stack underflow in primitive"));
        }
        match self.target_type(&self.field_stack[depth - 1]) {
            Some(target_type) => {
                self.changed = true;
                self.rebuilt(target_type, "Field stack underflow in primitive")
            },
            None => self.rebuilt(p.clone(), "Field stack underflow in primitive"),
        }
    }

    /// Rebuilds `field` and all fields inside it.
    fn visit_field(&mut self, field: &Field) -> (r: Result<Field, Error>)
        ensures
            final(self).entries() == old(self).entries(),
            r is Ok <==> visitable(field@.data_type),
            r matches Err(error) ==> error.kind == ErrorKind::DataInvalid,
            r matches Ok(rebuilt) ==> {
                &&& final(self).stack() == old(self).stack()
                &&& rebuilt@ == coerced(field@, field@.data_type, old(self).entries())
                &&& final(self).has_changed() == (old(self).has_changed() || rewrites(
                    field@,
                    field@.data_type,
                    old(self).entries(),
                ))
            },
        decreases field,
    {
        self.before_field(field);
        match self.visit_type(&field.data_type) {
            Ok(rebuilt) => {
                self.after_field();
                assert(self.stack() =~= old(self).stack());
                Ok(rebuilt)
            },
            Err(error) => Err(error),
        }
    }

    /// Rebuilds the fields of a list, in order.
    fn visit_fields(&mut self, fields: &Vec<FieldRef>) -> (r: Result<Vec<FieldRef>, Error>)
        ensures
            final(self).entries() == old(self).entries(),
            r is Ok <==> forall|i: int|
                0 <= i < fields@.len() ==> visitable(
                    (#[trigger] field_models(fields@)[i]).data_type,
                ),
            r matches Err(error) ==> error.kind == ErrorKind::DataInvalid,
            r matches Ok(rebuilt) ==> {
                &&& final(self).stack() == old(self).stack()
                &&& field_models(rebuilt@) == field_models(fields@).map_values(
                    |f: FieldView| coerced(f, f.data_type, old(self).entries()),
                )
                &&& final(self).has_changed() == (old(self).has_changed() || exists|i: int|
                    0 <= i < fields@.len() && rewrites(
                        #[trigger] field_models(fields@)[i],
                        field_models(fields@)[i].data_type,
                        old(self).entries(),
                    ))
            },
        decreases fields,
    {
        let mut out: Vec<FieldRef> = Vec::new();
        let mut i: usize = 0;
        let ghost entries = self.entries();
        let ghost models = field_models(fields@);
        while i < fields.len()
            invariant
                i <= fields@.len(),
                out@.len() == i,
                models == field_models(fields@),
                entries == old(self).entries(),
                self.entries() == entries,
                self.stack() == old(self).stack(),
                forall|j: int| 0 <= j < i ==> visitable((#[trigger] models[j]).data_type),
                forall|j: int|
                    0 <= j < i ==> (#[trigger] out@[j])@ == coerced(
                        models[j],
                        models[j].data_type,
                        entries,
                    ),
                self.has_changed() == (old(self).has_changed() || exists|j: int|
                    0 <= j < i && rewrites(
                        #[trigger] models[j],
                        models[j].data_type,
                        entries,
                    )),
            decreases fields@.len() - i,
        {
            assert(models[i as int] == fields@[i as int]@);
            match self.visit_field(&fields[i]) {
                Ok(rebuilt) => {
                    out.push(Arc::new(rebuilt));
                },
                Err(error) => {
                    assert(!visitable(models[i as int].data_type));
                    return Err(error);
                },
            }
            i += 1;
        }
        assert(field_models(out@) =~= models.map_values(
            |f: FieldView| coerced(f, f.data_type, entries),
        ));
        Ok(out)
    }

    /// Rebuilds the field that was entered last from `data_type`.
    fn visit_type(&mut self, data_type: &DataType) -> (r: Result<Field, Error>)
        requires
            old(self).stack().len() > 0,
        ensures
            final(self).entries() == old(self).entries(),
            r is Ok <==> visitable(data_type@),
            r matches Err(error) ==> error.kind == ErrorKind::DataInvalid,
            r matches Ok(rebuilt) ==> {
                let info = old(self).stack().last()@;
                &&& final(self).stack() == old(self).stack()
                &&& rebuilt@ == coerced(info, data_type@, old(self).entries())
                &&& final(self).has_changed() == (old(self).has_changed() || rewrites(
                    info,
                    data_type@,
                    old(self).entries(),
                ))
            },
        decreases data_type,
    {
        match data_type {
            DataType::Leaf(LeafType::Null) => Err(cannot_visit()),
            DataType::Leaf(_) => self.primitive(data_type),
            DataType::Timestamp(_, _) => self.primitive(data_type),
            DataType::List(element) => match self.visit_field(element) {
                Ok(value) => self.list(data_type, value),
                Err(error) => Err(error),
            },
            DataType::LargeList(element) => match self.visit_field(element) {
                Ok(value) => self.list(data_type, value),
                Err(error) => Err(error),
            },
            DataType::FixedSizeList(element, _) => match self.visit_field(element) {
                Ok(value) => self.list(data_type, value),
                Err(error) => Err(error),
            },
            DataType::Struct(fields) => {
                let ghost info = old(self).stack().last()@;
                let ghost entries = old(self).entries();
                let ghost views = field_models(fields@);
                proof {
                    assert(data_type@ matches DataTypeView::Struct(fields) && fields =~= views);
                }
                match self.visit_fields(fields) {
                    Ok(results) => {
                        assert(coerced(
                            info,
                            data_type@,
                            entries,
                        ).data_type matches DataTypeView::Struct(fields) && fields =~= field_models(
                            results@,
                        ));
                        self.structure(results)
                    },
                    Err(error) => Err(error),
                }
            },
            DataType::MapOf(pair, _) => match &pair.data_type {
                DataType::Struct(fields) => {
                    proof {
                        assert(pair@.data_type == pair.data_type@);
                        assert(pair.data_type@ matches DataTypeView::Struct(views) && views
                            =~= field_models(fields@));
                    }
                    if fields.len() != 2 {
                        return Err(
                            Error::new(
                                ErrorKind::DataInvalid,
                                "Map field must have exactly 2 fields",
                            ),
                        );
                    }
                    let key: Field = match self.visit_field(&fields[0]) {
                        Ok(key) => key,
                        Err(error) => {
                            return Err(error);
                        },
                    };
                    match self.visit_field(&fields[1]) {
                        Ok(value) => self.map(data_type, key, value),
                        Err(error) => Err(error),
                    }
                },
                _ => {
                    assert(pair@.data_type == pair.data_type@);
                    Err(Error::new(ErrorKind::DataInvalid, "Map field must have struct type"))
                },
            },
            DataType::Dictionary(keys, values) => match self.visit_type(values) {
                Ok(rebuilt) => Ok(
                    Field {
                        name: rebuilt.name,
                        data_type: DataType::Dictionary(keys.clone(), Arc::new(rebuilt.data_type)),
                        nullable: rebuilt.nullable,
                        metadata: rebuilt.metadata,
                    },
                ),
                Err(error) => Err(error),
            },
            _ => Err(cannot_visit()),
        }
    }

    /// Rebuilds a schema and all fields inside it.
    pub fn visit_schema(&mut self, schema: &ArrowSchema) -> (r: Result<ArrowSchema, Error>)
        ensures
            final(self).entries() == old(self).entries(),
            r is Ok <==> forall|i: int|
                0 <= i < schema@.fields.len() ==> visitable(
                    (#[trigger] schema@.fields[i]).data_type,
                ),
            r matches Err(error) ==> error.kind == ErrorKind::DataInvalid,
            r matches Ok(rebuilt) ==> {
                &&& final(self).stack() == old(self).stack()
                &&& rebuilt@ == (ArrowSchemaView {
                    fields: schema@.fields.map_values(
                        |f: FieldView| coerced(f, f.data_type, old(self).entries()),
                    ),
                    metadata: schema@.metadata,
                })
                &&& final(self).has_changed() == (old(self).has_changed() || exists|i: int|
                    0 <= i < schema@.fields.len() && rewrites(
                        #[trigger] schema@.fields[i],
                        schema@.fields[i].data_type,
                        old(self).entries(),
                    ))
            },
    {
        match self.visit_fields(&schema.fields) {
            Ok(values) => Ok(self.schema(schema, values)),
            Err(error) => Err(error),
        }
    }
}

/// A rebuilt field can be rebuilt again, and the second pass finds no zone to replace.
pub proof fn law_second_pass(field: FieldView, entries: Seq<FieldEntry>)
    requires
        visitable(field.data_type),
    ensures
        ({
            let rebuilt = coerced(field, field.data_type, entries);
            visitable(rebuilt.data_type) && !rewrites(rebuilt, rebuilt.data_type, entries)
        }),
{
    lemma_second_pass(
        field,
        field.data_type,
        coerced(field, field.data_type, entries),
        entries,
    );
}

/// Whether `data_type` is the type of `field`, or the values of a dictionary that is.
spec fn stands_in(data_type: DataTypeView, field: FieldView) -> bool {
    field.data_type == data_type || field.data_type is Dictionary
}

proof fn lemma_second_pass(
    field: FieldView,
    data_type: DataTypeView,
    next: FieldView,
    entries: Seq<FieldEntry>,
)
    requires
        visitable(data_type),
        stands_in(data_type, field),
        next.data_type is Dictionary || (field.data_type == data_type && next == coerced(
            field,
            data_type,
            entries,
        )),
    ensures
        visitable(coerced(field, data_type, entries).data_type),
        !rewrites(next, coerced(field, data_type, entries).data_type, entries),
    decreases data_type,
{
    let result = coerced(field, data_type, entries).data_type;
    match data_type {
        DataTypeView::List(element) => lemma_second_pass(
            *element,
            element.data_type,
            coerced(*element, element.data_type, entries),
            entries,
        ),
        DataTypeView::LargeList(element) => lemma_second_pass(
            *element,
            element.data_type,
            coerced(*element, element.data_type, entries),
            entries,
        ),
        DataTypeView::FixedSizeList(element, _) => lemma_second_pass(
            *element,
            element.data_type,
            coerced(*element, element.data_type, entries),
            entries,
        ),
        DataTypeView::Struct(fields) => {
            let rebuilt = result->Struct_0;
            assert forall|i: int| 0 <= i < fields.len() implies visitable(
                (#[trigger] rebuilt[i]).data_type,
            ) && !rewrites(rebuilt[i], rebuilt[i].data_type, entries) by {
                lemma_second_pass(fields[i], fields[i].data_type, rebuilt[i], entries);
            }
        },
        DataTypeView::MapOf(pair, _) => {
            let fields = pair.data_type->Struct_0;
            let parts = (result->MapOf_0).data_type->Struct_0;
            lemma_second_pass(fields[0], fields[0].data_type, parts[0], entries);
            lemma_second_pass(fields[1], fields[1].data_type, parts[1], entries);
        },
        DataTypeView::Dictionary(_, values) => lemma_second_pass(field, *values, next, entries),
        _ => {},
    }
}

/// Coercing a coerced schema changes nothing.
pub proof fn law_coercion_settles(schema: ArrowSchemaView, entries: Seq<FieldEntry>)
    requires
        coerced_schema(schema, entries) is Some,
    ensures
        coerced_schema(coerced_schema(schema, entries)->0, entries) is None,
{
    let rebuilt = coerced_schema(schema, entries)->0.fields;
    assert forall|i: int| 0 <= i < rebuilt.len() implies !rewrites(
        #[trigger] rebuilt[i],
        rebuilt[i].data_type,
        entries,
    ) by {
        law_second_pass(schema.fields[i], entries);
    }
}

/// The type of `field`, with the zone blanked wherever the table field is a timestamp with zone,
/// at every depth. Nothing else is blanked.
pub open spec fn zoneless(
    field: FieldView,
    data_type: DataTypeView,
    entries: Seq<FieldEntry>,
) -> DataTypeView
    decreases data_type,
{
    match data_type {
        DataTypeView::List(element) => DataTypeView::List(
            Box::new(
                FieldView { data_type: zoneless(*element, element.data_type, entries), ..*element },
            ),
        ),
        DataTypeView::LargeList(element) => DataTypeView::LargeList(
            Box::new(
                FieldView { data_type: zoneless(*element, element.data_type, entries), ..*element },
            ),
        ),
        DataTypeView::FixedSizeList(element, size) => DataTypeView::FixedSizeList(
            Box::new(
                FieldView { data_type: zoneless(*element, element.data_type, entries), ..*element },
            ),
            size,
        ),
        DataTypeView::Struct(fields) => DataTypeView::Struct(
            Seq::new(
                fields.len(),
                |i: int|
                    if 0 <= i < fields.len() {
                        FieldView {
                            data_type: zoneless(fields[i], fields[i].data_type, entries),
                            ..fields[i]
                        }
                    } else {
                        arbitrary()
                    },
            ),
        ),
        DataTypeView::MapOf(pair, sorted) => DataTypeView::MapOf(
            Box::new(FieldView { data_type: zoneless(*pair, pair.data_type, entries), ..*pair }),
            sorted,
        ),
        DataTypeView::Dictionary(keys, values) => DataTypeView::Dictionary(
            keys,
            Box::new(zoneless(field, *values, entries)),
        ),
        _ => match field.data_type {
            DataTypeView::Timestamp(unit, Some(_)) => if is_timestamptz(field, entries) {
                DataTypeView::Timestamp(unit, Some(Seq::empty()))
            } else {
                data_type
            },
            _ => data_type,
        },
    }
}

/// Rebuilding a field changes the zones of timestamps whose table field has a zone, and nothing
/// else: its name, nullability and annotations stay, and so does its type at every depth.
pub proof fn law_only_zones_change(field: FieldView, entries: Seq<FieldEntry>)
    requires
        visitable(field.data_type),
    ensures
        ({
            let rebuilt = coerced(field, field.data_type, entries);
            &&& rebuilt.name == field.name
            &&& rebuilt.nullable == field.nullable
            &&& rebuilt.metadata == field.metadata
            &&& zoneless(rebuilt, rebuilt.data_type, entries) == zoneless(
                field,
                field.data_type,
                entries,
            )
        }),
{
    lemma_only_zones_change(
        field,
        field.data_type,
        coerced(field, field.data_type, entries),
        entries,
    );
}

/// A coerced schema has the columns and annotations of the schema that it replaces, in the same
/// order. A column differs at most in the zones of timestamps whose table field has a zone.
pub proof fn law_only_zones_change_in_a_schema(
    schema: ArrowSchemaView,
    entries: Seq<FieldEntry>,
    i: int,
)
    requires
        coerced_schema(schema, entries) is Some,
        0 <= i < schema.fields.len(),
    ensures
        coerced_schema(schema, entries) matches Some(r) && {
            &&& r.metadata == schema.metadata
            &&& r.fields.len() == schema.fields.len()
            &&& r.fields[i] == (FieldView {
                data_type: r.fields[i].data_type,
                ..schema.fields[i]
            })
            &&& zoneless(r.fields[i], r.fields[i].data_type, entries) == zoneless(
                schema.fields[i],
                schema.fields[i].data_type,
                entries,
            )
        },
{
    law_only_zones_change(schema.fields[i], entries);
}

proof fn lemma_only_zones_change(
    field: FieldView,
    data_type: DataTypeView,
    next: FieldView,
    entries: Seq<FieldEntry>,
)
    requires
        visitable(data_type),
        stands_in(data_type, field),
        (field.data_type is Dictionary && next.data_type is Dictionary) || (field.data_type
            == data_type && next == coerced(field, data_type, entries)),
    ensures
        zoneless(next, coerced(field, data_type, entries).data_type, entries) == zoneless(
            field,
            data_type,
            entries,
        ),
    decreases data_type,
{
    let result = coerced(field, data_type, entries).data_type;
    match data_type {
        DataTypeView::List(element) => lemma_only_zones_change(
            *element,
            element.data_type,
            coerced(*element, element.data_type, entries),
            entries,
        ),
        DataTypeView::LargeList(element) => lemma_only_zones_change(
            *element,
            element.data_type,
            coerced(*element, element.data_type, entries),
            entries,
        ),
        DataTypeView::FixedSizeList(element, _) => lemma_only_zones_change(
            *element,
            element.data_type,
            coerced(*element, element.data_type, entries),
            entries,
        ),
        DataTypeView::Struct(fields) => {
            let rebuilt = result->Struct_0;
            let before = zoneless(field, data_type, entries)->Struct_0;
            let after = zoneless(next, result, entries)->Struct_0;
            assert forall|i: int| 0 <= i < fields.len() implies #[trigger] after[i]
                == before[i] by {
                lemma_only_zones_change(fields[i], fields[i].data_type, rebuilt[i], entries);
            }
            assert(after =~= before);
        },
        DataTypeView::MapOf(pair, _) => {
            let fields = pair.data_type->Struct_0;
            let rebuilt = result->MapOf_0;
            let parts = rebuilt.data_type->Struct_0;
            lemma_only_zones_change(fields[0], fields[0].data_type, parts[0], entries);
            lemma_only_zones_change(fields[1], fields[1].data_type, parts[1], entries);
            let before = zoneless(*pair, pair.data_type, entries)->Struct_0;
            let after = zoneless(*rebuilt, rebuilt.data_type, entries)->Struct_0;
            assert(after[0] == before[0]);
            assert(after[1] == before[1]);
            assert(after =~= before);
        },
        DataTypeView::Dictionary(_, values) => lemma_only_zones_change(
            field,
            *values,
            next,
            entries,
        ),
        _ => {},
    }
}

fn cannot_visit() -> (r: Error)
    ensures
        r@ == (ErrorView {
            kind: ErrorKind::DataInvalid,
            message: "Cannot visit Arrow data type"@,
        }),
{
    Error::new(ErrorKind::DataInvalid, "Cannot visit Arrow data type")
}

} // verus!
