//! Table schemas: typed fields with ids that stay stable across schema changes.

use vstd::prelude::*;

use std::sync::Arc;

use crate::text::{
    copy_texts, is_segment, joined, law_segments_of_a_joined_path, same_text, segments, texts,
};

verus! {

/// A type without child fields.
#[derive(Debug, Clone, Copy, PartialEq, Eq, Structural)]
pub enum PrimitiveType {
    Boolean,
    Int,
    Long,
    Float,
    Double,
    Decimal { precision: u32, scale: u32 },
    Date,
    Time,
    Timestamp,
    Timestamptz,
    TimestampNs,
    TimestamptzNs,
    Text,
    Uuid,
    Fixed(u64),
    Binary,
}

/// A field that several types may share.
pub type NestedFieldRef = Arc<NestedField>;

/// The type of a field.
#[derive(Debug, PartialEq, Eq)]
pub enum Type {
    Primitive(PrimitiveType),
    Struct(Vec<NestedFieldRef>),
    List(NestedFieldRef),
    MapOf(NestedFieldRef, NestedFieldRef),
}

/// A field of a schema, at the top level or nested.
#[derive(Debug, PartialEq, Eq)]
pub struct NestedField {
    pub id: i32,
    pub name: String,
    pub required: bool,
    pub field_type: Type,
}

impl NestedField {
    /// A field that every row has a value of.
    pub fn required(id: i32, name: &str, field_type: Type) -> (r: NestedField)
        ensures
            r.id == id,
            r.name@ == name@,
            r.required,
            r.field_type == field_type,
    {
        NestedField { id, name: name.to_owned(), required: true, field_type }
    }

    /// A field that a row may leave null.
    pub fn optional(id: i32, name: &str, field_type: Type) -> (r: NestedField)
        ensures
            r.id == id,
            r.name@ == name@,
            !r.required,
            r.field_type == field_type,
    {
        NestedField { id, name: name.to_owned(), required: false, field_type }
    }
}

/// A field under its full dotted name.
#[derive(Debug, PartialEq, Eq)]
pub struct IndexedField {
    pub id: i32,
    pub name: String,
    /// The names of the fields from the top level down to this one.
    pub path: Vec<String>,
    /// The type of the field, where it has no children.
    pub primitive: Option<PrimitiveType>,
}

/// What an [`IndexedField`] is.
pub struct FieldEntry {
    pub id: i32,
    pub name: Seq<char>,
    pub path: Seq<Seq<char>>,
    pub primitive: Option<PrimitiveType>,
}

impl View for IndexedField {
    type V = FieldEntry;

    open spec fn view(&self) -> FieldEntry {
        FieldEntry {
            id: self.id,
            name: self.name@,
            path: texts(self.path@),
            primitive: self.primitive,
        }
    }
}

/// What the fields of an index are.
pub open spec fn index_entries(index: Seq<IndexedField>) -> Seq<FieldEntry> {
    index.map_values(|f: IndexedField| f@)
}

/// The dotted name of the field at a path.
pub open spec fn dotted_name(path: Seq<Seq<char>>) -> Seq<char> {
    joined(path[0], path.drop_first())
}

/// The type as a primitive type, where it is one.
pub open spec fn as_primitive(t: Type) -> Option<PrimitiveType> {
    match t {
        Type::Primitive(p) => Some(p),
        _ => None,
    }
}

/// The field and all fields inside it, outer fields first. `parent` is the path of the field that
/// it is in.
pub open spec fn field_entries(field: NestedField, parent: Seq<Seq<char>>) -> Seq<FieldEntry>
    decreases field,
{
    let path = parent.push(field.name@);
    seq![
        FieldEntry {
            id: field.id,
            name: dotted_name(path),
            path,
            primitive: as_primitive(field.field_type),
        },
    ] + type_entries(field.field_type, path)
}

/// All fields inside a type that stands at `path`.
pub open spec fn type_entries(t: Type, path: Seq<Seq<char>>) -> Seq<FieldEntry>
    decreases t,
{
    match t {
        Type::Primitive(_) => Seq::empty(),
        Type::Struct(fields) => list_entries(fields@, path),
        Type::List(element) => field_entries(*element, path),
        Type::MapOf(key, value) => field_entries(*key, path) + field_entries(*value, path),
    }
}

/// All fields of a list and all fields inside them.
pub open spec fn list_entries(
    fields: Seq<NestedFieldRef>,
    parent: Seq<Seq<char>>,
) -> Seq<FieldEntry>
    decreases fields,
{
    if fields.len() == 0 {
        Seq::empty()
    } else {
        list_entries(fields.drop_last(), parent) + field_entries(*fields.last(), parent)
    }
}

/// Whether an entry is called by its dotted path.
pub open spec fn called_by_path(entry: FieldEntry) -> bool {
    entry.path.len() > 0 && entry.name == dotted_name(entry.path)
}

spec fn entry_count(field: NestedFieldRef, parent: Seq<Seq<char>>) -> int {
    field_entries(*field, parent).len() as int
}

proof fn lemma_field_called_by_path(field: NestedFieldRef, parent: Seq<Seq<char>>, k: int)
    requires
        0 <= k < field_entries(*field, parent).len(),
    ensures
        called_by_path(field_entries(*field, parent)[k]),
    decreases field,
{
    if k > 0 {
        lemma_type_called_by_path(&field.field_type, parent.push(field.name@), k - 1);
    }
}

proof fn lemma_type_called_by_path(t: &Type, path: Seq<Seq<char>>, k: int)
    requires
        0 <= k < type_entries(*t, path).len(),
    ensures
        called_by_path(type_entries(*t, path)[k]),
    decreases t,
{
    match t {
        Type::Primitive(_) => {},
        Type::Struct(fields) => lemma_list_called_by_path(fields@, path, k),
        Type::List(element) => lemma_field_called_by_path(*element, path, k),
        Type::MapOf(key, value) => {
            let keys = entry_count(*key, path);
            if k < keys {
                lemma_field_called_by_path(*key, path, k);
            } else {
                lemma_field_called_by_path(*value, path, k - keys);
            }
        },
    }
}

pub proof fn lemma_list_called_by_path(fields: Seq<NestedFieldRef>, parent: Seq<Seq<char>>, k: int)
    requires
        0 <= k < list_entries(fields, parent).len(),
    ensures
        called_by_path(list_entries(fields, parent)[k]),
    decreases fields,
{
    let before = list_entries(fields.drop_last(), parent);
    if k < before.len() {
        lemma_list_called_by_path(fields.drop_last(), parent, k);
    } else {
        lemma_field_called_by_path(fields.last(), parent, k - before.len());
    }
}

/// Whether fields with different ids stand at different paths.
pub open spec fn distinct_paths(entries: Seq<FieldEntry>) -> bool {
    forall|i: int, j: int|
        0 <= i < entries.len() && 0 <= j < entries.len() && entries[i].id != entries[j].id ==> (
        #[trigger] entries[i]).path != (#[trigger] entries[j]).path
}

/// Whether fields with different ids have different dotted names.
pub open spec fn distinct_names(entries: Seq<FieldEntry>) -> bool {
    forall|i: int, j: int|
        0 <= i < entries.len() && 0 <= j < entries.len() && entries[i].id != entries[j].id ==> (
        #[trigger] entries[i]).name != (#[trigger] entries[j]).name
}

/// Whether every field has an id of its own.
pub open spec fn distinct_ids(entries: Seq<FieldEntry>) -> bool {
    forall|i: int, j: int|
        0 <= i < j < entries.len() ==> (#[trigger] entries[i]).id != (#[trigger] entries[j]).id
}

/// The first entry with the given id.
pub open spec fn entry_by_id(entries: Seq<FieldEntry>, id: i32) -> Option<FieldEntry>
    decreases entries.len(),
{
    if entries.len() == 0 {
        None
    } else if entries[0].id == id {
        Some(entries[0])
    } else {
        entry_by_id(entries.drop_first(), id)
    }
}

/// The first entry with the given dotted name.
pub open spec fn entry_by_name(entries: Seq<FieldEntry>, name: Seq<char>) -> Option<FieldEntry>
    decreases entries.len(),
{
    if entries.len() == 0 {
        None
    } else if entries[0].name == name {
        Some(entries[0])
    } else {
        entry_by_name(entries.drop_first(), name)
    }
}

/// An entry that is found by its id is one of the entries.
pub proof fn lemma_found_by_id(entries: Seq<FieldEntry>, id: i32) -> (i: int)
    requires
        entry_by_id(entries, id) is Some,
    ensures
        0 <= i < entries.len(),
        entries[i].id == id,
        entry_by_id(entries, id) == Some(entries[i]),
    decreases entries.len(),
{
    if entries[0].id == id {
        0
    } else {
        let i = lemma_found_by_id(entries.drop_first(), id);
        assert(entries.drop_first()[i] == entries[i + 1]);
        i + 1
    }
}

/// The first entry with an id is the one that is found by it.
pub proof fn lemma_entry_by_id(entries: Seq<FieldEntry>, id: i32, i: int)
    requires
        0 <= i <= entries.len(),
        forall|j: int| 0 <= j < i ==> (#[trigger] entries[j]).id != id,
    ensures
        i < entries.len() && entries[i].id == id ==> entry_by_id(entries, id) == Some(entries[i]),
        i == entries.len() ==> entry_by_id(entries, id) is None,
    decreases i,
{
    if i > 0 {
        let tail = entries.drop_first();
        assert forall|j: int| 0 <= j < i - 1 implies (#[trigger] tail[j]).id != id by {
            assert(tail[j] == entries[j + 1]);
        }
        assert(entries[0].id != id);
        lemma_entry_by_id(tail, id, i - 1);
        if i < entries.len() {
            assert(tail[i - 1] == entries[i]);
        }
    }
}

/// The first entry with a dotted name is the one that is found by it.
pub proof fn lemma_entry_by_name(entries: Seq<FieldEntry>, name: Seq<char>, i: int)
    requires
        0 <= i <= entries.len(),
        forall|j: int| 0 <= j < i ==> (#[trigger] entries[j]).name != name,
    ensures
        i < entries.len() && entries[i].name == name ==> entry_by_name(entries, name) == Some(
            entries[i],
        ),
        i == entries.len() ==> entry_by_name(entries, name) is None,
    decreases i,
{
    if i > 0 {
        let tail = entries.drop_first();
        assert forall|j: int| 0 <= j < i - 1 implies (#[trigger] tail[j]).name != name by {
            assert(tail[j] == entries[j + 1]);
        }
        assert(entries[0].name != name);
        lemma_entry_by_name(tail, name, i - 1);
        if i < entries.len() {
            assert(tail[i - 1] == entries[i]);
        }
    }
}

fn primitive_of(t: &Type) -> (r: Option<PrimitiveType>)
    ensures
        r == as_primitive(*t),
{
    match t {
        Type::Primitive(p) => Some(*p),
        _ => None,
    }
}

fn push_field(
    field: &NestedField,
    parent: &Vec<String>,
    parent_name: &String,
    index: &mut Vec<IndexedField>,
)
    requires
        parent@.len() > 0 ==> parent_name@ == dotted_name(texts(parent@)),
    ensures
        index_entries(final(index)@) == index_entries(old(index)@) + field_entries(
            *field,
            texts(parent@),
        ),
    decreases field,
{
    let ghost outer = texts(parent@);
    let mut path: Vec<String> = copy_texts(parent);
    path.push(field.name.clone());
    let mut name: String = parent_name.clone();
    if parent.is_empty() {
        name = field.name.clone();
        assert(outer.push(field.name@).drop_first() =~= Seq::<Seq<char>>::empty());
    } else {
        name.append(".");
        name.append(field.name.as_str());
        proof {
            reveal_strlit(".");
            assert("."@ =~= seq!['.']);
            let rest = outer.push(field.name@).drop_first();
            assert(rest.drop_last() =~= outer.drop_first());
            assert(rest.last() == field.name@);
        }
    }
    assert(texts(path@) =~= outer.push(field.name@));
    assert(name@ == dotted_name(texts(path@)));
    let ghost before = index_entries(index@);
    index.push(
        IndexedField {
            id: field.id,
            name: name.clone(),
            path: copy_texts(&path),
            primitive: primitive_of(&field.field_type),
        },
    );
    let ghost own = FieldEntry {
        id: field.id,
        name: name@,
        path: texts(path@),
        primitive: as_primitive(field.field_type),
    };
    assert(index_entries(index@) =~= before + seq![own]);
    match &field.field_type {
        Type::Primitive(_) => {},
        Type::Struct(fields) => push_fields(fields, &path, &name, index),
        Type::List(element) => push_field(element, &path, &name, index),
        Type::MapOf(key, value) => {
            push_field(key, &path, &name, index);
            push_field(value, &path, &name, index);
        },
    }
    assert(index_entries(index@) =~= before + field_entries(*field, outer));
}

fn push_fields(
    fields: &Vec<NestedFieldRef>,
    parent: &Vec<String>,
    parent_name: &String,
    index: &mut Vec<IndexedField>,
)
    requires
        parent@.len() > 0 ==> parent_name@ == dotted_name(texts(parent@)),
    ensures
        index_entries(final(index)@) == index_entries(old(index)@) + list_entries(
            fields@,
            texts(parent@),
        ),
    decreases fields,
{
    let mut i: usize = 0;
    let ghost outer = texts(parent@);
    let ghost before = index_entries(index@);
    assert(fields@.take(0) =~= Seq::<NestedFieldRef>::empty());
    assert(index_entries(index@) =~= before + list_entries(fields@.take(0), outer));
    while i < fields.len()
        invariant
            i <= fields@.len(),
            outer == texts(parent@),
            parent@.len() > 0 ==> parent_name@ == dotted_name(outer),
            index_entries(index@) == before + list_entries(fields@.take(i as int), outer),
        decreases fields@.len() - i,
    {
        push_field(&fields[i], parent, parent_name, index);
        proof {
            let upto = fields@.take(i + 1);
            assert(upto.drop_last() =~= fields@.take(i as int));
            assert(upto.last() == fields@[i as int]);
            assert(index_entries(index@) =~= before + list_entries(upto, outer));
        }
        i += 1;
    }
    assert(fields@.take(i as int) =~= fields@);
}

/// A table schema. Fields are looked up by id and by dotted name.
#[derive(Debug, PartialEq, Eq)]
pub struct Schema {
    schema_id: i32,
    fields: Arc<Vec<NestedFieldRef>>,
    index: Arc<Vec<IndexedField>>,
}

impl Schema {
    /// The id of the schema.
    pub closed spec fn id(self) -> i32 {
        self.schema_id
    }

    /// The top-level fields.
    pub closed spec fn top_level(self) -> Seq<NestedFieldRef> {
        self.fields@
    }

    /// All fields, each under its dotted name.
    pub open spec fn entries(self) -> Seq<FieldEntry> {
        list_entries(self.top_level(), Seq::empty())
    }

    #[verifier::type_invariant]
    spec fn indexed(self) -> bool {
        index_entries(self.index@) == self.entries()
    }

    /// A schema with the given id and top-level fields.
    pub fn new(schema_id: i32, fields: Vec<NestedFieldRef>) -> (r: Schema)
        ensures
            r.id() == schema_id,
            r.top_level() == fields@,
    {
        let mut index: Vec<IndexedField> = Vec::new();
        let top: Vec<String> = Vec::new();
        push_fields(&fields, &top, &"".to_owned(), &mut index);
        assert(texts(top@) =~= Seq::<Seq<char>>::empty());
        assert(index_entries(index@) =~= list_entries(fields@, Seq::empty()));
        Schema { schema_id, fields: Arc::new(fields), index: Arc::new(index) }
    }

    /// The id of the schema.
    pub fn schema_id(&self) -> (r: i32)
        ensures
            r == self.id(),
    {
        self.schema_id
    }

    /// The top-level fields.
    pub fn fields(&self) -> (r: &Vec<NestedFieldRef>)
        ensures
            r@ == self.top_level(),
    {
        &self.fields
    }

    /// The field with the given id, at any depth.
    pub fn field_by_id(&self, field_id: i32) -> (r: Option<&IndexedField>)
        ensures
            match r {
                Some(field) => entry_by_id(self.entries(), field_id) == Some(field@)
                    && called_by_path(field@),
                None => entry_by_id(self.entries(), field_id) is None,
            },
    {
        proof {
            use_type_invariant(self);
        }
        let ghost entries = index_entries(self.index@);
        let mut i: usize = 0;
        while i < self.index.len()
            invariant
                i <= self.index@.len(),
                entries == index_entries(self.index@),
                entries == self.entries(),
                forall|j: int| 0 <= j < i ==> (#[trigger] entries[j]).id != field_id,
            decreases self.index@.len() - i,
        {
            assert(entries[i as int] == self.index@[i as int]@);
            if self.index[i].id == field_id {
                proof {
                    lemma_entry_by_id(entries, field_id, i as int);
                    lemma_list_called_by_path(self.top_level(), Seq::empty(), i as int);
                }
                return Some(&self.index[i]);
            }
            i += 1;
        }
        proof {
            lemma_entry_by_id(entries, field_id, i as int);
        }
        None
    }

    /// The id of the field with the given dotted name.
    pub fn field_id_by_name(&self, name: &str) -> (r: Option<i32>)
        ensures
            match r {
                Some(id) => entry_by_name(self.entries(), name@) matches Some(entry) && entry.id
                    == id,
                None => entry_by_name(self.entries(), name@) is None,
            },
    {
        proof {
            use_type_invariant(self);
        }
        let ghost entries = index_entries(self.index@);
        let mut i: usize = 0;
        while i < self.index.len()
            invariant
                i <= self.index@.len(),
                entries == index_entries(self.index@),
                entries == self.entries(),
                forall|j: int| 0 <= j < i ==> (#[trigger] entries[j]).name != name@,
            decreases self.index@.len() - i,
        {
            assert(entries[i as int] == self.index@[i as int]@);
            if same_text(self.index[i].name.as_str(), name) {
                proof {
                    lemma_entry_by_name(entries, name@, i as int);
                }
                return Some(self.index[i].id);
            }
            i += 1;
        }
        proof {
            lemma_entry_by_name(entries, name@, i as int);
        }
        None
    }
}

impl Clone for Schema {
    fn clone(&self) -> (r: Schema)
        ensures
            r == *self,
    {
        proof {
            use_type_invariant(self);
        }
        Schema {
            schema_id: self.schema_id,
            fields: self.fields.clone(),
            index: self.index.clone(),
        }
    }
}

/// Whether a path leads through structs to a field inside a type.
pub open spec fn leads_to_field(t: Type, path: Seq<Seq<char>>) -> bool
    decreases path.len(),
{
    path.len() == 0 || match t {
        Type::Struct(fields) => exists|i: int|
            0 <= i < fields@.len() && fields@[i].name@ == path[0] && leads_to_field(
                (#[trigger] fields@[i]).field_type,
                path.drop_first(),
            ),
        _ => false,
    }
}

spec fn struct_fields(field: NestedFieldRef) -> Seq<NestedFieldRef> {
    field.field_type->Struct_0@
}

proof fn lemma_listed_entry(
    fields: Seq<NestedFieldRef>,
    parent: Seq<Seq<char>>,
    i: int,
    k: int,
) -> (m: int)
    requires
        0 <= i < fields.len(),
        0 <= k < field_entries(*fields[i], parent).len(),
    ensures
        0 <= m < list_entries(fields, parent).len(),
        list_entries(fields, parent)[m] == field_entries(*fields[i], parent)[k],
    decreases fields.len(),
{
    let before = list_entries(fields.drop_last(), parent);
    if i == fields.len() - 1 {
        before.len() + k
    } else {
        lemma_listed_entry(fields.drop_last(), parent, i, k)
    }
}

proof fn lemma_entry_at(
    field: NestedFieldRef,
    parent: Seq<Seq<char>>,
    path: Seq<Seq<char>>,
) -> (k: int)
    requires
        leads_to_field(field.field_type, path),
    ensures
        0 <= k < field_entries(*field, parent).len(),
        field_entries(*field, parent)[k].path == parent.push(field.name@) + path,
    decreases path.len(),
{
    let own = parent.push(field.name@);
    if path.len() == 0 {
        assert(own + path =~= own);
        0
    } else {
        let fields = struct_fields(field);
        let i = choose|i: int|
            0 <= i < fields.len() && fields[i].name@ == path[0] && leads_to_field(
                (#[trigger] fields[i]).field_type,
                path.drop_first(),
            );
        let k = lemma_entry_at(fields[i], own, path.drop_first());
        let m = lemma_listed_entry(fields, own, i, k);
        assert(own.push(path[0]) + path.drop_first() =~= own + path);
        m + 1
    }
}

proof fn lemma_named_entry_is_found(entries: Seq<FieldEntry>, k: int)
    requires
        0 <= k < entries.len(),
    ensures
        entry_by_name(entries, entries[k].name) is Some,
    decreases entries.len(),
{
    if k > 0 {
        assert(entries.drop_first()[k - 1] == entries[k]);
        lemma_named_entry_is_found(entries.drop_first(), k - 1);
    }
}

/// A field inside the structs of a schema is found by its dotted name.
pub proof fn law_nested_fields_are_found(schema: Schema, i: int, path: Seq<Seq<char>>)
    requires
        0 <= i < schema.top_level().len(),
        leads_to_field(schema.top_level()[i].field_type, path),
    ensures
        entry_by_name(schema.entries(), joined(schema.top_level()[i].name@, path)) is Some,
{
    let fields = schema.top_level();
    let top = Seq::<Seq<char>>::empty();
    let k = lemma_entry_at(fields[i], top, path);
    let m = lemma_listed_entry(fields, top, i, k);
    lemma_list_called_by_path(fields, top, m);
    let full = top.push(fields[i].name@) + path;
    assert(full.drop_first() =~= path);
    lemma_named_entry_is_found(schema.entries(), m);
}

/// A field of a schema's top level is found by its id, under its whole name.
pub proof fn law_top_level_fields_are_found(schema: Schema, i: int)
    requires
        0 <= i < schema.top_level().len(),
        distinct_ids(schema.entries()),
    ensures
        entry_by_id(schema.entries(), schema.top_level()[i].id) matches Some(entry)
            && entry.name == schema.top_level()[i].name@ && entry.path
            == seq![schema.top_level()[i].name@],
{
    let fields = schema.top_level();
    let entries = schema.entries();
    let top = Seq::<Seq<char>>::empty();
    let m = lemma_listed_entry(fields, top, i, 0);
    assert forall|j: int| 0 <= j < m implies (#[trigger] entries[j]).id != fields[i].id by {
        assert(entries[m].id == fields[i].id);
    }
    lemma_entry_by_id(entries, fields[i].id, m);
    let path = top.push(fields[i].name@);
    assert(path.drop_first() =~= top);
    assert(path =~= seq![fields[i].name@]);
}

/// The path of a field is its dotted name split at the dots, if none of the names on it has a dot.
pub proof fn law_path_is_the_split_name(schema: Schema, k: int)
    requires
        0 <= k < schema.entries().len(),
        forall|i: int|
            0 <= i < schema.entries()[k].path.len() ==> is_segment(
                #[trigger] schema.entries()[k].path[i],
            ),
    ensures
        segments(schema.entries()[k].name) == schema.entries()[k].path,
{
    lemma_list_called_by_path(schema.top_level(), Seq::empty(), k);
    let path = schema.entries()[k].path;
    let rest = path.drop_first();
    assert forall|i: int| 0 <= i < rest.len() implies is_segment(#[trigger] rest[i]) by {
        assert(rest[i] == path[i + 1]);
    }
    assert(is_segment(path[0]));
    law_segments_of_a_joined_path(path[0], rest);
    assert(seq![path[0]] + rest =~= path);
}

/// Fields with different dotted names stand at different paths.
pub proof fn law_distinct_names_are_distinct_paths(schema: Schema)
    requires
        distinct_names(schema.entries()),
    ensures
        distinct_paths(schema.entries()),
{
    let entries = schema.entries();
    assert forall|i: int, j: int|
        0 <= i < entries.len() && 0 <= j < entries.len() && entries[i].id
            != entries[j].id implies (#[trigger] entries[i]).path != (
    #[trigger] entries[j]).path by {
        lemma_list_called_by_path(schema.top_level(), Seq::empty(), i);
        lemma_list_called_by_path(schema.top_level(), Seq::empty(), j);
    }
}

/// The fields right inside a type: those of a struct, the element of a list, or the key and the value
/// of a map.
pub open spec fn inner_fields(t: Type) -> Seq<NestedFieldRef> {
    match t {
        Type::Primitive(_) => Seq::empty(),
        Type::Struct(fields) => fields@,
        Type::List(element) => seq![element],
        Type::MapOf(key, value) => seq![key, value],
    }
}

/// Whether a field stands at a place: the position of a field, then that of a field right inside it,
/// and so on.
pub open spec fn is_place(fields: Seq<NestedFieldRef>, place: Seq<int>) -> bool
    decreases place.len(),
{
    &&& place.len() > 0
    &&& 0 <= place[0] < fields.len()
    &&& place.len() == 1 || is_place(
        inner_fields(fields[place[0]].field_type),
        place.drop_first(),
    )
}

/// The field at a place.
pub open spec fn field_at(fields: Seq<NestedFieldRef>, place: Seq<int>) -> NestedFieldRef
    decreases place.len(),
{
    if place.len() <= 1 {
        fields[place[0]]
    } else {
        field_at(inner_fields(fields[place[0]].field_type), place.drop_first())
    }
}

/// The names of the fields that lead to a place, with that of the field there.
pub open spec fn names_to(fields: Seq<NestedFieldRef>, place: Seq<int>) -> Seq<Seq<char>>
    decreases place.len(),
{
    if place.len() == 0 {
        Seq::empty()
    } else {
        seq![fields[place[0]].name@] + names_to(
            inner_fields(fields[place[0]].field_type),
            place.drop_first(),
        )
    }
}

/// Whether an entry is the one of a field that stands under the given names: it has the field's id,
/// the names as its path and joined by dots as its name, and the field's type if it is a primitive
/// one.
pub open spec fn is_entry_of(
    entry: FieldEntry,
    field: NestedFieldRef,
    names: Seq<Seq<char>>,
) -> bool {
    &&& entry.id == field.id
    &&& entry.path == names
    &&& entry.name == joined(names[0], names.drop_first())
    &&& match field.field_type {
        Type::Primitive(p) => entry.primitive == Some(p),
        _ => entry.primitive is None,
    }
}

spec fn fields_inside(field: NestedFieldRef) -> Seq<NestedFieldRef> {
    inner_fields(field.field_type)
}

proof fn lemma_type_entries(t: &Type, path: Seq<Seq<char>>)
    ensures
        type_entries(*t, path) == list_entries(inner_fields(*t), path),
{
    match t {
        Type::List(element) => {
            let inner = inner_fields(*t);
            assert(inner.drop_last() =~= Seq::<NestedFieldRef>::empty());
            assert(list_entries(inner.drop_last(), path) =~= Seq::<FieldEntry>::empty());
            assert(type_entries(*t, path) =~= list_entries(inner, path));
        },
        Type::MapOf(key, value) => {
            let inner = inner_fields(*t);
            let first = inner.drop_last();
            assert(first =~= seq![*key]);
            assert(first.drop_last() =~= Seq::<NestedFieldRef>::empty());
            assert(list_entries(first.drop_last(), path) =~= Seq::<FieldEntry>::empty());
            assert(list_entries(first, path) =~= field_entries(**key, path));
            assert(type_entries(*t, path) =~= list_entries(inner, path));
        },
        _ => {},
    }
}

proof fn lemma_place_is_listed(
    fields: Seq<NestedFieldRef>,
    parent: Seq<Seq<char>>,
    place: Seq<int>,
) -> (k: int)
    requires
        is_place(fields, place),
    ensures
        0 <= k < list_entries(fields, parent).len(),
        is_entry_of(
            list_entries(fields, parent)[k],
            field_at(fields, place),
            parent + names_to(fields, place),
        ),
    decreases place.len(),
{
    let i = place[0];
    let field = fields[i];
    let own = parent.push(field.name@);
    let rest = place.drop_first();
    if place.len() == 1 {
        assert(names_to(inner_fields(field.field_type), rest) =~= Seq::<Seq<char>>::empty());
        assert(parent + names_to(fields, place) =~= own);
        lemma_listed_entry(fields, parent, i, 0)
    } else {
        let inner = fields_inside(field);
        let k = lemma_place_is_listed(inner, own, rest);
        lemma_type_entries(&field.field_type, own);
        assert(parent + names_to(fields, place) =~= own + names_to(inner, rest));
        assert(field_entries(*field, parent)[k + 1] == list_entries(inner, own)[k]);
        lemma_listed_entry(fields, parent, i, k + 1)
    }
}

proof fn lemma_listed_has_a_place(
    fields: Seq<NestedFieldRef>,
    parent: Seq<Seq<char>>,
    k: int,
) -> (place: Seq<int>)
    requires
        0 <= k < list_entries(fields, parent).len(),
    ensures
        is_place(fields, place),
        is_entry_of(
            list_entries(fields, parent)[k],
            field_at(fields, place),
            parent + names_to(fields, place),
        ),
    decreases list_entries(fields, parent).len(),
{
    let shorter = fields.drop_last();
    let before = list_entries(shorter, parent);
    let last = fields.len() - 1;
    let field = fields[last];
    let own = parent.push(field.name@);
    assert(fields.len() > 0);
    assert(list_entries(fields, parent) == before + field_entries(*field, parent));
    assert(field_entries(*field, parent).len() == 1 + type_entries(field.field_type, own).len());
    if k < before.len() {
        let place = lemma_listed_has_a_place(shorter, parent, k);
        assert(shorter[place[0]] == fields[place[0]]);
        place
    } else if k == before.len() {
        let place = seq![last];
        assert(place.drop_first() =~= Seq::<int>::empty());
        assert(names_to(inner_fields(field.field_type), place.drop_first()) =~= Seq::<
            Seq<char>,
        >::empty());
        assert(parent + names_to(fields, place) =~= own);
        place
    } else {
        let inner = fields_inside(field);
        lemma_type_entries(&field.field_type, own);
        let rest = lemma_listed_has_a_place(inner, own, k - before.len() - 1);
        let place = seq![last] + rest;
        assert(place.drop_first() =~= rest);
        assert(parent + names_to(fields, place) =~= own + names_to(inner, rest));
        place
    }
}

/// Every field of a schema is indexed, at whatever depth it stands and in whatever type, with its id,
/// its path, its dotted name and its primitive type.
pub proof fn law_every_field_is_indexed(schema: Schema, place: Seq<int>)
    requires
        is_place(schema.top_level(), place),
    ensures
        exists|k: int|
            0 <= k < schema.entries().len() && is_entry_of(
                #[trigger] schema.entries()[k],
                field_at(schema.top_level(), place),
                names_to(schema.top_level(), place),
            ),
{
    let top = Seq::<Seq<char>>::empty();
    let k = lemma_place_is_listed(schema.top_level(), top, place);
    assert(top + names_to(schema.top_level(), place) =~= names_to(schema.top_level(), place));
    assert(is_entry_of(
        schema.entries()[k],
        field_at(schema.top_level(), place),
        names_to(schema.top_level(), place),
    ));
}

/// What is indexed is a field of the schema.
pub proof fn law_only_fields_are_indexed(schema: Schema, k: int)
    requires
        0 <= k < schema.entries().len(),
    ensures
        exists|place: Seq<int>| #[trigger]
            is_place(schema.top_level(), place) && is_entry_of(
                schema.entries()[k],
                field_at(schema.top_level(), place),
                names_to(schema.top_level(), place),
            ),
{
    let top = Seq::<Seq<char>>::empty();
    let place = lemma_listed_has_a_place(schema.top_level(), top, k);
    assert(top + names_to(schema.top_level(), place) =~= names_to(schema.top_level(), place));
}

/// A field is found by its id, wherever it stands, if no other has the same one.
pub proof fn law_every_field_is_found_by_id(schema: Schema, place: Seq<int>)
    requires
        is_place(schema.top_level(), place),
        distinct_ids(schema.entries()),
    ensures
        entry_by_id(schema.entries(), field_at(schema.top_level(), place).id) matches Some(entry)
            && is_entry_of(
            entry,
            field_at(schema.top_level(), place),
            names_to(schema.top_level(), place),
        ),
{
    law_every_field_is_indexed(schema, place);
    let entries = schema.entries();
    let field = field_at(schema.top_level(), place);
    let k = choose|k: int|
        0 <= k < entries.len() && is_entry_of(
            #[trigger] entries[k],
            field,
            names_to(schema.top_level(), place),
        );
    assert forall|j: int| 0 <= j < k implies (#[trigger] entries[j]).id != field.id by {
        assert(entries[k].id == field.id);
    }
    lemma_entry_by_id(entries, field.id, k);
}

/// A field is found by its dotted name, wherever it stands, if no field with another id has the same
/// name.
pub proof fn law_every_field_is_found_by_name(schema: Schema, place: Seq<int>)
    requires
        is_place(schema.top_level(), place),
        distinct_names(schema.entries()),
    ensures
        ({
            let names = names_to(schema.top_level(), place);
            entry_by_name(schema.entries(), joined(names[0], names.drop_first())) matches Some(
                entry,
            ) && entry.id == field_at(schema.top_level(), place).id
        }),
{
    law_every_field_is_indexed(schema, place);
    let entries = schema.entries();
    let field = field_at(schema.top_level(), place);
    let names = names_to(schema.top_level(), place);
    let k = choose|k: int|
        0 <= k < entries.len() && is_entry_of(#[trigger] entries[k], field, names);
    lemma_named_entry_is_found(entries, k);
    let m = lemma_found_by_name(entries, entries[k].name);
    assert(entries[m].name == entries[k].name);
}

/// An entry that is found by its name is one of the entries.
pub proof fn lemma_found_by_name(entries: Seq<FieldEntry>, name: Seq<char>) -> (i: int)
    requires
        entry_by_name(entries, name) is Some,
    ensures
        0 <= i < entries.len(),
        entries[i].name == name,
        entry_by_name(entries, name) == Some(entries[i]),
    decreases entries.len(),
{
    if entries[0].name == name {
        0
    } else {
        let i = lemma_found_by_name(entries.drop_first(), name);
        assert(entries.drop_first()[i] == entries[i + 1]);
        i + 1
    }
}

} // verus!
