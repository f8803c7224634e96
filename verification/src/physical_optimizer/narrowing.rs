//! Narrows a struct field to the parts that are read.

use vstd::prelude::*;

use std::sync::Arc;

use crate::arrow::schema::{
    field_models, lemma_position_of_push, position_of, DataType, DataTypeView, Field, FieldRef,
    FieldView, Fields,
};
use crate::physical_expr::accessed_field;
use crate::text::{same_text, texts};

verus! {

/// The texts of a list of paths.
pub open spec fn path_texts(paths: Seq<Vec<String>>) -> Seq<Seq<Seq<char>>> {
    paths.map_values(|p: Vec<String>| texts(p@))
}

/// Whether a path leads to something inside a type: each of its segments names a child of the
/// struct that the segments before it lead to. Where several children have the name, the path has
/// to go on through each of them.
pub open spec fn path_exists(data_type: DataTypeView, path: Seq<Seq<char>>) -> bool
    decreases path.len(),
{
    path.len() == 0 || match data_type {
        DataTypeView::Struct(children) => {
            &&& exists|i: int| 0 <= i < children.len() && (#[trigger] children[i]).name == path[0]
            &&& forall|i: int|
                0 <= i < children.len() && (#[trigger] children[i]).name == path[0] ==> path_exists(
                    children[i].data_type,
                    path.drop_first(),
                )
        },
        _ => false,
    }
}

/// What is left of the paths that start at a child, behind its name.
pub open spec fn child_paths(paths: Seq<Seq<Seq<char>>>, name: Seq<char>) -> Seq<Seq<Seq<char>>>
    decreases paths.len(),
{
    if paths.len() == 0 {
        Seq::empty()
    } else {
        let before = child_paths(paths.drop_last(), name);
        let path = paths.last();
        if path.len() > 0 && path[0] == name {
            before.push(path.drop_first())
        } else {
            before
        }
    }
}

/// Whether one of the paths ends here, so that the whole is read.
pub open spec fn ends_here(paths: Seq<Seq<Seq<char>>>) -> bool {
    exists|i: int| 0 <= i < paths.len() && (#[trigger] paths[i]).len() == 0
}

/// The field with only those of its inner fields that a path leads to or through.
pub open spec fn pruned(field: FieldView, paths: Seq<Seq<Seq<char>>>) -> FieldView
    decreases field,
{
    if ends_here(paths) {
        field
    } else {
        match field.data_type {
            DataTypeView::Struct(children) => FieldView {
                data_type: DataTypeView::Struct(pruned_children(children, paths)),
                ..field
            },
            _ => field,
        }
    }
}

/// Those of the children that a path starts at, each pruned.
pub open spec fn pruned_children(
    children: Seq<FieldView>,
    paths: Seq<Seq<Seq<char>>>,
) -> Seq<FieldView>
    decreases children,
{
    if children.len() == 0 {
        Seq::empty()
    } else {
        let before = pruned_children(children.drop_last(), paths);
        let child = children.last();
        let inner = child_paths(paths, child.name);
        if inner.len() == 0 {
            before
        } else {
            before.push(pruned(child, inner))
        }
    }
}

/// The field narrowed to what `paths` read of it. There is no such field where one of the paths
/// does not exist in it, or where nothing is read.
pub open spec fn narrowed(field: FieldView, paths: Seq<Seq<Seq<char>>>) -> Option<FieldView> {
    if paths.len() > 0 && forall|i: int|
        0 <= i < paths.len() ==> path_exists(field.data_type, #[trigger] paths[i]) {
        Some(pruned(field, paths))
    } else {
        None
    }
}

/// Whether the segments of `path` from position `from` on exist inside a type.
fn has_path(data_type: &DataType, path: &Vec<String>, from: usize) -> (r: bool)
    requires
        from <= path@.len(),
    ensures
        r == path_exists(data_type@, texts(path@).skip(from as int)),
    decreases path@.len() - from,
{
    let ghost rest = texts(path@).skip(from as int);
    if from == path.len() {
        return true;
    }
    proof {
        assert(rest[0] == path@[from as int]@);
        assert(rest.drop_first() =~= texts(path@).skip(from + 1));
    }
    match data_type {
        DataType::Struct(children) => {
            let ghost models = field_models(children@);
            assert(data_type@->Struct_0 =~= models);
            let next: usize = from + 1;
            let mut found: bool = false;
            let mut i: usize = 0;
            while i < children.len()
                invariant
                    i <= children@.len(),
                    from < path@.len(),
                    next == from + 1,
                    models == field_models(children@),
                    rest == texts(path@).skip(from as int),
                    rest[0] == path@[from as int]@,
                    rest.drop_first() == texts(path@).skip(from + 1),
                    rest.len() > 0,
                    data_type@ == DataTypeView::Struct(models),
                    found == (exists|j: int|
                        0 <= j < i && (#[trigger] models[j]).name == rest[0]),
                    forall|j: int|
                        0 <= j < i && (#[trigger] models[j]).name == rest[0] ==> path_exists(
                            models[j].data_type,
                            rest.drop_first(),
                        ),
                decreases children@.len() - i,
            {
                assert(models[i as int] == (*children@[i as int])@);
                if same_text(children[i].name.as_str(), path[from].as_str()) {
                    if !has_path(&children[i].data_type, path, next) {
                        assert(models[i as int].name == rest[0]);
                        return false;
                    }
                    found = true;
                }
                i += 1;
            }
            found
        },
        _ => false,
    }
}

fn any_ends_here(paths: &Vec<Vec<String>>) -> (r: bool)
    ensures
        r == ends_here(path_texts(paths@)),
{
    let ghost all = path_texts(paths@);
    let mut i: usize = 0;
    while i < paths.len()
        invariant
            i <= paths@.len(),
            all == path_texts(paths@),
            forall|j: int| 0 <= j < i ==> (#[trigger] all[j]).len() != 0,
        decreases paths@.len() - i,
    {
        assert(all[i as int].len() == paths@[i as int]@.len());
        if paths[i].is_empty() {
            return true;
        }
        i += 1;
    }
    false
}

fn tail_of(path: &Vec<String>) -> (r: Vec<String>)
    requires
        path@.len() > 0,
    ensures
        texts(r@) == texts(path@).drop_first(),
{
    let mut out: Vec<String> = Vec::new();
    let mut i: usize = 1;
    while i < path.len()
        invariant
            1 <= i <= path@.len(),
            out@.len() == i - 1,
            forall|j: int| 0 <= j < i - 1 ==> #[trigger] out@[j] == path@[j + 1],
        decreases path@.len() - i,
    {
        out.push(path[i].clone());
        i += 1;
    }
    assert(texts(out@) =~= texts(path@).drop_first());
    out
}

fn paths_through(paths: &Vec<Vec<String>>, name: &str) -> (r: Vec<Vec<String>>)
    ensures
        path_texts(r@) == child_paths(path_texts(paths@), name@),
{
    let ghost all = path_texts(paths@);
    let mut out: Vec<Vec<String>> = Vec::new();
    let mut i: usize = 0;
    assert(all.take(0) =~= Seq::<Seq<Seq<char>>>::empty());
    assert(path_texts(out@) =~= child_paths(all.take(0), name@));
    while i < paths.len()
        invariant
            i <= paths@.len(),
            all == path_texts(paths@),
            path_texts(out@) == child_paths(all.take(i as int), name@),
        decreases paths@.len() - i,
    {
        let ghost before = path_texts(out@);
        proof {
            let upto = all.take(i + 1);
            assert(upto.drop_last() =~= all.take(i as int));
            assert(upto.last() == texts(paths@[i as int]@));
        }
        if !paths[i].is_empty() {
            assert(texts(paths@[i as int]@)[0] == paths@[i as int]@[0]@);
            if same_text(paths[i][0].as_str(), name) {
                let tail: Vec<String> = tail_of(&paths[i]);
                let ghost rest = texts(tail@);
                out.push(tail);
                assert(path_texts(out@) =~= before.push(rest));
            }
        }
        i += 1;
    }
    assert(all.take(i as int) =~= all);
    out
}

/// The field with only those of its inner fields that a path leads to or through.
fn prune_field(field: &Field, paths: &Vec<Vec<String>>) -> (r: Field)
    ensures
        r@ == pruned(field@, path_texts(paths@)),
    decreases field,
{
    if any_ends_here(paths) {
        return field.clone();
    }
    match &field.data_type {
        DataType::Struct(children) => {
            assert(field@.data_type->Struct_0 =~= field_models(children@));
            let kept: Vec<FieldRef> = narrow_struct_children(children, paths);
            let kept: Fields = Arc::new(kept);
            let data_type: DataType = DataType::Struct(kept);
            assert(data_type@->Struct_0 =~= field_models(kept@));
            Field {
                name: field.name.clone(),
                data_type,
                nullable: field.nullable,
                metadata: field.metadata.clone(),
            }
        },
        _ => field.clone(),
    }
}

/// Those of the children that a path starts at, each pruned.
fn narrow_struct_children(children: &Vec<FieldRef>, paths: &Vec<Vec<String>>) -> (r: Vec<FieldRef>)
    ensures
        field_models(r@) == pruned_children(field_models(children@), path_texts(paths@)),
    decreases children,
{
    let ghost models = field_models(children@);
    let ghost wanted = path_texts(paths@);
    let mut kept: Vec<FieldRef> = Vec::new();
    let mut i: usize = 0;
    assert(models.take(0) =~= Seq::<FieldView>::empty());
    assert(field_models(kept@) =~= pruned_children(models.take(0), wanted));
    while i < children.len()
        invariant
            i <= children@.len(),
            models == field_models(children@),
            wanted == path_texts(paths@),
            field_models(kept@) == pruned_children(models.take(i as int), wanted),
        decreases children@.len() - i,
    {
        let ghost before = field_models(kept@);
        proof {
            let upto = models.take(i + 1);
            assert(upto.drop_last() =~= models.take(i as int));
            assert(upto.last() == (*children@[i as int])@);
            assert(decreases_to!(*children => children@[i as int]));
        }
        let inner: Vec<Vec<String>> = paths_through(paths, children[i].name.as_str());
        assert(path_texts(inner@).len() == inner@.len());
        if !inner.is_empty() {
            let child: Field = prune_field(&children[i], &inner);
            let ghost view = child@;
            kept.push(Arc::new(child));
            assert(field_models(kept@) =~= before.push(view));
        }
        i += 1;
    }
    assert(models.take(i as int) =~= models);
    kept
}

/// The field narrowed to what `paths` read of it. `None` if one of the paths does not exist in the
/// field, or if there is none.
pub fn narrow_field(field: &Field, paths: &Vec<Vec<String>>) -> (r: Option<Field>)
    ensures
        match r {
            Some(f) => narrowed(field@, path_texts(paths@)) == Some(f@),
            None => narrowed(field@, path_texts(paths@)) is None,
        },
{
    let ghost wanted = path_texts(paths@);
    if paths.is_empty() {
        return None;
    }
    let mut i: usize = 0;
    while i < paths.len()
        invariant
            i <= paths@.len(),
            wanted == path_texts(paths@),
            forall|j: int|
                0 <= j < i ==> path_exists(field@.data_type, #[trigger] wanted[j]),
        decreases paths@.len() - i,
    {
        proof {
            assert(wanted[i as int] == texts(paths@[i as int]@));
            assert(wanted[i as int].skip(0) =~= wanted[i as int]);
        }
        if !has_path(&field.data_type, &paths[i], 0) {
            return None;
        }
        i += 1;
    }
    Some(prune_field(field, paths))
}

/// Whether one of two paths goes on where the other ends, or they are the same.
pub open spec fn on_one_line(a: Seq<Seq<char>>, b: Seq<Seq<char>>) -> bool {
    a.is_prefix_of(b) || b.is_prefix_of(a)
}

proof fn lemma_child_path_of(paths: Seq<Seq<Seq<char>>>, path: Seq<Seq<char>>)
    requires
        paths.contains(path),
        path.len() > 0,
    ensures
        child_paths(paths, path[0]).contains(path.drop_first()),
    decreases paths.len(),
{
    let shorter = paths.drop_last();
    let inner = child_paths(paths, path[0]);
    if paths.last() == path {
        assert(inner.last() == path.drop_first());
    } else {
        let i = choose|i: int| 0 <= i < paths.len() && paths[i] == path;
        assert(shorter[i] == path);
        lemma_child_path_of(shorter, path);
        let before = child_paths(shorter, path[0]);
        let k = choose|k: int| 0 <= k < before.len() && before[k] == path.drop_first();
        assert(inner[k] == path.drop_first());
    }
}

proof fn lemma_path_of_child(paths: Seq<Seq<Seq<char>>>, name: Seq<char>, k: int) -> (i: int)
    requires
        0 <= k < child_paths(paths, name).len(),
    ensures
        0 <= i < paths.len(),
        paths[i].len() > 0,
        paths[i][0] == name,
        paths[i].drop_first() == child_paths(paths, name)[k],
    decreases paths.len(),
{
    let before = child_paths(paths.drop_last(), name);
    if k < before.len() {
        lemma_path_of_child(paths.drop_last(), name, k)
    } else {
        paths.len() - 1
    }
}

/// Each child that is left of a struct is one of its children, pruned.
proof fn lemma_kept_child(children: Seq<FieldView>, paths: Seq<Seq<Seq<char>>>, k: int) -> (j: int)
    requires
        0 <= k < pruned_children(children, paths).len(),
    ensures
        0 <= j < children.len(),
        child_paths(paths, children[j].name).len() > 0,
        pruned_children(children, paths)[k] == pruned(
            children[j],
            child_paths(paths, children[j].name),
        ),
        pruned_children(children, paths)[k].name == children[j].name,
    decreases children.len(),
{
    let shorter = children.drop_last();
    let before = pruned_children(shorter, paths);
    if k < before.len() {
        let j = lemma_kept_child(shorter, paths, k);
        assert(shorter[j] == children[j]);
        j
    } else {
        children.len() - 1
    }
}

/// Each child of a struct that a path starts at is left, pruned.
proof fn lemma_child_is_kept(
    children: Seq<FieldView>,
    paths: Seq<Seq<Seq<char>>>,
    j: int,
) -> (k: int)
    requires
        0 <= j < children.len(),
        child_paths(paths, children[j].name).len() > 0,
    ensures
        0 <= k < pruned_children(children, paths).len(),
        pruned_children(children, paths)[k] == pruned(
            children[j],
            child_paths(paths, children[j].name),
        ),
    decreases children.len(),
{
    let shorter = children.drop_last();
    let before = pruned_children(shorter, paths);
    if j < children.len() - 1 {
        let k = lemma_child_is_kept(shorter, paths, j);
        assert(before[k] == pruned_children(children, paths)[k]);
        k
    } else {
        before.len() as int
    }
}

/// The first child of a name is still the first of that name, pruned, where a path starts at it.
proof fn lemma_first_child(children: Seq<FieldView>, paths: Seq<Seq<Seq<char>>>, name: Seq<char>)
    requires
        child_paths(paths, name).len() > 0,
    ensures
        ({
            let kept = pruned_children(children, paths);
            match position_of(children, name) {
                Some(j) => {
                    &&& 0 <= j < children.len()
                    &&& children[j].name == name
                    &&& position_of(kept, name) matches Some(k)
                    &&& 0 <= k < kept.len()
                    &&& kept[k] == pruned(children[j], child_paths(paths, name))
                },
                None => position_of(kept, name) is None,
            }
        }),
    decreases children.len(),
{
    if children.len() > 0 {
        let shorter = children.drop_last();
        let child = children.last();
        let before = pruned_children(shorter, paths);
        let kept = pruned_children(children, paths);
        lemma_first_child(shorter, paths, name);
        assert(children =~= shorter.push(child));
        lemma_position_of_push(shorter, child, name);
        lemma_position_of_push(before, pruned(child, child_paths(paths, child.name)), name);
    }
}

/// What is read through one of the paths is the same in the narrowed field: its name, its type and
/// everything inside it, its annotations, and whether it can be null.
pub proof fn law_read_parts_are_kept(field: FieldView, paths: Seq<Seq<Seq<char>>>, i: int)
    requires
        narrowed(field, paths) is Some,
        0 <= i < paths.len(),
    ensures
        accessed_field(narrowed(field, paths)->0, paths[i]) == accessed_field(field, paths[i]),
{
    assert(paths.contains(paths[i]));
    lemma_access_is_kept(field, paths, paths[i], field.nullable);
}

proof fn lemma_access_is_kept(
    field: FieldView,
    paths: Seq<Seq<Seq<char>>>,
    path: Seq<Seq<char>>,
    nullable: bool,
)
    requires
        paths.contains(path),
    ensures
        accessed_field(FieldView { nullable, ..pruned(field, paths) }, path) == accessed_field(
            FieldView { nullable, ..field },
            path,
        ),
    decreases path.len(),
{
    if path.len() == 0 {
        let i = choose|i: int| 0 <= i < paths.len() && paths[i] == path;
        assert(ends_here(paths)) by {
            assert(paths[i].len() == 0);
        }
    } else if !ends_here(paths) {
        if let DataTypeView::Struct(children) = field.data_type {
            let name = path[0];
            let inner = child_paths(paths, name);
            lemma_child_path_of(paths, path);
            lemma_first_child(children, paths, name);
            if let Some(j) = position_of(children, name) {
                let child = children[j];
                lemma_access_is_kept(
                    child,
                    inner,
                    path.drop_first(),
                    child.nullable || nullable,
                );
            }
        }
    }
}

/// Nothing is left in the narrowed field that the paths do not lead to or through: a path that
/// exists in it goes on from one of them, or one of them goes on from it.
pub proof fn law_only_read_parts_are_left(
    field: FieldView,
    paths: Seq<Seq<Seq<char>>>,
    path: Seq<Seq<char>>,
)
    requires
        narrowed(field, paths) matches Some(f) && path_exists(f.data_type, path),
    ensures
        exists|i: int| 0 <= i < paths.len() && on_one_line(#[trigger] paths[i], path),
{
    lemma_left_path(field, paths, path);
}

proof fn lemma_left_path(
    field: FieldView,
    paths: Seq<Seq<Seq<char>>>,
    path: Seq<Seq<char>>,
)
    requires
        paths.len() > 0,
        path_exists(pruned(field, paths).data_type, path),
    ensures
        exists|i: int| 0 <= i < paths.len() && on_one_line(#[trigger] paths[i], path),
    decreases path.len(),
{
    if path.len() == 0 {
        assert(path.is_prefix_of(paths[0]));
    } else if ends_here(paths) {
        let i = choose|i: int| 0 <= i < paths.len() && (#[trigger] paths[i]).len() == 0;
        assert(paths[i].is_prefix_of(path));
    } else {
        let children = field.data_type->Struct_0;
        let kept = pruned_children(children, paths);
        let k = choose|k: int| 0 <= k < kept.len() && (#[trigger] kept[k]).name == path[0];
        let j = lemma_kept_child(children, paths, k);
        let inner = child_paths(paths, path[0]);
        lemma_left_path(children[j], inner, path.drop_first());
        let m = choose|m: int|
            0 <= m < inner.len() && on_one_line(#[trigger] inner[m], path.drop_first());
        let i = lemma_path_of_child(paths, path[0], m);
        assert(paths[i] =~= seq![path[0]] + inner[m]);
        assert(path =~= seq![path[0]] + path.drop_first());
        if inner[m].is_prefix_of(path.drop_first()) {
            assert(paths[i] =~= path.subrange(0, paths[i].len() as int));
        } else {
            assert(path =~= paths[i].subrange(0, path.len() as int));
        }
        assert(on_one_line(paths[i], path));
    }
}

/// Every path that was asked for exists in the narrowed field.
pub proof fn law_requested_paths_exist(field: FieldView, paths: Seq<Seq<Seq<char>>>, i: int)
    requires
        narrowed(field, paths) is Some,
        0 <= i < paths.len(),
    ensures
        path_exists((narrowed(field, paths)->0).data_type, paths[i]),
{
    assert(paths.contains(paths[i]));
    lemma_path_is_kept(field, paths, paths[i]);
}

proof fn lemma_path_is_kept(
    field: FieldView,
    paths: Seq<Seq<Seq<char>>>,
    path: Seq<Seq<char>>,
)
    requires
        paths.contains(path),
        path_exists(field.data_type, path),
    ensures
        path_exists(pruned(field, paths).data_type, path),
    decreases path.len(),
{
    if path.len() > 0 && !ends_here(paths) {
        let children = field.data_type->Struct_0;
        let kept = pruned_children(children, paths);
        let inner = child_paths(paths, path[0]);
        lemma_child_path_of(paths, path);
        let first = choose|j: int|
            0 <= j < children.len() && (#[trigger] children[j]).name == path[0];
        let k = lemma_child_is_kept(children, paths, first);
        assert(kept[k].name == path[0]);
        assert forall|m: int|
            0 <= m < kept.len() && (#[trigger] kept[m]).name == path[0] implies path_exists(
            kept[m].data_type,
            path.drop_first(),
        ) by {
            let j = lemma_kept_child(children, paths, m);
            lemma_path_is_kept(children[j], inner, path.drop_first());
        }
    }
}

/// A field that was narrowed is not changed by narrowing it to the same paths again.
pub proof fn law_narrowing_settles(field: FieldView, paths: Seq<Seq<Seq<char>>>)
    requires
        narrowed(field, paths) is Some,
    ensures
        narrowed(narrowed(field, paths)->0, paths) == narrowed(field, paths),
{
    let f = pruned(field, paths);
    lemma_pruned_twice(field, paths);
    assert forall|i: int| 0 <= i < paths.len() implies path_exists(
        f.data_type,
        #[trigger] paths[i],
    ) by {
        law_requested_paths_exist(field, paths, i);
    }
}

proof fn lemma_pruned_twice(field: FieldView, paths: Seq<Seq<Seq<char>>>)
    ensures
        pruned(pruned(field, paths), paths) == pruned(field, paths),
    decreases field,
{
    if !ends_here(paths) {
        if let DataTypeView::Struct(children) = field.data_type {
            lemma_children_pruned_twice(children, paths);
        }
    }
}

proof fn lemma_children_pruned_twice(children: Seq<FieldView>, paths: Seq<Seq<Seq<char>>>)
    ensures
        pruned_children(pruned_children(children, paths), paths) == pruned_children(
            children,
            paths,
        ),
    decreases children,
{
    if children.len() > 0 {
        let shorter = children.drop_last();
        let child = children.last();
        let before = pruned_children(shorter, paths);
        let kept = pruned_children(children, paths);
        let inner = child_paths(paths, child.name);
        lemma_children_pruned_twice(shorter, paths);
        if inner.len() > 0 {
            lemma_pruned_twice(child, inner);
            assert(kept.drop_last() =~= before);
            assert(kept.last().name == child.name);
        }
    }
}

/// Whether every path of one list is in another.
pub open spec fn are_among(a: Seq<Seq<Seq<char>>>, b: Seq<Seq<Seq<char>>>) -> bool {
    forall|i: int| 0 <= i < a.len() ==> b.contains(#[trigger] a[i])
}

proof fn lemma_child_paths_among(
    a: Seq<Seq<Seq<char>>>,
    b: Seq<Seq<Seq<char>>>,
    name: Seq<char>,
)
    requires
        are_among(a, b),
    ensures
        are_among(child_paths(a, name), child_paths(b, name)),
{
    let inner = child_paths(a, name);
    assert forall|k: int| 0 <= k < inner.len() implies child_paths(b, name).contains(
        #[trigger] inner[k],
    ) by {
        let i = lemma_path_of_child(a, name, k);
        lemma_child_path_of(b, a[i]);
    }
}

proof fn lemma_end_among(a: Seq<Seq<Seq<char>>>, b: Seq<Seq<Seq<char>>>)
    requires
        are_among(a, b),
        ends_here(a),
    ensures
        ends_here(b),
{
    let i = choose|i: int| 0 <= i < a.len() && (#[trigger] a[i]).len() == 0;
    let j = choose|j: int| 0 <= j < b.len() && b[j] == a[i];
    assert(b[j].len() == 0);
}

proof fn lemma_pruned_by_set(field: FieldView, a: Seq<Seq<Seq<char>>>, b: Seq<Seq<Seq<char>>>)
    requires
        are_among(a, b),
        are_among(b, a),
    ensures
        pruned(field, a) == pruned(field, b),
    decreases field,
{
    if ends_here(a) {
        lemma_end_among(a, b);
    }
    if ends_here(b) {
        lemma_end_among(b, a);
    }
    if let DataTypeView::Struct(children) = field.data_type {
        lemma_children_pruned_by_set(children, a, b);
    }
}

proof fn lemma_children_pruned_by_set(
    children: Seq<FieldView>,
    a: Seq<Seq<Seq<char>>>,
    b: Seq<Seq<Seq<char>>>,
)
    requires
        are_among(a, b),
        are_among(b, a),
    ensures
        pruned_children(children, a) == pruned_children(children, b),
    decreases children,
{
    if children.len() > 0 {
        let child = children.last();
        let inner_a = child_paths(a, child.name);
        let inner_b = child_paths(b, child.name);
        lemma_children_pruned_by_set(children.drop_last(), a, b);
        lemma_child_paths_among(a, b, child.name);
        lemma_child_paths_among(b, a, child.name);
        if inner_a.len() > 0 {
            assert(inner_b.contains(inner_a[0]));
        }
        if inner_b.len() > 0 {
            assert(inner_a.contains(inner_b[0]));
        }
        lemma_pruned_by_set(child, inner_a, inner_b);
    }
}

/// What a field is narrowed to depends on which paths there are, not on their order or on
/// repetitions.
pub proof fn law_narrowing_depends_on_the_set_of_paths(
    field: FieldView,
    a: Seq<Seq<Seq<char>>>,
    b: Seq<Seq<Seq<char>>>,
)
    requires
        a.to_set() == b.to_set(),
    ensures
        narrowed(field, a) == narrowed(field, b),
{
    assert forall|i: int| 0 <= i < a.len() implies b.contains(#[trigger] a[i]) by {
        assert(a.to_set().contains(a[i]));
    }
    assert forall|i: int| 0 <= i < b.len() implies a.contains(#[trigger] b[i]) by {
        assert(b.to_set().contains(b[i]));
    }
    lemma_pruned_by_set(field, a, b);
    if narrowed(field, a) is Some {
        lemma_all_exist_among(field, a, b);
    }
    if narrowed(field, b) is Some {
        lemma_all_exist_among(field, b, a);
    }
}

proof fn lemma_all_exist_among(field: FieldView, a: Seq<Seq<Seq<char>>>, b: Seq<Seq<Seq<char>>>)
    requires
        are_among(a, b),
        are_among(b, a),
        narrowed(field, a) is Some,
    ensures
        narrowed(field, b) is Some,
{
    assert(b.contains(a[0]));
    assert forall|i: int| 0 <= i < b.len() implies path_exists(
        field.data_type,
        #[trigger] b[i],
    ) by {
        let j = choose|j: int| 0 <= j < a.len() && a[j] == b[i];
        assert(path_exists(field.data_type, a[j]));
    }
}

/// Whether `found` is a type that a path leads to: that of a child of that name, of a child of that
/// name, and so on.
pub open spec fn is_at(data_type: DataTypeView, path: Seq<Seq<char>>, found: DataTypeView) -> bool
    decreases path.len(),
{
    if path.len() == 0 {
        found == data_type
    } else {
        exists|i: int|
            0 <= i < child_fields(data_type).len() && (#[trigger] child_fields(data_type)[i]).name
                == path[0] && is_at(
                child_fields(data_type)[i].data_type,
                path.drop_first(),
                found,
            )
    }
}

/// The children of a struct; other types have none.
pub open spec fn child_fields(data_type: DataTypeView) -> Seq<FieldView> {
    match data_type {
        DataTypeView::Struct(children) => children,
        _ => Seq::empty(),
    }
}

/// Whether a type is a struct with a child of the given name.
pub open spec fn has_child(data_type: DataTypeView, name: Seq<char>) -> bool {
    exists|i: int|
        0 <= i < child_fields(data_type).len() && (#[trigger] child_fields(data_type)[i]).name
            == name
}

/// A path exists exactly if it can go on everywhere on its way: whatever its first segments lead to
/// is a struct that has a child of the name of the next one.
pub proof fn law_existing_paths_can_go_on(data_type: DataTypeView, path: Seq<Seq<char>>)
    ensures
        path_exists(data_type, path) <==> (forall|k: int, found: DataTypeView|
            0 <= k < path.len() && #[trigger] is_at(data_type, path.take(k), found) ==> has_child(
                found,
                path[k],
            )),
    decreases path.len(),
{
    if path_exists(data_type, path) {
        assert forall|k: int, found: DataTypeView|
            0 <= k < path.len() && #[trigger] is_at(
                data_type,
                path.take(k),
                found,
            ) implies has_child(found, path[k]) by {
            lemma_path_goes_on(data_type, path, k, found);
        }
    } else {
        let (k, found) = lemma_path_breaks_off(data_type, path);
        assert(is_at(data_type, path.take(k), found));
    }
}

proof fn lemma_path_goes_on(
    data_type: DataTypeView,
    path: Seq<Seq<char>>,
    k: int,
    found: DataTypeView,
)
    requires
        path_exists(data_type, path),
        0 <= k < path.len(),
        is_at(data_type, path.take(k), found),
    ensures
        has_child(found, path[k]),
    decreases path.len(),
{
    let children = child_fields(data_type);
    if k > 0 {
        let front = path.take(k);
        let rest = path.drop_first();
        assert(front[0] == path[0]);
        assert(front.drop_first() =~= rest.take(k - 1));
        let i = choose|i: int|
            0 <= i < children.len() && (#[trigger] children[i]).name == front[0] && is_at(
                children[i].data_type,
                front.drop_first(),
                found,
            );
        lemma_path_goes_on(children[i].data_type, rest, k - 1, found);
        assert(rest[k - 1] == path[k]);
    }
}

proof fn lemma_path_breaks_off(data_type: DataTypeView, path: Seq<Seq<char>>) -> (r: (
    int,
    DataTypeView,
))
    requires
        !path_exists(data_type, path),
    ensures
        0 <= r.0 < path.len(),
        is_at(data_type, path.take(r.0), r.1),
        !has_child(r.1, path[r.0]),
    decreases path.len(),
{
    let children = child_fields(data_type);
    if has_child(data_type, path[0]) {
        let rest = path.drop_first();
        let i = choose|i: int|
            0 <= i < children.len() && (#[trigger] children[i]).name == path[0] && !path_exists(
                children[i].data_type,
                rest,
            );
        let (k, found) = lemma_path_breaks_off(children[i].data_type, rest);
        let front = path.take(k + 1);
        assert(front[0] == path[0]);
        assert(front.drop_first() =~= rest.take(k));
        assert(rest[k] == path[k + 1]);
        assert(is_at(data_type, front, found));
        (k + 1, found)
    } else {
        assert(path.take(0) =~= Seq::<Seq<char>>::empty());
        (0, data_type)
    }
}

/// A field can be narrowed to paths exactly if there are paths and all of them exist in it. It
/// keeps its name, nullability and annotations.
pub proof fn law_existing_paths_can_be_narrowed_to(field: FieldView, paths: Seq<Seq<Seq<char>>>)
    ensures
        narrowed(field, paths) is Some <==> paths.len() > 0 && (forall|i: int|
            0 <= i < paths.len() ==> path_exists(field.data_type, #[trigger] paths[i])),
        narrowed(field, paths) matches Some(next) ==> next == (FieldView {
            data_type: next.data_type,
            ..field
        }),
        narrowed(field, paths) matches Some(next) ==> (paths.contains(Seq::<Seq<char>>::empty())
            ==> next == field),
{
    if narrowed(field, paths) is Some && paths.contains(Seq::<Seq<char>>::empty()) {
        let i = choose|i: int|
            0 <= i < paths.len() && paths[i] == Seq::<Seq<char>>::empty();
        assert(paths[i].len() == 0);
    }
}

/// Whether one of the paths starts with a name.
pub open spec fn starts_some(paths: Seq<Seq<Seq<char>>>, name: Seq<char>) -> bool {
    exists|i: int| 0 <= i < paths.len() && (#[trigger] paths[i]).len() > 0 && paths[i][0] == name
}

proof fn lemma_child_paths_of_started(paths: Seq<Seq<Seq<char>>>, name: Seq<char>)
    ensures
        child_paths(paths, name).len() > 0 <==> starts_some(paths, name),
{
    if child_paths(paths, name).len() > 0 {
        let i = lemma_path_of_child(paths, name, 0);
        assert(paths[i].len() > 0);
    }
    if starts_some(paths, name) {
        let i = choose|i: int|
            0 <= i < paths.len() && (#[trigger] paths[i]).len() > 0 && paths[i][0] == name;
        lemma_child_path_of(paths, paths[i]);
    }
}

/// The children that are left of a struct are those that a path starts at, in their order, with
/// their names, nullability and annotations.
pub proof fn law_started_children_are_left_in_order(
    children: Seq<FieldView>,
    paths: Seq<Seq<Seq<char>>>,
)
    ensures
        pruned_children(children, paths).map_values(
            |c: FieldView| (c.name, c.nullable, c.metadata),
        ) == children.filter(|c: FieldView| starts_some(paths, c.name)).map_values(
            |c: FieldView| (c.name, c.nullable, c.metadata),
        ),
    decreases children.len(),
{
    reveal(Seq::filter);
    let asked = |c: FieldView| starts_some(paths, c.name);
    let outside = |c: FieldView| (c.name, c.nullable, c.metadata);
    let left = pruned_children(children, paths);
    let kept = children.filter(asked);
    if children.len() > 0 {
        let shorter = children.drop_last();
        law_started_children_are_left_in_order(shorter, paths);
        lemma_child_paths_of_started(paths, children.last().name);
        let before = pruned_children(shorter, paths);
        if asked(children.last()) {
            let child = pruned(
                children.last(),
                child_paths(paths, children.last().name),
            );
            assert(left =~= before.push(child));
            assert(outside(child) == outside(children.last()));
            assert(left.map_values(outside) =~= before.map_values(outside).push(
                outside(children.last()),
            ));
            assert(kept.map_values(outside) =~= shorter.filter(asked).map_values(outside).push(
                outside(children.last()),
            ));
        }
    }
    assert(left.map_values(outside) =~= kept.map_values(outside));
}

/// Of a struct that no path ends at, the children that a path starts at are left, in their order. Each
/// is narrowed to what is left of the paths that start at it.
pub proof fn law_structs_are_narrowed_child_by_child(
    field: FieldView,
    children: Seq<FieldView>,
    paths: Seq<Seq<Seq<char>>>,
    i: int,
)
    requires
        field.data_type == DataTypeView::Struct(children),
        narrowed(field, paths) is Some,
        forall|k: int| 0 <= k < paths.len() ==> (#[trigger] paths[k]).len() > 0,
        0 <= i < children.len(),
        starts_some(paths, children[i].name),
    ensures
        ({
            let place = children.take(i).filter(
                |c: FieldView| starts_some(paths, c.name),
            ).len() as int;
            let rest = paths.filter(
                |p: Seq<Seq<char>>| p[0] == children[i].name,
            ).map_values(|p: Seq<Seq<char>>| p.drop_first());
            &&& narrowed(field, paths) matches Some(next)
            &&& next.data_type matches DataTypeView::Struct(left)
            &&& left.len() == children.filter(|c: FieldView| starts_some(paths, c.name)).len()
            &&& place < left.len()
            &&& narrowed(children[i], rest) == Some(left[place])
        }),
{
    let asked = |c: FieldView| starts_some(paths, c.name);
    let left = pruned_children(children, paths);
    let name = children[i].name;
    let rest = child_paths(paths, name);
    assert(!ends_here(paths));
    law_started_children_are_left_in_order(children, paths);
    assert(left.map_values(|c: FieldView| (c.name, c.nullable, c.metadata)).len() == left.len());
    lemma_child_paths_filtered(paths, name);
    lemma_pruned_child_at(children, paths, i);
    lemma_child_paths_of_started(paths, name);
    assert forall|k: int| 0 <= k < rest.len() implies path_exists(
        children[i].data_type,
        #[trigger] rest[k],
    ) by {
        let m = lemma_path_of_child(paths, name, k);
        assert(path_exists(field.data_type, paths[m]));
    }
}

proof fn lemma_child_paths_filtered(paths: Seq<Seq<Seq<char>>>, name: Seq<char>)
    requires
        forall|k: int| 0 <= k < paths.len() ==> (#[trigger] paths[k]).len() > 0,
    ensures
        child_paths(paths, name) == paths.filter(|p: Seq<Seq<char>>| p[0] == name).map_values(
            |p: Seq<Seq<char>>| p.drop_first(),
        ),
    decreases paths.len(),
{
    reveal(Seq::filter);
    let starts = |p: Seq<Seq<char>>| p[0] == name;
    let behind = |p: Seq<Seq<char>>| p.drop_first();
    if paths.len() > 0 {
        let shorter = paths.drop_last();
        assert forall|k: int| 0 <= k < shorter.len() implies (#[trigger] shorter[k]).len() > 0 by {
            assert(shorter[k] == paths[k]);
        }
        lemma_child_paths_filtered(shorter, name);
        assert(paths[paths.len() - 1].len() > 0);
    }
    assert(child_paths(paths, name) =~= paths.filter(starts).map_values(behind));
}

proof fn lemma_pruned_child_at(children: Seq<FieldView>, paths: Seq<Seq<Seq<char>>>, i: int)
    requires
        0 <= i < children.len(),
        starts_some(paths, children[i].name),
    ensures
        ({
            let place = children.take(i).filter(
                |c: FieldView| starts_some(paths, c.name),
            ).len() as int;
            let left = pruned_children(children, paths);
            &&& place < left.len()
            &&& left[place] == pruned(children[i], child_paths(paths, children[i].name))
        }),
    decreases children.len(),
{
    let shorter = children.drop_last();
    let before = pruned_children(shorter, paths);
    if i < children.len() - 1 {
        lemma_pruned_child_at(shorter, paths, i);
        assert(shorter.take(i) =~= children.take(i));
        assert(shorter[i] == children[i]);
    } else {
        let outside = |c: FieldView| (c.name, c.nullable, c.metadata);
        assert(children.take(i) =~= shorter);
        lemma_child_paths_of_started(paths, children[i].name);
        law_started_children_are_left_in_order(shorter, paths);
        assert(before.map_values(outside).len() == before.len());
        let kept = shorter.filter(|c: FieldView| starts_some(paths, c.name));
        assert(kept.map_values(outside).len() == kept.len());
    }
}

} // verus!
