//! What undoing a field edit restores.
use vstd::prelude::*;
use crate::component_commands::law_component_is_read_back;
use crate::document::DocView;
use crate::patch::{
    authored_value, edited_patch, empty_struct, has_patch, is_name, name_in, of_type, patch_index,
    patch_type_path, with_edit, with_name, without_patch, PatchView,
};
use crate::seqs::{first_index, lemma_first_index, lemma_first_index_is};
use crate::set_field::{field_written, mirrored, name_from, SetFieldView};
use crate::text::leading_segment_of;
use crate::value::{
    field_index, field_value, has_field, law_remove_new, law_set_back, law_set_then_read,
    lemma_field_index, lemma_field_index_is, with_field, Entity, FieldView, StructView, ValueView,
};
use crate::world::{
    component_index, law_last_edit_is_read, typed, with_component, with_fields, WorldView,
};

verus! {

/// An edit keeps the component type of a patch, provided that a whole struct value is of that type.
proof fn lemma_edit_keeps_type(
    patch: PatchView,
    type_path: Seq<char>,
    whole: bool,
    name: Seq<char>,
    value: ValueView,
)
    requires
        patch_type_path(patch) == Some(type_path),
        whole ==> (value matches ValueView::Struct(d) ==> d.type_path == type_path),
    ensures
        patch_type_path(edited_patch(patch, whole, name, value)) == Some(type_path),
{
}

/// After an edit the component's patch stands where it stood, or last when it had none.
proof fn lemma_edit_index(
    patches: Seq<PatchView>,
    type_path: Seq<char>,
    whole: bool,
    name: Seq<char>,
    value: ValueView,
)
    requires
        whole ==> (value matches ValueView::Struct(d) ==> d.type_path == type_path),
    ensures
        0 <= patch_index(patches, type_path) <= patches.len(),
        patch_index(with_edit(patches, type_path, whole, name, value), type_path) == patch_index(
            patches,
            type_path,
        ),
        has_patch(with_edit(patches, type_path, whole, name, value), type_path),
{
    let p = of_type(type_path);
    let after = with_edit(patches, type_path, whole, name, value);
    lemma_first_index(patches, p);
    let i = patch_index(patches, type_path);
    if i < patches.len() {
        lemma_edit_keeps_type(patches[i], type_path, whole, name, value);
    } else {
        lemma_edit_keeps_type(empty_struct(type_path), type_path, whole, name, value);
    }
    lemma_first_index_is(after, p, i);
}

/// Taking the patch out that an edit added leaves the patches as they were.
proof fn lemma_remove_added(patches: Seq<PatchView>, type_path: Seq<char>, added: PatchView)
    requires
        !has_patch(patches, type_path),
        patch_type_path(added) == Some(type_path),
    ensures
        without_patch(patches.push(added), type_path) == patches,
{
    let p = of_type(type_path);
    lemma_first_index(patches, p);
    lemma_first_index_is(patches.push(added), p, patches.len() as int);
    assert(patches.push(added).remove(patches.len() as int) =~= patches);
}

/// Replacing the patches of a tracked entity twice is replacing them once, and putting the old
/// ones back changes nothing.
proof fn lemma_patches_twice(
    doc: DocView,
    e: Entity,
    first: Seq<PatchView>,
    second: Seq<PatchView>,
)
    requires
        doc.linked(),
        doc.node_of(e) is Some,
    ensures
        doc.with_entity_patches(e, first).entity_patches(e) == first,
        doc.with_entity_patches(e, first).node_of(e) == doc.node_of(e),
        doc.with_entity_patches(e, first).linked(),
        doc.with_entity_patches(e, first).with_entity_patches(e, second)
            == doc.with_entity_patches(e, second),
        doc.with_entity_patches(e, doc.entity_patches(e)) == doc,
{
    let node = doc.node_of(e)->0;
    assert(doc.nodes.contains_key(node));
    assert(doc.with_entity_patches(e, first).with_entity_patches(e, second)
        =~= doc.with_entity_patches(e, second));
    assert(doc.with_entity_patches(e, doc.entity_patches(e)) =~= doc);
}

/// The conditions under which a field edit's undo restores the document: the entity is tracked and
/// the command fresh; the component type is known; a baseline is given as the document has it, on
/// a struct patch; without a patch, the component is on the entity, belongs to the project or is
/// authored whole for the first time; whole values are of the component's type; and fields of
/// project components are named without a dot.
pub open spec fn undoable(w: WorldView, cmd: SetFieldView) -> bool {
    let patches = w.doc.entity_patches(cmd.entity);
    &&& !cmd.names()
    &&& w.doc.linked()
    &&& w.doc.node_of(cmd.entity) is Some
    &&& !cmd.was_derived
    &&& w.is_project(cmd.type_path) || w.registered(cmd.type_path)
    &&& has_patch(patches, cmd.type_path) ==> {
        &&& patches[patch_index(patches, cmd.type_path)] is Struct
        &&& cmd.old_value == authored_value(patches, cmd.type_path, cmd.field_path)
    }
    &&& !has_patch(patches, cmd.type_path) ==> {
        ||| w.is_project(cmd.type_path)
        ||| cmd.live_before(w)
        ||| cmd.field_path.len() == 0 && cmd.old_value is None
    }
    &&& cmd.field_path.len() == 0 ==> {
        &&& cmd.new_value matches ValueView::Struct(d) ==> d.type_path == cmd.type_path
        &&& cmd.old_value matches Some(ValueView::Struct(d)) ==> d.type_path == cmd.type_path
    }
    &&& w.is_project(cmd.type_path) ==> leading_segment_of(cmd.field_path) == cmd.field_path
}

/// Undoing a field edit right after it was executed leaves the document as it was before the edit.
pub proof fn law_undo_restores_document(w: WorldView, cmd: SetFieldView)
    requires
        undoable(w, cmd),
    ensures
        cmd.after_execute(w).undone(cmd.executed(w)).doc == w.doc,
{
    let e = cmd.entity;
    let tp = cmd.type_path;
    let fp = cmd.field_path;
    let whole = fp.len() == 0;
    let ps = w.doc.entity_patches(e);
    let done = cmd.after_execute(w);
    let mid = cmd.executed(w);
    let ps1 = field_written(w, ps, tp, fp, cmd.new_value);
    assert(ps1 == with_edit(ps, tp, whole, fp, cmd.new_value));
    lemma_edit_index(ps, tp, whole, fp, cmd.new_value);
    lemma_patches_twice(w.doc, e, ps1, ps);
    assert(mid.doc == w.doc.with_entity_patches(e, ps1));
    assert(mid.doc.entity_patches(e) == ps1);
    let ps2 = done.undone_patches(mid);
    lemma_patches_twice(w.doc, e, ps1, ps2);
    let i = patch_index(ps, tp);
    if has_patch(ps, tp) {
        assert(!done.was_derived);
        assert(done.old_value == cmd.old_value);
        let data = ps[i]->Struct_0;
        lemma_first_index(ps, of_type(tp));
        if whole {
            assert(cmd.old_value == Some(ValueView::Struct(data)));
            assert(ps2 =~= ps);
        } else {
            match cmd.old_value {
                Some(v) => {
                    lemma_field_index(data.fields, fp);
                    law_set_back(data.fields, fp, cmd.new_value);
                    assert(ps2[i] == ps[i]);
                    assert(ps2 =~= ps);
                },
                None => {
                    lemma_field_index(data.fields, fp);
                    law_remove_new(data.fields, fp, cmd.new_value);
                    assert(ps2[i] == ps[i]);
                    assert(ps2 =~= ps);
                },
            }
        }
        assert(mid.doc.with_entity_patches(e, ps2) == w.doc);
    } else {
        let added = ps1.last();
        assert(ps1 =~= ps.push(added));
        lemma_edit_keeps_type(empty_struct(tp), tp, whole, fp, cmd.new_value);
        if done.was_derived {
            match done.old_value {
                Some(v) => {
                    if mid.registered(tp) {
                        lemma_edit_index(ps1, tp, whole, fp, v);
                        lemma_edit_keeps_type(added, tp, whole, fp, v);
                        assert(ps2 =~= ps.push(ps2.last()));
                    }
                },
                None => {},
            }
            lemma_remove_added(ps, tp, ps2.last());
            lemma_patches_twice(w.doc, e, ps2, ps);
        } else {
            assert(done.old_value is None && whole);
            lemma_remove_added(ps, tp, added);
        }
    }
}

/// Whether at most one of the patches is a name patch.
pub open spec fn single_name(patches: Seq<PatchView>) -> bool {
    forall|i: int, j: int|
        0 <= i < patches.len() && 0 <= j < patches.len() && patches[i] is Name
            && patches[j] is Name ==> i == j
}

/// Naming an entity leaves it with that name in the document, and a name patch is never stacked on
/// another: with at most one before there is at most one after, and none after the name is removed.
pub proof fn law_rename_keeps_one_name(patches: Seq<PatchView>, name: Option<Seq<char>>)
    requires
        single_name(patches),
    ensures
        name_in(with_name(patches, name)) == name,
        single_name(with_name(patches, name)),
{
    let p = is_name();
    let after = with_name(patches, name);
    lemma_first_index(patches, p);
    let i = first_index(patches, p);
    match name {
        Some(n) => {
            if i < patches.len() {
                lemma_first_index_is(after, p, i);
            } else {
                lemma_first_index_is(after, p, 0);
                assert forall|a: int, b: int|
                    0 <= a < after.len() && 0 <= b < after.len() && after[a] is Name
                        && after[b] is Name implies a == b by {
                    if a > 0 {
                        assert(!p(patches[a - 1]));
                    }
                    if b > 0 {
                        assert(!p(patches[b - 1]));
                    }
                }
            }
        },
        None => {
            assert forall|a: int| 0 <= a < after.len() implies !p(#[trigger] after[a]) by {
                if i < patches.len() {
                    if a < i {
                        assert(after[a] == patches[a]);
                    } else {
                        assert(after[a] == patches[a + 1]);
                        assert(patches[i] is Name);
                    }
                } else {
                    assert(after[a] == patches[a]);
                }
            }
            lemma_first_index_is(after, p, after.len() as int);
        },
    }
}

/// Undoing a rename right after it was executed brings the name back, live and in the document, when
/// the baseline is the name that the two agree on. The whole scene is as it was before, but that a
/// name which was removed comes back as the first patch.
#[verifier::rlimit(40)]
pub proof fn law_undo_restores_name(w: WorldView, cmd: SetFieldView)
    requires
        cmd.names(),
        w.doc.linked(),
        w.doc.node_of(cmd.entity) is Some,
        w.alive(cmd.entity),
        single_name(w.doc.entity_patches(cmd.entity)),
        w.entities[cmd.entity].name == name_in(w.doc.entity_patches(cmd.entity)),
        w.entities[cmd.entity].name == (match cmd.old_value {
            Some(v) => name_from(v),
            None => None,
        }),
    ensures
        ({
            let back = cmd.after_execute(w).undone(cmd.executed(w));
            let patches = back.doc.entity_patches(cmd.entity);
            let stays = name_from(cmd.new_value) is Some || w.entities[cmd.entity].name is None
                || first_index(w.doc.entity_patches(cmd.entity), is_name()) == 0;
            &&& back.entities == w.entities
            &&& name_in(patches) == w.entities[cmd.entity].name
            &&& single_name(patches)
            &&& stays ==> back == w
        }),
{
    let e = cmd.entity;
    let p = is_name();
    let ps = w.doc.entity_patches(e);
    let new = name_from(cmd.new_value);
    let old = w.entities[e].name;
    lemma_first_index(ps, p);
    let i = first_index(ps, p);
    let ps1 = with_name(ps, new);
    let ps2 = with_name(ps1, old);
    lemma_patches_twice(w.doc, e, ps1, ps2);
    lemma_patches_twice(w.doc, e, ps2, ps2);
    law_rename_keeps_one_name(ps, new);
    law_rename_keeps_one_name(ps1, old);
    let stays = new is Some || old is None || i == 0;
    assert(stays ==> ps2 == ps) by {
        match new {
            Some(n) => {
                if i < ps.len() {
                    lemma_first_index_is(ps1, p, i);
                    assert(ps[i] == PatchView::Name(old->0));
                    assert(ps2 =~= ps);
                } else {
                    lemma_first_index_is(ps1, p, 0);
                    assert(ps2 =~= ps);
                }
            },
            None => {
                if i < ps.len() {
                    lemma_first_index(ps1, p);
                    assert(i == 0 ==> ps2 =~= ps);
                } else {
                    lemma_first_index_is(ps1, p, ps1.len() as int);
                    assert(ps2 =~= ps);
                }
            },
        }
    }
    let mid = cmd.executed(w);
    let back = cmd.after_execute(w).undone(mid);
    assert(back.entities =~= w.entities);
    assert(back.doc == w.doc.with_entity_patches(e, ps2));
    assert(stays ==> back =~= w);
}

/// A component that is on an entity stays where it is when its value is replaced.
proof fn lemma_component_replaced(w: WorldView, e: Entity, c: StructView)
    requires
        w.alive(e),
        w.has_component(e, c.type_path),
    ensures
        ({
            let after = w.with_components(e, with_component(w.components_of(e), c));
            &&& after.alive(e)
            &&& after.component(e, c.type_path) == Some(c)
            &&& component_index(after.components_of(e), c.type_path) == component_index(
                w.components_of(e),
                c.type_path,
            )
            &&& after.components_of(e) == w.components_of(e).update(
                component_index(w.components_of(e), c.type_path),
                c,
            )
        }),
{
    let p = typed(c.type_path);
    let cs = w.components_of(e);
    lemma_first_index(cs, p);
    let i = component_index(cs, c.type_path);
    lemma_first_index_is(cs.update(i, c), p, i);
}

/// Editing a live field of a component that the document does not carry, and undoing that, leaves
/// the whole scene as it was: the document drops the override and the live field is back, with its
/// siblings untouched.
pub proof fn law_undo_restores_derived_field(w: WorldView, cmd: SetFieldView)
    requires
        undoable(w, cmd),
        !w.is_project(cmd.type_path),
        w.alive(cmd.entity),
        cmd.live_before(w),
        !has_patch(w.doc.entity_patches(cmd.entity), cmd.type_path),
        cmd.field_path.len() > 0,
        w.live_field(cmd.entity, cmd.type_path, cmd.field_path) is Some,
        cmd.old_value is None || cmd.old_value == w.live_field(
            cmd.entity,
            cmd.type_path,
            cmd.field_path,
        ),
    ensures
        cmd.after_execute(w).undone(cmd.executed(w)) == w,
{
    let e = cmd.entity;
    let tp = cmd.type_path;
    let fp = cmd.field_path;
    let ps = w.doc.entity_patches(e);
    let c = w.component(e, tp)->0;
    let cs = w.components_of(e);
    let i = component_index(cs, tp);
    lemma_first_index(cs, typed(tp));
    assert(c.type_path == tp);
    lemma_field_index(c.fields, fp);
    let old = w.live_field(e, tp, fp)->0;
    let none = Seq::<FieldView>::empty();
    // The edit.
    let edits1 = with_field(none, fp, cmd.new_value);
    assert(edits1.drop_last() =~= none);
    let patch1 = PatchView::Struct(StructView { type_path: tp, fields: edits1 });
    let ps1 = ps.push(patch1);
    lemma_edit_index(ps, tp, false, fp, cmd.new_value);
    assert(ps1 == with_edit(ps, tp, false, fp, cmd.new_value));
    lemma_patches_twice(w.doc, e, ps1, ps);
    let written1 = w.with_doc(w.doc.with_entity_patches(e, ps1));
    let c1 = StructView { type_path: tp, fields: with_field(c.fields, fp, cmd.new_value) };
    assert(with_fields(c.fields, edits1.drop_last()) == c.fields);
    assert(written1.patched(e, tp, edits1) == c1);
    lemma_component_replaced(written1, e, c1);
    let mid = cmd.executed(w);
    assert(mid == written1.with_components(e, with_component(cs, c1)));
    let done = cmd.after_execute(w);
    assert(done.was_derived && done.old_value == Some(old));
    // The undo.
    let edits2 = with_field(edits1, fp, old);
    lemma_field_index_is(edits1, fp, 0);
    assert(edits2 =~= seq![FieldView { name: fp, value: old }]);
    assert(edits2.drop_last() =~= none);
    let patch2 = PatchView::Struct(StructView { type_path: tp, fields: edits2 });
    let ps2 = ps.push(patch2);
    lemma_edit_index(ps1, tp, false, fp, old);
    assert(with_edit(ps1, tp, false, fp, old) =~= ps2);
    lemma_patches_twice(w.doc, e, ps1, ps2);
    lemma_patches_twice(w.doc, e, ps2, ps);
    let written2 = mid.with_doc(w.doc.with_entity_patches(e, ps2));
    assert(done.undone_patches(mid) == ps2);
    assert(mid.doc.with_entity_patches(e, ps2) == written2.doc);
    law_set_back(c.fields, fp, cmd.new_value);
    assert(with_fields(c1.fields, edits2.drop_last()) == c1.fields);
    assert(written2.patched(e, tp, edits2) == c);
    lemma_component_replaced(written2, e, c);
    lemma_remove_added(ps, tp, patch2);
    lemma_first_index(ps, of_type(tp));
    lemma_first_index_is(ps2, of_type(tp), ps.len() as int);
    let back = done.undone(mid);
    assert(back.doc == w.doc);
    assert(cs.update(i, c1).update(i, c) =~= cs);
    assert(back.entities =~= w.entities);
}

/// Whether no two fields have the same name.
pub open spec fn distinct_names(fields: Seq<FieldView>) -> bool {
    forall|i: int, j: int|
        0 <= i < fields.len() && 0 <= j < fields.len() && fields[i].name == fields[j].name ==> i
            == j
}

/// The value that the last of `edits` for a field gives.
pub open spec fn last_edit(edits: Seq<FieldView>, name: Seq<char>) -> Option<ValueView>
    decreases edits.len(),
{
    if edits.len() == 0 {
        None
    } else if edits.last().name == name {
        Some(edits.last().value)
    } else {
        last_edit(edits.drop_last(), name)
    }
}

/// Setting fields that are all there keeps the names and gives each its last edit.
proof fn lemma_with_fields(fields: Seq<FieldView>, edits: Seq<FieldView>)
    requires
        distinct_names(fields),
        forall|j: int| 0 <= j < edits.len() ==> has_field(fields, (#[trigger] edits[j]).name),
    ensures
        with_fields(fields, edits).len() == fields.len(),
        forall|k: int|
            0 <= k < fields.len() ==> (#[trigger] with_fields(fields, edits)[k]) == (FieldView {
                name: fields[k].name,
                value: match last_edit(edits, fields[k].name) {
                    Some(v) => v,
                    None => fields[k].value,
                },
            }),
    decreases edits.len(),
{
    if edits.len() > 0 {
        let init = edits.drop_last();
        assert forall|j: int| 0 <= j < init.len() implies has_field(
            fields,
            (#[trigger] init[j]).name,
        ) by {
            assert(init[j] == edits[j]);
        }
        lemma_with_fields(fields, init);
        let mid = with_fields(fields, init);
        let last = edits.last();
        assert(edits[edits.len() - 1] == last);
        assert(has_field(fields, last.name));
        let i = choose|i: int| 0 <= i < fields.len() && (#[trigger] fields[i]).name == last.name;
        assert(mid[i].name == last.name);
        assert forall|j: int| 0 <= j < i implies (#[trigger] mid[j]).name != last.name by {
            assert(fields[j].name != fields[i].name);
        }
        lemma_field_index_is(mid, last.name, i);
        assert forall|k: int| 0 <= k < fields.len() implies (#[trigger] with_fields(
            fields,
            edits,
        )[k]) == (FieldView {
            name: fields[k].name,
            value: match last_edit(edits, fields[k].name) {
                Some(v) => v,
                None => fields[k].value,
            },
        }) by {
            assert(mid[k].name == fields[k].name);
        }
    }
}

/// In edits with distinct names, the last edit of a field is the one that is there.
proof fn lemma_last_edit(edits: Seq<FieldView>, name: Seq<char>)
    requires
        distinct_names(edits),
    ensures
        last_edit(edits, name) == field_value(edits, name),
    decreases edits.len(),
{
    lemma_field_index(edits, name);
    if edits.len() > 0 {
        let init = edits.drop_last();
        assert forall|i: int, j: int|
            0 <= i < init.len() && 0 <= j < init.len() && init[i].name
                == init[j].name implies i == j by {
            assert(edits[i].name == edits[j].name);
        }
        lemma_last_edit(init, name);
        lemma_field_index(init, name);
        if edits.last().name == name {
            let k = field_index(edits, name);
            assert(edits[k].name == edits[edits.len() - 1].name);
        } else {
            let k = field_index(init, name);
            if k < init.len() {
                lemma_field_index_is(edits, name, k);
            } else {
                assert forall|j: int| 0 <= j < edits.len() implies (#[trigger] edits[j]).name
                    != name by {
                    if j < init.len() {
                        assert(init[j].name != name);
                    }
                }
                lemma_field_index_is(edits, name, edits.len() as int);
            }
        }
    }
}

/// Whether an entity's field edits reach the live scene: it is alive and tracked, and the type is
/// registered and none of the project's.
pub open spec fn edits_reach(w: WorldView, e: Entity, type_path: Seq<char>) -> bool {
    &&& w.alive(e)
    &&& w.doc.linked()
    &&& w.doc.node_of(e) is Some
    &&& w.registered(type_path)
    &&& !w.is_project(type_path)
    &&& type_path != "bevy_ecs::name::Name"@
}

/// A component that is put onto a live entity is read back, and everything else of the entity stays.
proof fn lemma_component_put(w: WorldView, e: Entity, c: StructView, other: Seq<char>)
    requires
        w.alive(e),
    ensures
        ({
            let after = w.with_components(e, with_component(w.components_of(e), c));
            &&& after.held_component(e, c.type_path) == Some(c)
            &&& w.registered(c.type_path) ==> after.component(e, c.type_path) == Some(c)
            &&& other != c.type_path ==> after.held_component(e, other) == w.held_component(e, other)
            &&& forall|x: Entity| x != e ==> #[trigger] after.entities[x] == w.entities[x]
            &&& after.entities.dom() == w.entities.dom()
        }),
{
    law_component_is_read_back(w.components_of(e), c, other);
    let after = w.with_components(e, with_component(w.components_of(e), c));
    assert(after.entities.dom() =~= w.entities.dom());
}

/// A field that was edited reads as the new value, live and in the document. Other components of the
/// entity and other entities stay, and so does a live field that the document does not write out.
pub proof fn law_edited_field_is_read(
    w: WorldView,
    cmd: SetFieldView,
    other_field: Seq<char>,
    other_type: Seq<char>,
)
    requires
        edits_reach(w, cmd.entity, cmd.type_path),
        cmd.field_path.len() > 0,
        ({
            let ps = w.doc.entity_patches(cmd.entity);
            has_patch(ps, cmd.type_path) ==> (ps[patch_index(ps, cmd.type_path)] matches
                PatchView::Struct(d) && distinct_names(d.fields)) || ps[patch_index(
                ps,
                cmd.type_path,
            )] is Type
        }),
    ensures
        ({
            let e = cmd.entity;
            let after = cmd.executed(w);
            let patches = after.doc.entity_patches(e);
            &&& after.live_field(e, cmd.type_path, cmd.field_path) == Some(cmd.new_value)
            &&& authored_value(patches, cmd.type_path, cmd.field_path) == Some(cmd.new_value)
            &&& other_field != cmd.field_path && other_field.len() > 0 && w.has_component(
                e,
                cmd.type_path,
            ) && authored_value(w.doc.entity_patches(e), cmd.type_path, other_field) is None
                ==> after.live_field(e, cmd.type_path, other_field) == w.live_field(
                e,
                cmd.type_path,
                other_field,
            )
            &&& other_type != cmd.type_path ==> after.held_component(e, other_type)
                == w.held_component(e, other_type)
            &&& forall|x: Entity| x != e ==> #[trigger] after.entities[x] == w.entities[x]
            &&& after.entities.dom() == w.entities.dom()
            &&& after.selection == w.selection
        }),
{
    let e = cmd.entity;
    let tp = cmd.type_path;
    let fp = cmd.field_path;
    let ps = w.doc.entity_patches(e);
    let at = patch_index(ps, tp);
    lemma_first_index(ps, of_type(tp));
    let pf = if has_patch(ps, tp) && ps[at] is Struct {
        ps[at]->Struct_0.fields
    } else {
        Seq::empty()
    };
    let pf1 = with_field(pf, fp, cmd.new_value);
    let ps1 = with_edit(ps, tp, false, fp, cmd.new_value);
    lemma_edit_index(ps, tp, false, fp, cmd.new_value);
    lemma_patches_twice(w.doc, e, ps1, ps);
    let written = w.with_doc(w.doc.with_entity_patches(e, ps1));
    assert(ps1[at] == PatchView::Struct(StructView { type_path: tp, fields: pf1 }));
    let c1 = written.patched(e, tp, pf1);
    lemma_component_put(written, e, c1, other_type);
    let after = cmd.executed(w);
    assert(after == written.with_components(e, with_component(written.components_of(e), c1)));
    law_set_then_read(pf, fp, cmd.new_value, other_field);
    lemma_field_index(pf, fp);
    let k = field_index(pf, fp);
    let base = match written.component(e, tp) {
        Some(c) => c.fields,
        None => match written.default_of(tp) {
            Some(d) => d.fields,
            None => Seq::empty(),
        },
    };
    assert(pf1[k].name == fp);
    assert forall|j: int| k < j < pf1.len() implies (#[trigger] pf1[j]).name != fp by {
        assert(pf[j].name == pf1[j].name);
    }
    law_last_edit_is_read(base, pf1, fp);
    assert(field_value(with_fields(base, pf1), fp) == Some(pf1[k].value));
    if other_field != fp && field_value(pf, other_field) is None {
        lemma_field_index(pf1, other_field);
        assert forall|j: int| 0 <= j < pf1.len() implies (#[trigger] pf1[j]).name
            != other_field by {}
        law_last_edit_is_read(base, pf1, other_field);
    }
}

/// A component that was written whole reads, live, as every field that was written. The document
/// holds the value, and other components of the entity and other entities stay.
pub proof fn law_written_component_is_read(
    w: WorldView,
    cmd: SetFieldView,
    data: StructView,
    i: int,
    other_type: Seq<char>,
)
    requires
        edits_reach(w, cmd.entity, cmd.type_path),
        cmd.field_path.len() == 0,
        cmd.new_value == ValueView::Struct(data),
        data.type_path == cmd.type_path,
        distinct_names(data.fields),
        0 <= i < data.fields.len(),
    ensures
        ({
            let e = cmd.entity;
            let after = cmd.executed(w);
            &&& after.held_component(e, cmd.type_path) matches Some(c) && field_value(
                c.fields,
                data.fields[i].name,
            ) == Some(data.fields[i].value)
            &&& authored_value(after.doc.entity_patches(e), cmd.type_path, Seq::empty()) == Some(
                ValueView::Struct(data),
            )
            &&& other_type != cmd.type_path ==> after.held_component(e, other_type)
                == w.held_component(e, other_type)
            &&& forall|x: Entity| x != e ==> #[trigger] after.entities[x] == w.entities[x]
            &&& after.entities.dom() == w.entities.dom()
            &&& after.selection == w.selection
            &&& after.types == w.types
            &&& after.project_types == w.project_types
            &&& after.doc.linked()
            &&& after.doc.links == w.doc.links
        }),
{
    let e = cmd.entity;
    let tp = cmd.type_path;
    let ps = w.doc.entity_patches(e);
    let at = patch_index(ps, tp);
    lemma_first_index(ps, of_type(tp));
    let ps1 = with_edit(ps, tp, true, cmd.field_path, cmd.new_value);
    lemma_edit_index(ps, tp, true, cmd.field_path, cmd.new_value);
    lemma_patches_twice(w.doc, e, ps1, ps);
    let written = w.with_doc(w.doc.with_entity_patches(e, ps1));
    assert(ps1[at] == PatchView::Struct(data));
    let c1 = written.patched(e, tp, data.fields);
    lemma_component_put(written, e, c1, other_type);
    let after = cmd.executed(w);
    assert(after == written.with_components(e, with_component(written.components_of(e), c1)));
    let base = match written.component(e, tp) {
        Some(c) => c.fields,
        None => match written.default_of(tp) {
            Some(d) => d.fields,
            None => Seq::empty(),
        },
    };
    assert forall|j: int| i < j < data.fields.len() implies (#[trigger] data.fields[j]).name
        != data.fields[i].name by {}
    law_last_edit_is_read(base, data.fields, data.fields[i].name);
    assert(field_value(with_fields(base, data.fields), data.fields[i].name) == Some(
        data.fields[i].value,
    ));
}

/// A field edit of a type that belongs to the project reaches the document alone, and so does none of
/// an entity that the document does not track.
pub proof fn law_edit_without_live_counterpart(w: WorldView, cmd: SetFieldView)
    requires
        cmd.type_path != "bevy_ecs::name::Name"@,
        w.is_project(cmd.type_path) || w.doc.node_of(cmd.entity) is None,
    ensures
        cmd.executed(w).entities == w.entities,
        cmd.executed(w).selection == w.selection,
        w.doc.node_of(cmd.entity) is None ==> cmd.executed(w).doc == w.doc,
{
}

/// After a rename the live entity and the document have the new name. An empty text takes the name
/// off both. No other entity is renamed.
pub proof fn law_rename_is_read(w: WorldView, cmd: SetFieldView, text: Seq<char>, other: Entity)
    requires
        cmd.type_path == "bevy_ecs::name::Name"@,
        cmd.new_value == ValueView::Text(text),
        w.alive(cmd.entity),
        w.doc.linked(),
        w.doc.node_of(cmd.entity) is Some,
        single_name(w.doc.entity_patches(cmd.entity)),
    ensures
        ({
            let after = cmd.executed(w);
            &&& text.len() > 0 ==> after.entities[cmd.entity].name == Some(text) && name_in(
                after.doc.entity_patches(cmd.entity),
            ) == Some(text)
            &&& text.len() == 0 ==> after.entities[cmd.entity].name is None && name_in(
                after.doc.entity_patches(cmd.entity),
            ) is None
            &&& other != cmd.entity ==> after.entities[other] == w.entities[other]
            &&& after.entities[cmd.entity].components == w.entities[cmd.entity].components
            &&& after.entities[cmd.entity].parent == w.entities[cmd.entity].parent
            &&& after.entities[cmd.entity].marks == w.entities[cmd.entity].marks
            &&& after.selection == w.selection
        }),
{
    let ps = w.doc.entity_patches(cmd.entity);
    let name = name_from(cmd.new_value);
    law_rename_keeps_one_name(ps, name);
    lemma_patches_twice(w.doc, cmd.entity, with_name(ps, name), ps);
}

/// Editing an authored field and undoing that leaves the whole scene as it was, when the live
/// component agrees with the document: the document holds the old value again, and so does the
/// live entity.
pub proof fn law_undo_restores_authored_field(w: WorldView, cmd: SetFieldView)
    requires
        undoable(w, cmd),
        !w.is_project(cmd.type_path),
        w.alive(cmd.entity),
        w.has_component(cmd.entity, cmd.type_path),
        has_patch(w.doc.entity_patches(cmd.entity), cmd.type_path),
        cmd.field_path.len() > 0,
        cmd.old_value is Some,
        mirrored(w, cmd.entity, cmd.type_path) == w,
        ({
            let ps = w.doc.entity_patches(cmd.entity);
            let authored = ps[patch_index(ps, cmd.type_path)]->Struct_0.fields;
            let live = w.component(cmd.entity, cmd.type_path)->0.fields;
            &&& distinct_names(authored)
            &&& distinct_names(live)
            &&& forall|j: int|
                0 <= j < authored.len() ==> has_field(live, (#[trigger] authored[j]).name)
        }),
    ensures
        cmd.after_execute(w).undone(cmd.executed(w)) == w,
{
    let e = cmd.entity;
    let tp = cmd.type_path;
    let fp = cmd.field_path;
    let ps = w.doc.entity_patches(e);
    let at = patch_index(ps, tp);
    lemma_first_index(ps, of_type(tp));
    let pf = ps[at]->Struct_0.fields;
    assert(ps[at]->Struct_0.type_path == tp);
    let c = w.component(e, tp)->0;
    let cs = w.components_of(e);
    let i = component_index(cs, tp);
    lemma_first_index(cs, typed(tp));
    assert(c.type_path == tp);
    lemma_field_index(pf, fp);
    let k0 = field_index(pf, fp);
    let old = cmd.old_value->0;
    // What agreeing with the document means field by field.
    lemma_with_fields(c.fields, pf);
    lemma_component_replaced(w, e, StructView { type_path: tp, fields: with_fields(c.fields, pf) });
    assert(mirrored(w, e, tp).component(e, tp) == Some(
        StructView { type_path: tp, fields: with_fields(c.fields, pf) },
    ));
    assert(with_fields(c.fields, pf) == c.fields);
    // The edit.
    let pf1 = with_field(pf, fp, cmd.new_value);
    assert forall|a: int, b: int|
        0 <= a < pf1.len() && 0 <= b < pf1.len() && pf1[a].name == pf1[b].name implies a == b by {
        assert(pf[a].name == pf[b].name);
    }
    assert forall|j: int| 0 <= j < pf1.len() implies has_field(
        c.fields,
        (#[trigger] pf1[j]).name,
    ) by {
        assert(has_field(c.fields, pf[j].name));
    }
    let ps1 = ps.update(at, PatchView::Struct(StructView { type_path: tp, fields: pf1 }));
    assert(ps1 == with_edit(ps, tp, false, fp, cmd.new_value));
    lemma_edit_index(ps, tp, false, fp, cmd.new_value);
    lemma_patches_twice(w.doc, e, ps1, ps);
    let written1 = w.with_doc(w.doc.with_entity_patches(e, ps1));
    let c1 = StructView { type_path: tp, fields: with_fields(c.fields, pf1) };
    lemma_component_replaced(written1, e, c1);
    lemma_with_fields(c.fields, pf1);
    let mid = cmd.executed(w);
    assert(mid == written1.with_components(e, with_component(cs, c1)));
    // The undo.
    law_undo_restores_document(w, cmd);
    let done = cmd.after_execute(w);
    law_set_back(pf, fp, cmd.new_value);
    lemma_edit_index(ps1, tp, false, fp, old);
    assert(with_edit(ps1, tp, false, fp, old) =~= ps);
    let written2 = mid.with_doc(w.doc);
    assert(done.undone_patches(mid) == ps);
    lemma_patches_twice(w.doc, e, ps1, ps);
    assert(mid.doc.with_entity_patches(e, ps) == w.doc);
    assert(distinct_names(c1.fields)) by {
        assert forall|a: int, b: int|
            0 <= a < c1.fields.len() && 0 <= b < c1.fields.len() && c1.fields[a].name
                == c1.fields[b].name implies a == b by {
            assert(c.fields[a].name == c.fields[b].name);
        }
    }
    assert forall|j: int| 0 <= j < pf.len() implies has_field(
        c1.fields,
        (#[trigger] pf[j]).name,
    ) by {
        let k = choose|k: int| 0 <= k < c.fields.len() && (#[trigger] c.fields[k]).name
            == pf[j].name;
        assert(c1.fields[k].name == pf[j].name);
    }
    lemma_with_fields(c1.fields, pf);
    let c2 = StructView { type_path: tp, fields: with_fields(c1.fields, pf) };
    assert(c2.fields =~= c.fields) by {
        assert forall|k: int| 0 <= k < c.fields.len() implies c2.fields[k] == c.fields[k] by {
            let n = c.fields[k].name;
            assert(c1.fields[k].name == n);
            lemma_last_edit(pf, n);
            lemma_last_edit(pf1, n);
            law_set_then_read(pf, fp, cmd.new_value, n);
            assert(with_fields(c.fields, pf)[k] == c.fields[k]);
        }
    }
    lemma_component_replaced(written2, e, c2);
    assert(cs.update(i, c1).update(i, c) =~= cs);
    let back = done.undone(mid);
    assert(back == written2.with_components(e, with_component(mid.components_of(e), c2)));
    assert(back.entities =~= w.entities);
}

} // verus!
