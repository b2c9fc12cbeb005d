//! The undoable field edit: writes a field into the document and mirrors it onto the live entity.
use vstd::prelude::*;
use crate::document::{set_name_patch, DocView};
use crate::patch::{patch_index, with_edit, with_name, without_edit, without_patch, PatchView};
use crate::text::{leading_segment, leading_segment_of, text_eq, text_of};
use crate::value::{
    field_value, has_field, lemma_field_index, with_field, BsnField, BsnStructData, BsnValue,
    Entity, StructView, ValueView,
};
use crate::world::{with_component, RecordView, SceneWorld, WorldView};

verus! {

/// The reflected type of entity names, which the document keeps as name patches.
pub const NAME_TYPE_PATH: &'static str = "bevy_ecs::name::Name";

/// Writes one field of a component, or a whole component when the field path is empty.
#[derive(Debug)]
pub struct SetBsnField {
    pub entity: Entity,
    pub type_path: String,
    pub field_path: String,
    /// The value before the edit. `None` when the field or the component was not authored; undo
    /// then removes what the edit authored.
    pub old_value: Option<BsnValue>,
    pub new_value: BsnValue,
    /// Whether the edit authored an override for a component that the document did not carry.
    pub was_derived: bool,
}

/// What a [`SetBsnField`] stands for.
#[verifier::ext_equal]
pub ghost struct SetFieldView {
    pub entity: Entity,
    pub type_path: Seq<char>,
    pub field_path: Seq<char>,
    pub old_value: Option<ValueView>,
    pub new_value: ValueView,
    pub was_derived: bool,
}

pub open spec fn value_of(v: Option<BsnValue>) -> Option<ValueView> {
    match v {
        Some(x) => Some(x@),
        None => None,
    }
}

impl View for SetBsnField {
    type V = SetFieldView;

    open spec fn view(&self) -> SetFieldView {
        SetFieldView {
            entity: self.entity,
            type_path: self.type_path@,
            field_path: self.field_path@,
            old_value: value_of(self.old_value),
            new_value: self.new_value@,
            was_derived: self.was_derived,
        }
    }
}

/// The name that a value gives: a text that is not empty.
pub open spec fn name_from(value: ValueView) -> Option<Seq<char>> {
    match value {
        ValueView::Text(s) => if s.len() > 0 {
            Some(s)
        } else {
            None
        },
        _ => None,
    }
}

/// The scene with an entity renamed in the document and on the live entity; `None` takes the name
/// off both.
pub open spec fn renamed(w: WorldView, e: Entity, name: Option<Seq<char>>) -> WorldView {
    let in_doc = w.with_doc(
        w.doc.with_entity_patches(e, with_name(w.doc.entity_patches(e), name)),
    );
    in_doc.with_record(e, RecordView { name, ..w.entities[e] })
}

/// The scene with a component's document patch applied to the live entity.
pub open spec fn mirrored(w: WorldView, e: Entity, type_path: Seq<char>) -> WorldView {
    if w.doc.authors(e, type_path) {
        let patches = w.doc.entity_patches(e);
        w.patch_applied(e, patches[patch_index(patches, type_path)])
    } else {
        w
    }
}

/// The patches of a node after one field edit. Project components are edited by the leading
/// segment of the path; other types only when they are registered, by the whole path.
pub open spec fn field_written(
    w: WorldView,
    patches: Seq<PatchView>,
    type_path: Seq<char>,
    field_path: Seq<char>,
    value: ValueView,
) -> Seq<PatchView> {
    if w.is_project(type_path) {
        with_edit(
            patches,
            type_path,
            field_path.len() == 0,
            leading_segment_of(field_path),
            value,
        )
    } else {
        registered_field_written(w, patches, type_path, field_path, value)
    }
}

/// The patches of a node after one field edit of a registered type.
pub open spec fn registered_field_written(
    w: WorldView,
    patches: Seq<PatchView>,
    type_path: Seq<char>,
    field_path: Seq<char>,
    value: ValueView,
) -> Seq<PatchView> {
    if w.registered(type_path) {
        with_edit(patches, type_path, field_path.len() == 0, field_path, value)
    } else {
        patches
    }
}

/// The scene with one live field put back to the default of its type. Nothing changes when the
/// type, its default, the field or the component is missing.
pub open spec fn field_reset(
    w: WorldView,
    e: Entity,
    type_path: Seq<char>,
    field_path: Seq<char>,
) -> WorldView {
    match (w.default_of(type_path), w.component(e, type_path)) {
        (Some(d), Some(c)) => match field_value(d.fields, field_path) {
            Some(v) => if has_field(c.fields, field_path) {
                w.with_components(
                    e,
                    with_component(
                        w.components_of(e),
                        StructView { type_path, fields: with_field(c.fields, field_path, v) },
                    ),
                )
            } else {
                w
            },
            None => w,
        },
        _ => w,
    }
}

impl SetFieldView {
    /// Whether the edit is a rename.
    pub open spec fn names(self) -> bool {
        self.type_path == "bevy_ecs::name::Name"@
    }

    /// Whether the edited component is on the live entity before the edit.
    pub open spec fn live_before(self, w: WorldView) -> bool {
        !w.is_project(self.type_path) && w.has_component(self.entity, self.type_path)
    }

    /// The baseline for undo: the given one, or the live field of a component that the document
    /// does not carry.
    pub open spec fn baseline(self, w: WorldView) -> Option<ValueView> {
        if self.old_value is None && self.field_path.len() > 0 && self.live_before(w)
            && !w.doc.authors(self.entity, self.type_path) {
            w.live_field(self.entity, self.type_path, self.field_path)
        } else {
            self.old_value
        }
    }

    /// The command after it was executed on `w`.
    pub open spec fn after_execute(self, w: WorldView) -> SetFieldView {
        if self.names() {
            self
        } else {
            SetFieldView {
                old_value: self.baseline(w),
                was_derived: self.was_derived || (w.doc.node_of(self.entity) is Some
                    && !w.doc.authors(self.entity, self.type_path) && (w.is_project(self.type_path)
                    || self.live_before(w))),
                ..self
            }
        }
    }

    /// The document after the command was executed on `w`.
    pub open spec fn executed_doc(self, w: WorldView) -> DocView {
        w.doc.with_entity_patches(
            self.entity,
            field_written(
                w,
                w.doc.entity_patches(self.entity),
                self.type_path,
                self.field_path,
                self.new_value,
            ),
        )
    }

    /// The scene after the command was executed on `w`.
    pub open spec fn executed(self, w: WorldView) -> WorldView {
        if self.names() {
            renamed(w, self.entity, name_from(self.new_value))
        } else if w.doc.node_of(self.entity) is None {
            w
        } else {
            let written = w.with_doc(self.executed_doc(w));
            if w.is_project(self.type_path) {
                written
            } else {
                mirrored(written, self.entity, self.type_path)
            }
        }
    }

    /// The patches of the entity's node while the command is undone on `w`, before the live
    /// entity follows.
    pub open spec fn undone_patches(self, w: WorldView) -> Seq<PatchView> {
        let patches = w.doc.entity_patches(self.entity);
        if self.was_derived {
            match self.old_value {
                Some(v) => registered_field_written(
                    w,
                    patches,
                    self.type_path,
                    self.field_path,
                    v,
                ),
                None => patches,
            }
        } else {
            match self.old_value {
                Some(v) => field_written(w, patches, self.type_path, self.field_path, v),
                None => if self.field_path.len() == 0 {
                    without_patch(patches, self.type_path)
                } else {
                    without_edit(patches, self.type_path, self.field_path)
                },
            }
        }
    }

    /// The scene with a component's patch taken out of the document.
    pub open spec fn demoted(self, w: WorldView) -> WorldView {
        w.with_doc(
            w.doc.with_entity_patches(
                self.entity,
                without_patch(w.doc.entity_patches(self.entity), self.type_path),
            ),
        )
    }

    /// The scene after the command was undone on `w`.
    pub open spec fn undone(self, w: WorldView) -> WorldView {
        if self.names() {
            renamed(
                w,
                self.entity,
                match self.old_value {
                    Some(v) => name_from(v),
                    None => None,
                },
            )
        } else if w.doc.node_of(self.entity) is None {
            w
        } else {
            let written = w.with_doc(
                w.doc.with_entity_patches(self.entity, self.undone_patches(w)),
            );
            if w.is_project(self.type_path) {
                if self.was_derived {
                    self.demoted(written)
                } else {
                    written
                }
            } else if self.was_derived {
                if self.old_value is Some {
                    self.demoted(mirrored(written, self.entity, self.type_path))
                } else {
                    self.demoted(written)
                }
            } else if self.old_value is Some {
                mirrored(written, self.entity, self.type_path)
            } else if self.field_path.len() == 0 {
                if written.registered(self.type_path) {
                    written.with_components(
                        self.entity,
                        crate::world::without_component(
                            written.components_of(self.entity),
                            self.type_path,
                        ),
                    )
                } else {
                    written
                }
            } else {
                field_reset(written, self.entity, self.type_path, self.field_path)
            }
        }
    }
}

/// The name that a value gives: a text that is not empty.
pub fn name_value(value: &BsnValue) -> (r: Option<String>)
    ensures
        text_of(r) == name_from(value@),
{
    match value.text() {
        Some(s) => {
            if s.as_str().unicode_len() > 0 {
                Some(s)
            } else {
                None
            }
        },
        None => None,
    }
}

/// Writes one field of a component on a document node. Project components are edited by the
/// leading segment of the path; other types only when they are registered.
fn write_field(
    world: &mut SceneWorld,
    node: Entity,
    type_path: &str,
    field_path: &str,
    value: BsnValue,
    project: bool,
)
    ensures
        final(world)@ == old(world)@.with_doc(
            old(world)@.doc.with_patches(
                node,
                if project {
                    with_edit(
                        old(world)@.doc.patches_of(node),
                        type_path@,
                        field_path@.len() == 0,
                        leading_segment_of(field_path@),
                        value@,
                    )
                } else {
                    registered_field_written(
                        old(world)@,
                        old(world)@.doc.patches_of(node),
                        type_path@,
                        field_path@,
                        value@,
                    )
                },
            ),
        ),
        final(world).document.next_node == old(world).document.next_node,
{
    let whole: bool = field_path.unicode_len() == 0;
    if project {
        set_project_field(&mut world.document, node, type_path, field_path, value);
    } else if world.is_registered(type_path) {
        world.document.edit_field(node, type_path, whole, field_path, value);
    }
    assert(old(world)@.doc.with_patches(node, old(world)@.doc.patches_of(node))
        =~= old(world)@.doc);
}

/// Writes a field of a project component into its patch, by the leading segment of the path.
/// Project types have no registration, so the patch is edited directly.
pub fn set_project_field(
    ast: &mut crate::document::SceneBsnAst,
    node: Entity,
    type_path: &str,
    field_path: &str,
    value: BsnValue,
)
    ensures
        final(ast)@ == old(ast)@.with_patches(
            node,
            with_edit(
                old(ast)@.patches_of(node),
                type_path@,
                field_path@.len() == 0,
                leading_segment_of(field_path@),
                value@,
            ),
        ),
        final(ast).next_node == old(ast).next_node,
{
    let whole: bool = field_path.unicode_len() == 0;
    let name: String = leading_segment(field_path);
    ast.edit_field(node, type_path, whole, name.as_str(), value);
}

/// Puts one live field back to the default of its type.
pub fn reset_ecs_field_to_default(
    world: &mut SceneWorld,
    e: Entity,
    type_path: &str,
    field_path: &str,
)
    ensures
        final(world)@ == field_reset(old(world)@, e, type_path@, field_path@),
        final(world).document == old(world).document,
{
    match (world.default_value(type_path), world.component(e, type_path)) {
        (Some(d), Some(c)) => {
            proof {
                lemma_field_index(crate::value::fields_view(c.fields@), field_path@);
            }
            match crate::value::get_field(&d.fields, field_path) {
                Some(v) => {
                    let at: usize = crate::value::find_field(&c.fields, field_path);
                    if at < c.fields.len() {
                        let mut fields: Vec<BsnField> = c.fields;
                        crate::value::put_field(&mut fields, field_path, v);
                        world.insert_component(
                            e,
                            BsnStructData { type_path: type_path.to_owned(), fields },
                        );
                    }
                },
                None => {},
            }
        },
        _ => {},
    }
}

impl SetBsnField {
    /// Renames the entity in the document and on the live entity.
    fn apply_name(&self, world: &mut SceneWorld, name: Option<String>)
        ensures
            final(world)@ == renamed(old(world)@, self.entity, text_of(name)),
            final(world).document.next_node == old(world).document.next_node,
    {
        let live: Option<String> = match &name {
            Some(n) => Some(n.clone()),
            None => None,
        };
        match world.document.ast_for(self.entity) {
            Some(node) => {
                set_name_patch(&mut world.document, node, name);
            },
            None => {},
        }
        world.set_name(self.entity, live);
    }

    /// Applies the component's document patch to the live entity.
    fn mirror_patch_to_ecs(&self, world: &mut SceneWorld)
        ensures
            final(world)@ == mirrored(old(world)@, self.entity, self.type_path@),
            final(world).document == old(world).document,
    {
        match world.document.ast_for(self.entity) {
            Some(node) => {
                match world.document.get_patch(node, self.type_path.as_str()) {
                    Some(patch) => {
                        world.apply_component_patch(self.entity, &patch);
                    },
                    None => {},
                }
            },
            None => {},
        }
    }

    /// Writes the new value into the document and onto the live entity.
    pub fn execute(&mut self, world: &mut SceneWorld)
        ensures
            final(world)@ == old(self)@.executed(old(world)@),
            final(self)@ == old(self)@.after_execute(old(world)@),
            final(world).document.next_node == old(world).document.next_node,
    {
        if text_eq(self.type_path.as_str(), NAME_TYPE_PATH) {
            let name: Option<String> = name_value(&self.new_value);
            self.apply_name(world, name);
            return ;
        }
        let is_project: bool = world.is_project_component(self.type_path.as_str());
        let node: Option<Entity> = world.document.ast_for(self.entity);
        let had_patch: bool = match node {
            Some(n) => world.document.find_patch_by_type_path(n, self.type_path.as_str()).is_some(),
            None => false,
        };
        let live_before: bool = !is_project && world.entity_has_reflected_component(
            self.entity,
            self.type_path.as_str(),
        );
        if self.old_value.is_none() && self.field_path.as_str().unicode_len() > 0 && live_before
            && !had_patch {
            self.old_value = world.live_bsn_field(
                self.entity,
                self.type_path.as_str(),
                self.field_path.as_str(),
            );
        }
        let node: Entity = match node {
            Some(n) => n,
            None => {
                return ;
            },
        };
        write_field(
            world,
            node,
            self.type_path.as_str(),
            self.field_path.as_str(),
            self.new_value.copy(),
            is_project,
        );
        if !had_patch && (is_project || live_before) {
            self.was_derived = true;
        }
        if !is_project {
            self.mirror_patch_to_ecs(world);
        }
    }

    /// Puts the value before the edit back, or removes what the edit authored.
    pub fn undo(&mut self, world: &mut SceneWorld)
        ensures
            final(world)@ == old(self)@.undone(old(world)@),
            final(self)@ == old(self)@,
            final(world).document.next_node == old(world).document.next_node,
    {
        if text_eq(self.type_path.as_str(), NAME_TYPE_PATH) {
            let name: Option<String> = match &self.old_value {
                Some(v) => name_value(v),
                None => None,
            };
            self.apply_name(world, name);
            return ;
        }
        let removes_component: bool = self.field_path.as_str().unicode_len() == 0
            && self.old_value.is_none();
        let removes_field: bool = self.field_path.as_str().unicode_len() > 0
            && self.old_value.is_none();
        let is_project: bool = world.is_project_component(self.type_path.as_str());
        let node: Entity = match world.document.ast_for(self.entity) {
            Some(n) => n,
            None => {
                return ;
            },
        };
        let ghost before = world@;
        if self.was_derived {
            if let Some(old_value) = &self.old_value {
                write_field(
                    world,
                    node,
                    self.type_path.as_str(),
                    self.field_path.as_str(),
                    old_value.copy(),
                    false,
                );
            }
        } else if removes_component {
            world.document.remove_component_patch(node, self.type_path.as_str());
        } else if removes_field {
            world.document.remove_bsn_field(
                node,
                self.type_path.as_str(),
                self.field_path.as_str(),
            );
        } else if let Some(old_value) = &self.old_value {
            write_field(
                world,
                node,
                self.type_path.as_str(),
                self.field_path.as_str(),
                old_value.copy(),
                is_project,
            );
        }
        assert(before.doc.with_patches(node, before.doc.patches_of(node)) =~= before.doc);
        let ghost written = before.with_doc(
            before.doc.with_entity_patches(self.entity, self@.undone_patches(before)),
        );
        assert(world@ =~= written);
        if is_project {
            if self.was_derived {
                world.document.remove_component_patch(node, self.type_path.as_str());
                assert(world@ =~= self@.demoted(written));
            }
            return ;
        }
        if self.was_derived {
            if self.old_value.is_some() {
                self.mirror_patch_to_ecs(world);
            }
            let ghost mid = world@;
            world.document.remove_component_patch(node, self.type_path.as_str());
            assert(world@ =~= self@.demoted(mid));
        } else if removes_component {
            world.remove_component_from_ecs(self.entity, self.type_path.as_str());
        } else if removes_field {
            reset_ecs_field_to_default(
                world,
                self.entity,
                self.type_path.as_str(),
                self.field_path.as_str(),
            );
        } else {
            self.mirror_patch_to_ecs(world);
        }
    }

    pub fn description(&self) -> (r: &'static str)
        ensures
            r@ == "Set component field"@,
    {
        "Set component field"
    }
}

} // verus!
