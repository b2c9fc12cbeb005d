//! The live scene: entities with their hierarchy, marks and reflected components, the selection,
//! and the document that the scene is authored in.
use std::collections::HashMap;
use vstd::prelude::*;
use crate::document::{DocView, SceneBsnAst};
use crate::patch::{BsnPatch, PatchView};
use crate::seqs::{first_index, lemma_first_index, lemma_first_index_is};
use crate::text::{text_eq, text_of};
use crate::value::{
    field_value, fields_view, get_field, law_set_then_read, put_field, with_field, BsnField, BsnStructData, BsnValue,
    Entity, FieldView, StructView, ValueView,
};

verus! {

broadcast use vstd::std_specs::hash::group_hash_axioms;

/// The marker components that the editor reads.
#[derive(Clone, Copy, Debug, PartialEq, Eq, Structural)]
pub struct Marks {
    /// Belongs to the editor's own interface.
    pub editor_entity: bool,
    /// Kept out of the outliner and the inspector.
    pub editor_hidden: bool,
    /// Made at run time; never written to a scene file.
    pub non_serializable: bool,
    pub selected: bool,
    /// The inspector has to be rebuilt for this entity.
    pub inspector_dirty: bool,
    /// The root of a loaded model file.
    pub gltf_source: bool,
    pub world_asset_root: bool,
    pub scene_root: bool,
    /// The root of a prefab instance.
    pub prefab_instance: bool,
    /// Made from an entity of a prefab.
    pub prefab_entity: bool,
    pub camera: bool,
    pub light: bool,
    pub mesh: bool,
    pub brush: bool,
    pub terrain: bool,
    /// A preview entity of the running game.
    pub live_preview: bool,
}

impl Marks {
    /// No mark at all.
    pub open spec fn none_spec() -> Marks {
        Marks {
            editor_entity: false,
            editor_hidden: false,
            non_serializable: false,
            selected: false,
            inspector_dirty: false,
            gltf_source: false,
            world_asset_root: false,
            scene_root: false,
            prefab_instance: false,
            prefab_entity: false,
            camera: false,
            light: false,
            mesh: false,
            brush: false,
            terrain: false,
            live_preview: false,
        }
    }

    /// No mark at all.
    pub fn none() -> (r: Marks)
        ensures
            r == Marks::none_spec(),
    {
        Marks {
            editor_entity: false,
            editor_hidden: false,
            non_serializable: false,
            selected: false,
            inspector_dirty: false,
            gltf_source: false,
            world_asset_root: false,
            scene_root: false,
            prefab_instance: false,
            prefab_entity: false,
            camera: false,
            light: false,
            mesh: false,
            brush: false,
            terrain: false,
            live_preview: false,
        }
    }
}

/// One live entity.
#[derive(Debug)]
pub struct EntityRecord {
    pub parent: Option<Entity>,
    pub children: Vec<Entity>,
    pub name: Option<String>,
    /// The widget slot that the entity fills in its parent.
    pub slot: Option<String>,
    /// The reflected components on the entity, each with all its fields.
    pub components: Vec<BsnStructData>,
    pub marks: Marks,
}

/// What an [`EntityRecord`] stands for.
#[verifier::ext_equal]
pub ghost struct RecordView {
    pub parent: Option<Entity>,
    pub children: Seq<Entity>,
    pub name: Option<Seq<char>>,
    pub slot: Option<Seq<char>>,
    pub components: Seq<StructView>,
    pub marks: Marks,
}

pub open spec fn structs_view(components: Seq<BsnStructData>) -> Seq<StructView> {
    Seq::new(components.len(), |i: int| components[i]@)
}

impl View for EntityRecord {
    type V = RecordView;

    open spec fn view(&self) -> RecordView {
        RecordView {
            parent: self.parent,
            children: self.children@,
            name: text_of(self.name),
            slot: text_of(self.slot),
            components: structs_view(self.components@),
            marks: self.marks,
        }
    }
}

impl EntityRecord {
    /// A bare entity: no parent, no children, no name, no component.
    pub fn bare(marks: Marks) -> (r: EntityRecord)
        ensures
            r@ == RecordView::bare(marks),
    {
        let r = EntityRecord {
            parent: None,
            children: Vec::new(),
            name: None,
            slot: None,
            components: Vec::new(),
            marks,
        };
        assert(r@ =~= RecordView::bare(marks));
        r
    }
}

impl RecordView {
    /// A bare entity: no parent, no children, no name, no component.
    pub open spec fn bare(marks: Marks) -> RecordView {
        RecordView {
            parent: None,
            children: Seq::empty(),
            name: None,
            slot: None,
            components: Seq::empty(),
            marks,
        }
    }
}

/// The test for being a component of a type.
pub open spec fn typed(type_path: Seq<char>) -> spec_fn(StructView) -> bool {
    |c: StructView| c.type_path == type_path
}

/// The position of a component among those on an entity, or their number.
pub open spec fn component_index(components: Seq<StructView>, type_path: Seq<char>) -> int {
    first_index(components, typed(type_path))
}

/// The components with one put in: in the place of the one of its type, else at the end.
pub open spec fn with_component(components: Seq<StructView>, c: StructView) -> Seq<StructView> {
    let i = component_index(components, c.type_path);
    if i < components.len() {
        components.update(i, c)
    } else {
        components.push(c)
    }
}

/// The components without the one of a type.
pub open spec fn without_component(
    components: Seq<StructView>,
    type_path: Seq<char>,
) -> Seq<StructView> {
    let i = component_index(components, type_path);
    if i < components.len() {
        components.remove(i)
    } else {
        components
    }
}

/// `fields` with each of `edits` set in turn.
pub open spec fn with_fields(fields: Seq<FieldView>, edits: Seq<FieldView>) -> Seq<FieldView>
    decreases edits.len(),
{
    if edits.len() == 0 {
        fields
    } else {
        with_field(with_fields(fields, edits.drop_last()), edits.last().name, edits.last().value)
    }
}

/// Of several fields that are set in turn, each reads as the last that was set under its name. A field
/// under any other name stays.
pub proof fn law_last_edit_is_read(fields: Seq<FieldView>, edits: Seq<FieldView>, name: Seq<char>)
    ensures
        (forall|i: int| 0 <= i < edits.len() ==> (#[trigger] edits[i]).name != name)
            ==> field_value(with_fields(fields, edits), name) == field_value(fields, name),
        forall|i: int|
            0 <= i < edits.len() && (#[trigger] edits[i]).name == name && (forall|j: int|
                i < j < edits.len() ==> (#[trigger] edits[j]).name != name) ==> field_value(
                with_fields(fields, edits),
                name,
            ) == Some(edits[i].value),
    decreases edits.len(),
{
    if edits.len() > 0 {
        let init = edits.drop_last();
        law_last_edit_is_read(fields, init, name);
        let last = edits.last();
        law_set_then_read(with_fields(fields, init), last.name, last.value, name);
        assert(edits[edits.len() - 1] == last);
        assert forall|i: int|
            0 <= i < edits.len() && (#[trigger] edits[i]).name == name && (forall|j: int|
                i < j < edits.len() ==> (#[trigger] edits[j]).name != name) implies field_value(
            with_fields(fields, edits),
            name,
        ) == Some(edits[i].value) by {
            if i < init.len() {
                assert(init[i] == edits[i]);
                assert forall|j: int| i < j < init.len() implies (#[trigger] init[j]).name
                    != name by {
                    assert(init[j] == edits[j]);
                }
            }
        }
        if forall|i: int| 0 <= i < edits.len() ==> (#[trigger] edits[i]).name != name {
            assert forall|i: int| 0 <= i < init.len() implies (#[trigger] init[i]).name != name by {
                assert(init[i] == edits[i]);
            }
        }
    }
}

/// A component type that the editor knows by reflection.
#[derive(Debug)]
pub struct TypeEntry {
    pub type_path: String,
    /// The default value of the type, where it has one.
    pub default: Option<BsnStructData>,
}

/// What a [`TypeEntry`] stands for.
pub ghost struct TypeView {
    pub type_path: Seq<char>,
    pub default: Option<StructView>,
}

pub open spec fn struct_of(d: Option<BsnStructData>) -> Option<StructView> {
    match d {
        Some(s) => Some(s@),
        None => None,
    }
}

impl View for TypeEntry {
    type V = TypeView;

    open spec fn view(&self) -> TypeView {
        TypeView { type_path: self.type_path@, default: struct_of(self.default) }
    }
}

/// The test for being the entry of a type.
pub open spec fn entry_of(type_path: Seq<char>) -> spec_fn(TypeView) -> bool {
    |t: TypeView| t.type_path == type_path
}

/// A component type of the game project, by its extracted schema.
#[derive(Debug)]
pub struct ProjectSchema {
    pub type_path: String,
    pub short_name: String,
    pub module: String,
    /// The names of the fields.
    pub fields: Vec<String>,
}

/// What a [`ProjectSchema`] stands for.
pub ghost struct SchemaView {
    pub type_path: Seq<char>,
    pub short_name: Seq<char>,
    pub module: Seq<char>,
    pub fields: Seq<Seq<char>>,
}

pub open spec fn texts_view(texts: Seq<String>) -> Seq<Seq<char>> {
    Seq::new(texts.len(), |i: int| texts[i]@)
}

impl View for ProjectSchema {
    type V = SchemaView;

    open spec fn view(&self) -> SchemaView {
        SchemaView {
            type_path: self.type_path@,
            short_name: self.short_name@,
            module: self.module@,
            fields: texts_view(self.fields@),
        }
    }
}

/// The test for being the schema of a type.
pub open spec fn schema_of(type_path: Seq<char>) -> spec_fn(SchemaView) -> bool {
    |s: SchemaView| s.type_path == type_path
}

/// The live scene and its document.
#[derive(Debug)]
pub struct SceneWorld {
    pub entities: HashMap<u64, EntityRecord>,
    /// The selected entities; the last one is the primary.
    pub selection: Vec<Entity>,
    pub document: SceneBsnAst,
    /// The component types known by reflection.
    pub types: Vec<TypeEntry>,
    /// The component types of the game project, which live in the document alone.
    pub project_types: Vec<ProjectSchema>,
}

/// What a [`SceneWorld`] stands for.
#[verifier::ext_equal]
pub ghost struct WorldView {
    pub entities: Map<Entity, RecordView>,
    pub selection: Seq<Entity>,
    pub doc: DocView,
    pub types: Seq<TypeView>,
    pub project_types: Seq<SchemaView>,
}

impl View for SceneWorld {
    type V = WorldView;

    open spec fn view(&self) -> WorldView {
        WorldView {
            entities: self.entities@.map_values(|r: EntityRecord| r@),
            selection: self.selection@,
            doc: self.document@,
            types: self.types@.map_values(|t: TypeEntry| t@),
            project_types: self.project_types@.map_values(|t: ProjectSchema| t@),
        }
    }
}

impl WorldView {
    pub open spec fn alive(self, e: Entity) -> bool {
        self.entities.contains_key(e)
    }

    /// The scene with one live entity's record replaced; unchanged when the entity is gone.
    pub open spec fn with_record(self, e: Entity, r: RecordView) -> WorldView {
        if self.alive(e) {
            WorldView { entities: self.entities.insert(e, r), ..self }
        } else {
            self
        }
    }

    pub open spec fn with_doc(self, doc: DocView) -> WorldView {
        WorldView { doc, ..self }
    }

    pub open spec fn registered(self, type_path: Seq<char>) -> bool {
        first_index(self.types, entry_of(type_path)) < self.types.len()
    }

    /// The default value of a registered type: a value of that type, with the fields that are kept.
    pub open spec fn default_of(self, type_path: Seq<char>) -> Option<StructView> {
        if self.registered(type_path) {
            match self.types[first_index(self.types, entry_of(type_path))].default {
                Some(d) => Some(StructView { type_path, fields: d.fields }),
                None => None,
            }
        } else {
            None
        }
    }

    pub open spec fn is_project(self, type_path: Seq<char>) -> bool {
        first_index(self.project_types, schema_of(type_path)) < self.project_types.len()
    }

    /// The schema of a project component.
    pub open spec fn schema(self, type_path: Seq<char>) -> SchemaView {
        self.project_types[first_index(self.project_types, schema_of(type_path))]
    }

    /// The components on an entity; none when it is gone.
    pub open spec fn components_of(self, e: Entity) -> Seq<StructView> {
        if self.alive(e) {
            self.entities[e].components
        } else {
            Seq::empty()
        }
    }

    /// Whether a live entity carries a registered component.
    pub open spec fn has_component(self, e: Entity, type_path: Seq<char>) -> bool {
        self.registered(type_path) && component_index(self.components_of(e), type_path)
            < self.components_of(e).len()
    }

    /// The value of a component on a live entity.
    pub open spec fn component(self, e: Entity, type_path: Seq<char>) -> Option<StructView> {
        if self.has_component(e, type_path) {
            Some(self.components_of(e)[component_index(self.components_of(e), type_path)])
        } else {
            None
        }
    }

    /// The value of a component that a live entity holds, whether or not its type is registered.
    pub open spec fn held_component(self, e: Entity, type_path: Seq<char>) -> Option<StructView> {
        let components = self.components_of(e);
        let i = component_index(components, type_path);
        if i < components.len() {
            Some(components[i])
        } else {
            None
        }
    }

    /// The live value of one component field; of the whole component when the path is empty.
    pub open spec fn live_field(
        self,
        e: Entity,
        type_path: Seq<char>,
        field_path: Seq<char>,
    ) -> Option<ValueView> {
        match self.component(e, type_path) {
            Some(c) => if field_path.len() == 0 {
                Some(ValueView::Struct(c))
            } else {
                field_value(c.fields, field_path)
            },
            None => None,
        }
    }

    /// The scene with a live entity's components replaced.
    pub open spec fn with_components(self, e: Entity, components: Seq<StructView>) -> WorldView {
        self.with_record(e, RecordView { components, ..self.entities[e] })
    }

    /// The component value that a patch leads to on an entity: the written fields over the value
    /// that is there, over the default of the type, or over nothing.
    pub open spec fn patched(
        self,
        e: Entity,
        type_path: Seq<char>,
        edits: Seq<FieldView>,
    ) -> StructView {
        let base = match self.component(e, type_path) {
            Some(c) => c.fields,
            None => match self.default_of(type_path) {
                Some(d) => d.fields,
                None => Seq::empty(),
            },
        };
        StructView { type_path, fields: with_fields(base, edits) }
    }

    /// The scene after a patch was applied to a live entity. Patches of types that are not
    /// registered have no live counterpart.
    pub open spec fn patch_applied(self, e: Entity, patch: PatchView) -> WorldView {
        match patch {
            PatchView::Struct(d) => if self.registered(d.type_path) {
                self.with_components(
                    e,
                    with_component(
                        self.components_of(e),
                        self.patched(e, d.type_path, d.fields),
                    ),
                )
            } else {
                self
            },
            PatchView::Type(t) => if self.registered(t) {
                self.with_components(
                    e,
                    with_component(self.components_of(e), self.patched(e, t, Seq::empty())),
                )
            } else {
                self
            },
            _ => self,
        }
    }
}

/// The position of a component among those on an entity.
pub fn find_component(components: &Vec<BsnStructData>, type_path: &str) -> (r: Option<usize>)
    ensures
        match r {
            Some(i) => i < components.len() && i == component_index(
                structs_view(components@),
                type_path@,
            ),
            None => component_index(structs_view(components@), type_path@) == components.len(),
        },
{
    let ghost view = structs_view(components@);
    let ghost p = typed(type_path@);
    let mut i: usize = 0;
    while i < components.len()
        invariant
            i <= components.len(),
            view == structs_view(components@),
            p == typed(type_path@),
            forall|j: int| 0 <= j < i ==> !p(#[trigger] view[j]),
        decreases components.len() - i,
    {
        if text_eq(components[i].type_path.as_str(), type_path) {
            proof {
                lemma_first_index_is(view, p, i as int);
            }
            return Some(i);
        }
        assert(!p(view[i as int]));
        i = i + 1;
    }
    proof {
        lemma_first_index_is(view, p, i as int);
    }
    None
}

/// Sets each of `edits` on `fields`.
pub fn put_fields(fields: &mut Vec<BsnField>, edits: &Vec<BsnField>)
    ensures
        fields_view(final(fields)@) == with_fields(
            fields_view(old(fields)@),
            fields_view(edits@),
        ),
{
    let ghost all = fields_view(edits@);
    let ghost start = fields_view(fields@);
    let mut i: usize = 0;
    assert(all.subrange(0, 0) =~= Seq::empty());
    while i < edits.len()
        invariant
            i <= edits.len(),
            all == fields_view(edits@),
            fields_view(fields@) == with_fields(start, all.subrange(0, i as int)),
        decreases edits.len() - i,
    {
        proof {
            assert(all.subrange(0, i + 1).drop_last() =~= all.subrange(0, i as int));
            assert(all.subrange(0, i + 1).last() == all[i as int]);
        }
        put_field(fields, edits[i].name.as_str(), edits[i].value.copy());
        i = i + 1;
    }
    assert(all.subrange(0, i as int) =~= all);
}

/// Puts a component in, in the place of the one of its type or at the end.
pub fn put_component(components: &mut Vec<BsnStructData>, c: BsnStructData)
    ensures
        structs_view(final(components)@) == with_component(structs_view(old(components)@), c@),
{
    match find_component(components, c.type_path.as_str()) {
        Some(i) => {
            components.set(i, c);
        },
        None => {
            components.push(c);
        },
    }
    assert(structs_view(components@) =~= with_component(structs_view(old(components)@), c@));
}

/// Takes the component of a type out.
pub fn drop_component(components: &mut Vec<BsnStructData>, type_path: &str)
    ensures
        structs_view(final(components)@) == without_component(
            structs_view(old(components)@),
            type_path@,
        ),
{
    match find_component(components, type_path) {
        Some(i) => {
            components.remove(i);
        },
        None => {},
    }
    assert(structs_view(components@) =~= without_component(
        structs_view(old(components)@),
        type_path@,
    ));
}

impl SceneWorld {
    /// An empty scene.
    pub fn new() -> (r: SceneWorld)
        ensures
            r@.entities == Map::<Entity, RecordView>::empty(),
            r@.selection == Seq::<Entity>::empty(),
            r@.doc == (DocView { nodes: Map::empty(), links: Map::empty(), roots: Seq::empty() }),
            r@.types == Seq::<TypeView>::empty(),
            r@.project_types == Seq::<SchemaView>::empty(),
            r.document.wf(),
            r.document.next_node == 0,
    {
        let r = SceneWorld {
            entities: HashMap::new(),
            selection: Vec::new(),
            document: SceneBsnAst::new(),
            types: Vec::new(),
            project_types: Vec::new(),
        };
        assert(r@.entities =~= Map::<Entity, RecordView>::empty());
        assert(r@.types =~= Seq::<TypeView>::empty());
        assert(r@.project_types =~= Seq::<SchemaView>::empty());
        r
    }

    /// Whether an entity is alive.
    pub fn is_alive(&self, e: Entity) -> (r: bool)
        ensures
            r == self@.alive(e),
    {
        self.entities.contains_key(&e)
    }

    /// Puts an entity into the scene, in the place of any with the same id.
    pub fn insert(&mut self, e: Entity, record: EntityRecord)
        ensures
            final(self)@ == (WorldView {
                entities: old(self)@.entities.insert(e, record@),
                ..old(self)@
            }),
            final(self).document == old(self).document,
    {
        self.entities.insert(e, record);
        assert(self@ =~= (WorldView {
            entities: old(self)@.entities.insert(e, record@),
            ..old(self)@
        }));
    }

    /// Takes an entity's record out.
    pub(crate) fn take(&mut self, e: Entity) -> (r: Option<EntityRecord>)
        ensures
            final(self)@ == (WorldView {
                entities: old(self)@.entities.remove(e),
                ..old(self)@
            }),
            final(self).document == old(self).document,
            match r {
                Some(rec) => old(self)@.alive(e) && rec@ == old(self)@.entities[e],
                None => !old(self)@.alive(e),
            },
    {
        let r: Option<EntityRecord> = self.entities.remove(&e);
        assert(self@ =~= (WorldView { entities: old(self)@.entities.remove(e), ..old(self)@ }));
        r
    }

    /// The marks of an entity; none when it is gone.
    pub fn marks(&self, e: Entity) -> (r: Marks)
        ensures
            r == (if self@.alive(e) {
                self@.entities[e].marks
            } else {
                Marks::none_spec()
            }),
    {
        match self.entities.get(&e) {
            Some(rec) => rec.marks,
            None => Marks::none(),
        }
    }

    /// Sets the marks of a live entity.
    pub fn set_marks(&mut self, e: Entity, marks: Marks)
        ensures
            final(self)@ == old(self)@.with_record(
                e,
                RecordView { marks, ..old(self)@.entities[e] },
            ),
            final(self).document == old(self).document,
    {
        let taken: Option<EntityRecord> = self.take(e);
        if let Some(rec) = taken {
            let rec: EntityRecord = EntityRecord {
                parent: rec.parent,
                children: rec.children,
                name: rec.name,
                slot: rec.slot,
                components: rec.components,
                marks,
            };
            assert(rec@ =~= (RecordView { marks, ..old(self)@.entities[e] }));
            self.insert(e, rec);
        }
        assert(self@ =~= old(self)@.with_record(
            e,
            RecordView { marks, ..old(self)@.entities[e] },
        ));
    }

    /// Sets or removes the name of a live entity.
    pub fn set_name(&mut self, e: Entity, name: Option<String>)
        ensures
            final(self)@ == old(self)@.with_record(
                e,
                RecordView { name: text_of(name), ..old(self)@.entities[e] },
            ),
            final(self).document == old(self).document,
    {
        let ghost wanted = text_of(name);
        let taken: Option<EntityRecord> = self.take(e);
        if let Some(rec) = taken {
            let rec: EntityRecord = EntityRecord {
                parent: rec.parent,
                children: rec.children,
                name,
                slot: rec.slot,
                components: rec.components,
                marks: rec.marks,
            };
            assert(rec@ =~= (RecordView { name: wanted, ..old(self)@.entities[e] }));
            self.insert(e, rec);
        }
        assert(self@ =~= old(self)@.with_record(
            e,
            RecordView { name: wanted, ..old(self)@.entities[e] },
        ));
    }

    /// The parent of an entity.
    pub fn parent(&self, e: Entity) -> (r: Option<Entity>)
        ensures
            r == (if self@.alive(e) {
                self@.entities[e].parent
            } else {
                None
            }),
    {
        match self.entities.get(&e) {
            Some(rec) => rec.parent,
            None => None,
        }
    }

    /// The children of an entity, in order.
    pub fn children(&self, e: Entity) -> (r: Vec<Entity>)
        ensures
            r@ == (if self@.alive(e) {
                self@.entities[e].children
            } else {
                Seq::empty()
            }),
    {
        match self.entities.get(&e) {
            Some(rec) => crate::seqs::copied(&rec.children),
            None => Vec::new(),
        }
    }

    /// The name of an entity.
    pub fn name(&self, e: Entity) -> (r: Option<String>)
        ensures
            text_of(r) == (if self@.alive(e) {
                self@.entities[e].name
            } else {
                None
            }),
    {
        match self.entities.get(&e) {
            Some(rec) => match &rec.name {
                Some(name) => Some(name.clone()),
                None => None,
            },
            None => None,
        }
    }

    /// The widget slot of an entity.
    pub fn slot(&self, e: Entity) -> (r: Option<String>)
        ensures
            text_of(r) == (if self@.alive(e) {
                self@.entities[e].slot
            } else {
                None
            }),
    {
        match self.entities.get(&e) {
            Some(rec) => match &rec.slot {
                Some(slot) => Some(slot.clone()),
                None => None,
            },
            None => None,
        }
    }

    /// The position of a type among the registered ones.
    fn find_type(&self, type_path: &str) -> (r: Option<usize>)
        ensures
            match r {
                Some(i) => self@.registered(type_path@) && i == first_index(
                    self@.types,
                    entry_of(type_path@),
                ) && i < self.types.len(),
                None => !self@.registered(type_path@),
            },
    {
        let ghost p = entry_of(type_path@);
        let mut i: usize = 0;
        while i < self.types.len()
            invariant
                i <= self.types.len(),
                p == entry_of(type_path@),
                forall|j: int| 0 <= j < i ==> !p(#[trigger] self@.types[j]),
            decreases self.types.len() - i,
        {
            if text_eq(self.types[i].type_path.as_str(), type_path) {
                proof {
                    lemma_first_index_is(self@.types, p, i as int);
                }
                return Some(i);
            }
            assert(!p(self@.types[i as int]));
            i = i + 1;
        }
        proof {
            lemma_first_index_is(self@.types, p, i as int);
        }
        None
    }

    /// Whether a component type is known by reflection.
    pub fn is_registered(&self, type_path: &str) -> (r: bool)
        ensures
            r == self@.registered(type_path@),
    {
        self.find_type(type_path).is_some()
    }

    /// The default value of a registered type.
    pub fn default_value(&self, type_path: &str) -> (r: Option<BsnStructData>)
        ensures
            struct_of(r) == self@.default_of(type_path@),
    {
        match self.find_type(type_path) {
            Some(i) => match &self.types[i].default {
                Some(d) => {
                    let kept: BsnStructData = d.copy();
                    let r = BsnStructData {
                        type_path: type_path.to_owned(),
                        fields: kept.fields,
                    };
                    assert(r@.fields == d@.fields);
                    Some(r)
                },
                None => None,
            },
            None => None,
        }
    }

    /// The position of the schema of a project component.
    pub fn find_schema(&self, type_path: &str) -> (r: Option<usize>)
        ensures
            match r {
                Some(i) => self@.is_project(type_path@) && i < self.project_types.len()
                    && self.project_types[i as int]@ == self@.schema(type_path@),
                None => !self@.is_project(type_path@),
            },
    {
        let ghost p = schema_of(type_path@);
        let mut i: usize = 0;
        while i < self.project_types.len()
            invariant
                i <= self.project_types.len(),
                p == schema_of(type_path@),
                forall|j: int| 0 <= j < i ==> !p(#[trigger] self@.project_types[j]),
            decreases self.project_types.len() - i,
        {
            if text_eq(self.project_types[i].type_path.as_str(), type_path) {
                proof {
                    lemma_first_index_is(self@.project_types, p, i as int);
                }
                return Some(i);
            }
            assert(!p(self@.project_types[i as int]));
            i = i + 1;
        }
        proof {
            lemma_first_index_is(self@.project_types, p, i as int);
        }
        None
    }

    /// Whether a component type belongs to the game project.
    pub fn is_project_component(&self, type_path: &str) -> (r: bool)
        ensures
            r == self@.is_project(type_path@),
    {
        self.find_schema(type_path).is_some()
    }

    /// Whether a live entity carries a registered component.
    pub fn entity_has_reflected_component(&self, e: Entity, type_path: &str) -> (r: bool)
        ensures
            r == self@.has_component(e, type_path@),
    {
        if !self.is_registered(type_path) {
            return false;
        }
        match self.entities.get(&e) {
            Some(rec) => find_component(&rec.components, type_path).is_some(),
            None => false,
        }
    }

    /// The value of a component on a live entity.
    pub fn component(&self, e: Entity, type_path: &str) -> (r: Option<BsnStructData>)
        ensures
            struct_of(r) == self@.component(e, type_path@),
    {
        if !self.is_registered(type_path) {
            return None;
        }
        self.held_component(e, type_path)
    }

    /// The value of a component that a live entity holds, whether or not its type is registered.
    pub fn held_component(&self, e: Entity, type_path: &str) -> (r: Option<BsnStructData>)
        ensures
            struct_of(r) == self@.held_component(e, type_path@),
    {
        match self.entities.get(&e) {
            Some(rec) => match find_component(&rec.components, type_path) {
                Some(i) => Some(rec.components[i].copy()),
                None => None,
            },
            None => None,
        }
    }

    /// The live value of one component field; of the whole component when the path is empty.
    pub fn live_bsn_field(&self, e: Entity, type_path: &str, field_path: &str) -> (r: Option<
        BsnValue,
    >)
        ensures
            match r {
                Some(v) => self@.live_field(e, type_path@, field_path@) == Some(v@),
                None => self@.live_field(e, type_path@, field_path@) is None,
            },
    {
        match self.component(e, type_path) {
            Some(c) => if field_path.unicode_len() == 0 {
                Some(BsnValue::Struct(c))
            } else {
                get_field(&c.fields, field_path)
            },
            None => None,
        }
    }

    /// Replaces the components of a live entity.
    pub(crate) fn set_components(&mut self, e: Entity, components: Vec<BsnStructData>)
        ensures
            final(self)@ == old(self)@.with_components(e, structs_view(components@)),
            final(self).document == old(self).document,
    {
        let taken: Option<EntityRecord> = self.take(e);
        if let Some(rec) = taken {
            let rec: EntityRecord = EntityRecord {
                parent: rec.parent,
                children: rec.children,
                name: rec.name,
                slot: rec.slot,
                components,
                marks: rec.marks,
            };
            assert(rec@ =~= (RecordView {
                components: structs_view(components@),
                ..old(self)@.entities[e]
            }));
            self.insert(e, rec);
        }
        assert(self@ =~= old(self)@.with_components(e, structs_view(components@)));
    }

    /// Takes the components of a live entity out for an edit.
    pub(crate) fn copy_components(&self, e: Entity) -> (r: Vec<BsnStructData>)
        ensures
            structs_view(r@) == self@.components_of(e),
    {
        let mut out: Vec<BsnStructData> = Vec::new();
        match self.entities.get(&e) {
            Some(rec) => {
                let mut i: usize = 0;
                while i < rec.components.len()
                    invariant
                        i <= rec.components.len(),
                        out.len() == i,
                        forall|j: int| 0 <= j < i ==> (#[trigger] out[j])@ == rec.components[j]@,
                    decreases rec.components.len() - i,
                {
                    out.push(rec.components[i].copy());
                    i = i + 1;
                }
            },
            None => {},
        }
        assert(structs_view(out@) =~= self@.components_of(e));
        out
    }

    /// Puts a component on a live entity, in the place of the one of its type.
    pub fn insert_component(&mut self, e: Entity, c: BsnStructData)
        ensures
            final(self)@ == old(self)@.with_components(
                e,
                with_component(old(self)@.components_of(e), c@),
            ),
            final(self).document == old(self).document,
    {
        let mut components: Vec<BsnStructData> = self.copy_components(e);
        put_component(&mut components, c);
        self.set_components(e, components);
    }

    /// Takes a registered component off a live entity.
    pub fn remove_component_from_ecs(&mut self, e: Entity, type_path: &str)
        ensures
            final(self)@ == (if old(self)@.registered(type_path@) {
                old(self)@.with_components(
                    e,
                    without_component(old(self)@.components_of(e), type_path@),
                )
            } else {
                old(self)@
            }),
            final(self).document == old(self).document,
    {
        if !self.is_registered(type_path) {
            return ;
        }
        let mut components: Vec<BsnStructData> = self.copy_components(e);
        drop_component(&mut components, type_path);
        self.set_components(e, components);
    }

    /// The fields that a patch is applied over: the live ones, else the defaults, else none.
    fn base_fields(&self, e: Entity, type_path: &str) -> (r: Vec<BsnField>)
        ensures
            fields_view(r@) == (match self@.component(e, type_path@) {
                Some(c) => c.fields,
                None => match self@.default_of(type_path@) {
                    Some(d) => d.fields,
                    None => Seq::empty(),
                },
            }),
    {
        match self.component(e, type_path) {
            Some(c) => c.fields,
            None => match self.default_value(type_path) {
                Some(d) => d.fields,
                None => {
                    let none: Vec<BsnField> = Vec::new();
                    assert(fields_view(none@) =~= Seq::empty());
                    none
                },
            },
        }
    }

    /// Applies a document patch to the live entity.
    pub fn apply_component_patch(&mut self, e: Entity, patch: &BsnPatch)
        ensures
            final(self)@ == old(self)@.patch_applied(e, patch@),
            final(self).document == old(self).document,
    {
        match patch {
            BsnPatch::Struct(data) => {
                if self.is_registered(data.type_path.as_str()) {
                    let mut fields: Vec<BsnField> = self.base_fields(e, data.type_path.as_str());
                    put_fields(&mut fields, &data.fields);
                    self.insert_component(
                        e,
                        BsnStructData { type_path: data.type_path.clone(), fields },
                    );
                }
            },
            BsnPatch::Type(type_path) => {
                if self.is_registered(type_path.as_str()) {
                    let fields: Vec<BsnField> = self.base_fields(e, type_path.as_str());
                    self.insert_component(
                        e,
                        BsnStructData { type_path: type_path.clone(), fields },
                    );
                }
            },
            _ => {},
        }
    }
}

/// A component that was put on an entity is the one of its type that is read; those of other types stay.
pub proof fn law_put_component_is_held(w: WorldView, e: Entity, c: StructView, other: Seq<char>)
    requires
        w.alive(e),
    ensures
        ({
            let after = w.with_components(e, with_component(w.components_of(e), c));
            &&& after.held_component(e, c.type_path) == Some(c)
            &&& other != c.type_path ==> after.held_component(e, other) == w.held_component(e, other)
        }),
{
    let before = w.components_of(e);
    let after = with_component(before, c);
    let i = component_index(before, c.type_path);
    lemma_first_index(before, typed(c.type_path));
    assert forall|j: int| 0 <= j < i implies !typed(c.type_path)(#[trigger] after[j]) by {
        assert(after[j] == before[j]);
    }
    assert(typed(c.type_path)(after[i]));
    lemma_first_index_is(after, typed(c.type_path), i);
    if other != c.type_path {
        let p = typed(other);
        lemma_first_index(before, p);
        let k = first_index(before, p);
        if k < before.len() {
            assert forall|j: int| 0 <= j < k implies !p(#[trigger] after[j]) by {
                if j != i {
                    assert(after[j] == before[j]);
                }
            }
            assert(k != i) by {
                if i < before.len() {
                    assert(typed(c.type_path)(before[i]));
                }
            }
            assert(after[k] == before[k]);
            lemma_first_index_is(after, p, k);
        } else {
            assert forall|j: int| 0 <= j < after.len() implies !p(#[trigger] after[j]) by {
                if j != i {
                    assert(after[j] == before[j]);
                }
            }
            lemma_first_index_is(after, p, after.len() as int);
        }
    }
}

/// Applying a patch writes each of its fields over the component that is there, over the default where
/// there is none, and leaves every other field of it. Only registered types have a live counterpart.
pub proof fn law_patch_is_applied(w: WorldView, e: Entity, d: StructView, name: Seq<char>)
    requires
        w.alive(e),
    ensures
        ({
            let after = w.patch_applied(e, PatchView::Struct(d));
            let base = match w.component(e, d.type_path) {
                Some(c) => c.fields,
                None => match w.default_of(d.type_path) {
                    Some(v) => v.fields,
                    None => Seq::empty(),
                },
            };
            &&& !w.registered(d.type_path) ==> after == w
            &&& w.registered(d.type_path) ==> after.component(e, d.type_path) is Some
            &&& w.registered(d.type_path) && (forall|i: int|
                0 <= i < d.fields.len() ==> (#[trigger] d.fields[i]).name != name) ==> field_value(
                after.component(e, d.type_path)->0.fields,
                name,
            ) == field_value(base, name)
            &&& w.registered(d.type_path) && d.fields.len() > 0 && d.fields.last().name == name
                ==> field_value(after.component(e, d.type_path)->0.fields, name) == Some(
                d.fields.last().value,
            )
            &&& w.patch_applied(e, PatchView::Name(name)) == w
        }),
{
    if w.registered(d.type_path) {
        let c = w.patched(e, d.type_path, d.fields);
        law_put_component_is_held(w, e, c, d.type_path);
        let base = match w.component(e, d.type_path) {
            Some(c) => c.fields,
            None => match w.default_of(d.type_path) {
                Some(v) => v.fields,
                None => Seq::empty(),
            },
        };
        law_last_edit_is_read(base, d.fields, name);
        if d.fields.len() > 0 {
            law_set_then_read(
                with_fields(base, d.fields.drop_last()),
                d.fields.last().name,
                d.fields.last().value,
                name,
            );
        }
    }
}

} // verus!
