//! The entities that can be added from the menu.
use vstd::prelude::*;
use crate::document::DocView;
use crate::brush::{
    apply_last_material, brush_component, repainted, Brush, BrushFace, BrushView, Brushes,
};
use crate::entity_ops::{inherited_visibility, visible_by_parent};
use crate::history::CommandHistory;
use crate::lifecycle::{
    deselected, despawned, lemma_despawned_leaf, lemma_unmarked_keeps, same_but_selected, unmarked,
};
use crate::patch::PatchView;
use crate::registration::{
    enrolled, is_tidy, law_enrolling_is_undone, node_above, patches_for, register_entity_in_ast,
    with_node,
};
use crate::selection::reselected;
use crate::value::{BsnStructData, Entity, StructView};
use crate::world::{structs_view, EntityRecord, Marks, RecordView, SceneWorld, WorldView};

verus! {

/// What the add menu offers.
#[derive(Clone, Copy, Debug, PartialEq, Eq, Structural)]
pub enum EntityTemplate {
    Empty,
    Cube,
    Sphere,
    PointLight,
    DirectionalLight,
    SpotLight,
    Camera3d,
    CameraRig,
    Plane,
    Cylinder,
    Wedge,
    Cone,
    Pyramid,
    FogVolume,
    AnimationPlayer,
    AudioSource,
}

/// The shape of a brush that a template starts with.
#[derive(Clone, Copy, Debug, PartialEq, Eq, Structural)]
pub enum BrushShape {
    Cuboid,
    Sphere,
    Plane,
    Cylinder { sides: u32 },
    Wedge,
    Cone { sides: u32 },
    Pyramid,
}

/// Where a template puts its entity.
#[derive(Clone, Copy, Debug, PartialEq, Eq, Structural)]
pub enum Placement {
    /// At the origin, without rotation.
    Origin,
    /// Three units above the origin.
    Above,
    /// Ten units above the origin, slanting down.
    Sun,
    /// Three units above the origin, looking at it.
    AboveLookingDown,
    /// Two units up and five back, looking at the origin.
    Framing,
    /// At the origin, at twice the size.
    Doubled,
}

/// One component that a template puts on its entity.
#[derive(Clone, Copy, Debug, PartialEq, Eq, Structural)]
pub enum Part {
    EmptyEntity,
    SceneCamera,
    SceneLight,
    SceneFogVolume,
    SceneAnimationPlayer,
    SceneAudioSource,
    Brush(BrushShape),
    /// A light that casts shadows.
    PointLight,
    /// A light that casts shadows.
    DirectionalLight,
    /// A light that casts shadows.
    SpotLight,
    Camera3d,
    /// A camera that does not render in the editor.
    InactiveCamera,
    /// A render target of one pixel that shows nowhere.
    NoRenderTarget,
    CameraRig,
    FogVolume,
    LightProbe,
    /// The light of the environment map that the editor comes with.
    EnvironmentMapLight,
    SceneReflectionProbe,
    SpawnPoint,
    /// A zone that reaches one unit to every side.
    ZoneTransition,
    NetworkRoom,
    Transform(Placement),
    Visibility,
}

/// The value of a part, as the engine has it.
#[derive(Debug)]
pub struct PartValue {
    pub part: Part,
    pub value: BsnStructData,
}

/// The value that the engine has for a part: the first one listed.
pub open spec fn value_of(values: Seq<PartValue>, part: Part) -> Option<StructView>
    decreases values.len(),
{
    if values.len() == 0 {
        None
    } else if values[0].part == part {
        Some(values[0].value@)
    } else {
        value_of(values.drop_first(), part)
    }
}

/// The value of a part of a new entity. A brush is the component of `brush`, an entity is shown as
/// its parent is, and the engine has the values of the other parts.
pub open spec fn part_value(
    part: Part,
    values: Seq<PartValue>,
    brush: Option<BrushView>,
) -> Option<StructView> {
    match part {
        Part::Brush(_) => match brush {
            Some(b) => Some(brush_component(b)),
            None => None,
        },
        Part::Visibility => Some(inherited_visibility()),
        _ => value_of(values, part),
    }
}

/// The components of an entity that is made of parts, in the order of the parts. A part that there is
/// no value for is not among them.
pub open spec fn assembled(
    parts: Seq<Part>,
    values: Seq<PartValue>,
    brush: Option<BrushView>,
) -> Seq<StructView>
    decreases parts.len(),
{
    if parts.len() == 0 {
        Seq::empty()
    } else {
        let before = assembled(parts.drop_last(), values, brush);
        match part_value(parts.last(), values, brush) {
            Some(v) => before.push(v),
            None => before,
        }
    }
}

fn find_value(values: &Vec<PartValue>, part: Part) -> (r: Option<BsnStructData>)
    ensures
        match r {
            Some(v) => value_of(values@, part) == Some(v@),
            None => value_of(values@, part) is None,
        },
{
    let mut i: usize = 0;
    assert(values@.skip(0) =~= values@);
    while i < values.len()
        invariant
            i <= values.len(),
            value_of(values@, part) == value_of(values@.skip(i as int), part),
        decreases values.len() - i,
    {
        assert(values@.skip(i as int)[0] == values@[i as int]);
        assert(values@.skip(i as int).drop_first() =~= values@.skip(i + 1));
        if values[i].part == part {
            return Some(values[i].value.copy());
        }
        i = i + 1;
    }
    None
}

fn value_for_part(part: Part, values: &Vec<PartValue>, brush: Option<&Brush>) -> (r: Option<
    BsnStructData,
>)
    ensures
        match r {
            Some(v) => part_value(part, values@, given_brush(brush)) == Some(v@),
            None => part_value(part, values@, given_brush(brush)) is None,
        },
{
    match part {
        Part::Brush(_) => match brush {
            Some(b) => Some(b.component()),
            None => None,
        },
        Part::Visibility => Some(visible_by_parent()),
        _ => find_value(values, part),
    }
}

/// What a brush that may be given stands for.
pub open spec fn given_brush(brush: Option<&Brush>) -> Option<BrushView> {
    match brush {
        Some(b) => Some(b@),
        None => None,
    }
}

/// The components of an entity that is made of parts.
pub fn assemble(parts: &Vec<Part>, values: &Vec<PartValue>, brush: Option<&Brush>) -> (r: Vec<
    BsnStructData,
>)
    ensures
        structs_view(r@) == assembled(parts@, values@, given_brush(brush)),
{
    let mut out: Vec<BsnStructData> = Vec::new();
    let ghost b = given_brush(brush);
    let mut i: usize = 0;
    assert(structs_view(out@) =~= assembled(parts@.take(0), values@, b));
    while i < parts.len()
        invariant
            i <= parts.len(),
            b == given_brush(brush),
            structs_view(out@) == assembled(parts@.take(i as int), values@, b),
        decreases parts.len() - i,
    {
        let ghost before = structs_view(out@);
        assert(parts@.take(i + 1).drop_last() =~= parts@.take(i as int));
        assert(parts@.take(i + 1).last() == parts@[i as int]);
        if let Some(v) = value_for_part(parts[i], values, brush) {
            out.push(v);
            assert(structs_view(out@) =~= before.push(v@));
        }
        i = i + 1;
    }
    assert(parts@.take(i as int) =~= parts@);
    out
}

impl EntityTemplate {
    /// The name in the add menu.
    pub open spec fn label_spec(self) -> Seq<char> {
        match self {
            EntityTemplate::Empty => "Empty Entity"@,
            EntityTemplate::Cube => "Cube"@,
            EntityTemplate::Sphere => "Sphere"@,
            EntityTemplate::PointLight => "Point Light"@,
            EntityTemplate::DirectionalLight => "Directional Light"@,
            EntityTemplate::SpotLight => "Spot Light"@,
            EntityTemplate::Camera3d => "Camera"@,
            EntityTemplate::CameraRig => "Camera Rig"@,
            EntityTemplate::Plane => "Plane"@,
            EntityTemplate::Cylinder => "Cylinder"@,
            EntityTemplate::Wedge => "Wedge"@,
            EntityTemplate::Cone => "Cone"@,
            EntityTemplate::Pyramid => "Pyramid"@,
            EntityTemplate::FogVolume => "Fog Volume"@,
            EntityTemplate::AnimationPlayer => "Animation Player"@,
            EntityTemplate::AudioSource => "Audio Source"@,
        }
    }

    /// The name in the add menu.
    pub fn label(self) -> (r: &'static str)
        ensures
            r@ == self.label_spec(),
    {
        match self {
            EntityTemplate::Empty => "Empty Entity",
            EntityTemplate::Cube => "Cube",
            EntityTemplate::Sphere => "Sphere",
            EntityTemplate::PointLight => "Point Light",
            EntityTemplate::DirectionalLight => "Directional Light",
            EntityTemplate::SpotLight => "Spot Light",
            EntityTemplate::Camera3d => "Camera",
            EntityTemplate::CameraRig => "Camera Rig",
            EntityTemplate::Plane => "Plane",
            EntityTemplate::Cylinder => "Cylinder",
            EntityTemplate::Wedge => "Wedge",
            EntityTemplate::Cone => "Cone",
            EntityTemplate::Pyramid => "Pyramid",
            EntityTemplate::FogVolume => "Fog Volume",
            EntityTemplate::AnimationPlayer => "Animation Player",
            EntityTemplate::AudioSource => "Audio Source",
        }
    }

    /// The name of the new entity: the menu name, but for the empty entity.
    pub open spec fn entity_name_spec(self) -> Seq<char> {
        if self == EntityTemplate::Empty {
            "Empty"@
        } else {
            self.label_spec()
        }
    }

    /// The name of the new entity.
    pub fn entity_name(self) -> (r: &'static str)
        ensures
            r@ == self.entity_name_spec(),
    {
        if self == EntityTemplate::Empty {
            "Empty"
        } else {
            self.label()
        }
    }

    /// The shape of the brush that the template makes, if it makes one.
    pub open spec fn brush_spec(self) -> Option<BrushShape> {
        match self {
            EntityTemplate::Cube => Some(BrushShape::Cuboid),
            EntityTemplate::Sphere => Some(BrushShape::Sphere),
            EntityTemplate::Plane => Some(BrushShape::Plane),
            EntityTemplate::Cylinder => Some(BrushShape::Cylinder { sides: 16 }),
            EntityTemplate::Wedge => Some(BrushShape::Wedge),
            EntityTemplate::Cone => Some(BrushShape::Cone { sides: 16 }),
            EntityTemplate::Pyramid => Some(BrushShape::Pyramid),
            _ => None,
        }
    }

    /// The shape of the brush that the template makes, if it makes one.
    pub fn brush(self) -> (r: Option<BrushShape>)
        ensures
            r == self.brush_spec(),
    {
        match self {
            EntityTemplate::Cube => Some(BrushShape::Cuboid),
            EntityTemplate::Sphere => Some(BrushShape::Sphere),
            EntityTemplate::Plane => Some(BrushShape::Plane),
            EntityTemplate::Cylinder => Some(BrushShape::Cylinder { sides: 16 }),
            EntityTemplate::Wedge => Some(BrushShape::Wedge),
            EntityTemplate::Cone => Some(BrushShape::Cone { sides: 16 }),
            EntityTemplate::Pyramid => Some(BrushShape::Pyramid),
            _ => None,
        }
    }

    /// The components that the template puts on its entity, besides the name.
    pub open spec fn parts_spec(self) -> Seq<Part> {
        let placed = Part::Transform(Placement::Origin);
        match self.brush_spec() {
            Some(shape) => seq![Part::Brush(shape), placed, Part::Visibility],
            None => match self {
                EntityTemplate::Empty => seq![Part::EmptyEntity, placed, Part::Visibility],
                EntityTemplate::PointLight => seq![
                    Part::SceneLight,
                    Part::PointLight,
                    Part::Transform(Placement::Above),
                ],
                EntityTemplate::DirectionalLight => seq![
                    Part::SceneLight,
                    Part::DirectionalLight,
                    Part::Transform(Placement::Sun),
                ],
                EntityTemplate::SpotLight => seq![
                    Part::SceneLight,
                    Part::SpotLight,
                    Part::Transform(Placement::AboveLookingDown),
                ],
                EntityTemplate::Camera3d => seq![
                    Part::SceneCamera,
                    Part::Camera3d,
                    Part::InactiveCamera,
                    Part::NoRenderTarget,
                    Part::Transform(Placement::Framing),
                ],
                EntityTemplate::CameraRig => seq![Part::CameraRig, placed, Part::Visibility],
                EntityTemplate::FogVolume => seq![
                    Part::FogVolume,
                    Part::SceneFogVolume,
                    placed,
                    Part::Visibility,
                ],
                EntityTemplate::AnimationPlayer => seq![
                    Part::SceneAnimationPlayer,
                    placed,
                    Part::Visibility,
                ],
                _ => seq![Part::SceneAudioSource, placed, Part::Visibility],
            },
        }
    }

    /// The components that the template puts on its entity, besides the name.
    pub fn parts(self) -> (r: Vec<Part>)
        ensures
            r@ == self.parts_spec(),
    {
        let placed: Part = Part::Transform(Placement::Origin);
        let r: Vec<Part> = match self.brush() {
            Some(shape) => vec![Part::Brush(shape), placed, Part::Visibility],
            None => match self {
                EntityTemplate::Empty => vec![Part::EmptyEntity, placed, Part::Visibility],
                EntityTemplate::PointLight => vec![
                    Part::SceneLight,
                    Part::PointLight,
                    Part::Transform(Placement::Above),
                ],
                EntityTemplate::DirectionalLight => vec![
                    Part::SceneLight,
                    Part::DirectionalLight,
                    Part::Transform(Placement::Sun),
                ],
                EntityTemplate::SpotLight => vec![
                    Part::SceneLight,
                    Part::SpotLight,
                    Part::Transform(Placement::AboveLookingDown),
                ],
                EntityTemplate::Camera3d => vec![
                    Part::SceneCamera,
                    Part::Camera3d,
                    Part::InactiveCamera,
                    Part::NoRenderTarget,
                    Part::Transform(Placement::Framing),
                ],
                EntityTemplate::CameraRig => vec![Part::CameraRig, placed, Part::Visibility],
                EntityTemplate::FogVolume => vec![
                    Part::FogVolume,
                    Part::SceneFogVolume,
                    placed,
                    Part::Visibility,
                ],
                EntityTemplate::AnimationPlayer => vec![
                    Part::SceneAnimationPlayer,
                    placed,
                    Part::Visibility,
                ],
                _ => vec![Part::SceneAudioSource, placed, Part::Visibility],
            },
        };
        assert(r@ =~= self.parts_spec());
        r
    }
}

/// The marks that follow from the components of a template.
pub open spec fn template_marks(template: EntityTemplate) -> Marks {
    Marks {
        brush: template.brush_spec() is Some,
        camera: template == EntityTemplate::Camera3d,
        light: template == EntityTemplate::PointLight || template
            == EntityTemplate::DirectionalLight || template == EntityTemplate::SpotLight,
        ..Marks::none_spec()
    }
}

fn marks_for(template: EntityTemplate) -> (r: Marks)
    ensures
        r == template_marks(template),
{
    Marks {
        brush: template.brush().is_some(),
        camera: template == EntityTemplate::Camera3d,
        light: template == EntityTemplate::PointLight || template
            == EntityTemplate::DirectionalLight || template == EntityTemplate::SpotLight,
        ..Marks::none()
    }
}

/// The brush of a new entity of a template: the shape that the template asks for, with the material
/// that was used last on all its faces.
pub open spec fn template_brush(
    template: EntityTemplate,
    shape: Option<Brush>,
    last_material: Option<u64>,
) -> Option<BrushView> {
    match shape {
        Some(b) => if template.brush_spec() is Some {
            Some(repainted(b@, last_material))
        } else {
            None
        },
        None => None,
    }
}

/// The brushes with that of a new entity, if it has one.
pub open spec fn with_new_brush(
    brushes: Map<Entity, BrushView>,
    entity: Entity,
    brush: Option<BrushView>,
) -> Map<Entity, BrushView> {
    match brush {
        Some(b) => brushes.insert(entity, b),
        None => brushes,
    }
}

/// The scene with a new entity of a template that is selected alone.
pub open spec fn with_template(
    w: WorldView,
    template: EntityTemplate,
    entity: Entity,
    values: Seq<PartValue>,
    brush: Option<BrushView>,
) -> WorldView {
    with_named(
        w,
        entity,
        template.entity_name_spec(),
        template_marks(template),
        assembled(template.parts_spec(), values, brush),
    )
}

/// What the engine makes an entity of a template from: the shape of its brush, when the template has
/// one, and the values of its other parts.
#[derive(Debug)]
pub struct Supplies {
    pub shape: Option<Brush>,
    pub values: Vec<PartValue>,
}

/// Paints the shape of a template, enters it among the brushes, and returns the components of the
/// entity.
fn make_parts(
    brushes: &mut Brushes,
    template: EntityTemplate,
    entity: Entity,
    supplies: Supplies,
    last_material: Option<u64>,
) -> (r: Vec<BsnStructData>)
    ensures
        ({
            let brush = template_brush(template, supplies.shape, last_material);
            &&& structs_view(r@) == assembled(template.parts_spec(), supplies.values@, brush)
            &&& final(brushes)@ == with_new_brush(old(brushes)@, entity, brush)
        }),
{
    let parts: Vec<Part> = template.parts();
    match supplies.shape {
        Some(shape) => {
            if template.brush().is_some() {
                let mut brush: Brush = shape;
                apply_last_material(&mut brush, last_material);
                let components: Vec<BsnStructData> = assemble(
                    &parts,
                    &supplies.values,
                    Some(&brush),
                );
                brushes.set(entity, brush);
                components
            } else {
                assemble(&parts, &supplies.values, None)
            }
        },
        None => assemble(&parts, &supplies.values, None),
    }
}

/// Enters a new entity of a template into the scene under the id that the engine gave it, and selects
/// it alone. A brush has the material that was used last on all its faces.
pub fn create_entity(
    world: &mut SceneWorld,
    brushes: &mut Brushes,
    template: EntityTemplate,
    entity: Entity,
    supplies: Supplies,
    last_material: Option<u64>,
)
    ensures
        ({
            let brush = template_brush(template, supplies.shape, last_material);
            &&& final(world)@ == with_template(
                old(world)@,
                template,
                entity,
                supplies.values@,
                brush,
            )
            &&& final(brushes)@ == with_new_brush(old(brushes)@, entity, brush)
        }),
        final(world).document == old(world).document,
{
    let components: Vec<BsnStructData> = make_parts(
        brushes,
        template,
        entity,
        supplies,
        last_material,
    );
    spawn_named(world, entity, template.entity_name(), marks_for(template), components);
}

/// The new entity of a template that has a brush carries it, with the material that was used last on
/// every face, and it is among the brushes.
pub proof fn law_template_brush_is_painted(
    brushes: Map<Entity, BrushView>,
    template: EntityTemplate,
    entity: Entity,
    values: Seq<PartValue>,
    shape: Brush,
    material: u64,
    i: int,
)
    requires
        template.brush_spec() is Some,
        0 <= i < shape@.faces.len(),
    ensures
        ({
            let brush = template_brush(template, Some(shape), Some(material));
            let components = assembled(template.parts_spec(), values, brush);
            &&& components.len() > 0
            &&& components[0] == brush_component(brush->0)
            &&& with_new_brush(brushes, entity, brush)[entity] == brush->0
            &&& brush->0.faces[i] == (BrushFace { material, ..shape@.faces[i] })
        }),
{
    let brush = template_brush(template, Some(shape), Some(material));
    let parts = template.parts_spec();
    lemma_first_component(parts, values, brush, parts.len() as int);
    assert(parts.take(parts.len() as int) =~= parts);
}

/// The first component is that of the first part, if that has a value.
proof fn lemma_first_component(
    parts: Seq<Part>,
    values: Seq<PartValue>,
    brush: Option<BrushView>,
    n: int,
)
    requires
        0 < n <= parts.len(),
        part_value(parts[0], values, brush) is Some,
    ensures
        assembled(parts.take(n), values, brush).len() > 0,
        Some(assembled(parts.take(n), values, brush)[0]) == part_value(parts[0], values, brush),
    decreases n,
{
    let cut = parts.take(n);
    assert(cut.drop_last() =~= parts.take(n - 1));
    assert(cut.last() == parts[n - 1]);
    if n > 1 {
        lemma_first_component(parts, values, brush, n - 1);
    } else {
        assert(parts.take(0) =~= Seq::empty());
    }
}

/// A record with a name, marks and components.
pub open spec fn named_record(
    name: Seq<char>,
    marks: Marks,
    components: Seq<StructView>,
) -> RecordView {
    RecordView { name: Some(name), components, ..RecordView::bare(marks) }
}

/// The scene with a new named entity that is selected alone.
pub open spec fn with_named(
    w: WorldView,
    entity: Entity,
    name: Seq<char>,
    marks: Marks,
    components: Seq<StructView>,
) -> WorldView {
    reselected(
        WorldView {
            entities: w.entities.insert(entity, named_record(name, marks, components)),
            ..w
        },
        seq![entity],
    )
}

/// Enters a new named entity into the scene and selects it alone.
pub fn spawn_named(
    world: &mut SceneWorld,
    entity: Entity,
    name: &str,
    marks: Marks,
    components: Vec<BsnStructData>,
)
    ensures
        final(world)@ == with_named(
            old(world)@,
            entity,
            name@,
            marks,
            structs_view(components@),
        ),
        final(world).document == old(world).document,
{
    let record: EntityRecord = EntityRecord {
        parent: None,
        children: Vec::new(),
        name: Some(name.to_owned()),
        slot: None,
        components,
        marks,
    };
    assert(record@ =~= named_record(name@, marks, structs_view(components@)));
    world.insert(entity, record);
    world.select_single(entity);
}

/// Enters a new named entity into the scene, selects it alone, and enters it into the document, with
/// its name and its components.
pub fn spawn_named_in_document(
    world: &mut SceneWorld,
    entity: Entity,
    name: &str,
    marks: Marks,
    components: Vec<BsnStructData>,
)
    requires
        old(world).document.wf(),
        old(world).document.next_node < u64::MAX,
    ensures
        enrolled(
            with_named(old(world)@, entity, name@, marks, structs_view(components@)),
            final(world)@,
            entity,
        ),
        final(world).document.wf(),
        final(world).document.next_node == old(world).document.next_node + nodes_for(
            old(world)@.doc,
            entity,
        ),
{
    proof {
        lemma_with_named(world@, entity, name@, marks, structs_view(components@), entity);
    }
    spawn_named(world, entity, name, marks, components);
    register_entity_in_ast(world, entity);
}

/// How many nodes a document gains when an entity that is there enters it.
pub open spec fn nodes_for(doc: DocView, entity: Entity) -> int {
    if doc.links.contains_key(entity) {
        0
    } else {
        1
    }
}

/// A new named entity is alive, beside those that were, with its record but for the selection.
pub proof fn lemma_with_named(
    w: WorldView,
    entity: Entity,
    name: Seq<char>,
    marks: Marks,
    components: Seq<StructView>,
    x: Entity,
)
    ensures
        ({
            let after = with_named(w, entity, name, marks, components);
            &&& after.doc == w.doc
            &&& after.alive(x) == (w.alive(x) || x == entity)
            &&& same_but_selected(
                after.entities[entity],
                named_record(name, marks, components),
            )
            &&& x != entity && w.alive(x) ==> same_but_selected(after.entities[x], w.entities[x])
        }),
{
    let there = WorldView {
        entities: w.entities.insert(entity, named_record(name, marks, components)),
        ..w
    };
    lemma_named_keeps(there, entity, x);
    lemma_named_keeps(there, entity, entity);
}

/// The label of the command that adds an entity of a template.
pub fn add_label(template: EntityTemplate) -> (r: String)
    ensures
        r@ == "Add "@ + template.label_spec(),
{
    "Add ".to_owned().concat(template.label())
}

/// Undoing the entry of a new entity takes it out of the scene and the selection again, leaves the
/// document as it was before, and every other entity as it was but for the selection.
#[verifier::rlimit(40)]
pub proof fn law_spawn_is_undone(
    w: WorldView,
    after: WorldView,
    entity: Entity,
    name: Seq<char>,
    marks: Marks,
    components: Seq<StructView>,
    x: Entity,
)
    requires
        !w.alive(entity),
        !w.doc.links.contains_key(entity),
        w.doc.linked(),
        is_tidy(w.doc),
        enrolled(with_named(w, entity, name, marks, components), after, entity),
    ensures
        ({
            let back = despawned(deselected(after, seq![entity]), entity);
            &&& back.doc == w.doc
            &&& back.alive(x) == w.alive(x)
            &&& w.alive(x) ==> same_but_selected(back.entities[x], w.entities[x])
            &&& back.selection.len() == 0
        }),
{
    let named = with_named(w, entity, name, marks, components);
    lemma_with_named(w, entity, name, marks, components, x);
    lemma_with_named(w, entity, name, marks, components, entity);
    law_enrolling_is_undone(named, after, entity);
    let one = seq![entity];
    assert(after.entities == named.entities);
    assert(after.selection == one);
    let rest = deselected(after, one);
    lemma_unmarked_keeps(after, one, x);
    lemma_unmarked_keeps(after, one, entity);
    lemma_nothing_left(entity);
    lemma_despawned_leaf(rest, entity);
}

/// A new entity is in the document with its name and all its components.
pub proof fn law_new_entity_is_authored(
    w: WorldView,
    after: WorldView,
    entity: Entity,
    name: Seq<char>,
    marks: Marks,
    components: Seq<StructView>,
)
    requires
        !w.doc.links.contains_key(entity),
        enrolled(with_named(w, entity, name, marks, components), after, entity),
    ensures
        after.doc.node_of(entity) is Some,
        after.doc.entity_patches(entity) == seq![PatchView::Name(name)] + Seq::new(
            components.len(),
            |i: int| PatchView::Struct(components[i]),
        ),
{
    let named = with_named(w, entity, name, marks, components);
    lemma_with_named(w, entity, name, marks, components, entity);
    let record = named.entities[entity];
    let node = choose|node: Entity|
        !named.doc.nodes.contains_key(node) && after == named.with_doc(
            #[trigger] with_node(
                named.doc,
                entity,
                node,
                patches_for(record),
                node_above(named, entity),
            ),
        );
    assert(after.doc.nodes[node].patches == patches_for(record));
    assert(patches_for(record) =~= seq![PatchView::Name(name)] + Seq::new(
        components.len(),
        |i: int| PatchView::Struct(components[i]),
    ));
}

/// Selecting an entity alone changes nothing but selection marks.
proof fn lemma_named_keeps(w: WorldView, entity: Entity, x: Entity)
    ensures
        reselected(w, seq![entity]).doc == w.doc,
        reselected(w, seq![entity]).alive(x) == w.alive(x),
        w.alive(x) ==> same_but_selected(
            reselected(w, seq![entity]).entities[x],
            w.entities[x],
        ),
{
    let one = seq![entity];
    assert(one.drop_last() =~= Seq::empty());
    lemma_unmarked_keeps(w, w.selection, x);
    let bare = unmarked(w, w.selection);
    assert(crate::selection::all_marked(bare, one.drop_last()) == bare);
    assert(crate::selection::all_marked(bare, one) == bare.marked(entity, true));
}

proof fn lemma_nothing_left(e: Entity)
    ensures
        crate::seqs::without_all(seq![e], seq![e]) == Seq::<Entity>::empty(),
{
    let p = crate::seqs::not_among(seq![e]);
    assert(seq![e].contains(e)) by {
        assert(seq![e][0] == e);
    }
    crate::seqs::lemma_filter_push(Seq::empty(), e, p);
    assert(Seq::<Entity>::empty().push(e) =~= seq![e]);
    assert(Seq::<Entity>::empty().filter(p) =~= Seq::empty()) by {
        reveal(Seq::filter);
    }
}

/// Starts a new scene: it holds a directional light. `values` are those of the light's parts.
pub fn seed_new_scene_defaults(
    world: &mut SceneWorld,
    brushes: &mut Brushes,
    entity: Entity,
    values: Vec<PartValue>,
)
    requires
        old(world).document.wf(),
        old(world).document.next_node < u64::MAX,
    ensures
        enrolled(
            with_template(old(world)@, EntityTemplate::DirectionalLight, entity, values@, None),
            final(world)@,
            entity,
        ),
        final(brushes)@ == old(brushes)@,
        final(world).document.wf(),
        final(world).document.next_node == old(world).document.next_node + nodes_for(
            old(world)@.doc,
            entity,
        ),
{
    spawn_template_in_document(
        world,
        brushes,
        EntityTemplate::DirectionalLight,
        entity,
        Supplies { shape: None, values },
        None,
    );
}

/// Adds an entity of a template to the scene and its document, as a step of the history.
pub fn create_entity_in_world(
    world: &mut SceneWorld,
    brushes: &mut Brushes,
    history: &mut CommandHistory,
    template: EntityTemplate,
    entity: Entity,
    supplies: Supplies,
    last_material: Option<u64>,
)
    requires
        old(world).document.wf(),
        old(world).document.next_node < u64::MAX,
    ensures
        old(history).spawn_recorded(*final(history), entity, "Add "@ + template.label_spec()),
        ({
            let brush = template_brush(template, supplies.shape, last_material);
            &&& enrolled(
                with_template(old(world)@, template, entity, supplies.values@, brush),
                final(world)@,
                entity,
            )
            &&& final(brushes)@ == with_new_brush(old(brushes)@, entity, brush)
        }),
        final(world).document.wf(),
        final(world).document.next_node == old(world).document.next_node + nodes_for(
            old(world)@.doc,
            entity,
        ),
{
    let label: String = add_label(template);
    spawn_template_in_document(world, brushes, template, entity, supplies, last_material);
    history.record_spawn(entity, label);
}

/// Enters a new entity of a template into the scene and into the document. A brush has the material
/// that was used last on all its faces.
pub fn spawn_template_in_document(
    world: &mut SceneWorld,
    brushes: &mut Brushes,
    template: EntityTemplate,
    entity: Entity,
    supplies: Supplies,
    last_material: Option<u64>,
)
    requires
        old(world).document.wf(),
        old(world).document.next_node < u64::MAX,
    ensures
        ({
            let brush = template_brush(template, supplies.shape, last_material);
            &&& enrolled(
                with_template(old(world)@, template, entity, supplies.values@, brush),
                final(world)@,
                entity,
            )
            &&& final(brushes)@ == with_new_brush(old(brushes)@, entity, brush)
        }),
        final(world).document.wf(),
        final(world).document.next_node == old(world).document.next_node + nodes_for(
            old(world)@.doc,
            entity,
        ),
{
    proof {
        lemma_with_named(
            world@,
            entity,
            template.entity_name_spec(),
            template_marks(template),
            assembled(
                template.parts_spec(),
                supplies.values@,
                template_brush(template, supplies.shape, last_material),
            ),
            entity,
        );
    }
    create_entity(world, brushes, template, entity, supplies, last_material);
    register_entity_in_ast(world, entity);
}

/// The value of a part is the first that the engine lists for it.
pub proof fn law_first_value_counts(values: Seq<PartValue>, part: Part, i: int)
    ensures
        0 <= i < values.len() && values[i].part == part && (forall|j: int|
            0 <= j < i ==> (#[trigger] values[j]).part != part) ==> value_of(values, part) == Some(
            values[i].value@,
        ),
        (forall|j: int| 0 <= j < values.len() ==> (#[trigger] values[j]).part != part) ==> value_of(
            values,
            part,
        ) is None,
    decreases values.len(),
{
    if values.len() > 0 {
        let rest = values.drop_first();
        assert forall|j: int| 0 <= j < rest.len() implies #[trigger] rest[j] == values[j + 1] by {}
        law_first_value_counts(rest, part, i - 1);
        if 0 < i < values.len() && values[i].part == part && (forall|j: int|
            0 <= j < i ==> (#[trigger] values[j]).part != part) {
            assert(values[0].part != part);
            assert(rest[i - 1] == values[i]);
            assert forall|j: int| 0 <= j < i - 1 implies (#[trigger] rest[j]).part != part by {
                assert(values[j + 1].part != part);
            }
        }
        if forall|j: int| 0 <= j < values.len() ==> (#[trigger] values[j]).part != part {
            assert(values[0].part != part);
            assert forall|j: int| 0 <= j < rest.len() implies (#[trigger] rest[j]).part != part by {
                assert(values[j + 1].part != part);
            }
        }
    }
}

/// The components of a new entity are the values of its parts: each that has one is among them, and
/// nothing else is.
pub proof fn law_components_are_the_parts(
    parts: Seq<Part>,
    values: Seq<PartValue>,
    brush: Option<BrushView>,
    c: StructView,
)
    ensures
        assembled(parts, values, brush).contains(c) <==> exists|i: int|
            0 <= i < parts.len() && part_value(#[trigger] parts[i], values, brush) == Some(c),
        assembled(parts, values, brush).len() <= parts.len(),
    decreases parts.len(),
{
    if parts.len() > 0 {
        let init = parts.drop_last();
        let before = assembled(init, values, brush);
        law_components_are_the_parts(init, values, brush, c);
        assert(parts[parts.len() - 1] == parts.last());
        if let Some(v) = part_value(parts.last(), values, brush) {
            crate::seqs::lemma_push_contains(before, v, c);
        }
        if before.contains(c) {
            let i = choose|i: int|
                0 <= i < init.len() && part_value(#[trigger] init[i], values, brush) == Some(c);
            assert(parts[i] == init[i]);
        }
        if exists|i: int|
            0 <= i < parts.len() && part_value(#[trigger] parts[i], values, brush) == Some(c) {
            let i = choose|i: int|
                0 <= i < parts.len() && part_value(#[trigger] parts[i], values, brush) == Some(c);
            if i < init.len() {
                assert(init[i] == parts[i]);
            }
        }
    }
}

/// Every template places its entity. Lights, and they alone, are lights of the scene, and the camera
/// alone is its camera. What is shaped like a brush has the brush of its shape first. Lights and
/// cameras need no visibility; everything else is shown as its parent is.
pub proof fn law_template_parts(template: EntityTemplate)
    ensures
        ({
            let parts = template.parts_spec();
            let light = template == EntityTemplate::PointLight || template
                == EntityTemplate::DirectionalLight || template == EntityTemplate::SpotLight;
            let solid = template == EntityTemplate::Cube || template == EntityTemplate::Sphere
                || template == EntityTemplate::Plane || template == EntityTemplate::Cylinder
                || template == EntityTemplate::Wedge || template == EntityTemplate::Cone
                || template == EntityTemplate::Pyramid;
            let camera = template == EntityTemplate::Camera3d;
            &&& light == parts.contains(Part::SceneLight)
            &&& light == template_marks(template).light
            &&& camera == parts.contains(Part::SceneCamera)
            &&& camera == parts.contains(Part::InactiveCamera)
            &&& camera == template_marks(template).camera
            &&& solid == template.brush_spec() is Some
            &&& solid == template_marks(template).brush
            &&& solid ==> parts[0] == Part::Brush(template.brush_spec()->0)
            &&& (light || camera) == !parts.contains(Part::Visibility)
            &&& template == EntityTemplate::PointLight ==> parts.contains(
                Part::Transform(Placement::Above),
            ) && parts.contains(Part::PointLight)
            &&& template == EntityTemplate::SpotLight ==> parts.contains(
                Part::Transform(Placement::AboveLookingDown),
            ) && parts.contains(Part::SpotLight)
            &&& template == EntityTemplate::DirectionalLight ==> parts.contains(
                Part::Transform(Placement::Sun),
            ) && parts.contains(Part::DirectionalLight)
            &&& camera ==> parts.contains(Part::Transform(Placement::Framing)) && parts.contains(
                Part::NoRenderTarget,
            )
            &&& !light && !camera ==> parts.contains(Part::Transform(Placement::Origin))
            &&& template == EntityTemplate::Cylinder ==> template.brush_spec() == Some(
                BrushShape::Cylinder { sides: 16 },
            )
            &&& template == EntityTemplate::Cone ==> template.brush_spec() == Some(
                BrushShape::Cone { sides: 16 },
            )
            &&& template == EntityTemplate::Cube ==> template.brush_spec() == Some(
                BrushShape::Cuboid,
            )
            &&& template == EntityTemplate::Sphere ==> template.brush_spec() == Some(
                BrushShape::Sphere,
            )
            &&& template == EntityTemplate::Plane ==> template.brush_spec() == Some(
                BrushShape::Plane,
            )
            &&& template == EntityTemplate::Wedge ==> template.brush_spec() == Some(
                BrushShape::Wedge,
            )
            &&& template == EntityTemplate::Pyramid ==> template.brush_spec() == Some(
                BrushShape::Pyramid,
            )
        }),
{
    let parts = template.parts_spec();
    assert(parts[0] == parts[0] && parts[1] == parts[1] && parts[2] == parts[2]);
    assert(parts.len() > 3 ==> parts[3] == parts[3]);
    assert(parts.len() > 4 ==> parts[4] == parts[4]);
    assert forall|x: Part| #[trigger] parts.contains(x) implies x == parts[0] || x == parts[1] || x
        == parts[2] || (parts.len() > 3 && x == parts[3]) || (parts.len() > 4 && x == parts[4]) by {
        let i = choose|i: int| 0 <= i < parts.len() && parts[i] == x;
        assert(0 <= i < 5);
    }
}

/// A new entity of a template is alive, without a parent, with the name of the template, and the only
/// one selected. Its components are those of the template's parts.
pub proof fn law_new_entity_of_a_template(
    w: WorldView,
    template: EntityTemplate,
    entity: Entity,
    values: Seq<PartValue>,
    brush: Option<BrushView>,
    x: Entity,
)
    ensures
        ({
            let after = with_template(w, template, entity, values, brush);
            &&& after.alive(entity)
            &&& after.selection == seq![entity]
            &&& after.entities[entity].parent is None
            &&& after.entities[entity].children.len() == 0
            &&& template != EntityTemplate::Empty ==> after.entities[entity].name == Some(
                template.label_spec(),
            )
            &&& template == EntityTemplate::Empty ==> after.entities[entity].name == Some("Empty"@)
            &&& after.entities[entity].components == assembled(
                template.parts_spec(),
                values,
                brush,
            )
            &&& !after.entities[entity].marks.editor_entity
            &&& !after.entities[entity].marks.non_serializable
            &&& x != entity && w.alive(x) ==> same_but_selected(after.entities[x], w.entities[x])
            &&& after.doc == w.doc
        }),
{
    lemma_with_named(
        w,
        entity,
        template.entity_name_spec(),
        template_marks(template),
        assembled(template.parts_spec(), values, brush),
        x,
    );
    lemma_with_named(
        w,
        entity,
        template.entity_name_spec(),
        template_marks(template),
        assembled(template.parts_spec(), values, brush),
        entity,
    );
}

} // verus!
