//! The operators on entities: registration, keys, and what the add menu makes.
use vstd::prelude::*;
use crate::history::CommandHistory;
use crate::operators::{
    bind, bindings_resolve, bound, Binding, ExtensionContext, KeyInput, OperatorResult,
};
use crate::registration::enrolled;
use crate::templates::{
    assemble, assembled, nodes_for, spawn_named_in_document, with_named, EntityTemplate, Part,
    PartValue, Placement,
};
use crate::text::text_eq;
use crate::value::{BsnStructData, Entity};
use crate::world::{structs_view, Marks, SceneWorld};

verus! {

/// Marks an entity that is empty on purpose.
#[derive(Clone, Copy, Debug, PartialEq, Eq, Structural)]
pub struct EmptyEntity;

/// Marks a camera that belongs to the scene, rather than to the editor.
#[derive(Clone, Copy, Debug, PartialEq, Eq, Structural)]
pub struct SceneCamera;

/// Marks a light that belongs to the scene, rather than to the editor.
#[derive(Clone, Copy, Debug, PartialEq, Eq, Structural)]
pub struct SceneLight;

/// Marks a volume of fog.
#[derive(Clone, Copy, Debug, PartialEq, Eq, Structural)]
pub struct SceneFogVolume;

/// Marks a reflection probe.
#[derive(Clone, Copy, Debug, PartialEq, Eq, Structural)]
pub struct SceneReflectionProbe;

/// Marks an animation player.
#[derive(Clone, Copy, Debug, PartialEq, Eq, Structural)]
pub struct SceneAnimationPlayer;

/// Marks a source of sound.
#[derive(Clone, Copy, Debug, PartialEq, Eq, Structural)]
pub struct SceneAudioSource;

/// The operators on entities, and the first of the add menu.
pub open spec fn first_entity_operators() -> Seq<&'static str> {
    seq![
        "EntityDeleteOp",
        "EntityDuplicateOp",
        "EntityPlaceGltfOp",
        "EntityCopyComponentsOp",
        "EntityPasteComponentsOp",
        "EntityToggleVisibilityOp",
        "EntityHideUnselectedOp",
        "EntityUnhideAllOp",
        "EntityAddCubeOp",
        "EntityAddSphereOp",
        "EntityAddPointLightOp",
        "EntityAddDirectionalLightOp",
        "EntityAddSpotLightOp",
        "EntityAddCameraOp",
    ]
}

/// The rest of the add menu.
pub open spec fn more_entity_operators() -> Seq<&'static str> {
    seq![
        "EntityAddEmptyOp",
        "EntityAddImageOp",
        "EntityAddTerrainOp",
        "EntityAddPrefabOp",
        "EntityAddPlaneOp",
        "EntityAddCylinderOp",
        "EntityAddWedgeOp",
        "EntityAddConeOp",
        "EntityAddPyramidOp",
        "EntityAddAnimationPlayerOp",
        "EntityAddAudioSourceOp",
        "EntityAddFogVolumeOp",
        "EntityAddReflectionProbeOp",
    ]
}

/// What the add menu offers for games over a network.
pub open spec fn multiplayer_operators() -> Seq<&'static str> {
    seq!["EntityAddSpawnPointOp", "EntityAddZoneTransitionOp", "EntityAddNetworkRoomOp"]
}

/// The operators on entities, with those of optional parts of the editor.
pub open spec fn entity_operators(camera_rig: bool, multiplayer: bool) -> Seq<&'static str> {
    first_entity_operators() + (if camera_rig {
        seq!["EntityAddCameraRigOp"]
    } else {
        Seq::empty()
    }) + more_entity_operators() + (if multiplayer {
        multiplayer_operators()
    } else {
        Seq::empty()
    })
}

/// The keys of the operators on entities.
pub open spec fn entity_bindings() -> Seq<Binding> {
    seq![
        bound("EntityDeleteOp", KeyInput::key_spec("Delete")),
        bound("EntityDuplicateOp", KeyInput::key_spec("KeyD").ctrl_spec()),
        bound("EntityCopyComponentsOp", KeyInput::key_spec("KeyC").ctrl_spec()),
        bound("EntityPasteComponentsOp", KeyInput::key_spec("KeyV").ctrl_spec()),
        bound("EntityToggleVisibilityOp", KeyInput::key_spec("KeyH")),
        bound("EntityUnhideAllOp", KeyInput::key_spec("KeyH").ctrl_spec()),
        bound("EntityHideUnselectedOp", KeyInput::key_spec("KeyH").alt_spec()),
    ]
}

/// Registers the operators on entities and binds their keys.
pub fn add_to_extension(ctx: &mut ExtensionContext, camera_rig: bool, multiplayer: bool)
    ensures
        final(ctx).operators@ == old(ctx).operators@ + entity_operators(camera_rig, multiplayer),
        final(ctx).bindings@ == old(ctx).bindings@ + entity_bindings(),
        final(ctx).features@ == old(ctx).features@,
{
    let ghost start = ctx.operators@;
    let first: Vec<&'static str> = vec![
        "EntityDeleteOp",
        "EntityDuplicateOp",
        "EntityPlaceGltfOp",
        "EntityCopyComponentsOp",
        "EntityPasteComponentsOp",
        "EntityToggleVisibilityOp",
        "EntityHideUnselectedOp",
        "EntityUnhideAllOp",
        "EntityAddCubeOp",
        "EntityAddSphereOp",
        "EntityAddPointLightOp",
        "EntityAddDirectionalLightOp",
        "EntityAddSpotLightOp",
        "EntityAddCameraOp",
    ];
    assert(first@ =~= first_entity_operators());
    ctx.register_operators(&first);
    if camera_rig {
        let rig: Vec<&'static str> = vec!["EntityAddCameraRigOp"];
        assert(rig@ =~= seq!["EntityAddCameraRigOp"]);
        ctx.register_operators(&rig);
    }
    let more: Vec<&'static str> = vec![
        "EntityAddEmptyOp",
        "EntityAddImageOp",
        "EntityAddTerrainOp",
        "EntityAddPrefabOp",
        "EntityAddPlaneOp",
        "EntityAddCylinderOp",
        "EntityAddWedgeOp",
        "EntityAddConeOp",
        "EntityAddPyramidOp",
        "EntityAddAnimationPlayerOp",
        "EntityAddAudioSourceOp",
        "EntityAddFogVolumeOp",
        "EntityAddReflectionProbeOp",
    ];
    assert(more@ =~= more_entity_operators());
    ctx.register_operators(&more);
    if multiplayer {
        let network: Vec<&'static str> = vec![
            "EntityAddSpawnPointOp",
            "EntityAddZoneTransitionOp",
            "EntityAddNetworkRoomOp",
        ];
        assert(network@ =~= multiplayer_operators());
        ctx.register_operators(&network);
    }
    assert(ctx.operators@ =~= start + entity_operators(camera_rig, multiplayer));
    bind_entity_keys(ctx);
}

fn bind_entity_keys(ctx: &mut ExtensionContext)
    ensures
        final(ctx).operators@ == old(ctx).operators@,
        final(ctx).bindings@ == old(ctx).bindings@ + entity_bindings(),
        final(ctx).features@ == old(ctx).features@,
{
    let bindings: Vec<Binding> = vec![
        bind("EntityDeleteOp", KeyInput::key("Delete")),
        bind("EntityDuplicateOp", KeyInput::key("KeyD").ctrl()),
        bind("EntityCopyComponentsOp", KeyInput::key("KeyC").ctrl()),
        bind("EntityPasteComponentsOp", KeyInput::key("KeyV").ctrl()),
        bind("EntityToggleVisibilityOp", KeyInput::key("KeyH")),
        bind("EntityUnhideAllOp", KeyInput::key("KeyH").ctrl()),
        bind("EntityHideUnselectedOp", KeyInput::key("KeyH").alt()),
    ];
    assert(bindings@ =~= entity_bindings());
    ctx.bind_operators(&bindings);
}

/// Every key for entities runs an operator that is registered, whichever optional parts the editor
/// has.
pub proof fn law_entity_bindings_resolve(camera_rig: bool, multiplayer: bool)
    ensures
        bindings_resolve(entity_operators(camera_rig, multiplayer), entity_bindings()),
{
    let ops = entity_operators(camera_rig, multiplayer);
    let bs = entity_bindings();
    assert forall|i: int| 0 <= i < bs.len() implies ops.contains((#[trigger] bs[i]).operator) by {
        let at = seq![0int, 1, 3, 4, 5, 7, 6];
        assert(ops[at[i]] == first_entity_operators()[at[i]]);
        assert(ops[at[i]] == bs[i].operator);
    }
}

/// The template that an operator of the add menu makes, by the operator's id.
pub open spec fn template_of(id: Seq<char>) -> Option<EntityTemplate> {
    if id == "entity.add.cube"@ {
        Some(EntityTemplate::Cube)
    } else if id == "entity.add.sphere"@ {
        Some(EntityTemplate::Sphere)
    } else if id == "entity.add.point_light"@ {
        Some(EntityTemplate::PointLight)
    } else if id == "entity.add.directional_light"@ {
        Some(EntityTemplate::DirectionalLight)
    } else if id == "entity.add.spot_light"@ {
        Some(EntityTemplate::SpotLight)
    } else if id == "entity.add.camera"@ {
        Some(EntityTemplate::Camera3d)
    } else if id == "entity.add.camera_rig"@ {
        Some(EntityTemplate::CameraRig)
    } else if id == "entity.add.empty"@ {
        Some(EntityTemplate::Empty)
    } else if id == "entity.add.plane"@ {
        Some(EntityTemplate::Plane)
    } else if id == "entity.add.cylinder"@ {
        Some(EntityTemplate::Cylinder)
    } else if id == "entity.add.wedge"@ {
        Some(EntityTemplate::Wedge)
    } else if id == "entity.add.cone"@ {
        Some(EntityTemplate::Cone)
    } else if id == "entity.add.pyramid"@ {
        Some(EntityTemplate::Pyramid)
    } else if id == "entity.add.animation_player"@ {
        Some(EntityTemplate::AnimationPlayer)
    } else if id == "entity.add.audio_source"@ {
        Some(EntityTemplate::AudioSource)
    } else if id == "entity.add.fog_volume"@ {
        Some(EntityTemplate::FogVolume)
    } else {
        None
    }
}

/// The template that an operator of the add menu makes, by the operator's id.
pub fn template_for(id: &str) -> (r: Option<EntityTemplate>)
    ensures
        r == template_of(id@),
{
    if text_eq(id, "entity.add.cube") {
        Some(EntityTemplate::Cube)
    } else if text_eq(id, "entity.add.sphere") {
        Some(EntityTemplate::Sphere)
    } else if text_eq(id, "entity.add.point_light") {
        Some(EntityTemplate::PointLight)
    } else if text_eq(id, "entity.add.directional_light") {
        Some(EntityTemplate::DirectionalLight)
    } else if text_eq(id, "entity.add.spot_light") {
        Some(EntityTemplate::SpotLight)
    } else if text_eq(id, "entity.add.camera") {
        Some(EntityTemplate::Camera3d)
    } else if text_eq(id, "entity.add.camera_rig") {
        Some(EntityTemplate::CameraRig)
    } else if text_eq(id, "entity.add.empty") {
        Some(EntityTemplate::Empty)
    } else if text_eq(id, "entity.add.plane") {
        Some(EntityTemplate::Plane)
    } else if text_eq(id, "entity.add.cylinder") {
        Some(EntityTemplate::Cylinder)
    } else if text_eq(id, "entity.add.wedge") {
        Some(EntityTemplate::Wedge)
    } else if text_eq(id, "entity.add.cone") {
        Some(EntityTemplate::Cone)
    } else if text_eq(id, "entity.add.pyramid") {
        Some(EntityTemplate::Pyramid)
    } else if text_eq(id, "entity.add.animation_player") {
        Some(EntityTemplate::AnimationPlayer)
    } else if text_eq(id, "entity.add.audio_source") {
        Some(EntityTemplate::AudioSource)
    } else if text_eq(id, "entity.add.fog_volume") {
        Some(EntityTemplate::FogVolume)
    } else {
        None
    }
}

/// What the add menu makes besides the templates.
#[derive(Clone, Copy, Debug, PartialEq, Eq, Structural)]
pub enum SpecialEntity {
    ReflectionProbe,
    SpawnPoint,
    ZoneTransition,
    NetworkRoom,
}

impl SpecialEntity {
    pub open spec fn name_spec(self) -> Seq<char> {
        match self {
            SpecialEntity::ReflectionProbe => "Reflection Probe"@,
            SpecialEntity::SpawnPoint => "Spawn Point"@,
            SpecialEntity::ZoneTransition => "Zone Transition"@,
            SpecialEntity::NetworkRoom => "Network Room"@,
        }
    }

    /// The name of the new entity.
    pub fn name(self) -> (r: &'static str)
        ensures
            r@ == self.name_spec(),
    {
        match self {
            SpecialEntity::ReflectionProbe => "Reflection Probe",
            SpecialEntity::SpawnPoint => "Spawn Point",
            SpecialEntity::ZoneTransition => "Zone Transition",
            SpecialEntity::NetworkRoom => "Network Room",
        }
    }

    /// What the new entity is made of, besides the name.
    pub open spec fn parts_spec(self) -> Seq<Part> {
        let placed = Part::Transform(Placement::Origin);
        match self {
            SpecialEntity::ReflectionProbe => seq![
                Part::LightProbe,
                Part::EnvironmentMapLight,
                Part::SceneReflectionProbe,
                Part::Transform(Placement::Doubled),
                Part::Visibility,
            ],
            SpecialEntity::SpawnPoint => seq![Part::SpawnPoint, placed, Part::Visibility],
            SpecialEntity::ZoneTransition => seq![Part::ZoneTransition, placed, Part::Visibility],
            SpecialEntity::NetworkRoom => seq![Part::NetworkRoom, placed, Part::Visibility],
        }
    }

    /// What the new entity is made of, besides the name.
    pub fn parts(self) -> (r: Vec<Part>)
        ensures
            r@ == self.parts_spec(),
    {
        let placed: Part = Part::Transform(Placement::Origin);
        let r: Vec<Part> = match self {
            SpecialEntity::ReflectionProbe => vec![
                Part::LightProbe,
                Part::EnvironmentMapLight,
                Part::SceneReflectionProbe,
                Part::Transform(Placement::Doubled),
                Part::Visibility,
            ],
            SpecialEntity::SpawnPoint => vec![Part::SpawnPoint, placed, Part::Visibility],
            SpecialEntity::ZoneTransition => vec![Part::ZoneTransition, placed, Part::Visibility],
            SpecialEntity::NetworkRoom => vec![Part::NetworkRoom, placed, Part::Visibility],
        };
        assert(r@ =~= self.parts_spec());
        r
    }
}

/// Adds a special entity to the scene and its document, selects it alone, and records the step.
/// `values` are those of its parts.
pub fn add_special(
    world: &mut SceneWorld,
    history: &mut CommandHistory,
    kind: SpecialEntity,
    entity: Entity,
    values: &Vec<PartValue>,
)
    requires
        old(world).document.wf(),
        old(world).document.next_node < u64::MAX,
    ensures
        old(history).spawn_recorded(*final(history), entity, "Add "@ + kind.name_spec()),
        enrolled(
            with_named(
                old(world)@,
                entity,
                kind.name_spec(),
                Marks::none_spec(),
                assembled(kind.parts_spec(), values@, None),
            ),
            final(world)@,
            entity,
        ),
        final(world).document.wf(),
        final(world).document.next_node == old(world).document.next_node + nodes_for(
            old(world)@.doc,
            entity,
        ),
{
    let components: Vec<BsnStructData> = assemble(&kind.parts(), values, None);
    spawn_named_in_document(world, entity, kind.name(), Marks::none(), components);
    history.record_spawn(entity, "Add ".to_owned().concat(kind.name()));
}

/// What an operator of the add menu leaves to the editor.
#[derive(Clone, Copy, Debug, PartialEq, Eq, Structural)]
pub enum MenuRequest {
    /// Ask for an image to trace.
    OpenReferenceImagePicker,
    /// Tell that prefabs are dragged in from the asset browser.
    ExplainPrefabs,
}

/// Adds a reference image: the picker is opened, and does the rest.
pub fn entity_add_image() -> (r: (OperatorResult, MenuRequest))
    ensures
        r == (OperatorResult::Finished, MenuRequest::OpenReferenceImagePicker),
{
    (OperatorResult::Finished, MenuRequest::OpenReferenceImagePicker)
}

/// Adds a prefab: nothing is added, the user is told how to.
pub fn entity_add_prefab() -> (r: (OperatorResult, MenuRequest))
    ensures
        r == (OperatorResult::Finished, MenuRequest::ExplainPrefabs),
{
    (OperatorResult::Finished, MenuRequest::ExplainPrefabs)
}

/// A bar of tabs, one of which is shown.
#[derive(Debug)]
pub struct TabBar {
    pub windows: Vec<String>,
    pub active: usize,
}

/// The panel that terrain settings live in.
pub const TERRAIN_PANEL: &'static str = "jackdaw.inspector.terrain";

impl TabBar {
    /// The windows in order.
    pub open spec fn names(self) -> Seq<Seq<char>> {
        crate::world::texts_view(self.windows@)
    }

    /// Whether a bar became another by showing a window: it is the shown one, and was added at the
    /// end when it was not there.
    pub open spec fn opened(self, after: TabBar, window: Seq<char>) -> bool {
        &&& after.active < after.windows@.len()
        &&& after.names()[after.active as int] == window
        &&& after.names() == (if self.names().contains(window) {
            self.names()
        } else {
            self.names().push(window)
        })
    }

    /// Shows a window, and adds it at the end when it is not there.
    pub fn open_window(&mut self, window: &str)
        requires
            old(self).windows@.len() < usize::MAX,
        ensures
            old(self).opened(*final(self), window@),
    {
        let mut i: usize = 0;
        while i < self.windows.len()
            invariant
                i <= self.windows.len(),
                *self == *old(self),
                forall|j: int| 0 <= j < i ==> (#[trigger] self.names()[j]) != window@,
            decreases self.windows.len() - i,
        {
            if text_eq(self.windows[i].as_str(), window) {
                assert(self.names()[i as int] == window@);
                self.active = i;
                return ;
            }
            i = i + 1;
        }
        let ghost before = self.names();
        assert(!before.contains(window@));
        self.windows.push(window.to_owned());
        self.active = i;
        assert(self.names() =~= before.push(window@));
    }
}

/// Adds a terrain, with the name and the components that the engine gave it, to the scene and its
/// document, and records the step. The first terrain brings the terrain panel to the front, later ones leave the
/// shown tab alone. `terrains` lists those that were there.
pub fn entity_add_terrain(
    world: &mut SceneWorld,
    history: &mut CommandHistory,
    terrains: &Vec<Entity>,
    name: &str,
    components: Vec<BsnStructData>,
    entity: Entity,
    tabs: &mut TabBar,
) -> (r: OperatorResult)
    requires
        old(world).document.wf(),
        old(world).document.next_node < u64::MAX,
        old(tabs).windows@.len() < usize::MAX,
    ensures
        r == OperatorResult::Finished,
        old(history).spawn_recorded(*final(history), entity, "Add Terrain"@),
        enrolled(
            with_named(
                old(world)@,
                entity,
                name@,
                (Marks { terrain: true, ..Marks::none_spec() }),
                structs_view(components@),
            ),
            final(world)@,
            entity,
        ),
        final(world).document.wf(),
        final(world).document.next_node == old(world).document.next_node + nodes_for(
            old(world)@.doc,
            entity,
        ),
        terrains@.len() > 0 ==> *final(tabs) == *old(tabs),
        terrains@.len() == 0 ==> old(tabs).opened(*final(tabs), "jackdaw.inspector.terrain"@),
{
    spawn_named_in_document(
        world,
        entity,
        name,
        Marks { terrain: true, ..Marks::none() },
        components,
    );
    if terrains.len() == 0 {
        tabs.open_window(TERRAIN_PANEL);
    }
    history.record_spawn(entity, "Add Terrain".to_owned());
    OperatorResult::Finished
}

/// Every special entity can be seen and is placed at the origin, but for a reflection probe, which is
/// twice as large; and each has the one component that makes it what it is.
pub proof fn law_special_entities(kind: SpecialEntity)
    ensures
        ({
            let parts = kind.parts_spec();
            &&& parts.last() == Part::Visibility
            &&& kind == SpecialEntity::ReflectionProbe <==> parts.contains(
                Part::Transform(Placement::Doubled),
            )
            &&& kind != SpecialEntity::ReflectionProbe <==> parts.contains(
                Part::Transform(Placement::Origin),
            )
            &&& kind == SpecialEntity::ReflectionProbe <==> parts.contains(Part::LightProbe)
            &&& kind == SpecialEntity::ReflectionProbe <==> parts.contains(
                Part::EnvironmentMapLight,
            )
            &&& kind == SpecialEntity::ReflectionProbe <==> parts.contains(
                Part::SceneReflectionProbe,
            )
            &&& kind == SpecialEntity::SpawnPoint <==> parts.contains(Part::SpawnPoint)
            &&& kind == SpecialEntity::ZoneTransition <==> parts.contains(Part::ZoneTransition)
            &&& kind == SpecialEntity::NetworkRoom <==> parts.contains(Part::NetworkRoom)
        }),
{
    let parts = kind.parts_spec();
    assert(parts.contains(parts[0]));
    assert(parts.contains(parts[1]));
    if kind == SpecialEntity::ReflectionProbe {
        assert(parts.contains(parts[2]));
        assert(parts.contains(parts[3]));
    }
}

} // verus!
