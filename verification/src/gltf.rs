//! Placing models, and deriving what is shown for them.
use vstd::prelude::*;
use crate::asset_path::{gltf_name_for, is_asset_path, is_gltf_name, to_asset_path};
use crate::operators::{OperatorParameters, OperatorResult};
use crate::lifecycle::same_but_selected;
use crate::registration::enrolled;
use crate::templates::{lemma_with_named, nodes_for, spawn_named, spawn_named_in_document, with_named};
use crate::text::{given_text, text_eq};
use crate::value::{
    field_value, lemma_field_index_is, BsnField, BsnStructData, BsnValue, Entity, FieldView,
    StructView, ValueView,
};
use crate::world::{structs_view, Marks, SceneWorld, WorldView};

verus! {

/// Which model an entity shows: a scene of a file, by its asset path.
#[derive(Debug)]
pub struct GltfSource {
    pub path: String,
    pub scene_index: usize,
}

/// The marks of a placed model.
pub open spec fn gltf_marks() -> Marks {
    Marks { gltf_source: true, ..Marks::none_spec() }
}

/// The type path of the component that tells which model an entity shows.
pub const GLTF_SOURCE_TYPE_PATH: &'static str = "jackdaw_scene_types::types::GltfSource";

/// A model source as a component.
pub open spec fn source_component(path: Seq<char>, scene_index: usize) -> StructView {
    StructView {
        type_path: GLTF_SOURCE_TYPE_PATH@,
        fields: seq![
            FieldView { name: "path"@, value: ValueView::Text(path) },
            FieldView { name: "scene_index"@, value: ValueView::Int(scene_index as i128) },
        ],
    }
}

impl GltfSource {
    /// The source as a component.
    pub fn component(&self) -> (r: BsnStructData)
        ensures
            r@ == source_component(self.path@, self.scene_index),
    {
        let mut fields: Vec<BsnField> = Vec::new();
        fields.push(
            BsnField { name: "path".to_owned(), value: BsnValue::String(self.path.clone()) },
        );
        fields.push(
            BsnField {
                name: "scene_index".to_owned(),
                value: BsnValue::Int(self.scene_index as i128),
            },
        );
        let r = BsnStructData { type_path: GLTF_SOURCE_TYPE_PATH.to_owned(), fields };
        assert(r@.fields =~= source_component(self.path@, self.scene_index).fields);
        r
    }
}

/// The components of a placed model.
pub open spec fn gltf_parts(source: GltfSource, transform: StructView) -> Seq<StructView> {
    seq![source_component(source.path@, source.scene_index), transform]
}

fn parts_of_gltf(source: &GltfSource, transform: BsnStructData) -> (r: Vec<BsnStructData>)
    ensures
        structs_view(r@) == gltf_parts(*source, transform@),
{
    let mut r: Vec<BsnStructData> = Vec::new();
    r.push(source.component());
    r.push(transform);
    assert(structs_view(r@) =~= gltf_parts(*source, transform@));
    r
}

/// Whether a scene became another by placing a model, named after its file.
pub open spec fn gltf_placed(
    before: WorldView,
    after: WorldView,
    path: Seq<char>,
    e: Entity,
    parts: Seq<StructView>,
) -> bool {
    exists|name: Seq<char>| #[trigger]
        is_gltf_name(path, name) && after == with_named(before, e, name, gltf_marks(), parts)
}

/// Enters a model into the scene, named after its file and where `transform` puts it, and selects it
/// alone. What the model is loaded from is its asset path: other machines cannot resolve a path of
/// this file system.
pub fn spawn_gltf(
    world: &mut SceneWorld,
    path: &str,
    assets_dir: Option<&str>,
    transform: BsnStructData,
    entity: Entity,
) -> (r: GltfSource)
    ensures
        r.scene_index == 0,
        is_asset_path(path@, given_text(assets_dir), r.path@),
        gltf_placed(
            old(world)@,
            final(world)@,
            path@,
            entity,
            gltf_parts(r, transform@),
        ),
        final(world).document == old(world).document,
{
    let name: String = gltf_name_for(path);
    let source = GltfSource { path: to_asset_path(path, assets_dir), scene_index: 0 };
    let parts: Vec<BsnStructData> = parts_of_gltf(&source, transform);
    spawn_named(
        world,
        entity,
        name.as_str(),
        Marks { gltf_source: true, ..Marks::none() },
        parts,
    );
    assert(is_gltf_name(path@, name@));
    source
}

/// Whether a scene and its document were extended by a model, named after its file.
pub open spec fn gltf_entered(
    before: WorldView,
    after: WorldView,
    path: Seq<char>,
    e: Entity,
    parts: Seq<StructView>,
) -> bool {
    exists|name: Seq<char>| #[trigger]
        is_gltf_name(path, name) && enrolled(
            with_named(before, e, name, gltf_marks(), parts),
            after,
            e,
        )
}

/// Enters a model into the scene and its document.
pub fn spawn_gltf_in_world(
    world: &mut SceneWorld,
    path: &str,
    assets_dir: Option<&str>,
    transform: BsnStructData,
    entity: Entity,
) -> (r: GltfSource)
    requires
        old(world).document.wf(),
        old(world).document.next_node < u64::MAX,
    ensures
        r.scene_index == 0,
        is_asset_path(path@, given_text(assets_dir), r.path@),
        gltf_entered(
            old(world)@,
            final(world)@,
            path@,
            entity,
            gltf_parts(r, transform@),
        ),
        final(world).document.wf(),
        final(world).document.next_node == old(world).document.next_node + nodes_for(
            old(world)@.doc,
            entity,
        ),
{
    let name: String = gltf_name_for(path);
    let source = GltfSource { path: to_asset_path(path, assets_dir), scene_index: 0 };
    let parts: Vec<BsnStructData> = parts_of_gltf(&source, transform);
    spawn_named_in_document(
        world,
        entity,
        name.as_str(),
        Marks { gltf_source: true, ..Marks::none() },
        parts,
    );
    assert(is_gltf_name(path@, name@));
    source
}

/// What is loaded for a source, when that is not loaded already: the asset path and the scene.
/// Loading it again would rebuild the whole model.
pub fn unless_loaded(source: &GltfSource, asset_path: String, loaded: Option<&GltfSource>) -> (r: Option<
    GltfSource,
>)
    ensures
        ({
            let present = loaded matches Some(l) && l.path@ == asset_path@ && l.scene_index
                == source.scene_index;
            &&& present ==> r is None
            &&& !present ==> {
                &&& r matches Some(s)
                &&& s.path == asset_path
                &&& s.scene_index == source.scene_index
            }
        }),
{
    if let Some(l) = loaded {
        if text_eq(l.path.as_str(), asset_path.as_str()) && l.scene_index == source.scene_index {
            return None;
        }
    }
    Some(GltfSource { path: asset_path, scene_index: source.scene_index })
}

/// What is loaded for a source. Its path is made an asset path first: older scenes hold paths of
/// the file system.
pub fn derive_world_asset_root(
    source: &GltfSource,
    assets_dir: Option<&str>,
    loaded: Option<&GltfSource>,
) -> (r: Option<GltfSource>)
    ensures
        r matches Some(s) ==> is_asset_path(source.path@, given_text(assets_dir), s.path@) && s.scene_index
            == source.scene_index && !(loaded matches Some(l) && l.path@ == s.path@ && l.scene_index
            == s.scene_index),
        r is None ==> {
            &&& loaded matches Some(l)
            &&& is_asset_path(source.path@, given_text(assets_dir), l.path@)
            &&& l.scene_index == source.scene_index
        },
{
    unless_loaded(source, to_asset_path(source.path.as_str(), assets_dir), loaded)
}

/// What placing a model needs: the path and the position, by the bits of its coordinates.
#[derive(Debug)]
pub struct GltfPlacement {
    pub path: String,
    pub x: u64,
    pub y: u64,
    pub z: u64,
}

/// Reads the parameters for placing a model. The operator is cancelled when one is missing.
pub fn entity_place_gltf(params: &OperatorParameters) -> (r: (
    OperatorResult,
    Option<GltfPlacement>,
))
    ensures
        ({
            let given = params.value("path"@) is Some && params.value("path"@)->0 is Text
                && params.value("pos_x"@) is Some && params.value("pos_x"@)->0 is Float
                && params.value("pos_y"@) is Some && params.value("pos_y"@)->0 is Float
                && params.value("pos_z"@) is Some && params.value("pos_z"@)->0 is Float;
            &&& !given ==> r.0 == OperatorResult::Cancelled && r.1 is None
            &&& given ==> {
                &&& r.0 == OperatorResult::Finished
                &&& r.1 matches Some(p)
                &&& p.path@ == params.value("path"@)->0->Text_0@
                &&& p.x == params.value("pos_x"@)->0->Float_0
                &&& p.y == params.value("pos_y"@)->0->Float_0
                &&& p.z == params.value("pos_z"@)->0->Float_0
            }
        }),
{
    let path: Option<String> = params.as_str("path");
    let x: Option<u64> = params.as_float("pos_x");
    let y: Option<u64> = params.as_float("pos_y");
    let z: Option<u64> = params.as_float("pos_z");
    match (path, x, y, z) {
        (Some(path), Some(x), Some(y), Some(z)) => (
            OperatorResult::Finished,
            Some(GltfPlacement { path, x, y, z }),
        ),
        _ => (OperatorResult::Cancelled, None),
    }
}

/// A model that was placed is alive, the only one selected, without a parent and marked as a model. It
/// tells which file and which scene of it to show, and is where it was put.
pub proof fn law_placed_model(
    before: WorldView,
    after: WorldView,
    path: Seq<char>,
    e: Entity,
    source: GltfSource,
    transform: StructView,
    x: Entity,
)
    requires
        gltf_placed(before, after, path, e, gltf_parts(source, transform)),
    ensures
        after.alive(e),
        after.selection == seq![e],
        after.entities[e].marks.gltf_source,
        after.entities[e].parent is None,
        after.entities[e].name matches Some(n) && is_gltf_name(path, n),
        after.entities[e].components.contains(transform),
        exists|i: int|
            0 <= i < after.entities[e].components.len() && (
            #[trigger] after.entities[e].components[i]).type_path
                == "jackdaw_scene_types::types::GltfSource"@ && field_value(
                after.entities[e].components[i].fields,
                "path"@,
            ) == Some(ValueView::Text(source.path@)) && field_value(
                after.entities[e].components[i].fields,
                "scene_index"@,
            ) == Some(ValueView::Int(source.scene_index as i128)),
        x != e && before.alive(x) ==> same_but_selected(after.entities[x], before.entities[x]),
        after.doc == before.doc,
{
    let parts = gltf_parts(source, transform);
    let name = choose|name: Seq<char>| #[trigger]
        is_gltf_name(path, name) && after == with_named(before, e, name, gltf_marks(), parts);
    lemma_with_named(before, e, name, gltf_marks(), parts, e);
    lemma_with_named(before, e, name, gltf_marks(), parts, x);
    let c = after.entities[e].components[0];
    assert(c == parts[0]);
    assert(parts[1] == transform);
    reveal_strlit("path");
    reveal_strlit("scene_index");
    assert("path"@.len() == 4);
    assert("scene_index"@.len() == 11);
    lemma_field_index_is(c.fields, "path"@, 0);
    lemma_field_index_is(c.fields, "scene_index"@, 1);
}

} // verus!
