//! Brushes: their faces, their topology, and the table of those in the scene. Numbers are kept by
//! their bits.
use vstd::prelude::*;
use std::collections::HashMap;
use crate::value::{brush_value, BsnStructData, Entity, StructView};

verus! {

broadcast use vstd::std_specs::hash::group_hash_axioms;

/// A point or a direction, by the bits of its coordinates.
#[derive(Clone, Copy, Debug, PartialEq, Eq, Structural)]
pub struct Vector3 {
    pub x: u32,
    pub y: u32,
    pub z: u32,
}

/// A point on the screen or on a texture, by the bits of its coordinates.
#[derive(Clone, Copy, Debug, PartialEq, Eq, Structural)]
pub struct Vector2 {
    pub x: u32,
    pub y: u32,
}

impl Vector3 {
    pub open spec fn zero_spec() -> Vector3 {
        Vector3 { x: 0, y: 0, z: 0 }
    }

    pub fn zero() -> (r: Vector3)
        ensures
            r == Vector3::zero_spec(),
    {
        Vector3 { x: 0, y: 0, z: 0 }
    }
}

/// A plane: the points whose product with the normal is the distance.
#[derive(Clone, Copy, Debug, PartialEq, Eq, Structural)]
pub struct BrushPlane {
    pub normal: Vector3,
    pub distance: u32,
}

/// The material of a face that has none of its own.
pub const DEFAULT_MATERIAL: u64 = 0;

/// A face of a brush. The material is that of the palette when none is assigned.
#[derive(Clone, Copy, Debug, PartialEq, Eq, Structural)]
pub struct BrushFace {
    pub plane: BrushPlane,
    pub material: u64,
    pub uv_offset: Vector2,
    pub uv_scale: Vector2,
    pub uv_rotation: u32,
    pub uv_u_axis: Vector3,
    pub uv_v_axis: Vector3,
    /// Made by a cut.
    pub is_cap: bool,
}

/// The bits of one, as a coordinate.
pub const ONE_COORDINATE: u32 = 0x3f80_0000;

impl BrushFace {
    pub open spec fn plain_spec() -> BrushFace {
        BrushFace {
            plane: BrushPlane { normal: Vector3::zero_spec(), distance: 0 },
            material: DEFAULT_MATERIAL,
            uv_offset: Vector2 { x: 0, y: 0 },
            uv_scale: Vector2 { x: ONE_COORDINATE, y: ONE_COORDINATE },
            uv_rotation: 0,
            uv_u_axis: Vector3::zero_spec(),
            uv_v_axis: Vector3::zero_spec(),
            is_cap: false,
        }
    }

    /// A face without a plane or a material of its own.
    pub fn plain() -> (r: BrushFace)
        ensures
            r == BrushFace::plain_spec(),
    {
        BrushFace {
            plane: BrushPlane { normal: Vector3::zero(), distance: 0 },
            material: DEFAULT_MATERIAL,
            uv_offset: Vector2 { x: 0, y: 0 },
            uv_scale: Vector2 { x: ONE_COORDINATE, y: ONE_COORDINATE },
            uv_rotation: 0,
            uv_u_axis: Vector3::zero(),
            uv_v_axis: Vector3::zero(),
            is_cap: false,
        }
    }
}

/// A brush: its faces, its corners, and for each polygon of the topology the corners around it.
#[derive(Debug)]
pub struct Brush {
    pub faces: Vec<BrushFace>,
    pub vertices: Vec<Vector3>,
    pub polygons: Vec<Vec<usize>>,
}

/// What a [`Brush`] stands for.
pub ghost struct BrushView {
    pub faces: Seq<BrushFace>,
    pub vertices: Seq<Vector3>,
    pub polygons: Seq<Seq<usize>>,
}

pub open spec fn rings_view(rings: Seq<Vec<usize>>) -> Seq<Seq<usize>> {
    Seq::new(rings.len(), |i: int| rings[i]@)
}

impl View for Brush {
    type V = BrushView;

    open spec fn view(&self) -> BrushView {
        BrushView {
            faces: self.faces@,
            vertices: self.vertices@,
            polygons: rings_view(self.polygons@),
        }
    }
}

/// A copy of a list.
pub fn copy_list<T: Copy>(list: &Vec<T>) -> (r: Vec<T>)
    ensures
        r@ == list@,
{
    let mut out: Vec<T> = Vec::new();
    let mut i: usize = 0;
    while i < list.len()
        invariant
            i <= list.len(),
            out@ == list@.subrange(0, i as int),
        decreases list.len() - i,
    {
        out.push(list[i]);
        i = i + 1;
        assert(out@ =~= list@.subrange(0, i as int));
    }
    assert(out@ =~= list@);
    out
}

/// A copy of a list of rings.
pub fn copy_rings(rings: &Vec<Vec<usize>>) -> (r: Vec<Vec<usize>>)
    ensures
        rings_view(r@) == rings_view(rings@),
{
    let mut out: Vec<Vec<usize>> = Vec::new();
    let mut i: usize = 0;
    while i < rings.len()
        invariant
            i <= rings.len(),
            rings_view(out@) == rings_view(rings@).subrange(0, i as int),
        decreases rings.len() - i,
    {
        let ghost before = rings_view(out@);
        out.push(copy_list(&rings[i]));
        assert(rings_view(out@) =~= before.push(rings@[i as int]@));
        i = i + 1;
        assert(rings_view(out@) =~= rings_view(rings@).subrange(0, i as int));
    }
    assert(rings_view(out@) =~= rings_view(rings@));
    out
}

impl Brush {
    /// A copy of the brush.
    pub fn copy(&self) -> (r: Brush)
        ensures
            r@ == self@,
    {
        Brush {
            faces: copy_list(&self.faces),
            vertices: copy_list(&self.vertices),
            polygons: copy_rings(&self.polygons),
        }
    }
}

/// The type path of the component that is a brush.
pub const BRUSH_TYPE_PATH: &'static str = "jackdaw_scene_types::types::Brush";

/// A brush as a component.
pub open spec fn brush_component(b: BrushView) -> StructView {
    brush_value(BRUSH_TYPE_PATH@, b)
}

impl Brush {
    /// The brush as a component.
    pub fn component(&self) -> (r: BsnStructData)
        ensures
            r@ == brush_component(self@),
    {
        BsnStructData::brush(BRUSH_TYPE_PATH, self)
    }
}

/// What an optional brush stands for.
pub open spec fn brush_of(b: Option<Brush>) -> Option<BrushView> {
    match b {
        Some(b) => Some(b@),
        None => None,
    }
}

/// The faces of a brush with a material put on all of them, if there is one.
pub open spec fn repainted(b: BrushView, last: Option<u64>) -> BrushView {
    match last {
        Some(m) => BrushView {
            faces: Seq::new(b.faces.len(), |i: int| BrushFace { material: m, ..b.faces[i] }),
            ..b
        },
        None => b,
    }
}

/// Puts the material that was used last, if any, on every face of a brush.
pub fn apply_last_material(brush: &mut Brush, last: Option<u64>)
    ensures
        final(brush)@ == repainted(old(brush)@, last),
{
    if let Some(material) = last {
        let n: usize = brush.faces.len();
        let mut i: usize = 0;
        while i < n
            invariant
                i <= n,
                n == old(brush).faces@.len(),
                brush.faces@.len() == n,
                brush.vertices@ == old(brush).vertices@,
                brush.polygons@ == old(brush).polygons@,
                forall|j: int|
                    0 <= j < n ==> (#[trigger] brush.faces@[j]) == (if j < i {
                        (BrushFace { material, ..old(brush).faces@[j] })
                    } else {
                        old(brush).faces@[j]
                    }),
            decreases n - i,
        {
            let face: BrushFace = brush.faces[i];
            brush.faces.set(i, BrushFace { material, ..face });
            i = i + 1;
        }
        assert(brush@.faces =~= repainted(old(brush)@, last).faces);
    }
}

/// The brushes of the scene.
#[derive(Debug)]
pub struct Brushes {
    pub items: HashMap<u64, Brush>,
}

impl View for Brushes {
    type V = Map<Entity, BrushView>;

    open spec fn view(&self) -> Map<Entity, BrushView> {
        self.items@.map_values(|b: Brush| b@)
    }
}

impl Brushes {
    pub fn new() -> (r: Brushes)
        ensures
            r@ == Map::<Entity, BrushView>::empty(),
    {
        let r: Brushes = Brushes { items: HashMap::new() };
        assert(r@ =~= Map::empty());
        r
    }

    /// Whether an entity is a brush.
    pub fn contains(&self, e: Entity) -> (r: bool)
        ensures
            r == self@.contains_key(e),
    {
        self.items.contains_key(&e)
    }

    /// A copy of the brush of an entity.
    pub fn get(&self, e: Entity) -> (r: Option<Brush>)
        ensures
            brush_of(r) == (if self@.contains_key(e) {
                Some(self@[e])
            } else {
                None
            }),
    {
        match self.items.get(&e) {
            Some(b) => Some(b.copy()),
            None => None,
        }
    }

    /// Makes a brush that of an entity.
    pub fn set(&mut self, e: Entity, brush: Brush)
        ensures
            final(self)@ == old(self)@.insert(e, brush@),
    {
        self.items.insert(e, brush);
        assert(self@ =~= old(self)@.insert(e, brush@));
    }

    /// The entities that are brushes, each once, in no particular order.
    pub fn entities(&self) -> (r: Vec<Entity>)
        ensures
            r@.to_set() == self@.dom(),
            r@.no_duplicates(),
    {
        let mut out: Vec<Entity> = Vec::new();
        for e in it: self.items.keys()
            invariant
                out@.len() == it.index(),
                forall|i: int| 0 <= i < out@.len() ==> out@[i] == *it.seq()[i],
        {
            out.push(*e);
        }
        let ghost all = vstd::std_specs::iter::IteratorSpec::remaining(&self.items.keys());
        assert(out@ =~= all.unref());
        out
    }

    /// Takes the brush of an entity out.
    pub fn remove(&mut self, e: Entity)
        ensures
            final(self)@ == old(self)@.remove(e),
    {
        self.items.remove(&e);
        assert(self@ =~= old(self)@.remove(e));
    }
}

} // verus!
