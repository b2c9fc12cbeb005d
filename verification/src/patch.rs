//! The patches of a document node: its name and its components.

use vstd::prelude::*;
use crate::seqs::{first_index, lemma_first_index, lemma_first_index_is};
use crate::text::{text_eq, text_of};
use crate::value::{
    drop_field, get_field, put_field, BsnField, BsnStructData, BsnValue, StructView, ValueView,
};

verus! {



/// A tuple-struct value: its type and its values in order.
#[derive(Debug)]
pub struct BsnTupleStructData {
    pub type_path: String,
    pub values: Vec<BsnValue>,
}

/// One patch of a document node: the name of the node, or a component.
#[derive(Debug)]
pub enum BsnPatch {
    Name(String),
    /// A component with every field at its default.
    Type(String),
    Struct(BsnStructData),
    TupleStruct(BsnTupleStructData),
}

/// What a [`BsnPatch`] stands for.
pub ghost enum PatchView {
    Name(Seq<char>),
    Type(Seq<char>),
    Struct(StructView),
    Tuple { type_path: Seq<char>, values: Seq<ValueView> },
}

pub open spec fn values_view(values: Seq<BsnValue>) -> Seq<ValueView> {
    Seq::new(values.len(), |i: int| values[i]@)
}

impl View for BsnPatch {
    type V = PatchView;

    open spec fn view(&self) -> PatchView {
        match *self {
            BsnPatch::Name(name) => PatchView::Name(name@),
            BsnPatch::Type(type_path) => PatchView::Type(type_path@),
            BsnPatch::Struct(data) => PatchView::Struct(data@),
            BsnPatch::TupleStruct(data) => PatchView::Tuple {
                type_path: data.type_path@,
                values: values_view(data.values@),
            },
        }
    }
}

pub open spec fn patches_view(patches: Seq<BsnPatch>) -> Seq<PatchView> {
    Seq::new(patches.len(), |i: int| patches[i]@)
}

/// The component type that a patch is for; the name patch is for none.
pub open spec fn patch_type_path(patch: PatchView) -> Option<Seq<char>> {
    match patch {
        PatchView::Name(_) => None,
        PatchView::Type(type_path) => Some(type_path),
        PatchView::Struct(data) => Some(data.type_path),
        PatchView::Tuple { type_path, values } => Some(type_path),
    }
}

/// The test for being the patch of a component type.
pub open spec fn of_type(type_path: Seq<char>) -> spec_fn(PatchView) -> bool {
    |patch: PatchView| patch_type_path(patch) == Some(type_path)
}

/// The test for being a name patch.
pub open spec fn is_name() -> spec_fn(PatchView) -> bool {
    |patch: PatchView| patch is Name
}

/// The position of the first patch of a component type, or the number of patches.
pub open spec fn patch_index(patches: Seq<PatchView>, type_path: Seq<char>) -> int {
    first_index(patches, of_type(type_path))
}

/// Whether the patches hold one of a component type.
pub open spec fn has_patch(patches: Seq<PatchView>, type_path: Seq<char>) -> bool {
    patch_index(patches, type_path) < patches.len()
}

/// The name that the first name patch gives.
pub open spec fn name_in(patches: Seq<PatchView>) -> Option<Seq<char>> {
    let i = first_index(patches, is_name());
    if i < patches.len() {
        Some(patches[i]->Name_0)
    } else {
        None
    }
}

/// The patches with the name set, replaced or removed: an existing name patch is replaced where it
/// stands, a new one goes first, and removing takes the first one out.
pub open spec fn with_name(patches: Seq<PatchView>, name: Option<Seq<char>>) -> Seq<PatchView> {
    let i = first_index(patches, is_name());
    match name {
        Some(name) => if i < patches.len() {
            patches.update(i, PatchView::Name(name))
        } else {
            patches.insert(0, PatchView::Name(name))
        },
        None => if i < patches.len() {
            patches.remove(i)
        } else {
            patches
        },
    }
}

/// The patches without the first one of a component type.
pub open spec fn without_patch(patches: Seq<PatchView>, type_path: Seq<char>) -> Seq<PatchView> {
    let i = patch_index(patches, type_path);
    if i < patches.len() {
        patches.remove(i)
    } else {
        patches
    }
}

/// The patches with a component's patch put in: in the place of the one it has, else at the end.
pub open spec fn with_patch(
    patches: Seq<PatchView>,
    type_path: Seq<char>,
    patch: PatchView,
) -> Seq<PatchView> {
    let i = patch_index(patches, type_path);
    if i < patches.len() {
        patches.update(i, patch)
    } else {
        patches.push(patch)
    }
}

/// A struct patch that writes out no field.
pub open spec fn empty_struct(type_path: Seq<char>) -> PatchView {
    PatchView::Struct(StructView { type_path, fields: Seq::empty() })
}

/// One patch after a field edit. A patch that only names a type becomes a struct first. The edit
/// of the whole component takes a struct value over; the edit of a field sets it on a struct and
/// leaves other patches alone.
pub open spec fn edited_patch(
    patch: PatchView,
    whole: bool,
    name: Seq<char>,
    value: ValueView,
) -> PatchView {
    let patch = match patch {
        PatchView::Type(type_path) => empty_struct(type_path),
        other => other,
    };
    if whole {
        match value {
            ValueView::Struct(data) => PatchView::Struct(data),
            _ => patch,
        }
    } else {
        match patch {
            PatchView::Struct(data) => PatchView::Struct(
                StructView {
                    type_path: data.type_path,
                    fields: crate::value::with_field(data.fields, name, value),
                },
            ),
            other => other,
        }
    }
}

/// The patches after a field edit of one component. A component without a patch gets one.
pub open spec fn with_edit(
    patches: Seq<PatchView>,
    type_path: Seq<char>,
    whole: bool,
    name: Seq<char>,
    value: ValueView,
) -> Seq<PatchView> {
    let i = patch_index(patches, type_path);
    if i < patches.len() {
        patches.update(i, edited_patch(patches[i], whole, name, value))
    } else {
        patches.push(edited_patch(empty_struct(type_path), whole, name, value))
    }
}

/// The authored value of a component's field; of the whole component when the path is empty.
pub open spec fn authored_value(
    patches: Seq<PatchView>,
    type_path: Seq<char>,
    field_path: Seq<char>,
) -> Option<ValueView> {
    let i = patch_index(patches, type_path);
    if i < patches.len() {
        match patches[i] {
            PatchView::Struct(data) => if field_path.len() == 0 {
                Some(ValueView::Struct(data))
            } else {
                crate::value::field_value(data.fields, field_path)
            },
            _ => None,
        }
    } else {
        None
    }
}

/// The patches without one field of a component.
pub open spec fn without_edit(
    patches: Seq<PatchView>,
    type_path: Seq<char>,
    field_path: Seq<char>,
) -> Seq<PatchView> {
    let i = patch_index(patches, type_path);
    if i < patches.len() {
        match patches[i] {
            PatchView::Struct(data) => patches.update(
                i,
                PatchView::Struct(
                    StructView {
                        type_path: data.type_path,
                        fields: crate::value::without_field(data.fields, field_path),
                    },
                ),
            ),
            _ => patches,
        }
    } else {
        patches
    }
}

/// The component types that the patches are for, in order.
pub open spec fn type_paths_in(patches: Seq<PatchView>) -> Seq<Seq<char>>
    decreases patches.len(),
{
    if patches.len() == 0 {
        Seq::empty()
    } else {
        let rest = type_paths_in(patches.drop_last());
        match patch_type_path(patches.last()) {
            Some(type_path) => rest.push(type_path),
            None => rest,
        }
    }
}

impl BsnPatch {
    /// A copy that stands for the same patch.
    pub fn copy(&self) -> (r: BsnPatch)
        ensures
            r@ == self@,
    {
        match self {
            BsnPatch::Name(name) => BsnPatch::Name(name.clone()),
            BsnPatch::Type(type_path) => BsnPatch::Type(type_path.clone()),
            BsnPatch::Struct(data) => BsnPatch::Struct(data.copy()),
            BsnPatch::TupleStruct(data) => {
                let mut values: Vec<BsnValue> = Vec::new();
                let mut i: usize = 0;
                while i < data.values.len()
                    invariant
                        i <= data.values.len(),
                        values.len() == i,
                        forall|j: int| 0 <= j < i ==> (#[trigger] values[j])@ == data.values[j]@,
                    decreases data.values.len() - i,
                {
                    values.push(data.values[i].copy());
                    i = i + 1;
                }
                assert(values_view(values@) =~= values_view(data.values@));
                BsnPatch::TupleStruct(
                    BsnTupleStructData { type_path: data.type_path.clone(), values },
                )
            },
        }
    }

    /// The component type that this patch is for.
    pub fn type_path(&self) -> (r: Option<String>)
        ensures
            match r {
                Some(t) => patch_type_path(self@) == Some(t@),
                None => patch_type_path(self@) is None,
            },
    {
        match self {
            BsnPatch::Name(_) => None,
            BsnPatch::Type(type_path) => Some(type_path.clone()),
            BsnPatch::Struct(data) => Some(data.type_path.clone()),
            BsnPatch::TupleStruct(data) => Some(data.type_path.clone()),
        }
    }
}

/// The position of the first patch of a component type.
pub fn find_patch(patches: &Vec<BsnPatch>, type_path: &str) -> (r: Option<usize>)
    ensures
        match r {
            Some(i) => i < patches.len() && i == patch_index(patches_view(patches@), type_path@),
            None => patch_index(patches_view(patches@), type_path@) == patches.len(),
        },
{
    let ghost view = patches_view(patches@);
    let ghost p = of_type(type_path@);
    let mut i: usize = 0;
    while i < patches.len()
        invariant
            i <= patches.len(),
            view == patches_view(patches@),
            p == of_type(type_path@),
            forall|j: int| 0 <= j < i ==> !p(#[trigger] view[j]),
        decreases patches.len() - i,
    {
        let matched: bool = match patches[i].type_path() {
            Some(t) => text_eq(t.as_str(), type_path),
            None => false,
        };
        assert(matched == p(view[i as int]));
        if matched {
            proof {
                lemma_first_index_is(view, p, i as int);
            }
            return Some(i);
        }
        i = i + 1;
    }
    proof {
        lemma_first_index_is(view, p, i as int);
    }
    None
}

/// The position of the first name patch.
pub fn find_name(patches: &Vec<BsnPatch>) -> (r: Option<usize>)
    ensures
        match r {
            Some(i) => i < patches.len() && i == first_index(patches_view(patches@), is_name()),
            None => first_index(patches_view(patches@), is_name()) == patches.len(),
        },
{
    let ghost view = patches_view(patches@);
    let ghost p = is_name();
    let mut i: usize = 0;
    while i < patches.len()
        invariant
            i <= patches.len(),
            view == patches_view(patches@),
            p == is_name(),
            forall|j: int| 0 <= j < i ==> !p(#[trigger] view[j]),
        decreases patches.len() - i,
    {
        let matched: bool = match &patches[i] {
            BsnPatch::Name(_) => true,
            _ => false,
        };
        assert(matched == p(view[i as int]));
        if matched {
            proof {
                lemma_first_index_is(view, p, i as int);
            }
            return Some(i);
        }
        i = i + 1;
    }
    proof {
        lemma_first_index_is(view, p, i as int);
    }
    None
}

/// The name that the patches give.
pub fn read_name(patches: &Vec<BsnPatch>) -> (r: Option<String>)
    ensures
        match r {
            Some(name) => name_in(patches_view(patches@)) == Some(name@),
            None => name_in(patches_view(patches@)) is None,
        },
{
    match find_name(patches) {
        Some(i) => {
            proof {
                lemma_first_index(patches_view(patches@), is_name());
            }
            match &patches[i] {
                BsnPatch::Name(name) => Some(name.clone()),
                _ => None,
            }
        },
        None => None,
    }
}

/// Sets, replaces or removes the name patch.
pub fn write_name(patches: &mut Vec<BsnPatch>, name: Option<String>)
    ensures
        patches_view(final(patches)@) == with_name(
            patches_view(old(patches)@),
            text_of(name),
        ),
{
    match (name, find_name(patches)) {
        (Some(name), Some(i)) => {
            patches.set(i, BsnPatch::Name(name));
        },
        (Some(name), None) => {
            patches.insert(0, BsnPatch::Name(name));
        },
        (None, Some(i)) => {
            patches.remove(i);
        },
        (None, None) => {},
    }
    assert(patches_view(patches@) =~= with_name(
        patches_view(old(patches)@),
        text_of(name),
    ));
}

/// Takes the first patch of a component type out.
pub fn remove_patch(patches: &mut Vec<BsnPatch>, type_path: &str)
    ensures
        patches_view(final(patches)@) == without_patch(patches_view(old(patches)@), type_path@),
{
    match find_patch(patches, type_path) {
        Some(i) => {
            patches.remove(i);
        },
        None => {},
    }
    assert(patches_view(patches@) =~= without_patch(patches_view(old(patches)@), type_path@));
}

/// Puts a component's patch in, in the place of the one it has or at the end.
pub fn put_patch(patches: &mut Vec<BsnPatch>, type_path: &str, patch: BsnPatch)
    ensures
        patches_view(final(patches)@) == with_patch(
            patches_view(old(patches)@),
            type_path@,
            patch@,
        ),
{
    match find_patch(patches, type_path) {
        Some(i) => {
            patches.set(i, patch);
        },
        None => {
            patches.push(patch);
        },
    }
    assert(patches_view(patches@) =~= with_patch(
        patches_view(old(patches)@),
        type_path@,
        patch@,
    ));
}

/// One patch after a field edit.
fn edit_one(patch: BsnPatch, whole: bool, name: &str, value: BsnValue) -> (r: BsnPatch)
    ensures
        r@ == edited_patch(patch@, whole, name@, value@),
{
    let patch: BsnPatch = match patch {
        BsnPatch::Type(type_path) => BsnPatch::Struct(BsnStructData::empty(type_path.as_str())),
        other => other,
    };
    if whole {
        return match value {
            BsnValue::Struct(data) => BsnPatch::Struct(data),
            _ => patch,
        };
    }
    match patch {
        BsnPatch::Struct(data) => {
            let mut fields: Vec<BsnField> = data.fields;
            put_field(&mut fields, name, value);
            BsnPatch::Struct(BsnStructData { type_path: data.type_path, fields })
        },
        other => other,
    }
}

/// Edits one field of a component, or the whole component. A component without a patch gets one.
pub fn write_edit(
    patches: &mut Vec<BsnPatch>,
    type_path: &str,
    whole: bool,
    name: &str,
    value: BsnValue,
)
    ensures
        patches_view(final(patches)@) == with_edit(
            patches_view(old(patches)@),
            type_path@,
            whole,
            name@,
            value@,
        ),
{
    match find_patch(patches, type_path) {
        Some(i) => {
            let patch: BsnPatch = patches.remove(i);
            patches.insert(i, edit_one(patch, whole, name, value));
        },
        None => {
            let fresh: BsnPatch = BsnPatch::Struct(BsnStructData::empty(type_path));
            patches.push(edit_one(fresh, whole, name, value));
        },
    }
    assert(patches_view(patches@) =~= with_edit(
        patches_view(old(patches)@),
        type_path@,
        whole,
        name@,
        value@,
    ));
}

/// The authored value of a component's field; of the whole component when the path is empty.
pub fn read_edit(patches: &Vec<BsnPatch>, type_path: &str, field_path: &str) -> (r: Option<
    BsnValue,
>)
    ensures
        match r {
            Some(v) => authored_value(patches_view(patches@), type_path@, field_path@) == Some(v@),
            None => authored_value(patches_view(patches@), type_path@, field_path@) is None,
        },
{
    match find_patch(patches, type_path) {
        Some(i) => {
            match &patches[i] {
                BsnPatch::Struct(data) => {
                    if field_path.unicode_len() == 0 {
                        Some(BsnValue::Struct(data.copy()))
                    } else {
                        get_field(&data.fields, field_path)
                    }
                },
                _ => None,
            }
        },
        None => None,
    }
}

/// Takes one field of a component out.
pub fn remove_edit(patches: &mut Vec<BsnPatch>, type_path: &str, field_path: &str)
    ensures
        patches_view(final(patches)@) == without_edit(
            patches_view(old(patches)@),
            type_path@,
            field_path@,
        ),
{
    match find_patch(patches, type_path) {
        Some(i) => {
            let patch: BsnPatch = patches.remove(i);
            let patch: BsnPatch = match patch {
                BsnPatch::Struct(data) => {
                    let mut fields: Vec<BsnField> = data.fields;
                    drop_field(&mut fields, field_path);
                    BsnPatch::Struct(BsnStructData { type_path: data.type_path, fields })
                },
                other => other,
            };
            patches.insert(i, patch);
        },
        None => {},
    }
    assert(patches_view(patches@) =~= without_edit(
        patches_view(old(patches)@),
        type_path@,
        field_path@,
    ));
}

/// The component types of a node are those that a patch of it is for.
pub proof fn law_types_of_patches(patches: Seq<PatchView>, t: Seq<char>)
    ensures
        type_paths_in(patches).contains(t) <==> exists|i: int|
            0 <= i < patches.len() && patch_type_path(#[trigger] patches[i]) == Some(t),
        has_patch(patches, t) <==> type_paths_in(patches).contains(t),
    decreases patches.len(),
{
    if patches.len() > 0 {
        let init = patches.drop_last();
        law_types_of_patches(init, t);
        assert(patches[patches.len() - 1] == patches.last());
        assert forall|i: int| 0 <= i < init.len() implies #[trigger] init[i] == patches[i] by {}
        if let Some(last) = patch_type_path(patches.last()) {
            crate::seqs::lemma_push_contains(type_paths_in(init), last, t);
        }
        let is_of = |p: PatchView| patch_type_path(p) == Some(t);
        if exists|i: int| 0 <= i < init.len() && is_of(#[trigger] init[i]) {
            let i = choose|i: int| 0 <= i < init.len() && is_of(#[trigger] init[i]);
            assert(is_of(patches[i]));
        }
        if exists|i: int| 0 <= i < patches.len() && is_of(#[trigger] patches[i]) {
            let i = choose|i: int| 0 <= i < patches.len() && is_of(#[trigger] patches[i]);
            if i < init.len() {
                assert(is_of(init[i]));
            }
        }
    }
    lemma_first_index(patches, of_type(t));
    let at = patch_index(patches, t);
    if at < patches.len() {
        assert(of_type(t)(patches[at]));
    }
    if exists|i: int| 0 <= i < patches.len() && patch_type_path(#[trigger] patches[i]) == Some(t) {
        let i = choose|i: int|
            0 <= i < patches.len() && patch_type_path(#[trigger] patches[i]) == Some(t);
        assert(of_type(t)(patches[i]));
    }
}

/// A patch that was put in is the one of its type that is found, and a name that was written is the
/// one that is read.
pub proof fn law_written_patches_are_read(
    patches: Seq<PatchView>,
    t: Seq<char>,
    patch: PatchView,
    name: Seq<char>,
)
    requires
        patch_type_path(patch) == Some(t),
    ensures
        ({
            let after = with_patch(patches, t, patch);
            &&& has_patch(after, t)
            &&& after[patch_index(after, t)] == patch
            &&& name_in(with_name(patches, Some(name))) == Some(name)
        }),
{
    let after = with_patch(patches, t, patch);
    let p = of_type(t);
    let i = patch_index(patches, t);
    lemma_first_index(patches, p);
    assert forall|j: int| 0 <= j < i implies !p(#[trigger] after[j]) by {
        assert(after[j] == patches[j]);
    }
    assert(p(after[i]));
    lemma_first_index_is(after, p, i);
    let named = with_name(patches, Some(name));
    let q = is_name();
    let k = first_index(patches, q);
    lemma_first_index(patches, q);
    if k < patches.len() {
        assert forall|j: int| 0 <= j < k implies !q(#[trigger] named[j]) by {
            assert(named[j] == patches[j]);
        }
        assert(q(named[k]));
        lemma_first_index_is(named, q, k);
    } else {
        assert(q(named[0]));
        lemma_first_index_is(named, q, 0);
    }
}

} // verus!
