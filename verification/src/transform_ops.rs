//! Resetting, nudging and rotating the selected entities.
use vstd::prelude::*;
use crate::component_commands::{law_transform_is_read_back, transformed, SetTransform};
use crate::entity_ops::{group_recorded, record_group};
use crate::history::{commands_view, CommandHistory, CommandView, EditorCommand};
use crate::location::TRANSFORM_TYPE_PATH;
use crate::seqs::{copied, lemma_first_index};
use crate::value::{
    field_index, field_value, fields_view, law_set_then_read, lemma_field_index,
    lemma_field_index_is, with_field, BsnField, BsnStructData, BsnValue, Entity, FieldView,
    StructView, ValueView,
};
use crate::world::{typed, with_fields, SceneWorld, WorldView};

verus! {

/// The bits of the number one.
pub const ONE_BITS: u64 = 0x3ff0_0000_0000_0000;

/// The sign bit of a number.
pub const SIGN_BIT: u64 = 0x8000_0000_0000_0000;

/// The largest bits, without the sign, of a number that is not "not a number".
pub const INFINITE_BITS: u64 = 0x7ff0_0000_0000_0000;

/// The part of a transform that is reset.
#[derive(Clone, Copy, Debug, PartialEq, Eq, Structural)]
pub enum TransformReset {
    Position,
    Rotation,
    Scale,
}

impl TransformReset {
    /// The fields that the reset writes.
    pub open spec fn edits_spec(self) -> Seq<FieldView> {
        match self {
            TransformReset::Position => seq![
                FieldView { name: "translation.x"@, value: ValueView::Float(0) },
                FieldView { name: "translation.y"@, value: ValueView::Float(0) },
                FieldView { name: "translation.z"@, value: ValueView::Float(0) },
            ],
            TransformReset::Rotation => seq![
                FieldView { name: "rotation.x"@, value: ValueView::Float(0) },
                FieldView { name: "rotation.y"@, value: ValueView::Float(0) },
                FieldView { name: "rotation.z"@, value: ValueView::Float(0) },
                FieldView { name: "rotation.w"@, value: ValueView::Float(ONE_BITS) },
            ],
            TransformReset::Scale => seq![
                FieldView { name: "scale.x"@, value: ValueView::Float(ONE_BITS) },
                FieldView { name: "scale.y"@, value: ValueView::Float(ONE_BITS) },
                FieldView { name: "scale.z"@, value: ValueView::Float(ONE_BITS) },
            ],
        }
    }

    /// The fields that the reset writes.
    fn edits(self) -> (r: Vec<BsnField>)
        ensures
            fields_view(r@) == self.edits_spec(),
    {
        let r: Vec<BsnField> = match self {
            TransformReset::Position => vec![
                float_field("translation.x", 0),
                float_field("translation.y", 0),
                float_field("translation.z", 0),
            ],
            TransformReset::Rotation => vec![
                float_field("rotation.x", 0),
                float_field("rotation.y", 0),
                float_field("rotation.z", 0),
                float_field("rotation.w", ONE_BITS),
            ],
            TransformReset::Scale => vec![
                float_field("scale.x", ONE_BITS),
                float_field("scale.y", ONE_BITS),
                float_field("scale.z", ONE_BITS),
            ],
        };
        assert(fields_view(r@) =~= self.edits_spec());
        r
    }

    /// The label of the reset in the history.
    pub open spec fn label_spec(self) -> Seq<char> {
        match self {
            TransformReset::Position => "Reset position"@,
            TransformReset::Rotation => "Reset rotation"@,
            TransformReset::Scale => "Reset scale"@,
        }
    }

    /// The label of the reset in the history.
    pub fn label(self) -> (r: &'static str)
        ensures
            r@ == self.label_spec(),
    {
        match self {
            TransformReset::Position => "Reset position",
            TransformReset::Rotation => "Reset rotation",
            TransformReset::Scale => "Reset scale",
        }
    }
}

fn float_field(name: &str, bits: u64) -> (r: BsnField)
    ensures
        r@ == (FieldView { name: name@, value: ValueView::Float(bits) }),
{
    BsnField { name: name.to_owned(), value: BsnValue::Float(bits) }
}

/// A transform with one part reset.
pub open spec fn reset_of(transform: StructView, reset: TransformReset) -> StructView {
    StructView {
        type_path: transform.type_path,
        fields: with_fields(transform.fields, reset.edits_spec()),
    }
}

/// A transform with one part reset.
pub fn reset_transform(transform: &BsnStructData, reset: TransformReset) -> (r: BsnStructData)
    ensures
        r@ == reset_of(transform@, reset),
{
    let copy: BsnStructData = transform.copy();
    let mut fields: Vec<BsnField> = copy.fields;
    crate::world::put_fields(&mut fields, &reset.edits());
    BsnStructData { type_path: copy.type_path, fields }
}

/// Whether two numbers compare equal, by their bits: a zero equals the negative zero, and a value
/// that is not a number equals nothing.
pub open spec fn float_eq_spec(a: u64, b: u64) -> bool {
    &&& a & !SIGN_BIT <= INFINITE_BITS
    &&& b & !SIGN_BIT <= INFINITE_BITS
    &&& a == b || (a & !SIGN_BIT == 0 && b & !SIGN_BIT == 0)
}

/// Whether two numbers compare equal, by their bits.
pub fn float_eq(a: u64, b: u64) -> (r: bool)
    ensures
        r == float_eq_spec(a, b),
{
    a & !SIGN_BIT <= INFINITE_BITS && b & !SIGN_BIT <= INFINITE_BITS && (a == b || (a & !SIGN_BIT
        == 0 && b & !SIGN_BIT == 0))
}

/// Whether two transforms compare equal: the same fields, and every number equal.
pub open spec fn transforms_equal(a: StructView, b: StructView) -> bool {
    &&& a.fields.len() == b.fields.len()
    &&& forall|i: int| 0 <= i < a.fields.len() ==> field_equal(#[trigger] a.fields[i], b.fields[i])
}

pub open spec fn field_equal(a: FieldView, b: FieldView) -> bool {
    a.name == b.name && match (a.value, b.value) {
        (ValueView::Float(x), ValueView::Float(y)) => float_eq_spec(x, y),
        _ => false,
    }
}

/// Whether two transforms compare equal.
pub fn transform_eq(a: &BsnStructData, b: &BsnStructData) -> (r: bool)
    ensures
        r == transforms_equal(a@, b@),
{
    if a.fields.len() != b.fields.len() {
        return false;
    }
    let mut i: usize = 0;
    while i < a.fields.len()
        invariant
            i <= a.fields.len(),
            a.fields.len() == b.fields.len(),
            forall|j: int| 0 <= j < i ==> field_equal(#[trigger] a@.fields[j], b@.fields[j]),
        decreases a.fields.len() - i,
    {
        let same: bool = crate::text::text_eq(
            a.fields[i].name.as_str(),
            b.fields[i].name.as_str(),
        ) && match (&a.fields[i].value, &b.fields[i].value) {
            (BsnValue::Float(x), BsnValue::Float(y)) => float_eq(*x, *y),
            _ => false,
        };
        assert(same == field_equal(a@.fields[i as int], b@.fields[i as int]));
        if !same {
            return false;
        }
        i = i + 1;
    }
    true
}

/// The command that replaces a transform.
pub open spec fn transform_command(e: Entity, before: StructView, after: StructView) -> CommandView {
    CommandView::SetTransform { entity: e, before, after }
}

/// The scene and the commands after the transforms of `entities` were reset in turn. Entities
/// without a transform, and those whose transform is already reset, are left out.
pub open spec fn transforms_reset(
    w: WorldView,
    entities: Seq<Entity>,
    reset: TransformReset,
) -> (WorldView, Seq<CommandView>)
    decreases entities.len(),
{
    if entities.len() == 0 {
        (w, Seq::empty())
    } else {
        let before = transforms_reset(w, entities.drop_last(), reset);
        let e = entities.last();
        match before.0.held_component(e, TRANSFORM_TYPE_PATH@) {
            Some(t) => if transforms_equal(t, reset_of(t, reset)) {
                before
            } else {
                (
                    transformed(before.0, e, reset_of(t, reset)),
                    before.1.push(transform_command(e, t, reset_of(t, reset))),
                )
            },
            None => before,
        }
    }
}

/// Resets one part of the transforms of the selected entities.
pub fn reset_transform_selected(
    world: &mut SceneWorld,
    history: &mut CommandHistory,
    reset: TransformReset,
)
    ensures
        final(world)@ == transforms_reset(old(world)@, old(world)@.selection, reset).0,
        group_recorded(
            *old(history),
            *final(history),
            transforms_reset(old(world)@, old(world)@.selection, reset).1,
            reset.label_spec(),
        ),
        forall|e: Entity|
            #![trigger final(world)@.held_component(e, "bevy_transform::components::transform::Transform"@)]
            old(world)@.selection.contains(e) ==> ({
                let path = "bevy_transform::components::transform::Transform"@;
                old(world)@.held_component(e, path) matches Some(t) ==> (
                final(world)@.held_component(e, path) matches Some(u) && only_reset(t, u, reset))
            }),
{
    let entities: Vec<Entity> = copied(&world.selection);
    let ghost start = world@;
    let mut commands: Vec<EditorCommand> = Vec::new();
    let mut i: usize = 0;
    assert(entities@.subrange(0, 0) =~= Seq::empty());
    assert(commands_view(commands@) =~= Seq::empty());
    while i < entities.len()
        invariant
            i <= entities.len(),
            world@ == transforms_reset(start, entities@.subrange(0, i as int), reset).0,
            commands_view(commands@) == transforms_reset(
                start,
                entities@.subrange(0, i as int),
                reset,
            ).1,
        decreases entities.len() - i,
    {
        proof {
            assert(entities@.subrange(0, i + 1).drop_last() =~= entities@.subrange(0, i as int));
            assert(entities@.subrange(0, i + 1).last() == entities@[i as int]);
        }
        let ghost before = commands_view(commands@);
        let entity: Entity = entities[i];
        if let Some(old_transform) = world.held_component(entity, TRANSFORM_TYPE_PATH) {
            let new_transform: BsnStructData = reset_transform(&old_transform, reset);
            if !transform_eq(&old_transform, &new_transform) {
                let mut command = SetTransform { entity, old_transform, new_transform };
                command.execute(world);
                let command = EditorCommand::SetTransform(command);
                commands.push(command);
                assert(commands_view(commands@) =~= before.push(command@));
            }
        }
        i = i + 1;
    }
    assert(entities@.subrange(0, i as int) =~= entities@);
    proof {
        let path = "bevy_transform::components::transform::Transform"@;
        assert forall|e: Entity|
            #![trigger world@.held_component(e, path)]
            start.selection.contains(e) implies (start.held_component(e, path) matches Some(t) ==> (
        world@.held_component(e, path) matches Some(u) && only_reset(t, u, reset))) by {
            law_selected_transforms_are_reset(start, entities@, reset, e);
        }
    }
    record_group(history, commands, reset.label());
}

/// Whether a field of a transform reads as a number, given by its bits.
pub open spec fn reads(t: StructView, name: Seq<char>, bits: u64) -> bool {
    field_value(t.fields, name) == Some(ValueView::Float(bits))
}

/// Whether a field of a transform reads as zero, of either sign.
pub open spec fn reads_zero(t: StructView, name: Seq<char>) -> bool {
    reads(t, name, 0) || reads(t, name, 0x8000_0000_0000_0000)
}

/// Whether a part of a transform is reset: the position to zero, the rotation to none, the scale to
/// one.
pub open spec fn stands_reset(t: StructView, reset: TransformReset) -> bool {
    match reset {
        TransformReset::Position => {
            &&& reads_zero(t, "translation.x"@)
            &&& reads_zero(t, "translation.y"@)
            &&& reads_zero(t, "translation.z"@)
        },
        TransformReset::Rotation => {
            &&& reads_zero(t, "rotation.x"@)
            &&& reads_zero(t, "rotation.y"@)
            &&& reads_zero(t, "rotation.z"@)
            &&& reads(t, "rotation.w"@, 0x3ff0_0000_0000_0000)
        },
        TransformReset::Scale => {
            &&& reads(t, "scale.x"@, 0x3ff0_0000_0000_0000)
            &&& reads(t, "scale.y"@, 0x3ff0_0000_0000_0000)
            &&& reads(t, "scale.z"@, 0x3ff0_0000_0000_0000)
        },
    }
}

/// Whether a field belongs to the part that is reset.
pub open spec fn belongs_to(name: Seq<char>, reset: TransformReset) -> bool {
    match reset {
        TransformReset::Position => name == "translation.x"@ || name == "translation.y"@ || name
            == "translation.z"@,
        TransformReset::Rotation => name == "rotation.x"@ || name == "rotation.y"@ || name
            == "rotation.z"@ || name == "rotation.w"@,
        TransformReset::Scale => name == "scale.x"@ || name == "scale.y"@ || name == "scale.z"@,
    }
}

/// Three fields that are set in turn under different names are all read back.
proof fn lemma_three_edits(
    fields: Seq<FieldView>,
    a: FieldView,
    b: FieldView,
    c: FieldView,
    other: Seq<char>,
)
    requires
        a.name != b.name,
        b.name != c.name,
        a.name != c.name,
    ensures
        ({
            let after = with_fields(fields, seq![a, b, c]);
            &&& field_value(after, a.name) == Some(a.value)
            &&& field_value(after, b.name) == Some(b.value)
            &&& field_value(after, c.name) == Some(c.value)
            &&& other != a.name && other != b.name && other != c.name ==> field_value(after, other)
                == field_value(fields, other)
        }),
{
    assert(seq![a, b, c].drop_last() =~= seq![a, b]);
    assert(seq![a, b].drop_last() =~= seq![a]);
    assert(seq![a].drop_last() =~= Seq::empty());
    reveal_with_fuel(with_fields, 4);
    let first = with_field(fields, a.name, a.value);
    let second = with_field(first, b.name, b.value);
    assert(with_fields(fields, seq![a, b, c]) == with_field(second, c.name, c.value));
    law_set_then_read(fields, a.name, a.value, other);
    law_set_then_read(first, b.name, b.value, a.name);
    law_set_then_read(first, b.name, b.value, other);
    law_set_then_read(second, c.name, c.value, a.name);
    law_set_then_read(second, c.name, c.value, b.name);
    law_set_then_read(second, c.name, c.value, other);
}

/// Four fields that are set in turn under different names are all read back.
proof fn lemma_four_edits(
    fields: Seq<FieldView>,
    a: FieldView,
    b: FieldView,
    c: FieldView,
    d: FieldView,
    other: Seq<char>,
)
    requires
        a.name != b.name,
        b.name != c.name,
        a.name != c.name,
        a.name != d.name,
        b.name != d.name,
        c.name != d.name,
    ensures
        ({
            let after = with_fields(fields, seq![a, b, c, d]);
            &&& field_value(after, a.name) == Some(a.value)
            &&& field_value(after, b.name) == Some(b.value)
            &&& field_value(after, c.name) == Some(c.value)
            &&& field_value(after, d.name) == Some(d.value)
            &&& other != a.name && other != b.name && other != c.name && other != d.name
                ==> field_value(after, other) == field_value(fields, other)
        }),
{
    assert(seq![a, b, c, d].drop_last() =~= seq![a, b, c]);
    lemma_three_edits(fields, a, b, c, other);
    let third = with_fields(fields, seq![a, b, c]);
    law_set_then_read(third, d.name, d.value, a.name);
    law_set_then_read(third, d.name, d.value, b.name);
    law_set_then_read(third, d.name, d.value, c.name);
    law_set_then_read(third, d.name, d.value, other);
}

proof fn lemma_position_names()
    ensures
        "translation.x"@ != "translation.y"@,
        "translation.y"@ != "translation.z"@,
        "translation.x"@ != "translation.z"@,
{
    reveal_strlit("translation.x");
    reveal_strlit("translation.y");
    reveal_strlit("translation.z");
    assert("translation.x"@[12] == 'x');
    assert("translation.y"@[12] == 'y');
    assert("translation.z"@[12] == 'z');
}

proof fn lemma_rotation_names()
    ensures
        "rotation.x"@ != "rotation.y"@,
        "rotation.y"@ != "rotation.z"@,
        "rotation.x"@ != "rotation.z"@,
        "rotation.x"@ != "rotation.w"@,
        "rotation.y"@ != "rotation.w"@,
        "rotation.z"@ != "rotation.w"@,
{
    reveal_strlit("rotation.x");
    reveal_strlit("rotation.y");
    reveal_strlit("rotation.z");
    reveal_strlit("rotation.w");
    assert("rotation.x"@[9] == 'x');
    assert("rotation.y"@[9] == 'y');
    assert("rotation.z"@[9] == 'z');
    assert("rotation.w"@[9] == 'w');
}

proof fn lemma_scale_names()
    ensures
        "scale.x"@ != "scale.y"@,
        "scale.y"@ != "scale.z"@,
        "scale.x"@ != "scale.z"@,
{
    reveal_strlit("scale.x");
    reveal_strlit("scale.y");
    reveal_strlit("scale.z");
    assert("scale.x"@[6] == 'x');
    assert("scale.y"@[6] == 'y');
    assert("scale.z"@[6] == 'z');
}

/// A reset of the position writes zero to its three numbers, a reset of the rotation zero to the
/// first three of its four and one to the last, and a reset of the scale one to its three. All other
/// fields stay, and so does the type.
pub proof fn law_reset_numbers(t: StructView, reset: TransformReset, name: Seq<char>)
    ensures
        reset_of(t, reset).type_path == t.type_path,
        reset == TransformReset::Position ==> reads(reset_of(t, reset), "translation.x"@, 0)
            && reads(reset_of(t, reset), "translation.y"@, 0) && reads(
            reset_of(t, reset),
            "translation.z"@,
            0,
        ),
        reset == TransformReset::Rotation ==> reads(reset_of(t, reset), "rotation.x"@, 0) && reads(
            reset_of(t, reset),
            "rotation.y"@,
            0,
        ) && reads(reset_of(t, reset), "rotation.z"@, 0) && reads(
            reset_of(t, reset),
            "rotation.w"@,
            0x3ff0_0000_0000_0000,
        ),
        reset == TransformReset::Scale ==> reads(
            reset_of(t, reset),
            "scale.x"@,
            0x3ff0_0000_0000_0000,
        ) && reads(reset_of(t, reset), "scale.y"@, 0x3ff0_0000_0000_0000) && reads(
            reset_of(t, reset),
            "scale.z"@,
            0x3ff0_0000_0000_0000,
        ),
        !belongs_to(name, reset) ==> field_value(reset_of(t, reset).fields, name) == field_value(
            t.fields,
            name,
        ),
        stands_reset(reset_of(t, reset), reset),
{
    let zero = ValueView::Float(0);
    let one = ValueView::Float(ONE_BITS);
    match reset {
        TransformReset::Position => {
            lemma_position_names();
            lemma_three_edits(
                t.fields,
                FieldView { name: "translation.x"@, value: zero },
                FieldView { name: "translation.y"@, value: zero },
                FieldView { name: "translation.z"@, value: zero },
                name,
            );
        },
        TransformReset::Rotation => {
            lemma_rotation_names();
            lemma_four_edits(
                t.fields,
                FieldView { name: "rotation.x"@, value: zero },
                FieldView { name: "rotation.y"@, value: zero },
                FieldView { name: "rotation.z"@, value: zero },
                FieldView { name: "rotation.w"@, value: one },
                name,
            );
        },
        TransformReset::Scale => {
            lemma_scale_names();
            lemma_three_edits(
                t.fields,
                FieldView { name: "scale.x"@, value: one },
                FieldView { name: "scale.y"@, value: one },
                FieldView { name: "scale.z"@, value: one },
                name,
            );
        },
    }
}

/// Bits that differ from zero by the sign alone are those of a zero.
proof fn lemma_zero_bits(bits: u64)
    requires
        bits & !SIGN_BIT == 0,
    ensures
        bits == 0 || bits == 0x8000_0000_0000_0000,
{
    assert(bits & !0x8000_0000_0000_0000u64 == 0 ==> bits == 0 || bits
        == 0x8000_0000_0000_0000u64) by (bit_vector);
}

/// One is no zero.
proof fn lemma_one_bits()
    ensures
        0x3ff0_0000_0000_0000u64 & !SIGN_BIT != 0,
{
    assert(0x3ff0_0000_0000_0000u64 & !0x8000_0000_0000_0000u64 != 0) by (bit_vector);
}

/// Of transforms that compare equal, a field that reads as a number in one reads as an equal number
/// in the other.
proof fn lemma_equal_reads(a: StructView, b: StructView, name: Seq<char>, bits: u64)
    requires
        transforms_equal(a, b),
        reads(b, name, bits),
    ensures
        field_value(a.fields, name) matches Some(ValueView::Float(x)) && float_eq_spec(x, bits),
{
    lemma_field_index(b.fields, name);
    let i = field_index(b.fields, name);
    assert(field_equal(a.fields[i], b.fields[i]));
    assert forall|j: int| 0 <= j < i implies (#[trigger] a.fields[j]).name != name by {
        assert(field_equal(a.fields[j], b.fields[j]));
        assert(b.fields[j].name != name);
    }
    lemma_field_index_is(a.fields, name, i);
}

/// A transform that compares equal to the one that a reset leads to stands reset already.
proof fn lemma_equal_stands_reset(t: StructView, reset: TransformReset)
    requires
        transforms_equal(t, reset_of(t, reset)),
    ensures
        stands_reset(t, reset),
{
    let goal = reset_of(t, reset);
    law_reset_numbers(t, reset, Seq::empty());
    lemma_one_bits();
    assert forall|name: Seq<char>| #[trigger] reads(goal, name, 0) implies reads_zero(t, name) by {
        lemma_equal_reads(t, goal, name, 0);
        let x = field_value(t.fields, name)->0->Float_0;
        if x & !SIGN_BIT == 0 {
            lemma_zero_bits(x);
        }
    }
    assert forall|name: Seq<char>| #[trigger]
        reads(goal, name, 0x3ff0_0000_0000_0000) implies reads(
        t,
        name,
        0x3ff0_0000_0000_0000,
    ) by {
        lemma_equal_reads(t, goal, name, 0x3ff0_0000_0000_0000);
    }
}

/// Whether one transform is another with a part reset, all its other fields being as they were.
pub open spec fn only_reset(before: StructView, after: StructView, reset: TransformReset) -> bool {
    &&& stands_reset(after, reset)
    &&& forall|name: Seq<char>|
        !#[trigger] belongs_to(name, reset) ==> field_value(after.fields, name) == field_value(
            before.fields,
            name,
        )
}

/// A reset of one part of the transforms of entities leaves that part reset in each of them that has a
/// transform: a position of zero, no rotation, a scale of one. All other fields of the transform stay,
/// so do all other components of the entity, and all entities that are not reset.
pub proof fn law_selected_transforms_are_reset(
    w: WorldView,
    entities: Seq<Entity>,
    reset: TransformReset,
    e: Entity,
)
    ensures
        ({
            let after = transforms_reset(w, entities, reset).0;
            let path = "bevy_transform::components::transform::Transform"@;
            &&& entities.contains(e) && w.held_component(e, path) is Some ==> (
            after.held_component(e, path) matches Some(t) && only_reset(
                w.held_component(e, path)->0,
                t,
                reset,
            ))
            &&& !entities.contains(e) || w.held_component(e, path) is None ==> after.entities[e]
                == w.entities[e] && after.held_component(e, path) == w.held_component(e, path)
            &&& forall|other: Seq<char>|
                other != path ==> #[trigger] after.held_component(e, other) == w.held_component(
                    e,
                    other,
                )
            &&& after.entities.dom() == w.entities.dom()
            &&& after.entities[e].parent == w.entities[e].parent
            &&& after.entities[e].children == w.entities[e].children
            &&& after.entities[e].name == w.entities[e].name
            &&& after.entities[e].marks == w.entities[e].marks
            &&& after.selection == w.selection
        }),
    decreases entities.len(),
{
    let path = "bevy_transform::components::transform::Transform"@;
    if entities.len() > 0 {
        let init = entities.drop_last();
        law_selected_transforms_are_reset(w, init, reset, e);
        let before = transforms_reset(w, init, reset).0;
        let after = transforms_reset(w, entities, reset).0;
        let x = entities.last();
        assert(entities[entities.len() - 1] == x);
        assert(entities.contains(e) == (init.contains(e) || e == x)) by {
            if init.contains(e) {
                let i = choose|i: int| 0 <= i < init.len() && init[i] == e;
                assert(entities[i] == e);
            }
            if entities.contains(e) && e != x {
                let i = choose|i: int| 0 <= i < entities.len() && entities[i] == e;
                assert(init[i] == e);
            }
        }
        if let Some(t) = before.held_component(x, path) {
            let goal = reset_of(t, reset);
            lemma_first_index(before.components_of(x), typed(path));
            assert(t.type_path == path);
            if transforms_equal(t, goal) {
                lemma_equal_stands_reset(t, reset);
            } else {
                law_transform_is_read_back(before, x, goal, path);
                assert forall|other: Seq<char>| other != path implies #[trigger]
                    after.held_component(e, other) == w.held_component(e, other) by {
                    assert(before.held_component(e, other) == w.held_component(e, other));
                    law_transform_is_read_back(before, x, goal, other);
                }
                assert forall|name: Seq<char>| !#[trigger]
                    belongs_to(name, reset) implies field_value(goal.fields, name) == field_value(
                    t.fields,
                    name,
                ) by {
                    law_reset_numbers(t, reset, name);
                }
                law_reset_numbers(t, reset, Seq::empty());
            }
        }
    }
}

/// The entities of `entities` that carry a transform, each with it, in order.
pub open spec fn with_transform(w: WorldView, entities: Seq<Entity>) -> Seq<(Entity, StructView)>
    decreases entities.len(),
{
    if entities.len() == 0 {
        Seq::empty()
    } else {
        let before = with_transform(w, entities.drop_last());
        match w.held_component(entities.last(), TRANSFORM_TYPE_PATH@) {
            Some(t) => before.push((entities.last(), t)),
            None => before,
        }
    }
}

pub open spec fn edits_view(edits: Seq<TransformEdit>) -> Seq<(Entity, StructView)> {
    Seq::new(edits.len(), |i: int| (edits[i].entity, edits[i].new_transform@))
}

/// The selected entities that carry a transform, each with the transform that it has. A move or a
/// rotation starts from these.
pub fn selected_transforms(world: &SceneWorld) -> (r: Vec<TransformEdit>)
    ensures
        edits_view(r@) == with_transform(world@, world@.selection),
{
    let entities: &Vec<Entity> = &world.selection;
    let mut out: Vec<TransformEdit> = Vec::new();
    let mut i: usize = 0;
    assert(entities@.subrange(0, 0) =~= Seq::empty());
    assert(edits_view(out@) =~= Seq::empty());
    while i < entities.len()
        invariant
            i <= entities.len(),
            entities@ == world@.selection,
            edits_view(out@) == with_transform(world@, entities@.subrange(0, i as int)),
        decreases entities.len() - i,
    {
        proof {
            assert(entities@.subrange(0, i + 1).drop_last() =~= entities@.subrange(0, i as int));
            assert(entities@.subrange(0, i + 1).last() == entities@[i as int]);
        }
        let ghost before = edits_view(out@);
        let entity: Entity = entities[i];
        if let Some(new_transform) = world.held_component(entity, TRANSFORM_TYPE_PATH) {
            let ghost t = new_transform@;
            out.push(TransformEdit { entity, new_transform });
            assert(edits_view(out@) =~= before.push((entity, t)));
        }
        i = i + 1;
    }
    assert(entities@.subrange(0, i as int) =~= entities@);
    out
}

/// The new transform of one entity.
#[derive(Debug)]
pub struct TransformEdit {
    pub entity: Entity,
    pub new_transform: BsnStructData,
}

/// The scene and the commands after transforms were replaced in turn. Entities that carry no
/// transform are left out.
pub open spec fn transforms_set(
    w: WorldView,
    edits: Seq<TransformEdit>,
) -> (WorldView, Seq<CommandView>)
    decreases edits.len(),
{
    if edits.len() == 0 {
        (w, Seq::empty())
    } else {
        let before = transforms_set(w, edits.drop_last());
        let edit = edits.last();
        match before.0.held_component(edit.entity, TRANSFORM_TYPE_PATH@) {
            Some(t) => (
                transformed(before.0, edit.entity, edit.new_transform@),
                before.1.push(transform_command(edit.entity, t, edit.new_transform@)),
            ),
            None => before,
        }
    }
}

/// Replaces the transforms of entities and records the group.
fn set_transforms(
    world: &mut SceneWorld,
    history: &mut CommandHistory,
    edits: &Vec<TransformEdit>,
    label: &str,
)
    ensures
        final(world)@ == transforms_set(old(world)@, edits@).0,
        group_recorded(
            *old(history),
            *final(history),
            transforms_set(old(world)@, edits@).1,
            label@,
        ),
{
    let ghost start = world@;
    let mut commands: Vec<EditorCommand> = Vec::new();
    let mut i: usize = 0;
    assert(edits@.subrange(0, 0) =~= Seq::empty());
    assert(commands_view(commands@) =~= Seq::empty());
    while i < edits.len()
        invariant
            i <= edits.len(),
            world@ == transforms_set(start, edits@.subrange(0, i as int)).0,
            commands_view(commands@) == transforms_set(start, edits@.subrange(0, i as int)).1,
        decreases edits.len() - i,
    {
        proof {
            assert(edits@.subrange(0, i + 1).drop_last() =~= edits@.subrange(0, i as int));
            assert(edits@.subrange(0, i + 1).last() == edits@[i as int]);
        }
        let ghost before = commands_view(commands@);
        let entity: Entity = edits[i].entity;
        if let Some(old_transform) = world.held_component(entity, TRANSFORM_TYPE_PATH) {
            let new_transform: BsnStructData = edits[i].new_transform.copy();
            let mut command = SetTransform { entity, old_transform, new_transform };
            command.execute(world);
            let command = EditorCommand::SetTransform(command);
            commands.push(command);
            assert(commands_view(commands@) =~= before.push(command@));
        }
        i = i + 1;
    }
    assert(edits@.subrange(0, i as int) =~= edits@);
    record_group(history, commands, label);
}

/// After transforms were replaced, each entity that carried one has the last that was given for it.
/// Other components, and entities that none was given for, stay.
pub proof fn law_given_transforms_are_read(w: WorldView, edits: Seq<TransformEdit>, e: Entity)
    requires
        forall|i: int|
            0 <= i < edits.len() ==> (#[trigger] edits[i]).new_transform@.type_path
                == "bevy_transform::components::transform::Transform"@,
    ensures
        ({
            let after = transforms_set(w, edits).0;
            let path = "bevy_transform::components::transform::Transform"@;
            &&& (forall|i: int| 0 <= i < edits.len() ==> (#[trigger] edits[i]).entity != e)
                ==> after.entities[e] == w.entities[e]
            &&& w.held_component(e, path) is None ==> after.entities[e] == w.entities[e]
            &&& after.held_component(e, path) is Some == w.held_component(e, path) is Some
            &&& forall|i: int|
                w.held_component(e, path) is Some && 0 <= i < edits.len() && (
                #[trigger] edits[i]).entity == e && (forall|j: int|
                    i < j < edits.len() ==> (#[trigger] edits[j]).entity != e)
                    ==> after.held_component(e, path) == Some(edits[i].new_transform@)
            &&& after.entities.dom() == w.entities.dom()
            &&& after.selection == w.selection
            &&& transforms_set(w, edits).1.len() <= edits.len()
        }),
    decreases edits.len(),
{
    let path = "bevy_transform::components::transform::Transform"@;
    if edits.len() > 0 {
        let init = edits.drop_last();
        assert forall|i: int| 0 <= i < init.len() implies (
        #[trigger] init[i]).new_transform@.type_path == path by {
            assert(init[i] == edits[i]);
        }
        law_given_transforms_are_read(w, init, e);
        let before = transforms_set(w, init).0;
        let after = transforms_set(w, edits).0;
        let last = edits.last();
        assert(edits[edits.len() - 1] == last);
        if before.held_component(last.entity, path) is Some {
            law_transform_is_read_back(before, last.entity, last.new_transform@, path);
        }
        assert forall|i: int|
            w.held_component(e, path) is Some && 0 <= i < edits.len() && (
            #[trigger] edits[i]).entity == e && (forall|j: int|
                i < j < edits.len() ==> (#[trigger] edits[j]).entity
                    != e) implies after.held_component(e, path) == Some(
            edits[i].new_transform@,
        ) by {
            if i < init.len() {
                assert(init[i] == edits[i]);
                assert forall|j: int| i < j < init.len() implies (#[trigger] init[j]).entity
                    != e by {
                    assert(init[j] == edits[j]);
                }
            }
        }
        if forall|i: int| 0 <= i < edits.len() ==> (#[trigger] edits[i]).entity != e {
            assert forall|i: int| 0 <= i < init.len() implies (#[trigger] init[i]).entity != e by {
                assert(init[i] == edits[i]);
            }
        }
    }
}

/// Moves the selected entities: `edits` holds the moved transform of each.
pub fn nudge_selected(
    world: &mut SceneWorld,
    history: &mut CommandHistory,
    edits: &Vec<TransformEdit>,
)
    ensures
        final(world)@ == transforms_set(old(world)@, edits@).0,
        group_recorded(
            *old(history),
            *final(history),
            transforms_set(old(world)@, edits@).1,
            "Nudge"@,
        ),
{
    set_transforms(world, history, edits, "Nudge");
}

/// Rotates the selected entities: `edits` holds the rotated transform of each.
pub fn rotate_selected(
    world: &mut SceneWorld,
    history: &mut CommandHistory,
    edits: &Vec<TransformEdit>,
)
    ensures
        final(world)@ == transforms_set(old(world)@, edits@).0,
        group_recorded(
            *old(history),
            *final(history),
            transforms_set(old(world)@, edits@).1,
            "Rotate 90\u{00b0}"@,
        ),
{
    set_transforms(world, history, edits, "Rotate 90\u{00b0}");
}

/// Numbers compare equal if they have the same bits and are numbers at all, and a zero equals the
/// negative zero; nothing else does.
pub proof fn law_equal_numbers(a: u64, b: u64)
    ensures
        float_eq_spec(a, b) == float_eq_spec(b, a),
        float_eq_spec(a, a) <==> a & 0x7fff_ffff_ffff_ffffu64 <= 0x7ff0_0000_0000_0000,
        float_eq_spec(0, 0x8000_0000_0000_0000),
        float_eq_spec(a, b) && a != b ==> a & 0x7fff_ffff_ffff_ffffu64 == 0 && b
            & 0x7fff_ffff_ffff_ffffu64 == 0,
{
    assert(!0x8000_0000_0000_0000u64 == 0x7fff_ffff_ffff_ffffu64) by (bit_vector);
    assert(0u64 & 0x7fff_ffff_ffff_ffffu64 == 0) by (bit_vector);
    assert(0x8000_0000_0000_0000u64 & 0x7fff_ffff_ffff_ffffu64 == 0) by (bit_vector);
}

} // verus!
