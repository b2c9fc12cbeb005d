//! Field values of a scene document and of live components.
use vstd::prelude::*;
use crate::brush::{Brush, BrushView};

verus! {

/// Identifies an entity of the live scene: the bits of its engine id.
pub type Entity = u64;

/// A value that a document patch or a live component holds.
#[derive(Debug)]
pub enum BsnValue {
    Bool(bool),
    Int(i128),
    /// A floating-point number, by its bits.
    Float(u64),
    String(String),
    Struct(BsnStructData),
    Brush(Brush),
}

/// A struct value: its type and the fields that are written out. A field that is not written out
/// keeps the default of its type.
#[derive(Debug)]
pub struct BsnStructData {
    pub type_path: String,
    pub fields: Vec<BsnField>,
}

/// One field of a struct value. The name is the whole path of the field in its component, such as
/// `translation.x`.
#[derive(Debug)]
pub struct BsnField {
    pub name: String,
    pub value: BsnValue,
}

/// What a [`BsnValue`] stands for.
pub ghost enum ValueView {
    Bool(bool),
    Int(i128),
    Float(u64),
    Text(Seq<char>),
    Struct(StructView),
    Brush(BrushView),
}

/// What a [`BsnStructData`] stands for.
#[verifier::ext_equal]
pub ghost struct StructView {
    pub type_path: Seq<char>,
    pub fields: Seq<FieldView>,
}

/// What a [`BsnField`] stands for.
pub ghost struct FieldView {
    pub name: Seq<char>,
    pub value: ValueView,
}

pub open spec fn value_view(v: BsnValue) -> ValueView
    decreases v,
{
    match v {
        BsnValue::Bool(b) => ValueView::Bool(b),
        BsnValue::Int(i) => ValueView::Int(i),
        BsnValue::Float(bits) => ValueView::Float(bits),
        BsnValue::String(s) => ValueView::Text(s@),
        BsnValue::Struct(d) => ValueView::Struct(struct_view(d)),
        BsnValue::Brush(b) => ValueView::Brush(b@),
    }
}

pub open spec fn struct_view(d: BsnStructData) -> StructView
    decreases d,
{
    StructView { type_path: d.type_path@, fields: fields_view(d.fields@) }
}

pub open spec fn fields_view(fields: Seq<BsnField>) -> Seq<FieldView>
    decreases fields,
{
    Seq::new(
        fields.len(),
        |i: int|
            if 0 <= i < fields.len() {
                field_view(fields[i])
            } else {
                arbitrary()
            },
    )
}

pub open spec fn field_view(f: BsnField) -> FieldView
    decreases f,
{
    FieldView { name: f.name@, value: value_view(f.value) }
}

impl View for BsnValue {
    type V = ValueView;

    open spec fn view(&self) -> ValueView {
        value_view(*self)
    }
}

impl View for BsnStructData {
    type V = StructView;

    open spec fn view(&self) -> StructView {
        struct_view(*self)
    }
}

impl View for BsnField {
    type V = FieldView;

    open spec fn view(&self) -> FieldView {
        field_view(*self)
    }
}

impl BsnValue {
    /// A copy that stands for the same value.
    pub fn copy(&self) -> (r: BsnValue)
        ensures
            r@ == self@,
        decreases self,
    {
        match self {
            BsnValue::Bool(b) => BsnValue::Bool(*b),
            BsnValue::Int(i) => BsnValue::Int(*i),
            BsnValue::Float(bits) => BsnValue::Float(*bits),
            BsnValue::String(s) => BsnValue::String(s.clone()),
            BsnValue::Struct(d) => BsnValue::Struct(d.copy()),
            BsnValue::Brush(b) => BsnValue::Brush(b.copy()),
        }
    }

    /// The text that this value carries, if it is a text.
    pub fn text(&self) -> (r: Option<String>)
        ensures
            match self@ {
                ValueView::Text(s) => r is Some && r->0@ == s,
                _ => r is None,
            },
    {
        match self {
            BsnValue::String(s) => Some(s.clone()),
            _ => None,
        }
    }
}

impl BsnStructData {
    /// A struct value with no field written out.
    pub fn empty(type_path: &str) -> (r: BsnStructData)
        ensures
            r@ == (StructView { type_path: type_path@, fields: Seq::empty() }),
    {
        let r = BsnStructData { type_path: type_path.to_owned(), fields: Vec::new() };
        assert(r@.fields =~= Seq::empty());
        r
    }

    /// A copy that stands for the same value.
    pub fn copy(&self) -> (r: BsnStructData)
        ensures
            r@ == self@,
        decreases self,
    {
        let mut fields: Vec<BsnField> = Vec::new();
        let mut i: usize = 0;
        while i < self.fields.len()
            invariant
                i <= self.fields.len(),
                fields.len() == i,
                forall|j: int| 0 <= j < i ==> (#[trigger] fields[j])@ == self.fields[j]@,
            decreases self.fields.len() - i,
        {
            assert(decreases_to!(*self => self.fields));
            assert(decreases_to!(self.fields => self.fields@));
            assert(decreases_to!(self.fields@ => self.fields@[i as int]));
            let field: &BsnField = &self.fields[i];
            assert(decreases_to!(*field => field.value));
            fields.push(BsnField { name: field.name.clone(), value: field.value.copy() });
            i = i + 1;
        }
        let r = BsnStructData { type_path: self.type_path.clone(), fields };
        assert(r@.fields =~= self@.fields);
        r
    }
}

/// The value of a unit variant of an enum: one field without a name, which holds the variant.
pub open spec fn variant_view(type_path: Seq<char>, variant: Seq<char>) -> StructView {
    StructView {
        type_path,
        fields: seq![FieldView { name: Seq::empty(), value: ValueView::Text(variant) }],
    }
}

/// A component that is a brush: one field without a name, which holds the brush.
pub open spec fn brush_value(type_path: Seq<char>, brush: BrushView) -> StructView {
    StructView {
        type_path,
        fields: seq![FieldView { name: Seq::empty(), value: ValueView::Brush(brush) }],
    }
}

impl BsnStructData {
    /// A component that is a brush.
    pub fn brush(type_path: &str, brush: &Brush) -> (r: BsnStructData)
        ensures
            r@ == brush_value(type_path@, brush@),
    {
        let mut fields: Vec<BsnField> = Vec::new();
        fields.push(BsnField { name: String::new(), value: BsnValue::Brush(brush.copy()) });
        let r = BsnStructData { type_path: type_path.to_owned(), fields };
        assert(r@.fields =~= brush_value(type_path@, brush@).fields);
        r
    }

    /// The value of a unit variant of an enum.
    pub fn variant(type_path: &str, variant: &str) -> (r: BsnStructData)
        ensures
            r@ == variant_view(type_path@, variant@),
    {
        let mut fields: Vec<BsnField> = Vec::new();
        fields.push(BsnField { name: String::new(), value: BsnValue::String(variant.to_owned()) });
        let r = BsnStructData { type_path: type_path.to_owned(), fields };
        assert(r@.fields =~= variant_view(type_path@, variant@).fields);
        r
    }
}

/// Whether a patch or a component writes out the field `name`.
pub open spec fn has_field(fields: Seq<FieldView>, name: Seq<char>) -> bool {
    exists|i: int| 0 <= i < fields.len() && (#[trigger] fields[i]).name == name
}

/// The position of the first field called `name`, or the number of fields.
pub open spec fn field_index(fields: Seq<FieldView>, name: Seq<char>) -> int
    decreases fields.len(),
{
    if fields.len() == 0 {
        0
    } else if fields[0].name == name {
        0
    } else {
        1 + field_index(fields.drop_first(), name)
    }
}

/// The value of the field `name`, if it is written out.
pub open spec fn field_value(fields: Seq<FieldView>, name: Seq<char>) -> Option<ValueView> {
    let i = field_index(fields, name);
    if i < fields.len() {
        Some(fields[i].value)
    } else {
        None
    }
}

/// The fields with `name` set to `value`: in its place when it is written out, else at the end.
pub open spec fn with_field(
    fields: Seq<FieldView>,
    name: Seq<char>,
    value: ValueView,
) -> Seq<FieldView> {
    let i = field_index(fields, name);
    if i < fields.len() {
        fields.update(i, FieldView { name: fields[i].name, value })
    } else {
        fields.push(FieldView { name, value })
    }
}

/// The fields without the first one called `name`.
pub open spec fn without_field(fields: Seq<FieldView>, name: Seq<char>) -> Seq<FieldView> {
    let i = field_index(fields, name);
    if i < fields.len() {
        fields.remove(i)
    } else {
        fields
    }
}

/// `field_index` is the first position that holds the name.
pub proof fn lemma_field_index(fields: Seq<FieldView>, name: Seq<char>)
    ensures
        0 <= field_index(fields, name) <= fields.len(),
        field_index(fields, name) < fields.len() <==> has_field(fields, name),
        field_index(fields, name) < fields.len() ==> fields[field_index(fields, name)].name == name,
        forall|j: int| 0 <= j < field_index(fields, name) ==> (#[trigger] fields[j]).name != name,
    decreases fields.len(),
{
    if fields.len() > 0 && fields[0].name != name {
        let rest = fields.drop_first();
        lemma_field_index(rest, name);
        assert forall|j: int| 0 <= j < field_index(fields, name) implies (
        #[trigger] fields[j]).name != name by {
            if j > 0 {
                assert(rest[j - 1] == fields[j]);
            }
        }
        if has_field(fields, name) {
            let j = choose|j: int| 0 <= j < fields.len() && (#[trigger] fields[j]).name == name;
            assert(rest[j - 1] == fields[j]);
        }
    }
}

/// A position that holds the name, with none before it, is the field's index.
pub proof fn lemma_field_index_is(fields: Seq<FieldView>, name: Seq<char>, i: int)
    requires
        0 <= i <= fields.len(),
        i < fields.len() ==> fields[i].name == name,
        forall|j: int| 0 <= j < i ==> (#[trigger] fields[j]).name != name,
    ensures
        field_index(fields, name) == i,
{
    lemma_field_index(fields, name);
    let k = field_index(fields, name);
    if k < i {
        assert(fields[k].name != name);
    }
    if i < k {
        assert(fields[i].name != name);
    }
}

/// Reading a field after it was set gives the value back, and no other field changes.
pub proof fn law_set_then_read(
    fields: Seq<FieldView>,
    name: Seq<char>,
    value: ValueView,
    other: Seq<char>,
)
    ensures
        field_value(with_field(fields, name, value), name) == Some(value),
        other != name ==> field_value(with_field(fields, name, value), other) == field_value(
            fields,
            other,
        ),
{
    let after = with_field(fields, name, value);
    lemma_field_index(fields, name);
    let i = field_index(fields, name);
    lemma_field_index_is(after, name, i);
    if other != name {
        lemma_field_index(fields, other);
        let k = field_index(fields, other);
        if k < fields.len() {
            lemma_field_index_is(after, other, k);
        } else {
            assert forall|j: int| 0 <= j < after.len() implies (#[trigger] after[j]).name
                != other by {
                if j < fields.len() {
                    assert(fields[j].name != other);
                }
            }
            lemma_field_index_is(after, other, after.len() as int);
        }
    }
}

/// Setting a field and setting it back to the value it had leaves every field as it was.
pub proof fn law_set_back(fields: Seq<FieldView>, name: Seq<char>, value: ValueView)
    requires
        has_field(fields, name),
    ensures
        with_field(with_field(fields, name, value), name, field_value(fields, name)->0) == fields,
{
    lemma_field_index(fields, name);
    let i = field_index(fields, name);
    let after = with_field(fields, name, value);
    lemma_field_index_is(after, name, i);
    assert(with_field(after, name, fields[i].value) =~= fields);
}

/// Removing a field that a set wrote out for the first time leaves every field as it was.
pub proof fn law_remove_new(fields: Seq<FieldView>, name: Seq<char>, value: ValueView)
    requires
        !has_field(fields, name),
    ensures
        without_field(with_field(fields, name, value), name) == fields,
{
    lemma_field_index(fields, name);
    let after = with_field(fields, name, value);
    lemma_field_index_is(after, name, fields.len() as int);
    assert(after.remove(fields.len() as int) =~= fields);
}

/// The position of the first field called `name`, or the number of fields.
pub fn find_field(fields: &Vec<BsnField>, name: &str) -> (r: usize)
    ensures
        r == field_index(fields_view(fields@), name@),
        r <= fields.len(),
{
    let mut i: usize = 0;
    while i < fields.len()
        invariant
            i <= fields.len(),
            forall|j: int|
                0 <= j < i ==> (#[trigger] fields_view(fields@)[j]).name != name@,
        decreases fields.len() - i,
    {
        if crate::text::text_eq(fields[i].name.as_str(), name) {
            proof {
                lemma_field_index_is(fields_view(fields@), name@, i as int);
            }
            return i;
        }
        i = i + 1;
    }
    proof {
        lemma_field_index_is(fields_view(fields@), name@, i as int);
    }
    i
}

/// The value of the field `name`, if it is written out.
pub fn get_field(fields: &Vec<BsnField>, name: &str) -> (r: Option<BsnValue>)
    ensures
        match r {
            Some(v) => field_value(fields_view(fields@), name@) == Some(v@),
            None => field_value(fields_view(fields@), name@) is None,
        },
{
    let i: usize = find_field(fields, name);
    if i < fields.len() {
        Some(fields[i].value.copy())
    } else {
        None
    }
}

/// Sets the field `name`: in its place when it is written out, else at the end.
pub fn put_field(fields: &mut Vec<BsnField>, name: &str, value: BsnValue)
    ensures
        fields_view(final(fields)@) == with_field(fields_view(old(fields)@), name@, value@),
{
    let i: usize = find_field(fields, name);
    if i < fields.len() {
        let kept: String = fields[i].name.clone();
        fields.set(i, BsnField { name: kept, value });
    } else {
        fields.push(BsnField { name: name.to_owned(), value });
    }
    assert(fields_view(fields@) =~= with_field(fields_view(old(fields)@), name@, value@));
}

/// Removes the first field called `name`.
pub fn drop_field(fields: &mut Vec<BsnField>, name: &str)
    ensures
        fields_view(final(fields)@) == without_field(fields_view(old(fields)@), name@),
{
    let i: usize = find_field(fields, name);
    if i < fields.len() {
        fields.remove(i);
    }
    assert(fields_view(fields@) =~= without_field(fields_view(old(fields)@), name@));
}

} // verus!
