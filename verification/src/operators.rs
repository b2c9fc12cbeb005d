//! Operators: what they report, how they are registered and which keys run them.
use vstd::prelude::*;
use crate::seqs::{first_index, lemma_first_index_is};
use crate::text::{text_eq, text_of};
use crate::value::Entity;

verus! {

/// What an operator reports.
#[derive(Clone, Copy, Debug, PartialEq, Eq, Structural)]
pub enum OperatorResult {
    Finished,
    Cancelled,
    Running,
}

/// A key that runs an operator, with the modifiers that have to be held.
#[derive(Clone, Copy, Debug)]
pub struct KeyInput {
    pub key: &'static str,
    pub ctrl: bool,
    pub shift: bool,
    pub alt: bool,
    /// Whether the operator runs once for each press, rather than while the key is down.
    pub on_press: bool,
}

impl KeyInput {
    pub open spec fn key_spec(key: &'static str) -> KeyInput {
        KeyInput { key, ctrl: false, shift: false, alt: false, on_press: true }
    }

    /// A key without modifiers, for each press.
    pub fn key(key: &'static str) -> (r: KeyInput)
        ensures
            r == KeyInput::key_spec(key),
    {
        KeyInput { key, ctrl: false, shift: false, alt: false, on_press: true }
    }

    pub open spec fn ctrl_spec(self) -> KeyInput {
        KeyInput { ctrl: true, ..self }
    }

    /// The same key with the control key held.
    pub fn ctrl(self) -> (r: KeyInput)
        ensures
            r == self.ctrl_spec(),
    {
        KeyInput { ctrl: true, ..self }
    }

    pub open spec fn shift_spec(self) -> KeyInput {
        KeyInput { shift: true, ..self }
    }

    /// The same key with the shift key held.
    pub fn shift(self) -> (r: KeyInput)
        ensures
            r == self.shift_spec(),
    {
        KeyInput { shift: true, ..self }
    }

    pub open spec fn alt_spec(self) -> KeyInput {
        KeyInput { alt: true, ..self }
    }

    /// The same key with the alternate key held.
    pub fn alt(self) -> (r: KeyInput)
        ensures
            r == self.alt_spec(),
    {
        KeyInput { alt: true, ..self }
    }

    pub open spec fn held_spec(key: &'static str) -> KeyInput {
        KeyInput { on_press: false, ..KeyInput::key_spec(key) }
    }

    /// A key without modifiers, for as long as it is down.
    pub fn held(key: &'static str) -> (r: KeyInput)
        ensures
            r == KeyInput::held_spec(key),
    {
        KeyInput { key, ctrl: false, shift: false, alt: false, on_press: false }
    }
}

/// A key bound to an operator.
#[derive(Clone, Copy, Debug)]
pub struct Binding {
    pub operator: &'static str,
    pub input: KeyInput,
}

pub open spec fn bound(operator: &'static str, input: KeyInput) -> Binding {
    Binding { operator, input }
}

/// A key bound to an operator.
pub fn bind(operator: &'static str, input: KeyInput) -> (r: Binding)
    ensures
        r == bound(operator, input),
{
    Binding { operator, input }
}

/// What an extension brings: its operators by the names of their types, the keys bound to them, and
/// the parts of the editor that register operators of their own.
#[derive(Debug)]
pub struct ExtensionContext {
    pub operators: Vec<&'static str>,
    pub bindings: Vec<Binding>,
    pub features: Vec<&'static str>,
}

/// Appends copies of the items of `more`.
fn append<T: Copy>(items: &mut Vec<T>, more: &Vec<T>)
    ensures
        final(items)@ == old(items)@ + more@,
{
    let ghost start = items@;
    let mut i: usize = 0;
    while i < more.len()
        invariant
            i <= more.len(),
            items@ == start + more@.subrange(0, i as int),
        decreases more.len() - i,
    {
        items.push(more[i]);
        assert(items@ =~= start + more@.subrange(0, i + 1));
        i = i + 1;
    }
    assert(more@.subrange(0, i as int) =~= more@);
}

impl ExtensionContext {
    pub fn new() -> (r: ExtensionContext)
        ensures
            r.operators@ == Seq::<&'static str>::empty(),
            r.bindings@ == Seq::<Binding>::empty(),
            r.features@ == Seq::<&'static str>::empty(),
    {
        ExtensionContext { operators: Vec::new(), bindings: Vec::new(), features: Vec::new() }
    }

    /// Registers operators, in order.
    pub fn register_operators(&mut self, operators: &Vec<&'static str>)
        ensures
            final(self).operators@ == old(self).operators@ + operators@,
            final(self).bindings@ == old(self).bindings@,
            final(self).features@ == old(self).features@,
    {
        append(&mut self.operators, operators);
    }

    /// Binds keys to operators, in order.
    pub fn bind_operators(&mut self, bindings: &Vec<Binding>)
        ensures
            final(self).operators@ == old(self).operators@,
            final(self).bindings@ == old(self).bindings@ + bindings@,
            final(self).features@ == old(self).features@,
    {
        append(&mut self.bindings, bindings);
    }

    /// Notes the parts of the editor that register operators of their own, in order.
    pub fn add_features(&mut self, features: &Vec<&'static str>)
        ensures
            final(self).operators@ == old(self).operators@,
            final(self).bindings@ == old(self).bindings@,
            final(self).features@ == old(self).features@ + features@,
    {
        append(&mut self.features, features);
    }
}

/// Whether every key is bound to an operator that is registered.
pub open spec fn bindings_resolve(operators: Seq<&'static str>, bindings: Seq<Binding>) -> bool {
    forall|i: int|
        0 <= i < bindings.len() ==> operators.contains((#[trigger] bindings[i]).operator)
}

/// A value that an operator is called with.
#[derive(Debug)]
pub enum PropertyValue {
    Entity(Entity),
    Text(String),
    /// A number, by its bits.
    Float(u64),
    Bool(bool),
}

/// What an operator is called with: values by their names.
#[derive(Debug)]
pub struct OperatorParameters {
    pub entries: Vec<(String, PropertyValue)>,
}

pub open spec fn has_key(key: Seq<char>) -> spec_fn((String, PropertyValue)) -> bool {
    |e: (String, PropertyValue)| e.0@ == key
}

impl OperatorParameters {
    pub fn new() -> (r: OperatorParameters)
        ensures
            r.entries@ == Seq::<(String, PropertyValue)>::empty(),
    {
        OperatorParameters { entries: Vec::new() }
    }

    /// The value with a name: the first one, if there is one.
    pub open spec fn value(self, key: Seq<char>) -> Option<PropertyValue> {
        let i = first_index(self.entries@, has_key(key));
        if i < self.entries@.len() {
            Some(self.entries@[i].1)
        } else {
            None
        }
    }

    fn find(&self, key: &str) -> (r: Option<usize>)
        ensures
            match r {
                Some(i) => i < self.entries@.len() && self.value(key@) == Some(
                    self.entries@[i as int].1,
                ),
                None => self.value(key@) is None,
            },
    {
        let ghost p = has_key(key@);
        let mut i: usize = 0;
        while i < self.entries.len()
            invariant
                i <= self.entries.len(),
                p == has_key(key@),
                forall|j: int| 0 <= j < i ==> !p(#[trigger] self.entries@[j]),
            decreases self.entries.len() - i,
        {
            if text_eq(self.entries[i].0.as_str(), key) {
                proof {
                    lemma_first_index_is(self.entries@, p, i as int);
                }
                return Some(i);
            }
            i = i + 1;
        }
        proof {
            lemma_first_index_is(self.entries@, p, self.entries@.len() as int);
        }
        None
    }

    /// The entity with a name, if there is one.
    pub fn as_entity(&self, key: &str) -> (r: Option<Entity>)
        ensures
            r == (match self.value(key@) {
                Some(PropertyValue::Entity(e)) => Some(e),
                _ => None,
            }),
    {
        match self.find(key) {
            Some(i) => match &self.entries[i].1 {
                PropertyValue::Entity(e) => Some(*e),
                _ => None,
            },
            None => None,
        }
    }

    /// The text with a name, if there is one.
    pub fn as_str(&self, key: &str) -> (r: Option<String>)
        ensures
            text_of(r) == (match self.value(key@) {
                Some(PropertyValue::Text(t)) => Some(t@),
                _ => None,
            }),
    {
        match self.find(key) {
            Some(i) => match &self.entries[i].1 {
                PropertyValue::Text(t) => Some(t.clone()),
                _ => None,
            },
            None => None,
        }
    }

    /// The bits of the number with a name, if there is one.
    pub fn as_float(&self, key: &str) -> (r: Option<u64>)
        ensures
            r == (match self.value(key@) {
                Some(PropertyValue::Float(x)) => Some(x),
                _ => None,
            }),
    {
        match self.find(key) {
            Some(i) => match &self.entries[i].1 {
                PropertyValue::Float(x) => Some(*x),
                _ => None,
            },
            None => None,
        }
    }
}

/// A key runs its operator once for each press, with no other key held, unless said otherwise; each
/// modifier adds itself alone.
pub proof fn law_keys_and_modifiers(key: &'static str, input: KeyInput)
    ensures
        ({
            let k = KeyInput::key_spec(key);
            let h = KeyInput::held_spec(key);
            &&& k.key == key && h.key == key
            &&& k.on_press && !h.on_press
            &&& !k.ctrl && !k.shift && !k.alt && !h.ctrl && !h.shift && !h.alt
            &&& input.ctrl_spec().ctrl && input.ctrl_spec().shift == input.shift
                && input.ctrl_spec().alt == input.alt && input.ctrl_spec().key == input.key
            &&& input.shift_spec().shift && input.shift_spec().ctrl == input.ctrl
                && input.shift_spec().alt == input.alt && input.shift_spec().key == input.key
            &&& input.alt_spec().alt && input.alt_spec().ctrl == input.ctrl
                && input.alt_spec().shift == input.shift && input.alt_spec().key == input.key
            &&& input.ctrl_spec().on_press == input.on_press && input.shift_spec().on_press
                == input.on_press && input.alt_spec().on_press == input.on_press
        }),
{
}

/// Of several values under one name an operator gets the first.
pub proof fn law_first_parameter_counts(p: OperatorParameters, key: Seq<char>, i: int)
    requires
        0 <= i < p.entries@.len(),
        p.entries@[i].0@ == key,
        forall|j: int| 0 <= j < i ==> (#[trigger] p.entries@[j]).0@ != key,
    ensures
        p.value(key) == Some(p.entries@[i].1),
{
    lemma_first_index_is(p.entries@, has_key(key), i);
}

} // verus!
