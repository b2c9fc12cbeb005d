//! Editing the elements of brushes: modes, the selection of elements, and picking.
use vstd::prelude::*;
use crate::seqs::{first_index, lemma_first_index, lemma_first_index_is};
use crate::value::Entity;

verus! {

/// What kind of element is edited.
#[derive(Clone, Copy, Debug, PartialEq, Eq, Structural)]
pub enum BrushEditMode {
    Vertex,
    Edge,
    Face,
    Clip,
}

/// Whether whole entities or elements of brushes are edited.
#[derive(Clone, Copy, Debug, PartialEq, Eq, Structural)]
pub enum EditMode {
    Object,
    BrushEdit(BrushEditMode),
}

/// An element of a brush, by its index or the indices of its ends.
#[derive(Clone, Copy, Debug, PartialEq, Eq, Structural)]
pub enum Element {
    Face(usize),
    Vertex(usize),
    Edge(usize, usize),
}

/// The kinds of elements.
#[derive(Clone, Copy, Debug, PartialEq, Eq, Structural)]
pub enum ElementKind {
    Face,
    Vertex,
    Edge,
}

impl Element {
    pub open spec fn kind_spec(self) -> ElementKind {
        match self {
            Element::Face(_) => ElementKind::Face,
            Element::Vertex(_) => ElementKind::Vertex,
            Element::Edge(_, _) => ElementKind::Edge,
        }
    }

    pub fn kind(self) -> (r: ElementKind)
        ensures
            r == self.kind_spec(),
    {
        match self {
            Element::Face(_) => ElementKind::Face,
            Element::Vertex(_) => ElementKind::Vertex,
            Element::Edge(_, _) => ElementKind::Edge,
        }
    }
}

/// The selected elements of one brush.
#[derive(Debug)]
pub struct BrushSubSelection {
    pub brush: Entity,
    pub elements: Vec<Element>,
}

/// The brushes that are edited, with their selected elements, and the one that a drag is bound to.
#[derive(Debug)]
pub struct BrushSelection {
    pub active_brush: Option<Entity>,
    pub subs: Vec<BrushSubSelection>,
}

/// What a [`BrushSubSelection`] stands for.
pub ghost struct SubView {
    pub brush: Entity,
    pub elements: Seq<Element>,
}

/// What a [`BrushSelection`] stands for.
#[verifier::ext_equal]
pub ghost struct SelectionView {
    pub active: Option<Entity>,
    pub subs: Seq<SubView>,
}

impl View for BrushSubSelection {
    type V = SubView;

    open spec fn view(&self) -> SubView {
        SubView { brush: self.brush, elements: self.elements@ }
    }
}

pub open spec fn subs_view(subs: Seq<BrushSubSelection>) -> Seq<SubView> {
    Seq::new(subs.len(), |i: int| subs[i]@)
}

impl View for BrushSelection {
    type V = SelectionView;

    open spec fn view(&self) -> SelectionView {
        SelectionView { active: self.active_brush, subs: subs_view(self.subs@) }
    }
}

pub open spec fn is_sub(brush: Entity) -> spec_fn(SubView) -> bool {
    |s: SubView| s.brush == brush
}

pub open spec fn is_element(e: Element) -> spec_fn(Element) -> bool {
    |x: Element| x == e
}

pub open spec fn of_kind(kind: ElementKind) -> spec_fn(Element) -> bool {
    |x: Element| x.kind_spec() == kind
}

pub open spec fn of_other_kind(kind: ElementKind) -> spec_fn(Element) -> bool {
    |x: Element| x.kind_spec() != kind
}

/// Elements with one added, or taken out when it is there.
pub open spec fn toggled(elements: Seq<Element>, e: Element) -> Seq<Element> {
    let i = first_index(elements, is_element(e));
    if i < elements.len() {
        elements.remove(i)
    } else {
        elements.push(e)
    }
}

/// Elements with one in place of all of its kind.
pub open spec fn with_only(elements: Seq<Element>, e: Element) -> Seq<Element> {
    elements.filter(of_other_kind(e.kind_spec())).push(e)
}

impl SelectionView {
    /// The selected elements of a brush.
    pub open spec fn elements(self, brush: Entity) -> Seq<Element> {
        let i = first_index(self.subs, is_sub(brush));
        if i < self.subs.len() {
            self.subs[i].elements
        } else {
            Seq::empty()
        }
    }

    /// The selected elements of one kind of a brush.
    pub open spec fn elements_of_kind(self, brush: Entity, kind: ElementKind) -> Seq<Element> {
        self.elements(brush).filter(of_kind(kind))
    }

    /// The selection with other elements selected of a brush.
    pub open spec fn with_elements(self, brush: Entity, elements: Seq<Element>) -> SelectionView {
        let i = first_index(self.subs, is_sub(brush));
        SelectionView {
            subs: if i < self.subs.len() {
                self.subs.update(i, SubView { brush: self.subs[i].brush, elements })
            } else {
                self.subs.push(SubView { brush, elements })
            },
            ..self
        }
    }

    /// The selection with no element selected of any brush.
    pub open spec fn deselected(self) -> SelectionView {
        SelectionView {
            subs: Seq::new(
                self.subs.len(),
                |i: int| SubView { brush: self.subs[i].brush, elements: Seq::empty() },
            ),
            ..self
        }
    }

    /// Nothing edited at all.
    pub open spec fn nothing() -> SelectionView {
        SelectionView { active: None, subs: Seq::empty() }
    }

    /// Whether a brush is edited.
    pub open spec fn edits(self, brush: Entity) -> bool {
        first_index(self.subs, is_sub(brush)) < self.subs.len()
    }
}

/// The elements that were written for a brush are read back, and those of every other brush stay. The
/// brush is then edited, the active brush stays, and no other brush begins or ceases to be edited.
pub proof fn law_elements_written(sel: SelectionView, brush: Entity, elements: Seq<Element>)
    ensures
        sel.with_elements(brush, elements).elements(brush) == elements,
        sel.with_elements(brush, elements).edits(brush),
        sel.with_elements(brush, elements).active == sel.active,
        forall|b: Entity|
            b != brush ==> #[trigger] sel.with_elements(brush, elements).elements(b)
                == sel.elements(b),
        forall|b: Entity|
            b != brush ==> #[trigger] sel.with_elements(brush, elements).edits(b) == sel.edits(b),
{
    let after = sel.with_elements(brush, elements);
    let at = first_index(sel.subs, is_sub(brush));
    lemma_first_index(sel.subs, is_sub(brush));
    assert forall|j: int| 0 <= j < at implies !is_sub(brush)(#[trigger] after.subs[j]) by {
        assert(!is_sub(brush)(sel.subs[j]));
    }
    lemma_first_index_is(after.subs, is_sub(brush), at);
    assert forall|b: Entity| b != brush implies #[trigger] after.elements(b) == sel.elements(b)
        && after.edits(b) == sel.edits(b) by {
        let i = first_index(sel.subs, is_sub(b));
        lemma_first_index(sel.subs, is_sub(b));
        let to = if i < sel.subs.len() {
            i
        } else {
            after.subs.len() as int
        };
        assert forall|j: int| 0 <= j < to implies !is_sub(b)(#[trigger] after.subs[j]) by {
            if j < sel.subs.len() {
                assert(!is_sub(b)(sel.subs[j]));
            }
        }
        if i < sel.subs.len() {
            assert(is_sub(b)(sel.subs[i]));
            assert(i != at);
        }
        lemma_first_index_is(after.subs, is_sub(b), to);
    }
    assert forall|b: Entity| b != brush implies #[trigger] after.edits(b) == sel.edits(b) by {
        assert(after.elements(b) == sel.elements(b));
    }
}

impl BrushSelection {
    pub fn new() -> (r: BrushSelection)
        ensures
            r@ == SelectionView::nothing(),
    {
        let r: BrushSelection = BrushSelection { active_brush: None, subs: Vec::new() };
        assert(r@ =~= SelectionView::nothing());
        r
    }

    pub(crate) fn find(&self, brush: Entity) -> (r: Option<usize>)
        ensures
            match r {
                Some(i) => i == first_index(self@.subs, is_sub(brush)) && i < self.subs@.len(),
                None => !self@.edits(brush),
            },
    {
        let ghost p = is_sub(brush);
        let mut i: usize = 0;
        while i < self.subs.len()
            invariant
                i <= self.subs.len(),
                p == is_sub(brush),
                forall|j: int| 0 <= j < i ==> !p(#[trigger] self@.subs[j]),
            decreases self.subs.len() - i,
        {
            assert(self@.subs[i as int] == self.subs@[i as int]@);
            if self.subs[i].brush == brush {
                proof {
                    lemma_first_index_is(self@.subs, p, i as int);
                }
                return Some(i);
            }
            i = i + 1;
        }
        proof {
            lemma_first_index_is(self@.subs, p, self@.subs.len() as int);
        }
        None
    }

    /// The selected elements of a brush.
    pub fn elements(&self, brush: Entity) -> (r: Vec<Element>)
        ensures
            r@ == self@.elements(brush),
    {
        match self.find(brush) {
            Some(i) => {
                assert(self@.subs[i as int] == self.subs@[i as int]@);
                crate::brush::copy_list(&self.subs[i].elements)
            },
            None => Vec::new(),
        }
    }

    /// The selected elements of one kind of a brush.
    pub fn elements_of_kind(&self, brush: Entity, kind: ElementKind) -> (r: Vec<Element>)
        ensures
            r@ == self@.elements_of_kind(brush, kind),
    {
        let all: Vec<Element> = self.elements(brush);
        keep_kind(&all, kind, true)
    }

    /// Selects other elements of a brush.
    pub fn set_elements(&mut self, brush: Entity, elements: Vec<Element>)
        ensures
            final(self)@ == old(self)@.with_elements(brush, elements@),
    {
        let ghost before = self@;
        let ghost els = elements@;
        match self.find(brush) {
            Some(i) => {
                let sub: &mut BrushSubSelection = &mut self.subs[i];
                sub.elements = elements;
            },
            None => {
                self.subs.push(BrushSubSelection { brush, elements });
            },
        }
        assert(self@.subs =~= before.with_elements(brush, els).subs);
    }

    /// Adds an element to those of a brush, or takes it out when it is there.
    pub fn toggle(&mut self, brush: Entity, e: Element)
        ensures
            final(self)@ == old(self)@.with_elements(
                brush,
                toggled(old(self)@.elements(brush), e),
            ),
    {
        let mut elements: Vec<Element> = self.elements(brush);
        let ghost all = elements@;
        let ghost p = is_element(e);
        let n: usize = elements.len();
        let mut i: usize = 0;
        while i < n && elements[i] != e
            invariant
                i <= n,
                n == elements.len(),
                elements@ == all,
                p == is_element(e),
                forall|j: int| 0 <= j < i ==> !p(#[trigger] all[j]),
            decreases n - i,
        {
            i = i + 1;
        }
        proof {
            if i < n {
                lemma_first_index_is(all, p, i as int);
            } else {
                lemma_first_index_is(all, p, n as int);
            }
        }
        if i < n {
            elements.remove(i);
        } else {
            elements.push(e);
        }
        assert(elements@ =~= toggled(all, e));
        self.set_elements(brush, elements);
    }

    /// Selects one element of a brush in place of all of its kind.
    pub fn select_only(&mut self, brush: Entity, e: Element)
        ensures
            final(self)@ == old(self)@.with_elements(
                brush,
                with_only(old(self)@.elements(brush), e),
            ),
    {
        let all: Vec<Element> = self.elements(brush);
        let mut elements: Vec<Element> = keep_kind(&all, e.kind(), false);
        elements.push(e);
        self.set_elements(brush, elements);
    }

    /// Deselects every element, and keeps the brushes that are edited.
    pub fn clear_sub_selections(&mut self)
        ensures
            final(self)@ == old(self)@.deselected(),
    {
        let ghost before = self@;
        let n: usize = self.subs.len();
        let mut i: usize = 0;
        while i < n
            invariant
                i <= n,
                n == before.subs.len(),
                self@.subs.len() == n,
                self.active_brush == before.active,
                before == old(self)@,
                forall|j: int|
                    0 <= j < n ==> (#[trigger] self@.subs[j]) == (if j < i {
                        (SubView { brush: before.subs[j].brush, elements: Seq::empty() })
                    } else {
                        before.subs[j]
                    }),
            decreases n - i,
        {
            let ghost now = self@.subs;
            assert(now[i as int] == before.subs[i as int]);
            assert(self.subs@[i as int]@ == before.subs[i as int]);
            let sub: &mut BrushSubSelection = &mut self.subs[i];
            sub.elements = Vec::new();
            assert(self@.subs =~= now.update(
                i as int,
                SubView { brush: before.subs[i as int].brush, elements: Seq::empty() },
            ));
            i = i + 1;
        }
        assert(self@.subs =~= before.deselected().subs);
    }

    /// Ends the editing of every brush.
    pub fn clear(&mut self)
        ensures
            final(self)@ == SelectionView::nothing(),
    {
        self.active_brush = None;
        self.subs = Vec::new();
        assert(self@.subs =~= Seq::empty());
    }
}

/// The elements of a kind, or those of the other kinds.
fn keep_kind(all: &Vec<Element>, kind: ElementKind, same: bool) -> (r: Vec<Element>)
    ensures
        r@ == all@.filter(if same {
            of_kind(kind)
        } else {
            of_other_kind(kind)
        }),
{
    let ghost p = if same {
        of_kind(kind)
    } else {
        of_other_kind(kind)
    };
    let mut out: Vec<Element> = Vec::new();
    let mut i: usize = 0;
    assert(all@.subrange(0, 0).filter(p) =~= Seq::empty()) by {
        reveal(Seq::filter);
    }
    while i < all.len()
        invariant
            i <= all.len(),
            p == (if same {
                of_kind(kind)
            } else {
                of_other_kind(kind)
            }),
            out@ == all@.subrange(0, i as int).filter(p),
        decreases all.len() - i,
    {
        proof {
            let cut = all@.subrange(0, i as int);
            assert(all@.subrange(0, i + 1) =~= cut.push(all@[i as int]));
            crate::seqs::lemma_filter_push(cut, all@[i as int], p);
        }
        if (all[i].kind() == kind) == same {
            out.push(all[i]);
        }
        i = i + 1;
    }
    assert(all@.subrange(0, i as int) =~= all@);
    out
}

/// Clicking the same element with the control key twice leaves the same elements selected; where it
/// was not selected before, also in the same order.
pub proof fn law_toggle_element_twice(elements: Seq<Element>, e: Element)
    requires
        elements.contains(e) ==> elements.no_duplicates(),
    ensures
        !elements.contains(e) ==> toggled(toggled(elements, e), e) == elements,
        forall|x: Element|
            toggled(toggled(elements, e), e).contains(x) <==> elements.contains(x),
{
    let p = is_element(e);
    lemma_first_index(elements, p);
    let i = first_index(elements, p);
    if elements.contains(e) {
        let at = choose|j: int| 0 <= j < elements.len() && elements[j] == e;
        assert(p(elements[at]));
        assert(i < elements.len() && elements[i] == e);
        let once = elements.remove(i);
        assert forall|j: int| 0 <= j < once.len() implies !p(#[trigger] once[j]) by {
            if j < i {
                assert(once[j] == elements[j]);
            } else {
                assert(once[j] == elements[j + 1]);
            }
        }
        lemma_first_index_is(once, p, once.len() as int);
        let twice = once.push(e);
        assert(toggled(toggled(elements, e), e) == twice);
        assert forall|x: Element| twice.contains(x) <==> elements.contains(x) by {
            if elements.contains(x) {
                let k = choose|k: int| 0 <= k < elements.len() && elements[k] == x;
                if k < i {
                    assert(twice[k] == x);
                } else if k > i {
                    assert(twice[k - 1] == x);
                } else {
                    assert(twice[once.len() as int] == x);
                }
            }
            if twice.contains(x) {
                let k = choose|k: int| 0 <= k < twice.len() && twice[k] == x;
                if k < i {
                    assert(elements[k] == x);
                } else if k < once.len() {
                    assert(elements[k + 1] == x);
                }
            }
        }
    } else {
        assert(i == elements.len()) by {
            if i < elements.len() {
                assert(elements[i] == e);
            }
        }
        let once = elements.push(e);
        assert forall|j: int| 0 <= j < elements.len() implies !p(#[trigger] once[j]) by {
            assert(once[j] == elements[j]);
        }
        lemma_first_index_is(once, p, elements.len() as int);
        assert(once.remove(elements.len() as int) =~= elements);
    }
}

/// Something under the pointer, or near it. The distance is that of a number that is not negative,
/// by its bits: such bits are ordered like the numbers.
#[derive(Clone, Copy, Debug, PartialEq, Eq, Structural)]
pub struct Candidate {
    pub brush: Entity,
    pub hit: bool,
    /// The element that was authored; none for what only a modifier made.
    pub element: Option<Element>,
    pub distance: u32,
}

/// Every distance is less: the bits of the largest number.
pub const ANY_DISTANCE: u32 = 0x7f7f_ffff;

/// How near to the pointer a corner or an edge is picked: the bits of twenty.
pub const PICK_RADIUS: u32 = 0x41a0_0000;

impl Candidate {
    /// A face, with the numbers of its corners and of those on the screen. It is hit when it has at
    /// least three of both and the pointer is inside of it.
    pub fn face(
        brush: Entity,
        corners: usize,
        projected: usize,
        inside: bool,
        authored: Option<usize>,
        depth: u32,
    ) -> (r: Candidate)
        ensures
            r == (Candidate {
                brush,
                hit: corners >= 3 && projected >= 3 && inside,
                element: match authored {
                    Some(f) => Some(Element::Face(f)),
                    None => None,
                },
                distance: depth,
            }),
    {
        Candidate {
            brush,
            hit: corners >= 3 && projected >= 3 && inside,
            element: match authored {
                Some(f) => Some(Element::Face(f)),
                None => None,
            },
            distance: depth,
        }
    }
}

/// The element that is picked, and its distance: the nearest one below the limit, and of those
/// equally near the first.
pub open spec fn nearest(
    candidates: Seq<Candidate>,
    eligible: spec_fn(Candidate) -> bool,
    limit: u32,
) -> (Option<(Entity, Element)>, u32)
    decreases candidates.len(),
{
    if candidates.len() == 0 {
        (None, limit)
    } else {
        let best = nearest(candidates.drop_last(), eligible, limit);
        let c = candidates.last();
        match c.element {
            Some(e) => if eligible(c) && c.hit && c.distance < best.1 {
                (Some((c.brush, e)), c.distance)
            } else {
                best
            },
            None => best,
        }
    }
}

/// A candidate of a brush that is edited.
pub open spec fn of_edited(sel: SelectionView) -> spec_fn(Candidate) -> bool {
    |c: Candidate| sel.edits(c.brush)
}

/// A candidate of one brush.
pub open spec fn of_brush(brush: Entity) -> spec_fn(Candidate) -> bool {
    |c: Candidate| c.brush == brush
}

/// The element that is picked among those of the edited brushes.
pub fn pick_edited(sel: &BrushSelection, candidates: &Vec<Candidate>, limit: u32) -> (r: Option<
    (Entity, Element),
>)
    ensures
        r == nearest(candidates@, of_edited(sel@), limit).0,
{
    let mut best: Option<(Entity, Element)> = None;
    let mut distance: u32 = limit;
    let mut i: usize = 0;
    assert(candidates@.subrange(0, 0) =~= Seq::empty());
    while i < candidates.len()
        invariant
            i <= candidates.len(),
            (best, distance) == nearest(
                candidates@.subrange(0, i as int),
                of_edited(sel@),
                limit,
            ),
        decreases candidates.len() - i,
    {
        proof {
            assert(candidates@.subrange(0, i + 1).drop_last() =~= candidates@.subrange(
                0,
                i as int,
            ));
            assert(candidates@.subrange(0, i + 1).last() == candidates@[i as int]);
        }
        let c: Candidate = candidates[i];
        if let Some(e) = c.element {
            if c.hit && c.distance < distance && sel.find(c.brush).is_some() {
                best = Some((c.brush, e));
                distance = c.distance;
            }
        }
        i = i + 1;
    }
    assert(candidates@.subrange(0, i as int) =~= candidates@);
    best
}

/// The element that is picked among those of one brush.
pub fn pick_on(brush: Entity, candidates: &Vec<Candidate>, limit: u32) -> (r: Option<
    (Entity, Element),
>)
    ensures
        r == nearest(candidates@, of_brush(brush), limit).0,
{
    let mut best: Option<(Entity, Element)> = None;
    let mut distance: u32 = limit;
    let mut i: usize = 0;
    assert(candidates@.subrange(0, 0) =~= Seq::empty());
    while i < candidates.len()
        invariant
            i <= candidates.len(),
            (best, distance) == nearest(candidates@.subrange(0, i as int), of_brush(brush), limit),
        decreases candidates.len() - i,
    {
        proof {
            assert(candidates@.subrange(0, i + 1).drop_last() =~= candidates@.subrange(
                0,
                i as int,
            ));
            assert(candidates@.subrange(0, i + 1).last() == candidates@[i as int]);
        }
        let c: Candidate = candidates[i];
        if let Some(e) = c.element {
            if c.hit && c.distance < distance && c.brush == brush {
                best = Some((c.brush, e));
                distance = c.distance;
            }
        }
        i = i + 1;
    }
    assert(candidates@.subrange(0, i as int) =~= candidates@);
    best
}

/// What is picked is among the candidates that count, and none of them is nearer. Nothing is picked
/// only when none of them is below the limit.
pub proof fn law_nearest_is_picked(
    candidates: Seq<Candidate>,
    eligible: spec_fn(Candidate) -> bool,
    limit: u32,
)
    ensures
        ({
            let best = nearest(candidates, eligible, limit);
            &&& best.1 <= limit
            &&& best.0 is Some == (best.1 < limit)
            &&& forall|i: int|
                0 <= i < candidates.len() && eligible(#[trigger] candidates[i])
                    && candidates[i].hit && candidates[i].element is Some ==> best.1
                    <= candidates[i].distance || candidates[i].distance >= limit
            &&& best.0 matches Some(p) ==> exists|i: int|
                0 <= i < candidates.len() && eligible(#[trigger] candidates[i])
                    && candidates[i].hit && candidates[i].element == Some(p.1)
                    && candidates[i].brush == p.0 && candidates[i].distance == best.1
        }),
    decreases candidates.len(),
{
    if candidates.len() > 0 {
        let init = candidates.drop_last();
        law_nearest_is_picked(init, eligible, limit);
        let before = nearest(init, eligible, limit);
        let best = nearest(candidates, eligible, limit);
        assert forall|i: int|
            0 <= i < candidates.len() && eligible(#[trigger] candidates[i]) && candidates[i].hit
                && candidates[i].element is Some implies best.1 <= candidates[i].distance
            || candidates[i].distance >= limit by {
            if i < init.len() {
                assert(init[i] == candidates[i]);
            }
        }
        if let Some(p) = best.0 {
            let c = candidates.last();
            if c.element is Some && eligible(c) && c.hit && c.distance < before.1 {
                assert(candidates[candidates.len() - 1] == c);
            } else {
                let i = choose|i: int|
                    0 <= i < init.len() && eligible(#[trigger] init[i]) && init[i].hit
                        && init[i].element == Some(p.1) && init[i].brush == p.0
                        && init[i].distance == before.1;
                assert(candidates[i] == init[i]);
            }
        }
    }
}

/// Of the candidates that can be picked, one that is nearer than all before it and no farther than any
/// after it is picked: the nearest, and of those equally near the first.
pub proof fn law_first_of_the_nearest_is_picked(
    candidates: Seq<Candidate>,
    eligible: spec_fn(Candidate) -> bool,
    limit: u32,
    i: int,
)
    requires
        0 <= i < candidates.len(),
        eligible(candidates[i]),
        candidates[i].hit,
        candidates[i].element is Some,
        candidates[i].distance < limit,
        forall|j: int|
            0 <= j < i && eligible(#[trigger] candidates[j]) && candidates[j].hit
                && candidates[j].element is Some ==> candidates[j].distance
                > candidates[i].distance,
        forall|j: int|
            i < j < candidates.len() && eligible(#[trigger] candidates[j]) && candidates[j].hit
                && candidates[j].element is Some ==> candidates[j].distance
                >= candidates[i].distance,
    ensures
        nearest(candidates, eligible, limit) == (
            Some((candidates[i].brush, candidates[i].element->0)),
            candidates[i].distance,
        ),
    decreases candidates.len(),
{
    let init = candidates.drop_last();
    let last = candidates.len() - 1;
    assert(candidates[last] == candidates.last());
    if i < last {
        assert(init[i] == candidates[i]);
        assert forall|j: int|
            0 <= j < i && eligible(#[trigger] init[j]) && init[j].hit
                && init[j].element is Some implies init[j].distance > init[i].distance by {
            assert(init[j] == candidates[j]);
        }
        assert forall|j: int|
            i < j < init.len() && eligible(#[trigger] init[j]) && init[j].hit
                && init[j].element is Some implies init[j].distance >= init[i].distance by {
            assert(init[j] == candidates[j]);
        }
        law_first_of_the_nearest_is_picked(init, eligible, limit, i);
    } else {
        law_nearest_is_picked(init, eligible, limit);
        let best = nearest(init, eligible, limit);
        if let Some(p) = best.0 {
            let j = choose|j: int|
                0 <= j < init.len() && eligible(#[trigger] init[j]) && init[j].hit
                    && init[j].element == Some(p.1) && init[j].brush == p.0 && init[j].distance
                    == best.1;
            assert(candidates[j] == init[j]);
        }
    }
}

/// Selecting an element alone of its kind leaves it the only one of its kind, and keeps those of the
/// other kinds.
pub proof fn law_only_element_of_its_kind(elements: Seq<Element>, e: Element, x: Element)
    ensures
        with_only(elements, e).contains(e),
        x.kind_spec() == e.kind_spec() ==> (with_only(elements, e).contains(x) <==> x == e),
        x.kind_spec() != e.kind_spec() ==> (with_only(elements, e).contains(x)
            <==> elements.contains(x)),
{
    let others = elements.filter(of_other_kind(e.kind_spec()));
    let after = with_only(elements, e);
    crate::seqs::lemma_filter_contains(elements, of_other_kind(e.kind_spec()), x);
    assert(after[others.len() as int] == e);
    if after.contains(x) && x != e {
        let i = choose|i: int| 0 <= i < after.len() && after[i] == x;
        assert(others[i] == x);
    }
    if others.contains(x) {
        let i = choose|i: int| 0 <= i < others.len() && others[i] == x;
        assert(after[i] == x);
    }
}

/// Whether a candidate can be picked below a limit, is nearer than all before it that can be, and no
/// farther than any after it.
pub open spec fn is_nearest(
    candidates: Seq<Candidate>,
    eligible: spec_fn(Candidate) -> bool,
    limit: u32,
    i: int,
) -> bool {
    &&& 0 <= i < candidates.len()
    &&& eligible(candidates[i])
    &&& candidates[i].hit
    &&& candidates[i].element is Some
    &&& candidates[i].distance < limit
    &&& forall|j: int|
        0 <= j < i && eligible(#[trigger] candidates[j]) && candidates[j].hit
            && candidates[j].element is Some ==> candidates[j].distance > candidates[i].distance
    &&& forall|j: int|
        i < j < candidates.len() && eligible(#[trigger] candidates[j]) && candidates[j].hit
            && candidates[j].element is Some ==> candidates[j].distance >= candidates[i].distance
}

/// Turning an element over selects it where it was not selected.
pub proof fn law_toggled_element_is_selected(elements: Seq<Element>, e: Element, x: Element)
    ensures
        !elements.contains(e) ==> toggled(elements, e) == elements.push(e),
        elements.contains(e) ==> toggled(elements, e).len() + 1 == elements.len(),
        x != e ==> (toggled(elements, e).contains(x) <==> elements.contains(x)),
{
    let p = is_element(e);
    lemma_first_index(elements, p);
    let i = first_index(elements, p);
    if elements.contains(e) {
        let k = choose|k: int| 0 <= k < elements.len() && elements[k] == e;
        assert(p(elements[k]));
    }
    let after = toggled(elements, e);
    if x != e && elements.contains(x) {
        let k = choose|k: int| 0 <= k < elements.len() && elements[k] == x;
        if i < elements.len() && k > i {
            assert(after[k - 1] == x);
        } else {
            assert(after[k] == x);
        }
    }
    if x != e && after.contains(x) {
        let k = choose|k: int| 0 <= k < after.len() && after[k] == x;
        if i < elements.len() && k >= i {
            assert(elements[k + 1] == x);
        } else {
            assert(elements[k] == x);
        }
    }
}

} // verus!
