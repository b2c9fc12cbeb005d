//! Names and ids for entities that enter the scene.
use vstd::prelude::*;
use crate::document::{set_name_patch, DocView, SceneBsnAst};
use crate::patch::{name_in, with_name, PatchView};
use crate::seqs::{contains, first_index, lemma_first_index_is};
use crate::text::text_eq;
use crate::value::Entity;
use crate::world::{texts_view, SceneWorld, WorldView};

verus! {

/// Whether a character is a decimal digit.
pub open spec fn is_digit(c: char) -> bool {
    '0' <= c <= '9'
}

/// Whether a text is made of decimal digits.
pub open spec fn all_digits(s: Seq<char>) -> bool {
    forall|i: int| 0 <= i < s.len() ==> is_digit(#[trigger] s[i])
}

/// The number that decimal digits write.
pub open spec fn digits_value(s: Seq<char>) -> nat
    decreases s.len(),
{
    if s.len() == 0 {
        0
    } else {
        digits_value(s.drop_last()) * 10 + (s.last() as nat - '0' as nat) as nat
    }
}

/// The `u32` that a text writes: digits, after a plus sign or not, that do not exceed the type.
pub open spec fn parsed_u32(s: Seq<char>) -> Option<u32> {
    let digits = if s.len() > 0 && s[0] == '+' {
        s.drop_first()
    } else {
        s
    };
    if digits.len() > 0 && all_digits(digits) && digits_value(digits) <= u32::MAX {
        Some(digits_value(digits) as u32)
    } else {
        None
    }
}

/// `str::parse` to a `u32`: the text is an optional plus sign followed by decimal digits alone, at
/// least one, whose number fits; anything else is an error.
#[verifier::external_body]
fn parse_u32(s: &str) -> (r: Option<u32>)
    ensures
        r == parsed_u32(s@),
{
    s.parse::<u32>().ok()
}

/// One decimal digit.
pub open spec fn digit(n: nat) -> char {
    (('0' as nat) + n) as char
}

/// The decimal digits of a number.
pub open spec fn decimal(n: nat) -> Seq<char>
    decreases n,
{
    if n < 10 {
        seq![digit(n)]
    } else {
        decimal(n / 10).push(digit(n % 10))
    }
}

/// The decimal digits of a number.
pub fn decimal_text(n: u64) -> (r: String)
    ensures
        r@ == decimal(n as nat),
    decreases n,
{
    let last: &str = digit_text(n % 10);
    if n < 10 {
        assert(last@ =~= decimal(n as nat));
        last.to_owned()
    } else {
        let head: String = decimal_text(n / 10);
        let r: String = head.concat(last);
        assert(r@ =~= decimal(n as nat));
        r
    }
}

/// One decimal digit.
fn digit_text(n: u64) -> (r: &'static str)
    requires
        n < 10,
    ensures
        r@ == seq![digit(n as nat)],
{
    proof {
        reveal_strlit("0");
        reveal_strlit("1");
        reveal_strlit("2");
        reveal_strlit("3");
        reveal_strlit("4");
        reveal_strlit("5");
        reveal_strlit("6");
        reveal_strlit("7");
        reveal_strlit("8");
        reveal_strlit("9");
    }
    let r: &'static str = match n {
        0 => "0",
        1 => "1",
        2 => "2",
        3 => "3",
        4 => "4",
        5 => "5",
        6 => "6",
        7 => "7",
        8 => "8",
        _ => "9",
    };
    assert(r@ =~= seq![digit(n as nat)]);
    r
}

/// The digits of a number are digits, at least one, without a plus sign, and write the number.
pub proof fn lemma_decimal(n: nat)
    ensures
        decimal(n).len() > 0,
        all_digits(decimal(n)),
        digits_value(decimal(n)) == n,
    decreases n,
{
    if n < 10 {
        let s = decimal(n);
        assert(s.drop_last() =~= Seq::<char>::empty());
        assert(digits_value(s.drop_last()) == 0);
        assert(s.last() == digit(n));
    } else {
        lemma_decimal(n / 10);
        let s = decimal(n);
        assert(s.drop_last() =~= decimal(n / 10));
        assert(s.last() == digit(n % 10));
        assert forall|i: int| 0 <= i < s.len() implies is_digit(#[trigger] s[i]) by {
            if i < s.len() - 1 {
                assert(s[i] == decimal(n / 10)[i]);
            }
        }
    }
}

/// Parsing the digits of a number gives the number back.
pub proof fn law_parse_decimal(n: u32)
    ensures
        parsed_u32(decimal(n as nat)) == Some(n),
{
    lemma_decimal(n as nat);
    let s = decimal(n as nat);
    assert(is_digit(s[0]));
}

/// The offset of the last space in a text, or -1.
pub open spec fn last_space(s: Seq<char>) -> int
    decreases s.len(),
{
    if s.len() == 0 {
        -1
    } else if s.last() == ' ' {
        s.len() - 1
    } else {
        last_space(s.drop_last())
    }
}

/// What follows the last space of a text; the whole text when there is none.
pub open spec fn after_space(s: Seq<char>) -> Seq<char> {
    s.subrange(last_space(s) + 1, s.len() as int)
}

/// A name without the number at its end, if a space and a number end it.
pub open spec fn base_of(name: Seq<char>) -> Seq<char> {
    if last_space(name) >= 0 && parsed_u32(after_space(name)) is Some {
        name.subrange(0, last_space(name))
    } else {
        name
    }
}

/// The number that an existing name takes up among the names on `base`: 1 for the base itself, the
/// number behind the base and a space, 0 for every other name.
pub open spec fn number_on(existing: Seq<char>, base: Seq<char>) -> nat {
    if existing == base {
        1
    } else if (base + seq![' ']).is_prefix_of(existing) {
        match parsed_u32(existing.subrange(base.len() as int + 1, existing.len() as int)) {
            Some(n) => n as nat,
            None => 0,
        }
    } else {
        0
    }
}

/// The highest number taken up among the names on `base`.
pub open spec fn highest_on(taken: Seq<Seq<char>>, base: Seq<char>) -> nat
    decreases taken.len(),
{
    if taken.len() == 0 {
        0
    } else {
        let rest = highest_on(taken.drop_last(), base);
        let n = number_on(taken.last(), base);
        if n > rest {
            n
        } else {
            rest
        }
    }
}

/// The name that a name which is taken is replaced by: its base with the next number.
pub open spec fn next_name(taken: Seq<Seq<char>>, name: Seq<char>) -> Seq<char> {
    let base = base_of(name);
    base + seq![' '] + decimal(highest_on(taken, base) + 1)
}

/// `last_space` is the last space, and none follows.
pub proof fn lemma_last_space(s: Seq<char>)
    ensures
        -1 <= last_space(s) < s.len(),
        last_space(s) >= 0 ==> s[last_space(s)] == ' ',
        forall|i: int| last_space(s) < i < s.len() ==> s[i] != ' ',
    decreases s.len(),
{
    if s.len() > 0 && s.last() != ' ' {
        lemma_last_space(s.drop_last());
        assert forall|i: int| last_space(s) < i < s.len() implies s[i] != ' ' by {
            if i < s.len() - 1 {
                assert(s[i] == s.drop_last()[i]);
            }
        }
    }
}

/// Every taken name counts in the highest number.
pub proof fn lemma_highest(taken: Seq<Seq<char>>, base: Seq<char>, i: int)
    requires
        0 <= i < taken.len(),
    ensures
        number_on(taken[i], base) <= highest_on(taken, base),
    decreases taken.len(),
{
    if i < taken.len() - 1 {
        lemma_highest(taken.drop_last(), base, i);
    }
}

/// The name that replaces a taken one is free.
pub proof fn law_next_name_is_free(taken: Seq<Seq<char>>, name: Seq<char>)
    requires
        highest_on(taken, base_of(name)) < u32::MAX,
    ensures
        !taken.contains(next_name(taken, name)),
{
    let base = base_of(name);
    let n = (highest_on(taken, base) + 1) as u32;
    let next = next_name(taken, name);
    law_parse_decimal(n);
    lemma_decimal(n as nat);
    let digits = decimal(n as nat);
    assert(next.subrange(base.len() as int + 1, next.len() as int) =~= digits);
    assert((base + seq![' ']).is_prefix_of(next)) by {
        assert(next.subrange(0, (base + seq![' ']).len() as int) =~= base + seq![' ']);
    }
    assert(next != base) by {
        assert(next.len() > base.len());
    }
    assert(number_on(next, base) == n);
    if taken.contains(next) {
        let i = choose|i: int| 0 <= i < taken.len() && taken[i] == next;
        lemma_highest(taken, base, i);
    }
}

/// A name without the number at its end.
fn base_name(name: &str) -> (r: String)
    ensures
        r@ == base_of(name@),
{
    let chars: Vec<char> = crate::text::chars_of(name);
    let n: usize = chars.len();
    let mut end: usize = n;
    assert(name@.subrange(0, n as int) =~= name@);
    while end > 0 && chars[end - 1] != ' '
        invariant
            end <= n,
            n == chars.len(),
            chars@ == name@,
            last_space(name@) == last_space(name@.subrange(0, end as int)),
        decreases end,
    {
        assert(name@.subrange(0, end as int).drop_last() =~= name@.subrange(0, end - 1));
        end = end - 1;
    }
    if end == 0 {
        assert(name@.subrange(0, 0) =~= Seq::empty());
        return name.to_owned();
    }
    assert(last_space(name@) == end - 1);
    if parse_u32(name.substring_char(end, n)).is_some() {
        name.substring_char(0, end - 1).to_owned()
    } else {
        name.to_owned()
    }
}

/// The number that an existing name takes up among the names on `base`.
fn taken_number(existing: &str, base: &str) -> (r: u32)
    ensures
        r == number_on(existing@, base@),
{
    if text_eq(existing, base) {
        return 1;
    }
    let space: String = base.to_owned().concat(" ");
    proof {
        reveal_strlit(" ");
        assert(" "@ =~= seq![' ']);
    }
    if crate::text::starts_with(existing, space.as_str()) {
        let k: usize = space.as_str().unicode_len();
        let n: usize = existing.unicode_len();
        match parse_u32(existing.substring_char(k, n)) {
            Some(v) => v,
            None => 0,
        }
    } else {
        0
    }
}

/// The name that a taken name is replaced by.
pub fn next_free_name(taken: &Vec<String>, name: &str) -> (r: String)
    requires
        highest_on(texts_view(taken@), base_of(name@)) < u32::MAX,
    ensures
        r@ == next_name(texts_view(taken@), name@),
{
    let base: String = base_name(name);
    let ghost all = texts_view(taken@);
    let mut highest: u32 = 0;
    let mut i: usize = 0;
    assert(all.subrange(0, 0) =~= Seq::empty());
    while i < taken.len()
        invariant
            i <= taken.len(),
            all == texts_view(taken@),
            highest == highest_on(all.subrange(0, i as int), base@),
        decreases taken.len() - i,
    {
        proof {
            assert(all.subrange(0, i + 1).drop_last() =~= all.subrange(0, i as int));
            assert(all.subrange(0, i + 1).last() == all[i as int]);
        }
        let n: u32 = taken_number(taken[i].as_str(), base.as_str());
        if n > highest {
            highest = n;
        }
        i = i + 1;
    }
    assert(all.subrange(0, i as int) =~= all);
    proof {
        reveal_strlit(" ");
        assert(" "@ =~= seq![' ']);
    }
    let digits: String = decimal_text((highest + 1) as u64);
    base.concat(" ").concat(digits.as_str())
}

/// Whether a name is among those taken.
fn is_taken(taken: &Vec<String>, name: &str) -> (r: bool)
    ensures
        r == texts_view(taken@).contains(name@),
{
    let ghost all = texts_view(taken@);
    let mut i: usize = 0;
    while i < taken.len()
        invariant
            i <= taken.len(),
            all == texts_view(taken@),
            forall|j: int| 0 <= j < i ==> (#[trigger] all[j]) != name@,
        decreases taken.len() - i,
    {
        if text_eq(taken[i].as_str(), name) {
            assert(all[i as int] == name@);
            return true;
        }
        i = i + 1;
    }
    false
}

/// The highest number that a name can take up: 1, or the number behind its last space.
pub open spec fn top_number(name: Seq<char>) -> nat {
    match parsed_u32(after_space(name)) {
        Some(n) => if n > 1 {
            n as nat
        } else {
            1
        },
        None => 1,
    }
}

/// The number that a name takes up on any base is at most its top number.
pub proof fn lemma_top_number(existing: Seq<char>, base: Seq<char>)
    ensures
        number_on(existing, base) <= top_number(existing),
{
    if existing != base && (base + seq![' ']).is_prefix_of(existing) {
        let at = base.len() as int;
        let rest = existing.subrange(at + 1, existing.len() as int);
        assert(existing[at] == ' ') by {
            assert(existing.subrange(0, at + 1) == base + seq![' ']);
            assert((base + seq![' '])[at] == ' ');
            assert(existing.subrange(0, at + 1)[at] == existing[at]);
        }
        lemma_last_space(existing);
        if parsed_u32(rest) is Some {
            let k = last_space(existing);
            if k > at {
                // A space inside the number would not parse.
                assert(rest[k - at - 1] == ' ');
                let digits = if rest.len() > 0 && rest[0] == '+' {
                    rest.drop_first()
                } else {
                    rest
                };
                if rest[0] == '+' {
                    assert(digits[k - at - 2] == ' ');
                } else {
                    assert(digits[k - at - 1] == ' ');
                }
                assert(false);
            }
            assert(k == at);
            assert(after_space(existing) == rest);
        }
    }
}

/// The highest number taken is bounded when every top number is.
pub proof fn lemma_highest_bounded(taken: Seq<Seq<char>>, base: Seq<char>, limit: nat)
    requires
        forall|i: int| 0 <= i < taken.len() ==> top_number(#[trigger] taken[i]) <= limit,
    ensures
        highest_on(taken, base) <= limit,
    decreases taken.len(),
{
    if taken.len() > 0 {
        let init = taken.drop_last();
        assert forall|i: int| 0 <= i < init.len() implies top_number(#[trigger] init[i])
            <= limit by {
            assert(init[i] == taken[i]);
        }
        lemma_highest_bounded(init, base, limit);
        lemma_top_number(taken.last(), base);
        assert(taken[taken.len() - 1] == taken.last());
    }
}

/// The top number of the next name is the number that was put behind the base.
pub proof fn lemma_next_top(taken: Seq<Seq<char>>, name: Seq<char>)
    requires
        highest_on(taken, base_of(name)) < u32::MAX,
    ensures
        top_number(next_name(taken, name)) <= highest_on(taken, base_of(name)) + 1,
{
    let base = base_of(name);
    let n = (highest_on(taken, base) + 1) as u32;
    let next = next_name(taken, name);
    law_parse_decimal(n);
    lemma_decimal(n as nat);
    let digits = decimal(n as nat);
    lemma_last_space(next);
    let at = base.len() as int;
    assert(next[at] == ' ');
    assert forall|i: int| at < i < next.len() implies next[i] != ' ' by {
        assert(next[i] == digits[i - at - 1]);
        assert(is_digit(digits[i - at - 1]));
    }
    assert(last_space(next) == at);
    assert(after_space(next) =~= digits);
}

/// The document and the taken names after the roots were named in turn: a root whose name is free
/// keeps it; one whose name is taken gets the next one; each name is taken from then on.
pub open spec fn named(
    doc: DocView,
    taken: Seq<Seq<char>>,
    roots: Seq<Entity>,
) -> (DocView, Seq<Seq<char>>)
    decreases roots.len(),
{
    if roots.len() == 0 {
        (doc, taken)
    } else {
        let before = named(doc, taken, roots.drop_last());
        let root = roots.last();
        match name_in(before.0.patches_of(root)) {
            Some(name) => if before.1.contains(name) {
                let next = next_name(before.1, name);
                (
                    before.0.with_patches(
                        root,
                        with_name(before.0.patches_of(root), Some(next)),
                    ),
                    before.1.push(next),
                )
            } else {
                (before.0, before.1.push(name))
            },
            None => before,
        }
    }
}

/// Whether a root can be named: the number behind a name that is taken does not leave `u32`.
pub open spec fn name_fits(doc: DocView, taken: Seq<Seq<char>>, root: Entity) -> bool {
    name_in(doc.patches_of(root)) matches Some(name) ==> taken.contains(name) ==> highest_on(
        taken,
        base_of(name),
    ) < u32::MAX
}

/// Whether each of the roots can be named in its turn.
pub open spec fn numbers_fit(doc: DocView, taken: Seq<Seq<char>>, roots: Seq<Entity>) -> bool {
    forall|k: int|
        0 <= k < roots.len() ==> ({
            let before = named(doc, taken, roots.subrange(0, k));
            name_fits(before.0, before.1, #[trigger] roots[k])
        })
}

/// The names that the listed entities have. Those of the editor's own entities do not count.
pub open spec fn scene_names(w: WorldView, entities: Seq<Entity>) -> Seq<Seq<char>>
    decreases entities.len(),
{
    if entities.len() == 0 {
        Seq::empty()
    } else {
        let before = scene_names(w, entities.drop_last());
        let e = entities.last();
        if w.alive(e) && !w.entities[e].marks.editor_entity && w.entities[e].name is Some {
            before.push(w.entities[e].name->0)
        } else {
            before
        }
    }
}

/// The names that are taken in a scene with these entities.
pub fn names_in_scene(world: &SceneWorld, entities: &Vec<Entity>) -> (r: Vec<String>)
    ensures
        texts_view(r@) == scene_names(world@, entities@),
{
    let mut names: Vec<String> = Vec::new();
    let mut i: usize = 0;
    assert(entities@.subrange(0, 0) =~= Seq::empty());
    assert(texts_view(names@) =~= Seq::empty());
    while i < entities.len()
        invariant
            i <= entities.len(),
            texts_view(names@) == scene_names(world@, entities@.subrange(0, i as int)),
        decreases entities.len() - i,
    {
        proof {
            assert(entities@.subrange(0, i + 1).drop_last() =~= entities@.subrange(0, i as int));
            assert(entities@.subrange(0, i + 1).last() == entities@[i as int]);
        }
        let ghost before = texts_view(names@);
        if !world.marks(entities[i]).editor_entity {
            if let Some(name) = world.name(entities[i]) {
                names.push(name);
                assert(texts_view(names@) =~= before.push(name@));
            }
        }
        i = i + 1;
    }
    assert(entities@.subrange(0, i as int) =~= entities@);
    names
}

/// Gives each of `roots` a name that is neither among `taken` nor that of an earlier root.
pub fn assign_unique_entity_root_names(
    taken: Vec<String>,
    roots: &Vec<Entity>,
    ast: &mut SceneBsnAst,
)
    requires
        numbers_fit(old(ast)@, texts_view(taken@), roots@),
    ensures
        final(ast)@ == named(old(ast)@, texts_view(taken@), roots@).0,
        final(ast).next_node == old(ast).next_node,
{
    let mut taken: Vec<String> = taken;
    let ghost start = texts_view(taken@);
    let ghost doc = ast@;
    let mut i: usize = 0;
    assert(roots@.subrange(0, 0) =~= Seq::empty());
    while i < roots.len()
        invariant
            i <= roots.len(),
            numbers_fit(doc, start, roots@),
            (ast@, texts_view(taken@)) == named(doc, start, roots@.subrange(0, i as int)),
            ast.next_node == old(ast).next_node,
        decreases roots.len() - i,
    {
        proof {
            assert(roots@.subrange(0, i + 1).drop_last() =~= roots@.subrange(0, i as int));
            assert(roots@.subrange(0, i + 1).last() == roots@[i as int]);
        }
        let root: Entity = roots[i];
        let ghost before = texts_view(taken@);
        assert(name_fits(ast@, before, roots@[i as int]));
        match ast.get_name(root) {
            Some(name) => {
                if is_taken(&taken, name.as_str()) {
                    let next: String = next_free_name(&taken, name.as_str());
                    taken.push(next.clone());
                    assert(texts_view(taken@) =~= before.push(next@));
                    set_name_patch(ast, root, Some(next));
                } else {
                    taken.push(name);
                    assert(texts_view(taken@) =~= before.push(name@));
                }
            },
            None => {},
        }
        i = i + 1;
    }
    assert(roots@.subrange(0, i as int) =~= roots@);
}

/// Roots can be named as long as the numbers behind the names that are taken, and behind their own,
/// leave room for one more number for each root.
pub proof fn law_small_numbers_fit(doc: DocView, taken: Seq<Seq<char>>, roots: Seq<Entity>)
    requires
        roots.no_duplicates(),
        has_room(doc, taken, roots),
    ensures
        numbers_fit(doc, taken, roots),
{
    assert forall|k: int| 0 <= k < roots.len() implies ({
        let before = named(doc, taken, roots.subrange(0, k));
        name_fits(before.0, before.1, #[trigger] roots[k])
    }) by {
        let before = named(doc, taken, roots.subrange(0, k));
        lemma_numbers_grow(doc, taken, roots, k);
        if let Some(name) = name_in(before.0.patches_of(roots[k])) {
            lemma_highest_bounded(
                before.1,
                base_of(name),
                (u32::MAX + k - roots.len() - 1) as nat,
            );
        }
    }
}

/// Whether the numbers behind the names that are taken, and behind those of the roots, leave room for
/// one more number for each root.
pub open spec fn has_room(doc: DocView, taken: Seq<Seq<char>>, roots: Seq<Entity>) -> bool {
    &&& roots.len() < u32::MAX
    &&& forall|i: int|
        0 <= i < taken.len() ==> top_number(#[trigger] taken[i]) + roots.len() < u32::MAX
    &&& forall|k: int|
        0 <= k < roots.len() ==> (name_in(doc.patches_of(#[trigger] roots[k])) matches Some(name)
            ==> top_number(name) + roots.len() < u32::MAX)
}

/// Each root adds at most one to the numbers that are taken, and leaves later roots alone.
proof fn lemma_numbers_grow(doc: DocView, taken: Seq<Seq<char>>, roots: Seq<Entity>, k: int)
    requires
        roots.no_duplicates(),
        has_room(doc, taken, roots),
        0 <= k <= roots.len(),
    ensures
        ({
            let after = named(doc, taken, roots.subrange(0, k));
            &&& forall|i: int|
                0 <= i < after.1.len() ==> top_number(#[trigger] after.1[i]) + roots.len()
                    < u32::MAX + k
            &&& forall|l: int|
                k <= l < roots.len() ==> after.0.patches_of(#[trigger] roots[l])
                    == doc.patches_of(roots[l])
        }),
    decreases k,
{
    if k > 0 {
        let cut = roots.subrange(0, k);
        assert(cut.drop_last() =~= roots.subrange(0, k - 1));
        assert(cut.last() == roots[k - 1]);
        lemma_numbers_grow(doc, taken, roots, k - 1);
        let before = named(doc, taken, roots.subrange(0, k - 1));
        let after = named(doc, taken, cut);
        let root = roots[k - 1];
        assert(before.0.patches_of(root) == doc.patches_of(root));
        if let Some(name) = name_in(before.0.patches_of(root)) {
            lemma_highest_bounded(
                before.1,
                base_of(name),
                (u32::MAX + k - 1 - roots.len() - 1) as nat,
            );
            lemma_next_top(before.1, name);
        }
        assert forall|i: int| 0 <= i < after.1.len() implies top_number(#[trigger] after.1[i])
            + roots.len() < u32::MAX + k by {
            if i < before.1.len() {
                assert(after.1[i] == before.1[i]);
            }
        }
        assert forall|l: int| k <= l < roots.len() implies after.0.patches_of(#[trigger] roots[l])
            == doc.patches_of(roots[l]) by {
            assert(roots[l] != root);
            assert(before.0.patches_of(roots[l]) == doc.patches_of(roots[l]));
        }
    } else {
        assert(roots.subrange(0, 0) =~= Seq::empty());
    }
}

/// The name of a root after the roots were named.
pub open spec fn root_name(doc: DocView, root: Entity) -> Option<Seq<char>> {
    name_in(doc.patches_of(root))
}

/// Where roots can be named in turn, all but the last can, and then the last.
proof fn lemma_fits_in_turn(doc: DocView, taken: Seq<Seq<char>>, roots: Seq<Entity>)
    requires
        numbers_fit(doc, taken, roots),
        roots.len() > 0,
    ensures
        numbers_fit(doc, taken, roots.drop_last()),
        ({
            let before = named(doc, taken, roots.drop_last());
            name_fits(before.0, before.1, roots.last())
        }),
{
    let init = roots.drop_last();
    assert forall|k: int| 0 <= k < init.len() implies ({
        let before = named(doc, taken, init.subrange(0, k));
        name_fits(before.0, before.1, #[trigger] init[k])
    }) by {
        assert(init.subrange(0, k) =~= roots.subrange(0, k));
        assert(init[k] == roots[k]);
    }
    assert(init =~= roots.subrange(0, roots.len() - 1));
    assert(roots[roots.len() - 1] == roots.last());
}

/// The last root gets a name that is free, and no other node changes.
proof fn lemma_last_root_named(doc: DocView, taken: Seq<Seq<char>>, roots: Seq<Entity>) -> (new: Seq<
    char,
>)
    requires
        roots.len() > 0,
        ({
            let before = named(doc, taken, roots.drop_last());
            &&& name_in(before.0.patches_of(roots.last())) is Some
            &&& name_fits(before.0, before.1, roots.last())
        }),
    ensures
        ({
            let before = named(doc, taken, roots.drop_last());
            let after = named(doc, taken, roots);
            &&& after.1 == before.1.push(new)
            &&& !before.1.contains(new)
            &&& root_name(after.0, roots.last()) == Some(new)
            &&& forall|n: Entity|
                n != roots.last() ==> #[trigger] after.0.patches_of(n) == before.0.patches_of(n)
        }),
{
    let before = named(doc, taken, roots.drop_last());
    let root = roots.last();
    let ps = before.0.patches_of(root);
    let name = name_in(ps)->0;
    if before.1.contains(name) {
        let new = next_name(before.1, name);
        law_next_name_is_free(before.1, name);
        lemma_rename_reads(ps, new);
        assert(before.0.nodes.contains_key(root)) by {
            if !before.0.nodes.contains_key(root) {
                assert(ps =~= Seq::empty());
            }
        }
        new
    } else {
        name
    }
}

/// Names that are apart stay so when one that is free comes to them.
proof fn lemma_names_stay_apart(
    doc: DocView,
    taken: Seq<Seq<char>>,
    roots: Seq<Entity>,
    before: (DocView, Seq<Seq<char>>),
    after: (DocView, Seq<Seq<char>>),
    new: Seq<char>,
)
    requires
        roots.len() > 0,
        forall|i: int| 0 <= i < roots.len() - 1 ==> #[trigger] roots[i] != roots.last(),
        forall|i: int|
            #![trigger root_name(before.0, roots[i])]
            0 <= i < roots.len() - 1 && root_name(doc, roots[i]) is Some ==> {
                &&& root_name(before.0, roots[i]) is Some
                &&& !taken.contains(root_name(before.0, roots[i])->0)
                &&& before.1.contains(root_name(before.0, roots[i])->0)
            },
        forall|i: int, j: int|
            #![trigger root_name(before.0, roots[i]), root_name(before.0, roots[j])]
            0 <= i < roots.len() - 1 && 0 <= j < roots.len() - 1 && i != j && root_name(
                doc,
                roots[i],
            ) is Some && root_name(doc, roots[j]) is Some ==> root_name(before.0, roots[i])
                != root_name(before.0, roots[j]),
        forall|x: Seq<char>| taken.contains(x) ==> #[trigger] before.1.contains(x),
        after.1 == before.1.push(new),
        !before.1.contains(new),
        root_name(after.0, roots.last()) == Some(new),
        forall|n: Entity|
            n != roots.last() ==> #[trigger] after.0.patches_of(n) == before.0.patches_of(n),
    ensures
        forall|i: int|
            #![trigger root_name(after.0, roots[i])]
            0 <= i < roots.len() && root_name(doc, roots[i]) is Some ==> {
                &&& root_name(after.0, roots[i]) is Some
                &&& !taken.contains(root_name(after.0, roots[i])->0)
                &&& after.1.contains(root_name(after.0, roots[i])->0)
            },
        forall|i: int, j: int|
            #![trigger root_name(after.0, roots[i]), root_name(after.0, roots[j])]
            0 <= i < roots.len() && 0 <= j < roots.len() && i != j && root_name(doc, roots[i])
                is Some && root_name(doc, roots[j]) is Some ==> root_name(after.0, roots[i])
                != root_name(after.0, roots[j]),
        forall|x: Seq<char>| taken.contains(x) ==> #[trigger] after.1.contains(x),
{
    let last = roots.len() - 1;
    assert forall|x: Seq<char>| #[trigger] after.1.contains(x) == (before.1.contains(x) || x
        == new) by {
        crate::seqs::lemma_push_contains(before.1, new, x);
    }
    assert forall|i: int| 0 <= i < last implies #[trigger] root_name(after.0, roots[i])
        == root_name(before.0, roots[i]) by {
        assert(roots[i] != roots.last());
    }
    assert forall|i: int|
        #![trigger root_name(after.0, roots[i])]
        0 <= i < roots.len() && root_name(doc, roots[i]) is Some implies {
        &&& root_name(after.0, roots[i]) is Some
        &&& !taken.contains(root_name(after.0, roots[i])->0)
        &&& after.1.contains(root_name(after.0, roots[i])->0)
    } by {
        if i < last {
            assert(root_name(after.0, roots[i]) == root_name(before.0, roots[i]));
        }
    }
    assert forall|i: int, j: int|
        #![trigger root_name(after.0, roots[i]), root_name(after.0, roots[j])]
        0 <= i < roots.len() && 0 <= j < roots.len() && i != j && root_name(doc, roots[i]) is Some
            && root_name(doc, roots[j]) is Some implies root_name(after.0, roots[i]) != root_name(
        after.0,
        roots[j],
    ) by {
        if i < last {
            assert(root_name(after.0, roots[i]) == root_name(before.0, roots[i]));
        }
        if j < last {
            assert(root_name(after.0, roots[j]) == root_name(before.0, roots[j]));
        }
    }
}

/// After the roots were named, every root that had a name has one that was not taken before, and no
/// two roots have the same.
#[verifier::rlimit(40)]
#[verifier::spinoff_prover]
pub proof fn law_root_names_are_unique(
    doc: DocView,
    taken: Seq<Seq<char>>,
    roots: Seq<Entity>,
)
    requires
        numbers_fit(doc, taken, roots),
        roots.no_duplicates(),
    ensures
        ({
            let after = named(doc, taken, roots);
            &&& forall|i: int|
                #![trigger root_name(after.0, roots[i])]
                0 <= i < roots.len() && root_name(doc, roots[i]) is Some ==> {
                    &&& root_name(after.0, roots[i]) is Some
                    &&& !taken.contains(root_name(after.0, roots[i])->0)
                    &&& after.1.contains(root_name(after.0, roots[i])->0)
                }
            &&& forall|i: int, j: int|
                #![trigger root_name(after.0, roots[i]), root_name(after.0, roots[j])]
                0 <= i < roots.len() && 0 <= j < roots.len() && i != j && root_name(doc, roots[i])
                    is Some && root_name(doc, roots[j]) is Some ==> root_name(after.0, roots[i])
                    != root_name(after.0, roots[j])
            &&& forall|x: Seq<char>| taken.contains(x) ==> #[trigger] after.1.contains(x)
            &&& forall|n: Entity|
                !roots.contains(n) ==> #[trigger] after.0.patches_of(n) == doc.patches_of(n)
        }),
    decreases roots.len(),
{
    if roots.len() > 0 {
        let init = roots.drop_last();
        let root = roots.last();
        assert(init.no_duplicates()) by {
            assert forall|i: int, j: int|
                0 <= i < init.len() && 0 <= j < init.len() && i != j implies init[i]
                != init[j] by {
                assert(roots[i] != roots[j]);
            }
        }
        assert(!init.contains(root)) by {
            if init.contains(root) {
                let i = choose|i: int| 0 <= i < init.len() && init[i] == root;
                assert(roots[i] == roots[roots.len() - 1]);
            }
        }
        lemma_fits_in_turn(doc, taken, roots);
        law_root_names_are_unique(doc, taken, init);
        let before = named(doc, taken, init);
        let after = named(doc, taken, roots);
        assert(before.0.patches_of(root) == doc.patches_of(root));
        assert(roots[roots.len() - 1] == root);
        assert forall|i: int| 0 <= i < init.len() implies #[trigger] roots[i] == init[i]
            && init[i] != root by {
            assert(init.contains(init[i]));
        }
        if root_name(doc, root) is Some {
            let new = lemma_last_root_named(doc, taken, roots);
            lemma_names_stay_apart(doc, taken, roots, before, after, new);
        } else {
            assert(after == before);
        }
        assert forall|n: Entity| !roots.contains(n) implies #[trigger] after.0.patches_of(n)
            == doc.patches_of(n) by {
            assert(!init.contains(n)) by {
                if init.contains(n) {
                    let i = choose|i: int| 0 <= i < init.len() && init[i] == n;
                    assert(roots[i] == n);
                }
            }
            assert(n != root) by {
                assert(roots[roots.len() - 1] == root);
            }
            assert(before.0.patches_of(n) == doc.patches_of(n));
        }
    }
}

/// Replacing the name of named patches gives the new name.
proof fn lemma_rename_reads(patches: Seq<PatchView>, name: Seq<char>)
    requires
        name_in(patches) is Some,
    ensures
        name_in(with_name(patches, Some(name))) == Some(name),
{
    let p = crate::patch::is_name();
    crate::seqs::lemma_first_index(patches, p);
    lemma_first_index_is(with_name(patches, Some(name)), p, first_index(patches, p));
}

/// A name that ends in a space and a number stands for what is before them; one that ends otherwise
/// stands for itself.
pub proof fn law_base_of_a_numbered_name(base: Seq<char>, n: u32)
    ensures
        base_of(base + seq![' '] + decimal(n as nat)) == base,
        last_space(base) < 0 ==> base_of(base) == base,
{
    let name = base + seq![' '] + decimal(n as nat);
    law_parse_decimal(n);
    lemma_decimal(n as nat);
    lemma_last_space(name);
    assert(name[base.len() as int] == ' ');
    let at = last_space(name);
    if at > base.len() {
        assert(name[at] == decimal(n as nat)[at - base.len() - 1]);
        assert(is_digit(decimal(n as nat)[at - base.len() - 1]));
    }
    assert(at == base.len());
    assert(after_space(name) =~= decimal(n as nat));
    assert(name.subrange(0, at) =~= base);
}

/// A taken name is replaced by its base and the number behind the highest that is taken: no number is
/// used twice, and the base itself counts as the first.
pub proof fn law_next_number(taken: Seq<Seq<char>>, base: Seq<char>, n: u32, i: int)
    requires
        last_space(base) < 0,
        0 <= i < taken.len(),
        taken[i] == base || taken[i] == base + seq![' '] + decimal(n as nat),
    ensures
        exists|k: nat| #[trigger]
            decimal(k) == next_name(taken, base).subrange(
                base.len() as int + 1,
                next_name(taken, base).len() as int,
            ) && (taken[i] == base ==> k >= 2) && (taken[i] != base ==> k > n),
        (base + seq![' ']).is_prefix_of(next_name(taken, base)),
{
    law_base_of_a_numbered_name(base, n);
    lemma_highest(taken, base, i);
    lemma_decimal(n as nat);
    law_parse_decimal(n);
    let k = highest_on(taken, base) + 1;
    let next = next_name(taken, base);
    assert(next.subrange(base.len() as int + 1, next.len() as int) =~= decimal(k));
    assert(next.subrange(0, (base + seq![' ']).len() as int) =~= base + seq![' ']);
    let numbered = base + seq![' '] + decimal(n as nat);
    assert(numbered.subrange(base.len() as int + 1, numbered.len() as int) =~= decimal(n as nat));
    assert(numbered.subrange(0, (base + seq![' ']).len() as int) =~= base + seq![' ']);
    assert(numbered.len() > base.len());
}

/// The names that are taken are those of the listed entities that are alive and not the editor's own.
pub proof fn law_names_in_the_scene(w: WorldView, entities: Seq<Entity>, n: Seq<char>)
    ensures
        scene_names(w, entities).contains(n) <==> exists|i: int|
            0 <= i < entities.len() && w.alive(#[trigger] entities[i])
                && !w.entities[entities[i]].marks.editor_entity && w.entities[entities[i]].name
                == Some(n),
    decreases entities.len(),
{
    if entities.len() > 0 {
        let init = entities.drop_last();
        let e = entities.last();
        law_names_in_the_scene(w, init, n);
        assert(entities[entities.len() - 1] == e);
        assert forall|i: int| 0 <= i < init.len() implies #[trigger] init[i] == entities[i] by {}
        if w.alive(e) && !w.entities[e].marks.editor_entity && w.entities[e].name is Some {
            crate::seqs::lemma_push_contains(scene_names(w, init), w.entities[e].name->0, n);
        }
        let named = |x: Entity|
            w.alive(x) && !w.entities[x].marks.editor_entity && w.entities[x].name == Some(n);
        if exists|i: int| 0 <= i < init.len() && named(#[trigger] init[i]) {
            let i = choose|i: int| 0 <= i < init.len() && named(#[trigger] init[i]);
            assert(named(entities[i]));
        }
        if exists|i: int| 0 <= i < entities.len() && named(#[trigger] entities[i]) {
            let i = choose|i: int| 0 <= i < entities.len() && named(#[trigger] entities[i]);
            if i < init.len() {
                assert(named(init[i]));
            }
        }
    }
}

} // verus!
