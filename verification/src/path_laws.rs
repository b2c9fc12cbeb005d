//! What the parts of a path are, and where the assets directory is looked for.
use vstd::prelude::*;
use crate::asset_path::{base_dir, last_char, last_name, stem_of};

verus! {

/// The assets directory is looked for in the root that is set for assets, without one in the package
/// directory, and without that next to the executable.
pub proof fn law_base_dir(dir: Seq<char>, second: Option<Seq<char>>, third: Option<Seq<char>>)
    ensures
        base_dir(Some(dir), second, third) == Some(dir),
        base_dir(None, Some(dir), third) == Some(dir),
        base_dir(None, None, third) == third,
{
}

/// What follows the last separator of a path is its last name, and what stands before the last dot of
/// a name its stem.
pub proof fn law_names_in_a_path(dir: Seq<char>, stem: Seq<char>, extension: Seq<char>)
    requires
        stem.len() > 0,
        !stem.contains('/'),
        !extension.contains('/'),
        !extension.contains('.'),
    ensures
        last_name(dir + seq!['/'] + stem + seq!['.'] + extension) == stem + seq!['.'] + extension,
        stem_of(stem + seq!['.'] + extension) == stem,
{
    let name = stem + seq!['.'] + extension;
    let path = dir + seq!['/'] + stem + seq!['.'] + extension;
    lemma_last_char(path, '/', dir.len() as int);
    lemma_last_char(name, '.', stem.len() as int);
    assert(path[dir.len() as int] == '/');
    assert forall|i: int| dir.len() < i < path.len() implies path[i] != '/' by {
        if i - dir.len() - 1 < stem.len() {
            assert(path[i] == stem[i - dir.len() - 1]);
            assert(stem.contains(stem[i - dir.len() - 1]));
        } else if i - dir.len() - 1 > stem.len() {
            assert(path[i] == extension[i - dir.len() - stem.len() - 2]);
            assert(extension.contains(extension[i - dir.len() - stem.len() - 2]));
        }
    }
    assert forall|i: int| stem.len() < i < name.len() implies name[i] != '.' by {
        assert(name[i] == extension[i - stem.len() - 1]);
        assert(extension.contains(extension[i - stem.len() - 1]));
    }
    assert(last_name(path) =~= name);
    assert(stem_of(name) =~= stem);
}

/// A position that holds a character, with none behind it, is the last.
proof fn lemma_last_char(s: Seq<char>, c: char, at: int)
    ensures
        0 <= at < s.len() && s[at] == c && (forall|i: int| at < i < s.len() ==> s[i] != c)
            ==> last_char(s, c) == at,
    decreases s.len(),
{
    if s.len() > 0 && s.last() != c {
        let init = s.drop_last();
        lemma_last_char(init, c, at);
        if 0 <= at < s.len() && s[at] == c && (forall|i: int| at < i < s.len() ==> s[i] != c) {
            assert(init[at] == c);
            assert forall|i: int| at < i < init.len() implies init[i] != c by {
                assert(s[i] != c);
            }
        }
    } else if s.len() > 0 && 0 <= at < s.len() - 1 {
        assert(s[s.len() - 1] == c);
    }
}

} // verus!
