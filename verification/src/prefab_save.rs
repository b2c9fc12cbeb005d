//! Saving prefabs from the outliner.
use vstd::prelude::*;
use crate::asset_path::{join, joins};
use crate::operators::OperatorResult;
use crate::text::{given_text, is_white_space, law_trimmed, text_of, trim, trimmed};
use crate::value::Entity;

verus! {

/// What is saved as a prefab.
#[derive(Clone, Copy, Debug, PartialEq, Eq, Structural)]
pub enum PrefabSaveMode {
    /// Some entities; they become an instance of the prefab.
    Prefab,
    /// The scene in the shown tab, which becomes the tab of the prefab.
    Scene,
    /// An instance with its overrides, as a variant of its prefab.
    Variant,
}

/// What is packed once the dialog is confirmed.
#[derive(Debug)]
pub struct PendingPrefabSave {
    pub roots: Vec<Entity>,
    pub mode: PrefabSaveMode,
}

/// The name that the dialog offers.
#[derive(Debug)]
pub struct PendingPrefabDefaultName {
    pub name: String,
}

impl PendingPrefabSave {
    pub fn new() -> (r: PendingPrefabSave)
        ensures
            r.cleared(),
    {
        PendingPrefabSave { roots: Vec::new(), mode: PrefabSaveMode::Prefab }
    }

    /// Whether nothing is pending.
    pub open spec fn cleared(self) -> bool {
        self.roots@.len() == 0 && self.mode == PrefabSaveMode::Prefab
    }

    /// Whether there is something to save. A whole scene needs no roots.
    pub open spec fn ready(self) -> bool {
        self.roots@.len() > 0 || self.mode == PrefabSaveMode::Scene
    }

    /// Whether there is something to save.
    pub fn is_ready(&self) -> (r: bool)
        ensures
            r == self.ready(),
    {
        self.roots.len() > 0 || self.mode == PrefabSaveMode::Scene
    }

    fn clear(&mut self)
        ensures
            final(self).cleared(),
    {
        self.roots = Vec::new();
        self.mode = PrefabSaveMode::Prefab;
    }
}

/// The slots of the open dialog that get a field for the name: every one, unless nothing is
/// pending or there is a field already.
pub fn populate_prefab_dialog(
    pending: &PendingPrefabSave,
    slots: Vec<Entity>,
    has_field: bool,
) -> (r: Vec<Entity>)
    ensures
        r@ == (if pending.ready() && !has_field {
            slots@
        } else {
            Seq::empty()
        }),
{
    if !pending.is_ready() || has_field {
        return Vec::new();
    }
    slots
}

/// The operator that saves what is pending.
pub open spec fn save_operator(mode: PrefabSaveMode) -> Seq<char> {
    match mode {
        PrefabSaveMode::Prefab => "prefab.save_as_prefab"@,
        PrefabSaveMode::Scene => "prefab.save_scene_as_prefab"@,
        PrefabSaveMode::Variant => "prefab.save_as_variant"@,
    }
}

/// The call of an operator that saves a prefab.
#[derive(Debug)]
pub struct PrefabSaveCall {
    pub operator: &'static str,
    pub name: String,
}

/// What confirming the dialog calls. `input` is what its field holds. Nothing is called when nothing
/// is pending, or when the name is white space alone.
pub fn on_prefab_dialog_action(pending: &PendingPrefabSave, input: Option<String>) -> (r: Option<
    PrefabSaveCall,
>)
    ensures
        ({
            let name = match text_of(input) {
                Some(t) => trimmed(t),
                None => Seq::empty(),
            };
            &&& r is Some == (pending.ready() && name.len() > 0)
            &&& r matches Some(c) ==> c.name@ == name && c.operator@ == save_operator(
                pending.mode,
            )
        }),
{
    if !pending.is_ready() {
        return None;
    }
    let name: String = match input {
        Some(t) => trim(t.as_str()),
        None => {
            return None;
        },
    };
    if name.as_str().unicode_len() == 0 {
        return None;
    }
    let operator: &'static str = match pending.mode {
        PrefabSaveMode::Prefab => "prefab.save_as_prefab",
        PrefabSaveMode::Scene => "prefab.save_scene_as_prefab",
        PrefabSaveMode::Variant => "prefab.save_as_variant",
    };
    Some(PrefabSaveCall { operator, name })
}

/// Whether `path` is a file in the prefab directory of a project.
pub open spec fn in_prefab_dir(root: Seq<char>, file: Seq<char>, path: Seq<char>) -> bool {
    exists|dir: Seq<char>| #[trigger]
        joins(root, "assets/prefabs"@, dir) && joins(dir, file, path)
}

/// What the names of the files end in: of prefabs made from entities, and of a scene that becomes a
/// prefab.
pub const ENTITY_PREFAB_EXTENSION: &'static str = ".jsn";

pub const SCENE_PREFAB_EXTENSION: &'static str = ".bsn";

/// Whether `path` is where a prefab file goes: into the prefab directory of the project, or, without
/// one, next to the editor.
pub open spec fn is_prefab_path(
    project: Option<Seq<char>>,
    file: Seq<char>,
    path: Seq<char>,
) -> bool {
    match project {
        Some(root) => in_prefab_dir(root, file, path),
        None => path == file,
    }
}

/// Where a prefab of this name goes.
pub fn prefab_path(project: Option<&str>, name: &str, extension: &str) -> (r: String)
    ensures
        is_prefab_path(given_text(project), name@ + extension@, r@),
{
    let file: String = name.to_owned().concat(extension);
    match project {
        Some(root) => {
            let dir: String = join(root, "assets/prefabs");
            let path: String = join(dir.as_str(), file.as_str());
            assert(joins(root@, "assets/prefabs"@, dir@) && joins(dir@, file@, path@));
            assert(in_prefab_dir(root@, file@, path@));
            path
        },
        None => file,
    }
}

/// What is written to a prefab file.
#[derive(Debug)]
pub struct PrefabWrite {
    /// The entities to pack; none when the whole scene is.
    pub roots: Vec<Entity>,
    pub path: String,
}

/// Saves the pending entities as a prefab: tells what to write, and clears what was pending. Without
/// a name the operator is cancelled; without pending entities nothing is written or cleared.
pub fn prefab_save_as_prefab(
    pending: &mut PendingPrefabSave,
    name: Option<String>,
    project: Option<&str>,
) -> (r: (OperatorResult, Option<PrefabWrite>))
    ensures
        r.0 == (if name is Some {
            OperatorResult::Finished
        } else {
            OperatorResult::Cancelled
        }),
        name is None || old(pending).roots@.len() == 0 ==> r.1 is None && *final(pending) == *old(pending),
        name is Some && old(pending).roots@.len() > 0 ==> {
            &&& r.1 matches Some(w)
            &&& w.roots@ == old(pending).roots@
            &&& is_prefab_path(
                given_text(project),
                name->0@ + ".jsn"@,
                w.path@,
            )
            &&& final(pending).cleared()
        },
{
    let name: String = match name {
        Some(n) => n,
        None => {
            return (OperatorResult::Cancelled, None);
        },
    };
    if pending.roots.len() == 0 {
        return (OperatorResult::Finished, None);
    }
    let path: String = prefab_path(project, name.as_str(), ENTITY_PREFAB_EXTENSION);
    let mut roots: Vec<Entity> = Vec::new();
    std::mem::swap(&mut roots, &mut pending.roots);
    pending.clear();
    (OperatorResult::Finished, Some(PrefabWrite { roots, path }))
}

/// The name that a scene's prefab is saved under: the given one without white space around it, or
/// `prefab` when there is none.
pub open spec fn scene_name(name: Option<Seq<char>>) -> Seq<char> {
    match name {
        Some(n) => if trimmed(n).len() > 0 {
            trimmed(n)
        } else {
            "prefab"@
        },
        None => "prefab"@,
    }
}

/// Saves the shown scene as a prefab: tells where to write it, and clears what was pending.
pub fn prefab_save_scene_as_prefab(
    pending: &mut PendingPrefabSave,
    name: Option<String>,
    project: Option<&str>,
) -> (r: (OperatorResult, PrefabWrite))
    ensures
        r.0 == OperatorResult::Finished,
        r.1.roots@.len() == 0,
        is_prefab_path(
            given_text(project),
            scene_name(text_of(name)) + ".bsn"@,
            r.1.path@,
        ),
        final(pending).cleared(),
{
    let name: String = match name {
        Some(n) => {
            let n: String = trim(n.as_str());
            if n.as_str().unicode_len() > 0 {
                n
            } else {
                "prefab".to_owned()
            }
        },
        None => "prefab".to_owned(),
    };
    let path: String = prefab_path(project, name.as_str(), SCENE_PREFAB_EXTENSION);
    pending.clear();
    (OperatorResult::Finished, PrefabWrite { roots: Vec::new(), path })
}

/// Saves the first pending entity as a variant of its prefab: tells what to write, and clears what
/// was pending. Without a name the operator is cancelled; without a pending entity nothing is
/// written or cleared.
pub fn prefab_save_as_variant(
    pending: &mut PendingPrefabSave,
    name: Option<String>,
    project: Option<&str>,
) -> (r: (OperatorResult, Option<PrefabWrite>))
    ensures
        r.0 == (if name is Some {
            OperatorResult::Finished
        } else {
            OperatorResult::Cancelled
        }),
        name is None || old(pending).roots@.len() == 0 ==> r.1 is None && *final(pending) == *old(pending),
        name is Some && old(pending).roots@.len() > 0 ==> {
            &&& r.1 matches Some(w)
            &&& w.roots@ == seq![old(pending).roots@[0]]
            &&& is_prefab_path(
                given_text(project),
                name->0@ + ".jsn"@,
                w.path@,
            )
            &&& final(pending).cleared()
        },
{
    let name: String = match name {
        Some(n) => n,
        None => {
            return (OperatorResult::Cancelled, None);
        },
    };
    if pending.roots.len() == 0 {
        return (OperatorResult::Finished, None);
    }
    let root: Entity = pending.roots[0];
    let path: String = prefab_path(project, name.as_str(), ENTITY_PREFAB_EXTENSION);
    pending.clear();
    let mut roots: Vec<Entity> = Vec::new();
    roots.push(root);
    assert(roots@ =~= seq![root]);
    (OperatorResult::Finished, Some(PrefabWrite { roots, path }))
}

/// A dialog saves what it was opened for: entities by one operator, a scene by another, a variant by a
/// third. Only a scene can be saved without entities.
pub proof fn law_dialog_saves_what_is_pending(pending: PendingPrefabSave)
    ensures
        pending.mode == PrefabSaveMode::Prefab ==> save_operator(pending.mode)
            == "prefab.save_as_prefab"@,
        pending.mode == PrefabSaveMode::Scene ==> save_operator(pending.mode)
            == "prefab.save_scene_as_prefab"@,
        pending.mode == PrefabSaveMode::Variant ==> save_operator(pending.mode)
            == "prefab.save_as_variant"@,
        pending.roots@.len() > 0 ==> pending.ready(),
        pending.roots@.len() == 0 ==> (pending.ready() <==> pending.mode == PrefabSaveMode::Scene),
        pending.cleared() ==> !pending.ready(),
{
}

/// The prefab of a scene is never saved without a name, nor with white space around it.
pub proof fn law_scene_name(name: Option<Seq<char>>)
    ensures
        scene_name(name).len() > 0,
        !is_white_space(scene_name(name)[0]),
        !is_white_space(scene_name(name).last()),
        name is Some && trimmed(name->0).len() > 0 ==> scene_name(name) == trimmed(name->0),
        name is None || trimmed(name->0).len() == 0 ==> scene_name(name) == "prefab"@,
{
    reveal_strlit("prefab");
    assert("prefab"@[0] == 'p');
    assert("prefab"@[5] == 'b');
    if let Some(n) = name {
        law_trimmed(n);
    }
}

} // verus!
