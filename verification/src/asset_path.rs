//! Asset paths: where the assets directory is, and paths relative to it.
use vstd::prelude::*;
use crate::text::{given_text, occurs_in, text_of};

verus! {

/// Whether `simple` is a simplified form of `path`: the path itself, or the path without the
/// verbatim prefix that some systems put before it.
pub open spec fn simplifies(path: Seq<char>, simple: Seq<char>) -> bool {
    ||| simple == path
    ||| "\\\\?\\"@.is_prefix_of(path) && simple == path.subrange(4, path.len() as int)
}

/// `dunce::simplified`: the path without its verbatim prefix (the four characters `\\?\`) where
/// that can be left out, else the path itself. Which of the two comes back depends on the system
/// as well as on the path, so that is left open.
#[verifier::external_body]
fn simplified(path: &str) -> (r: String)
    ensures
        simplifies(path@, r@),
{
    dunce::simplified(std::path::Path::new(path)).to_string_lossy().into_owned()
}

/// Whether the name that begins at `i` in a path is `.` or `..`, which stand for a directory.
pub open spec fn dots_at(path: Seq<char>, i: int) -> bool {
    &&& path[i] == '.'
    &&& {
        ||| i + 1 == path.len()
        ||| path[i + 1] == '/'
        ||| path[i + 1] == '.' && (i + 2 == path.len() || path[i + 2] == '/')
    }
}

/// Whether a path reads the same on every system: names with one `/` between two of them, none of
/// which stands for a directory, and no character that only some systems give a meaning to.
pub open spec fn is_clean(path: Seq<char>) -> bool {
    &&& path.len() > 0
    &&& path.last() != '/'
    &&& !path.contains('\\')
    &&& !path.contains(':')
    &&& forall|i: int|
        0 <= i < path.len() - 1 && #[trigger] path[i] == '/' ==> path[i + 1] != '/'
    &&& forall|i: int|
        0 <= i < path.len() && (i == 0 || path[i - 1] == '/') ==> !#[trigger] dots_at(path, i)
}

/// The rest of a clean path below a clean one: what follows it and a separator. Nothing is left of
/// a path below itself.
pub open spec fn rest_below(path: Seq<char>, base: Seq<char>) -> Option<Seq<char>> {
    if path == base {
        Some(Seq::empty())
    } else if (base + "/"@).is_prefix_of(path) {
        Some(path.subrange(base.len() + 1int, path.len() as int))
    } else {
        None
    }
}

/// `std::path::Path::strip_prefix`: the rest of `path` below `base`, if `base` is one of its
/// leading directories. The rest is a part of `path`. What counts as a directory depends on the
/// system, so for paths that are not clean it is left open whether there is a rest, and where it
/// begins.
#[verifier::external_body]
fn strip_prefix(path: &str, base: &str) -> (r: Option<String>)
    ensures
        r is Some ==> occurs_in(path@, r->0@),
        is_clean(path@) && is_clean(base@) ==> text_of(r) == rest_below(path@, base@),
{
    std::path::Path::new(path).strip_prefix(base).ok().map(|p| p.to_string_lossy().into_owned())
}

/// Whether `joined` is `dir` followed by `rest`, with a separator between them where `dir` does not
/// end in one or in a drive.
pub open spec fn follows(dir: Seq<char>, rest: Seq<char>, joined: Seq<char>) -> bool {
    ||| joined == dir + "/"@ + rest
    ||| joined == dir + "\\"@ + rest
    ||| joined == dir + rest && (dir.len() == 0 || dir.last() == '/' || dir.last() == '\\'
        || dir.last() == ':')
}

/// Whether a path is relative on every system: it is not empty, does not begin with a separator, and
/// names no drive.
pub open spec fn is_plain(path: Seq<char>) -> bool {
    path.len() > 0 && path[0] != '/' && path[0] != '\\' && !path.contains(':')
}

/// Whether `joined` is `rest` below `dir`. A path that may not be relative is still what the result
/// ends in. What is below a directory with a verbatim prefix is left open.
pub open spec fn joins(dir: Seq<char>, rest: Seq<char>, joined: Seq<char>) -> bool {
    "\\\\?\\"@.is_prefix_of(dir) || {
        &&& rest.is_suffix_of(joined)
        &&& is_plain(rest) ==> follows(dir, rest, joined)
    }
}

/// `std::path::Path::join`: `rest` below `dir`, with the separator of the system where one is
/// needed. Where `rest` is no relative path it takes the place of `dir`, or of all but its drive.
/// Which paths are relative, and what the separator is, depends on the system.
#[verifier::external_body]
pub(crate) fn join(dir: &str, rest: &str) -> (r: String)
    ensures
        joins(dir@, rest@, r@),
{
    std::path::Path::new(dir).join(rest).to_string_lossy().into_owned()
}

/// The offset of the last `c` in a text, or one less than its beginning.
pub open spec fn last_char(s: Seq<char>, c: char) -> int
    decreases s.len(),
{
    if s.len() == 0 {
        -1
    } else if s.last() == c {
        s.len() - 1
    } else {
        last_char(s.drop_last(), c)
    }
}

/// What follows the last separator of a path.
pub open spec fn last_name(path: Seq<char>) -> Seq<char> {
    path.subrange(last_char(path, '/') + 1, path.len() as int)
}

/// A file's name without its extension: what stands before the last dot. A name without a dot, or
/// whose only dot is its first character, has none.
pub open spec fn stem_of(name: Seq<char>) -> Seq<char> {
    if last_char(name, '.') > 0 {
        name.subrange(0, last_char(name, '.'))
    } else {
        name
    }
}

/// `std::path::Path::file_stem`: the final component without its extension, if there is one: a part
/// of the path. What counts as a component depends on the system, so for a path that is not clean
/// it is left open which part.
#[verifier::external_body]
fn file_stem(path: &str) -> (r: Option<String>)
    ensures
        r is Some ==> occurs_in(path@, r->0@),
        is_clean(path@) ==> text_of(r) == Some(stem_of(last_name(path@))),
{
    std::path::Path::new(path).file_stem().map(|s| s.to_string_lossy().into_owned())
}

/// The directory that the assets directory is in: the root set for assets, else the package
/// directory, else the directory of the executable.
pub open spec fn base_dir(
    asset_root: Option<Seq<char>>,
    package_dir: Option<Seq<char>>,
    exe_dir: Option<Seq<char>>,
) -> Option<Seq<char>> {
    if asset_root is Some {
        asset_root
    } else if package_dir is Some {
        package_dir
    } else {
        exe_dir
    }
}

/// Whether `found` is the assets directory inside `dir`, in simplified form.
pub open spec fn is_assets_dir(dir: Seq<char>, found: Seq<char>) -> bool {
    exists|simple: Seq<char>| #[trigger] simplifies(dir, simple) && joins(
        simple,
        "assets"@,
        found,
    )
}

/// The assets directory inside `dir`.
pub fn assets_dir_in(dir: &str) -> (r: String)
    ensures
        is_assets_dir(dir@, r@),
{
    let simple: String = simplified(dir);
    let r: String = join(simple.as_str(), "assets");
    assert(simplifies(dir@, simple@) && joins(simple@, "assets"@, r@));
    r
}

/// The assets directory: the one of the last opened project, when it is there; else the one in the
/// base directory.
pub fn get_assets_base_dir(
    project_assets: Option<String>,
    asset_root: Option<String>,
    package_dir: Option<String>,
    exe_dir: Option<String>,
) -> (r: Option<String>)
    ensures
        project_assets is Some ==> r == project_assets,
        project_assets is None ==> match base_dir(
            text_of(asset_root),
            text_of(package_dir),
            text_of(exe_dir),
        ) {
            Some(dir) => r is Some && is_assets_dir(dir, r->0@),
            None => r is None,
        },
{
    if project_assets.is_some() {
        return project_assets;
    }
    let base: Option<String> = if asset_root.is_some() {
        asset_root
    } else if package_dir.is_some() {
        package_dir
    } else {
        exe_dir
    };
    match base {
        Some(dir) => Some(assets_dir_in(dir.as_str())),
        None => None,
    }
}

/// The asset path for a path and what is left of it below the assets directory: that, when the path
/// is below it, else the path itself.
pub fn relative_or_path(relative: Option<String>, path: String) -> (r: String)
    ensures
        r == (match relative {
            Some(p) => p,
            None => path,
        }),
{
    match relative {
        Some(p) => p,
        None => path,
    }
}

/// Whether `asset` is the asset path of `path`. For a clean path and a clean directory that is the
/// path from there, or the path itself when it is not below. For others it is a part of the path in
/// simplified form.
pub open spec fn is_asset_path(
    path: Seq<char>,
    assets_dir: Option<Seq<char>>,
    asset: Seq<char>,
) -> bool {
    &&& exists|simple: Seq<char>| #[trigger] simplifies(path, simple) && occurs_in(simple, asset)
    &&& assets_dir is None ==> simplifies(path, asset)
    &&& is_clean(path) && assets_dir is Some && is_clean(assets_dir->0) ==> asset == (
    match rest_below(path, assets_dir->0) {
        Some(rest) => rest,
        None => path,
    })
}

/// A clean path is in simplified form.
proof fn lemma_clean_is_simple(path: Seq<char>, simple: Seq<char>)
    requires
        is_clean(path),
        simplifies(path, simple),
    ensures
        simple == path,
{
    reveal_strlit("\\\\?\\");
    if "\\\\?\\"@.is_prefix_of(path) {
        assert(path[0] == "\\\\?\\"@[0]);
        assert(path.contains(path[0]));
    }
}

proof fn lemma_occurs_in_itself(s: Seq<char>)
    ensures
        occurs_in(s, s),
{
    assert(s.subrange(0, s.len() as int) =~= s);
    assert(crate::text::occurs_at(s, s, 0));
}

/// Turns a path of the file system into an asset path. Below the assets directory it is the path
/// from there. Outside, or where no assets directory is known, it is the simplified path itself.
pub fn to_asset_path(path: &str, assets_dir: Option<&str>) -> (r: String)
    ensures
        is_asset_path(path@, given_text(assets_dir), r@),
{
    let ghost given = path@;
    let path: String = simplified(path);
    proof {
        lemma_occurs_in_itself(path@);
        assert(simplifies(given, path@) && occurs_in(path@, path@));
        if is_clean(given) {
            lemma_clean_is_simple(given, path@);
        }
    }
    let relative: Option<String> = match assets_dir {
        Some(dir) => {
            let ghost plain = dir@;
            let dir: String = simplified(dir);
            proof {
                if is_clean(plain) {
                    lemma_clean_is_simple(plain, dir@);
                }
            }
            strip_prefix(path.as_str(), dir.as_str())
        },
        None => None,
    };
    relative_or_path(relative, path)
}

/// The name that a placed model gets: its file's stem.
pub fn gltf_name(stem: Option<String>) -> (r: String)
    ensures
        r@ == (match text_of(stem) {
            Some(s) => s,
            None => "GLTF Model"@,
        }),
{
    match stem {
        Some(s) => s,
        None => "GLTF Model".to_owned(),
    }
}

/// Whether `name` is the name of a model placed from `path`: the stem of the file. For a path that
/// is not clean it is a part of the path, or the fallback for one without a file name.
pub open spec fn is_gltf_name(path: Seq<char>, name: Seq<char>) -> bool {
    &&& name == "GLTF Model"@ || occurs_in(path, name)
    &&& is_clean(path) ==> name == stem_of(last_name(path))
}

/// The name that a model placed from `path` gets.
pub fn gltf_name_for(path: &str) -> (r: String)
    ensures
        is_gltf_name(path@, r@),
{
    gltf_name(file_stem(path))
}

} // verus!
