//! Locating asset files below a project root.

use vstd::prelude::*;
use vstd::string::*;

verus! {

/// The separator between the components of a path.
pub open spec fn separator() -> char {
    '/'
}

/// Whether `path` names a location by itself, without reference to a root.
pub open spec fn is_absolute(path: Seq<char>) -> bool {
    path.len() > 0 && path[0] == separator()
}

/// `local` placed below `root`: an absolute `local` stands for itself, and a
/// separator is put between the two unless `root` is empty or already ends
/// with one.
pub open spec fn joined(root: Seq<char>, local: Seq<char>) -> Seq<char> {
    if is_absolute(local) {
        local
    } else if root.len() == 0 || root.last() == separator() {
        root + local
    } else {
        root + seq![separator()] + local
    }
}

/// Resolves `local_path` against the directory `root`.
pub fn relative_path(root: &str, local_path: &str) -> (path: String)
    ensures
        path@ == joined(root@, local_path@),
{
    let local_len = local_path.unicode_len();
    if local_len > 0 && local_path.get_char(0) == '/' {
        return String::from_str(local_path);
    }
    let root_len = root.unicode_len();
    let base = String::from_str(root);
    if root_len == 0 || root.get_char(root_len - 1) == '/' {
        base.concat(local_path)
    } else {
        proof {
            reveal_strlit("/");
        }
        base.concat("/").concat(local_path)
    }
}

/// The file to load for a texture that a material names `texture`, and
/// whether it is the material's own: the file of that name below `parent`
/// if the name is not empty and `exists` says that the file is there, else
/// `fallback` below `root`.
pub open spec fn texture_choice(
    parent: Seq<char>,
    texture: Seq<char>,
    exists: bool,
    root: Seq<char>,
    fallback: Seq<char>,
) -> (Seq<char>, bool) {
    if texture.len() == 0 || !exists {
        (joined(root, fallback), false)
    } else {
        (joined(parent, texture), true)
    }
}

/// The file to load for a texture that a material names `texture`, and
/// whether it is the material's own. `exists` says whether the file of that
/// name below `parent` is there; without it, `fallback` below `root` is
/// loaded.
pub fn choose_texture(parent: &str, texture: &str, exists: bool, root: &str, fallback: &str) -> (choice:
    (String, bool))
    ensures
        (choice.0@, choice.1) == texture_choice(parent@, texture@, exists, root@, fallback@),
{
    if texture.unicode_len() == 0 || !exists {
        (relative_path(root, fallback), false)
    } else {
        (relative_path(parent, texture), true)
    }
}

} // verus!
