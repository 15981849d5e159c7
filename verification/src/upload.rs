//! Scenes picked by the user: each gets a path of its own.
use crate::text::{chars_of, decimal, law_decimal_is_unique, push_decimal, push_str, text_of};
use vstd::prelude::*;

verus! {

broadcast use {vstd::seq::group_seq_axioms, vstd::string::group_string_axioms};

/// The path of a picked scene.
pub open spec fn scene_path(version: u32) -> Seq<char> {
    "scene_"@ + decimal(version as nat) + ".glb"@
}

/// The paths of the scene that was picked after `version`: its new version, where
/// its bytes are kept, and where it is loaded from.
pub fn next_scene(version: u32) -> (r: (u32, String, String))
    requires
        version < u32::MAX,
    ensures
        r.0 == version + 1,
        r.1@ == scene_path(r.0),
        r.2@ == "upload://"@ + scene_path(r.0),
{
    let next: u32 = version + 1;
    let mut path: Vec<char> = chars_of("scene_");
    push_decimal(&mut path, next as u64);
    push_str(&mut path, ".glb");
    let name: String = text_of(&path);
    let mut address: Vec<char> = chars_of("upload://");
    push_str(&mut address, name.as_str());
    (next, name, text_of(&address))
}

/// Two picked scenes never share a path.
pub proof fn law_scene_paths_differ(a: u32, b: u32)
    requires
        a != b,
    ensures
        scene_path(a) != scene_path(b),
{
    if scene_path(a) == scene_path(b) {
        let p = scene_path(a);
        let n = "scene_"@.len() as int;
        let m = p.len() - ".glb"@.len();
        assert(p.subrange(n, m) =~= decimal(a as nat));
        assert(scene_path(b).subrange(n, m) =~= decimal(b as nat));
        law_decimal_is_unique(a as nat, b as nat);
    }
}

} // verus!
