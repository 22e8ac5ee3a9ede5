//! Plain records handed across the interface: character backups, cloud
//! backups, and locally stored characters; and the extraction of the channel
//! label out of a character file's path.
use vstd::prelude::*;

use crate::discovery::root_marker;
use crate::discovery::seg_end;
use crate::discovery::seg_end_exec;
use crate::text::chars_to_string;
use crate::text::str_chars;

verus! {

/// One local character-backup folder.
pub struct BackupEntry {
    pub name: String,
    pub path: String,
    pub date: String,
}

/// One backup stored with the cloud provider.
pub struct BackupInfo {
    pub id: String,
    pub name: String,
    pub created_at: String,
    pub size: u64,
}

/// One character file found under an installation.
pub struct LocalCharacterInfo {
    pub name: String,
    pub path: String,
    pub version: String,
}

/// The backslash-separated components of a path, from position `p`. A path
/// always has at least one component; a trailing separator yields a final
/// empty one.
pub open spec fn spec_components_from(s: Seq<char>, p: int) -> Seq<Seq<char>>
    decreases s.len() - p,
{
    if p < 0 || p > s.len() {
        Seq::empty()
    } else {
        let e = seg_end(s, p);
        if e < p || e > s.len() {
            Seq::empty()
        } else if e >= s.len() {
            seq![s.subrange(p, s.len() as int)]
        } else {
            seq![s.subrange(p, e)] + spec_components_from(s, e + 1)
        }
    }
}

/// The channel label of the installation a character file lives under: the
/// component after the first root-marker component, or `Unknown` when the
/// path has none.
pub open spec fn spec_marker_successor(cs: Seq<Seq<char>>, i: int) -> Option<Seq<char>>
    decreases cs.len() - i,
{
    if i < 0 || i >= cs.len() {
        None
    } else if cs[i] == root_marker() && i + 1 < cs.len() {
        Some(cs[i + 1])
    } else {
        spec_marker_successor(cs, i + 1)
    }
}

/// Split a path into its backslash-separated components.
pub fn path_components(path: &str) -> (out: Vec<String>)
    ensures
        out.deep_view() == spec_components_from(path@, 0),
{
    let p = str_chars(path);
    let mut out: Vec<String> = Vec::new();
    let mut pos: usize = 0;
    let mut done = false;
    proof {
        assert(out.deep_view() =~= Seq::<Seq<char>>::empty());
    }
    while !done
        invariant
            0 <= pos <= p@.len(),
            p@ == path@,
            !done ==> spec_components_from(path@, 0) == out.deep_view() + spec_components_from(
                path@,
                pos as int,
            ),
            done ==> out.deep_view() == spec_components_from(path@, 0),
        decreases p@.len() - pos + 1, (if done { 0int } else { 1int }),
    {
        let ghost outv = out.deep_view();
        let e = seg_end_exec(&p, pos);
        let mut comp: Vec<char> = Vec::new();
        let mut k = pos;
        while k < e
            invariant
                pos <= k <= e <= p@.len(),
                p@ == path@,
                comp@ == path@.subrange(pos as int, k as int),
            decreases e - k,
        {
            comp.push(p[k]);
            proof {
                assert(comp@ =~= path@.subrange(pos as int, k + 1));
            }
            k += 1;
        }
        out.push(chars_to_string(&comp));
        if e >= p.len() {
            proof {
                assert(spec_components_from(path@, pos as int) == seq![
                    path@.subrange(pos as int, path@.len() as int),
                ]);
                assert(out.deep_view() =~= outv + spec_components_from(path@, pos as int));
            }
            done = true;
        } else {
            proof {
                assert(spec_components_from(path@, pos as int) == seq![
                    path@.subrange(pos as int, e as int),
                ] + spec_components_from(path@, e + 1));
                assert(out.deep_view() =~= outv.push(path@.subrange(pos as int, e as int)));
                assert(outv + spec_components_from(path@, pos as int) =~= out.deep_view()
                    + spec_components_from(path@, e + 1));
            }
            pos = e + 1;
        }
    }
    out
}

fn is_root_marker_string(s: &String) -> (r: bool)
    ensures
        r == (s@ == root_marker()),
{
    let marker = ("StarCitizen").to_owned();
    proof {
        reveal_strlit("StarCitizen");
        assert(marker@ =~= root_marker());
    }
    s.eq(&marker)
}

/// The channel label a character file belongs to: the path component after
/// the first `StarCitizen` component, or `Unknown` when there is none.
pub fn extract_version_from_path(path: &str) -> (r: String)
    ensures
        spec_marker_successor(spec_components_from(path@, 0), 0) is Some ==> r@
            == spec_marker_successor(spec_components_from(path@, 0), 0)->0,
        spec_marker_successor(spec_components_from(path@, 0), 0) is None ==> r@ == "Unknown"@,
{
    let components = path_components(path);
    let ghost cs = spec_components_from(path@, 0);
    let mut i: usize = 0;
    while i < components.len()
        invariant
            0 <= i <= components@.len(),
            cs == spec_components_from(path@, 0),
            components.deep_view() == cs,
            spec_marker_successor(cs, 0) == spec_marker_successor(cs, i as int),
        decreases components@.len() - i,
    {
        proof {
            assert(components.deep_view()[i as int] == components@[i as int]@);
        }
        if is_root_marker_string(&components[i]) && i + 1 < components.len() {
            proof {
                assert(components.deep_view()[i + 1] == components@[i + 1]@);
                assert(cs[i as int] == components@[i as int]@);
                assert(spec_marker_successor(cs, i as int) == Some(cs[i + 1]));
            }
            let out = components[i + 1].clone();
            proof {
                assert(out@ == cs[i + 1]);
                assert(spec_marker_successor(cs, 0) is Some);
                assert(spec_marker_successor(cs, 0)->0 == out@);
                assert(cs == spec_components_from(path@, 0));
                assert(spec_marker_successor(spec_components_from(path@, 0), 0) is Some);
                assert(spec_marker_successor(spec_components_from(path@, 0), 0)->0 == out@);
            }
            return out;
        }
        i += 1;
    }
    let unknown = "Unknown";
    proof {
        reveal_strlit("Unknown");
    }
    unknown.to_owned()
}

} // verus!
