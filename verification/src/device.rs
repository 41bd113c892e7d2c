//! Decisions around the device's directory-management API.
//!
//! The device exposes one explorer endpoint: list a directory, create a
//! directory, upload a file into a parent directory. The transport lives with
//! the caller; this module holds what the calls are driven by — how a remote
//! path decomposes into parent directory and filename, how the target base
//! directory is normalized, and whether the pre-flight listing shows that the
//! base directory must still be created.

use crate::bytes::{
    bytes_eq, clone_bytes, push_range, rfind, rfind_byte, B_DOT, B_M, B_SLASH, B_THREE, B_U,
};
use vstd::prelude::*;

verus! {

/// A `(name, dir)` pair from the device's directory listing.
pub struct RemoteDirectoryEntry {
    /// The entry's name within the listed directory.
    pub name: Vec<u8>,
    /// Whether the entry is a directory; `None` means a plain file.
    pub dir: Option<bool>,
}

/// The name and directory flag of one listing entry.
pub open spec fn dir_entry_view(e: RemoteDirectoryEntry) -> (Seq<u8>, Option<bool>) {
    (e.name@, e.dir)
}

/// The abstract shape of a whole directory listing.
pub open spec fn listing_view(l: Seq<RemoteDirectoryEntry>) -> Seq<(Seq<u8>, Option<bool>)> {
    l.map_values(|e: RemoteDirectoryEntry| dir_entry_view(e))
}

/// The listing contains an entry named `basename` whose directory flag is set.
pub open spec fn spec_listing_has_dir(l: Seq<(Seq<u8>, Option<bool>)>, basename: Seq<u8>) -> bool {
    exists|i: int| 0 <= i < l.len() && l[i].0 == basename && l[i].1 == Some(true)
}

/// The bytes of the `.m3u` filename extension.
pub open spec fn m3u_ext() -> Seq<u8> {
    seq![B_DOT, B_M, B_THREE, B_U]
}

/// The parent directory of a path: everything before the last `/`, the root
/// `/` when the last slash leads the path, and empty when there is no slash.
pub open spec fn spec_split_parent(s: Seq<u8>) -> Seq<u8> {
    let j = rfind(s, B_SLASH);
    if j < 0 {
        Seq::empty()
    } else if j == 0 {
        seq![B_SLASH]
    } else {
        s.take(j)
    }
}

/// The basename of a path: everything after the last `/`, or the whole path
/// when there is no slash.
pub open spec fn spec_split_name(s: Seq<u8>) -> Seq<u8> {
    s.skip(rfind(s, B_SLASH) + 1)
}

/// `s` with a trailing `/` appended unless it already ends with one.
pub open spec fn spec_normalize_base_dir(s: Seq<u8>) -> Seq<u8> {
    if s.len() > 0 && s.last() == B_SLASH {
        s
    } else {
        s + seq![B_SLASH]
    }
}

/// Decomposes a remote path into its parent directory and filename — an
/// upload posts to the parent and names the file by the basename.
pub fn split_path(path: &Vec<u8>) -> (r: (Vec<u8>, Vec<u8>))
    ensures
        r.0@ == spec_split_parent(path@),
        r.1@ == spec_split_name(path@),
{
    match rfind_byte(path, B_SLASH) {
        None => {
            let parent: Vec<u8> = Vec::new();
            let mut name: Vec<u8> = Vec::new();
            push_range(&mut name, path, 0, path.len());
            proof {
                assert(name@ =~= path@.skip(0));
            }
            (parent, name)
        },
        Some(j) => {
            proof {
                crate::bytes::lemma_rfind_props(path@, B_SLASH);
                assert(j as int == rfind(path@, B_SLASH));
                assert((j as int) < path@.len());
            }
            let mut parent: Vec<u8> = Vec::new();
            if j == 0 {
                parent.push(B_SLASH);
                proof {
                    assert(parent@ =~= seq![B_SLASH]);
                }
            } else {
                push_range(&mut parent, path, 0, j);
                proof {
                    assert(parent@ =~= path@.take(j as int));
                }
            }
            let len = path.len();
            let mut name: Vec<u8> = Vec::new();
            push_range(&mut name, path, j + 1, len);
            proof {
                assert(name@ =~= path@.skip(j as int + 1));
            }
            (parent, name)
        },
    }
}

/// Normalizes the configured base directory to end with a path separator.
pub fn normalize_base_dir(dir: &Vec<u8>) -> (r: Vec<u8>)
    ensures
        r@ == spec_normalize_base_dir(dir@),
{
    let mut out = clone_bytes(dir);
    if out.len() == 0 || out[out.len() - 1] != B_SLASH {
        out.push(B_SLASH);
        proof {
            assert(out@ =~= dir@ + seq![B_SLASH]);
        }
    }
    out
}

/// The pre-flight targets: the directory whose listing is checked and the
/// basename looked for in it, for a base directory ending with `/`.
pub fn preflight_target(base_dir: &Vec<u8>) -> (r: (Vec<u8>, Vec<u8>))
    requires
        base_dir@.len() >= 2,
        base_dir@.last() == B_SLASH,
    ensures
        r.0@ == spec_split_parent(base_dir@.drop_last()),
        r.1@ == spec_split_name(base_dir@.drop_last()),
{
    let mut stripped: Vec<u8> = Vec::new();
    push_range(&mut stripped, base_dir, 0, base_dir.len() - 1);
    proof {
        assert(stripped@ =~= base_dir@.drop_last());
    }
    split_path(&stripped)
}

/// The remote path of a subscription's playlist: `{base_dir}{name}.m3u` for a
/// base directory already ending with `/`.
pub fn remote_playlist_path(base_dir: &Vec<u8>, name: &Vec<u8>) -> (r: Vec<u8>)
    ensures
        r@ == base_dir@ + name@ + m3u_ext(),
{
    let mut out = clone_bytes(base_dir);
    push_range(&mut out, name, 0, name.len());
    out.push(B_DOT);
    out.push(B_M);
    out.push(B_THREE);
    out.push(B_U);
    proof {
        assert(name@.subrange(0, name@.len() as int) =~= name@);
        assert(out@ =~= base_dir@ + name@ + m3u_ext());
    }
    out
}

/// The pre-flight decision: the base directory must be created exactly when
/// the parent listing has no entry that carries the target basename and whose
/// directory flag is set.
pub fn needs_mkdir(listing: &Vec<RemoteDirectoryEntry>, basename: &Vec<u8>) -> (r: bool)
    ensures
        r == !spec_listing_has_dir(listing_view(listing@), basename@),
{
    let ghost l = listing_view(listing@);
    let mut i: usize = 0;
    while i < listing.len()
        invariant
            i <= listing@.len(),
            l == listing_view(listing@),
            l.len() == listing@.len(),
            forall|j: int| 0 <= j < i ==> !(l[j].0 == basename@ && l[j].1 == Some(true)),
        decreases listing@.len() - i,
    {
        let e = &listing[i];
        proof {
            assert(l[i as int] == dir_entry_view(listing@[i as int]));
        }
        let is_dir = match e.dir {
            Some(d) => d,
            None => false,
        };
        if is_dir && bytes_eq(&e.name, basename) {
            proof {
                assert(l[i as int].0 == basename@ && l[i as int].1 == Some(true));
            }
            return false;
        }
        i += 1;
    }
    proof {
        assert(!spec_listing_has_dir(l, basename@)) by {
            if spec_listing_has_dir(l, basename@) {
                let w = choose|w: int|
                    0 <= w < l.len() && l[w].0 == basename@ && l[w].1 == Some(true);
                assert(false);
            }
        }
    }
    true
}

} // verus!
