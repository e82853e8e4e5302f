//! What holds of every masked mount: a name of the upper backend is looked up,
//! made, removed, linked and renamed in one and the same directory there, the
//! one of its own path.

use vstd::prelude::*;
use crate::mask_set::{path_text, proper, path_texts_are_distinct, MaskSetView};
use crate::stat::Stat;
use super::{
    forgets_of, lemma_depth, lemma_prefix_known, offered, resolving, stored_dirs,
    stored_path, type_of, Backend, MaskView, PlaceView, RenamePlaceView, Resolution, RouteView,
};

verus! {

/// The name is one that the upper backend has or would have.
pub open spec fn is_upper(fs: MaskView, parent: u64, name: Seq<u8>) -> bool {
    &&& fs.routes.contains_key(parent)
    &&& fs.routes[parent].backend == Backend::Upper || fs.masks.masked(
        fs.routes[parent].path.push(name),
    )
}

/// The upper backend's inode of a directory: the first one for the root, for any
/// other the one that it was found under.
pub open spec fn is_dir(fs: MaskView, dir: Seq<Seq<u8>>, inode: u64) -> bool {
    if dir.len() == 0 {
        inode == 1
    } else {
        fs.upper_inodes.contains_key(path_text(dir)) && inode == fs.upper_inodes[path_text(dir)]
    }
}

/// A lookup is the next one on the way to a directory: of a component whose own
/// directory is known, and which is not known itself.
pub open spec fn is_next_lookup(
    fs: MaskView,
    dir: Seq<Seq<u8>>,
    parent: u64,
    path: Seq<Seq<u8>>,
) -> bool {
    &&& 0 < path.len() <= dir.len()
    &&& path == dir.take(path.len() as int)
    &&& !fs.upper_inodes.contains_key(path_text(path))
    &&& is_dir(fs, path.drop_last(), parent)
    &&& forall|k: int|
        0 < k < path.len() ==> fs.upper_inodes.contains_key(path_text(#[trigger] dir.take(k)))
    &&& !path.last().contains(0u8)
}

/// Where resolution stops, the directory of what is missing is the last one that
/// was known.
proof fn lemma_stops(known: Map<Seq<u8>, u64>, path: Seq<Seq<u8>>, index: int, parent: u64)
    requires
        0 <= index <= path.len() <= usize::MAX,
        index > 0 ==> known.contains_key(path_text(path.take(index))) && known[path_text(
            path.take(index),
        )] == parent,
    ensures
        match resolving(known, path, index, parent) {
            Resolution::Missing { parent: p, depth } => {
                &&& index <= depth < path.len()
                &&& !known.contains_key(path_text(path.take(depth + 1)))
                &&& depth == index ==> p == parent
                &&& depth > 0 && depth > index ==> known.contains_key(path_text(path.take(depth as int)))
                    && known[path_text(path.take(depth as int))] == p
            },
            Resolution::Known(p) => if path.len() == index {
                p == parent
            } else {
                known.contains_key(path_text(path)) && known[path_text(path)] == p
            },
        },
    decreases path.len() - index,
{
    if index < path.len() {
        let key = path_text(path.take(index + 1));
        if known.contains_key(key) {
            lemma_stops(known, path, index + 1, known[key]);
            assert(path.take(path.len() as int) =~= path);
        }
    }
}

/// What is known of a directory of the upper backend.
proof fn lemma_upper_parent(fs: MaskView, dir: Seq<Seq<u8>>)
    requires
        fs.stored,
        dir.len() <= usize::MAX,
    ensures
        match fs.upper_parent(dir) {
            Ok(Resolution::Known(inode)) => is_dir(fs, dir, inode),
            Ok(Resolution::Missing { parent, depth }) => {
                &&& depth < dir.len()
                &&& is_next_lookup(fs, dir, parent, dir.take(depth + 1))
                &&& !fs.upper_inodes.contains_key(path_text(dir))
            },
            Err(error) => error == 22 && dir.len() > 0 && !fs.upper_inodes.contains_key(path_text(dir)),
        },
        dir.len() == 0 || fs.upper_inodes.contains_key(path_text(dir))
            ==> fs.upper_parent(dir) matches Ok(Resolution::Known(_)),
{
    if dir.len() > 0 {
        lemma_stops(fs.upper_inodes, dir, 0, 1);
        lemma_prefix_known(fs.upper_inodes, dir, 0, 1);
        lemma_depth(fs.upper_inodes, dir, 0, 1);
        match resolving(fs.upper_inodes, dir, 0, 1) {
            Resolution::Missing { parent, depth } => {
                let path = dir.take(depth + 1);
                assert(path.drop_last() =~= dir.take(depth as int));
                assert(path =~= dir.take(path.len() as int));
                assert forall|k: int| 0 < k < path.len() implies fs.upper_inodes.contains_key(
                    path_text(#[trigger] dir.take(k)),
                ) by {
                    assert(dir.take((k - 1) + 1) == dir.take(k));
                }
            },
            Resolution::Known(_) => {},
        }
    }
}

/// A name of the upper backend is made or removed in the directory of its own
/// path, and in no other. Where that directory is not known yet, the next
/// component on the way to it is looked up first.
pub proof fn changes_are_made_in_the_names_directory(fs: MaskView, parent: u64, name: Seq<u8>)
    requires
        is_upper(fs, parent, name),
        fs.stored,
        fs.routes[parent].path.len() <= usize::MAX,
    ensures
        ({
            let dir = fs.routes[parent].path;
            match fs.change_place(parent, name) {
                Ok(PlaceView::Upper { parent: at, path }) => {
                    &&& is_dir(fs, dir, at)
                    &&& path == dir.push(name)
                },
                Ok(PlaceView::Lookup { parent: at, path }) => is_next_lookup(fs, dir, at, path),
                Ok(PlaceView::Lower { .. }) => false,
                Err(error) => error == 22,
            }
        }),
        forall|inode: u64| #[trigger]
            is_dir(fs, fs.routes[parent].path, inode) ==> fs.change_place(parent, name) == Ok::<
                PlaceView,
                i32,
            >(PlaceView::Upper { parent: inode, path: fs.routes[parent].path.push(name) }),
{
    let dir = fs.routes[parent].path;
    lemma_upper_parent(fs, dir);
    assert(dir.push(name).drop_last() =~= dir);
    match fs.upper_parent(dir) {
        Ok(Resolution::Missing { parent, depth }) => {
            assert(dir.push(name).take(depth + 1) =~= dir.take(depth + 1));
        },
        _ => {},
    }
}

/// A name of the upper backend is looked up where it is made: what was created is
/// found by the next lookup. A name that no file can have is not looked up.
pub proof fn created_names_are_found(fs: MaskView, parent: u64, name: Seq<u8>)
    requires
        is_upper(fs, parent, name),
        fs.stored,
        fs.routes[parent].path.len() <= usize::MAX,
    ensures
        !name.contains(0u8) ==> fs.lookup_place(parent, name) == fs.change_place(parent, name),
        name.contains(0u8) ==> !(fs.lookup_place(parent, name) matches Ok(PlaceView::Upper { .. })),
        name.contains(0u8) && (exists|inode: u64| is_dir(fs, fs.routes[parent].path, inode))
            ==> fs.lookup_place(parent, name) == Err::<PlaceView, i32>(22),
{
    let dir = fs.routes[parent].path;
    let path = dir.push(name);
    lemma_upper_parent(fs, dir);
    assert(path.drop_last() =~= dir);
    assert(path.last() == name);
}

/// A directory that was found is the one in which the names of its path are made:
/// those of the inode that it was found under, and those of any other inode that
/// stands for the same path.
pub proof fn found_directories_are_changed(
    fs: MaskView,
    dir: Seq<Seq<u8>>,
    inode: u64,
    parent: u64,
    name: Seq<u8>,
)
    requires
        fs.stored,
        0 < dir.len() <= usize::MAX,
    ensures
        ({
            let after = fs.recorded(Backend::Upper, dir, inode);
            let place = Ok::<PlaceView, i32>(
                PlaceView::Upper { parent: inode, path: dir.push(name) },
            );
            &&& after.change_place(inode, name) == place
            &&& !name.contains(0u8) ==> after.lookup_place(inode, name) == place
            &&& is_upper(fs, parent, name) && parent != inode && fs.routes[parent].path == dir
                ==> after.change_place(parent, name) == place
        }),
{
    let after = fs.recorded(Backend::Upper, dir, inode);
    assert(is_upper(after, inode, name));
    assert(is_dir(after, dir, inode));
    changes_are_made_in_the_names_directory(after, inode, name);
    created_names_are_found(after, inode, name);
    if is_upper(fs, parent, name) && parent != inode && fs.routes[parent].path == dir {
        changes_are_made_in_the_names_directory(after, parent, name);
    }
}

/// What was found or removed under one path changes nothing for the names of
/// another directory, unless it stands on the way to it.
pub proof fn other_directories_are_left_alone(
    fs: MaskView,
    path: Seq<Seq<u8>>,
    inode: u64,
    backend: Backend,
    parent: u64,
    name: Seq<u8>,
)
    requires
        is_upper(fs, parent, name),
        fs.stored,
        parent != inode,
        proper(path),
        proper(fs.routes[parent].path),
        fs.routes[parent].path.len() <= usize::MAX,
        path != fs.routes[parent].path,
        exists|at: u64| is_dir(fs, fs.routes[parent].path, at),
    ensures
        fs.recorded(backend, path, inode).change_place(parent, name) == fs.change_place(
            parent,
            name,
        ),
        fs.unrecorded(path).change_place(parent, name) == fs.change_place(parent, name),
        fs.recorded(Backend::Lower, path, inode).upper_inodes == fs.upper_inodes,
{
    let dir = fs.routes[parent].path;
    let at = choose|at: u64| is_dir(fs, dir, at);
    if path_text(path) == path_text(dir) {
        path_texts_are_distinct(path, dir);
    }
    assert(is_dir(fs, dir, at));
    assert(is_dir(fs.recorded(backend, path, inode), dir, at));
    assert(is_dir(fs.unrecorded(path), dir, at));
    changes_are_made_in_the_names_directory(fs, parent, name);
    changes_are_made_in_the_names_directory(fs.recorded(backend, path, inode), parent, name);
    changes_are_made_in_the_names_directory(fs.unrecorded(path), parent, name);
}

/// A directory that was removed has no names any more: they are not made under
/// the inode that it had.
pub proof fn removed_directories_are_looked_up_again(
    fs: MaskView,
    dir: Seq<Seq<u8>>,
    parent: u64,
    name: Seq<u8>,
)
    requires
        fs.stored,
        0 < dir.len() <= usize::MAX,
        is_upper(fs, parent, name),
        fs.routes[parent].path == dir,
    ensures
        match fs.unrecorded(dir).change_place(parent, name) {
            Ok(PlaceView::Lookup { .. }) => true,
            Ok(_) => false,
            Err(error) => error == 22,
        },
{
    changes_are_made_in_the_names_directory(fs.unrecorded(dir), parent, name);
}

/// A rename within the upper backend goes from the directory of the old path to
/// the directory of the new one.
pub proof fn renames_go_between_the_names_directories(
    fs: MaskView,
    olddir: u64,
    oldname: Seq<u8>,
    newdir: u64,
    newname: Seq<u8>,
    from: u64,
    to: u64,
)
    requires
        fs.stored,
        is_upper(fs, olddir, oldname),
        is_upper(fs, newdir, newname),
        fs.routes[olddir].backend == Backend::Upper ==> fs.routes[olddir].path.len() > 0,
        fs.routes[newdir].backend == Backend::Upper ==> fs.routes[newdir].path.len() > 0,
        fs.routes[olddir].path.len() <= usize::MAX,
        fs.routes[newdir].path.len() <= usize::MAX,
        is_dir(fs, fs.routes[olddir].path, from),
        is_dir(fs, fs.routes[newdir].path, to),
    ensures
        fs.rename_place(olddir, oldname, newdir, newname) == Ok::<RenamePlaceView, i32>(
            RenamePlaceView::Upper { olddir: from, newdir: to },
        ),
        fs.change_place(olddir, oldname) == Ok::<PlaceView, i32>(
            PlaceView::Upper { parent: from, path: fs.routes[olddir].path.push(oldname) },
        ),
        fs.change_place(newdir, newname) == Ok::<PlaceView, i32>(
            PlaceView::Upper { parent: to, path: fs.routes[newdir].path.push(newname) },
        ),
{
    let a = fs.routes[olddir].path;
    let b = fs.routes[newdir].path;
    lemma_upper_parent(fs, a);
    lemma_upper_parent(fs, b);
    assert(a.push(oldname).drop_last() =~= a);
    assert(b.push(newname).drop_last() =~= b);
    changes_are_made_in_the_names_directory(fs, olddir, oldname);
    changes_are_made_in_the_names_directory(fs, newdir, newname);
}

/// A rename under directories that are not known yet first looks the next
/// component up, of the old path's directory before the new one's.
pub proof fn renames_look_directories_up(
    fs: MaskView,
    olddir: u64,
    oldname: Seq<u8>,
    newdir: u64,
    newname: Seq<u8>,
)
    requires
        fs.stored,
        is_upper(fs, olddir, oldname),
        is_upper(fs, newdir, newname),
        fs.routes[olddir].backend == Backend::Lower,
        fs.routes[newdir].backend == Backend::Lower,
        fs.routes[olddir].path.len() <= usize::MAX,
        fs.routes[newdir].path.len() <= usize::MAX,
    ensures
        match fs.rename_place(olddir, oldname, newdir, newname) {
            Ok(RenamePlaceView::Upper { olddir: from, newdir: to }) => {
                &&& is_dir(fs, fs.routes[olddir].path, from)
                &&& is_dir(fs, fs.routes[newdir].path, to)
            },
            Ok(RenamePlaceView::Lookup { parent, path }) => {
                ||| is_next_lookup(fs, fs.routes[olddir].path, parent, path)
                ||| {
                    &&& exists|from: u64| is_dir(fs, fs.routes[olddir].path, from)
                    &&& is_next_lookup(fs, fs.routes[newdir].path, parent, path)
                }
            },
            Ok(RenamePlaceView::Lower) => false,
            Err(error) => error == 22,
        },
{
    let a = fs.routes[olddir].path;
    let b = fs.routes[newdir].path;
    lemma_upper_parent(fs, a);
    lemma_upper_parent(fs, b);
    assert(a.push(oldname).drop_last() =~= a);
    assert(b.push(newname).drop_last() =~= b);
    match fs.upper_parent(a) {
        Ok(Resolution::Missing { parent, depth }) => {
            assert(a.push(oldname).take(depth + 1) =~= a.take(depth + 1));
        },
        Ok(Resolution::Known(inode)) => {
            assert(is_dir(fs, a, inode));
            match fs.upper_parent(b) {
                Ok(Resolution::Missing { parent, depth }) => {
                    assert(b.push(newname).take(depth + 1) =~= b.take(depth + 1));
                },
                _ => {},
            }
        },
        _ => {},
    }
}

/// A link is made in the directory of the new name's own path, and only from an
/// inode of the same backend.
pub proof fn links_are_made_in_the_names_directory(
    fs: MaskView,
    inode: u64,
    newparent: u64,
    newname: Seq<u8>,
    at: u64,
)
    requires
        fs.routes.contains_key(inode),
        fs.routes.contains_key(newparent),
        fs.routes[newparent].path.len() <= usize::MAX,
        fs.routes[newparent].backend == Backend::Upper ==> fs.routes[newparent].path.len() > 0,
    ensures
        ({
            let path = fs.routes[newparent].path.push(newname);
            let place = fs.link_place(inode, newparent, newname);
            if is_upper(fs, newparent, newname) {
                &&& fs.routes[inode].backend == Backend::Lower ==> place == Err::<PlaceView, i32>(
                    18,
                )
                &&& fs.routes[inode].backend == Backend::Upper && fs.stored && is_dir(
                    fs,
                    fs.routes[newparent].path,
                    at,
                ) ==> place == Ok::<PlaceView, i32>(PlaceView::Upper { parent: at, path })
                &&& fs.routes[inode].backend == Backend::Upper && !fs.stored ==> place == Err::<
                    PlaceView,
                    i32,
                >(30)
            } else {
                &&& fs.routes[inode].backend == Backend::Upper ==> place == Err::<PlaceView, i32>(
                    18,
                )
                &&& fs.routes[inode].backend == Backend::Lower ==> place == Ok::<PlaceView, i32>(
                    PlaceView::Lower { parent: newparent, path },
                )
            }
        }),
{
    let dir = fs.routes[newparent].path;
    assert(dir.push(newname).drop_last() =~= dir);
    if fs.stored {
        lemma_upper_parent(fs, dir);
    }
}

/// Requests on inodes that the guest was not told of are refused, those on the
/// upper backend without a storage too, and those that would cross from one
/// backend to the other.
pub proof fn refusals_are_those_of_the_guest(
    fs: MaskView,
    inode: u64,
    other: u64,
    name: Seq<u8>,
    newname: Seq<u8>,
)
    ensures
        !fs.routes.contains_key(inode) ==> {
            &&& fs.backend_of(inode) == Err::<Backend, i32>(9)
            &&& fs.lookup_place(inode, name) == Err::<PlaceView, i32>(9)
            &&& fs.change_place(inode, name) == Err::<PlaceView, i32>(9)
            &&& fs.rename_place(inode, name, other, newname) == Err::<RenamePlaceView, i32>(9)
            &&& fs.rename_place(other, newname, inode, name) == Err::<RenamePlaceView, i32>(9)
            &&& fs.link_place(inode, other, newname) == Err::<PlaceView, i32>(9)
            &&& fs.link_place(other, inode, newname) == Err::<PlaceView, i32>(9)
            &&& fs.copy_backend(inode, other) == Err::<Backend, i32>(9)
            &&& fs.copy_backend(other, inode) == Err::<Backend, i32>(9)
            &&& fs.forget_backend(inode) == Backend::Lower
        },
        fs.routes.contains_key(inode) ==> {
            let backend = fs.routes[inode].backend;
            &&& fs.forget_backend(inode) == backend
            &&& backend == Backend::Lower ==> fs.backend_of(inode) == Ok::<Backend, i32>(
                Backend::Lower,
            )
            &&& backend == Backend::Upper && fs.stored ==> fs.backend_of(inode) == Ok::<
                Backend,
                i32,
            >(Backend::Upper)
            &&& backend == Backend::Upper && !fs.stored ==> fs.backend_of(inode) == Err::<
                Backend,
                i32,
            >(30)
        },
        fs.routes.contains_key(inode) && fs.routes.contains_key(other) ==> {
            &&& fs.routes[inode].backend != fs.routes[other].backend ==> fs.copy_backend(
                inode,
                other,
            ) == Err::<Backend, i32>(18)
            &&& fs.routes[inode].backend == fs.routes[other].backend ==> fs.copy_backend(
                inode,
                other,
            ) == fs.backend_of(inode)
            &&& is_upper(fs, inode, name) && is_upper(fs, other, newname) && !fs.stored
                ==> fs.rename_place(inode, name, other, newname) == Err::<RenamePlaceView, i32>(30)
            &&& is_upper(fs, inode, name) != is_upper(fs, other, newname) ==> fs.rename_place(
                inode,
                name,
                other,
                newname,
            ) == Err::<RenamePlaceView, i32>(18)
            &&& !is_upper(fs, inode, name) && !is_upper(fs, other, newname) ==> fs.rename_place(
                inode,
                name,
                other,
                newname,
            ) == Ok::<RenamePlaceView, i32>(RenamePlaceView::Lower)
        },
        is_upper(fs, inode, name) && !fs.stored ==> {
            &&& fs.lookup_place(inode, name) == Err::<PlaceView, i32>(2)
            &&& fs.change_place(inode, name) == Err::<PlaceView, i32>(30)
        },
{
}

/// Each request to drop references goes to the backend that serves the inode, and
/// to no other, in the order in which the requests came.
pub proof fn forgets_go_to_their_backend(fs: MaskView, requests: Seq<(u64, u64)>)
    ensures
        forgets_of(fs, requests, Backend::Upper) == requests.filter(
            |r: (u64, u64)| fs.routes.contains_key(r.0) && fs.routes[r.0].backend == Backend::Upper,
        ),
        forgets_of(fs, requests, Backend::Lower) == requests.filter(
            |r: (u64, u64)|
                !(fs.routes.contains_key(r.0) && fs.routes[r.0].backend == Backend::Upper),
        ),
    decreases requests.len(),
{
    reveal(Seq::filter);
    if requests.len() > 0 {
        forgets_go_to_their_backend(fs, requests.drop_last());
    }
}

/// A masked mount offers what each of its backends offers, less the two listings
/// that look every entry up.
pub proof fn features_are_those_of_both(lower: u64, upper: u64)
    ensures
        offered(lower, None) & 0x6000 == 0,
        offered(lower, None) | 0x6000 == lower | 0x6000,
        offered(lower, Some(upper)) & 0x6000 == 0,
        offered(lower, Some(upper)) | 0x6000 == (lower & upper) | 0x6000,
{
    let both = lower & upper;
    assert((both & !(0x2000u64 | 0x4000)) & 0x6000 == 0 && (both & !(0x2000u64 | 0x4000)) | 0x6000
        == both | 0x6000 && (lower & !(0x2000u64 | 0x4000)) & 0x6000 == 0 && (lower & !(0x2000u64
        | 0x4000)) | 0x6000 == lower | 0x6000) by (bit_vector);
}

/// The type of a directory entry is the type bits of the mode, moved down, for
/// each type that a file can have; for any other it is unknown.
pub proof fn entry_types_are_the_type_bits(st: Stat)
    ensures
        ({
            let mode = st.mode as u32;
            let kind = (mode >> 12) & 15;
            if kind == 1 || kind == 2 || kind == 4 || kind == 6 || kind == 8 || kind == 10 || kind
                == 12 {
                type_of(st) == kind
            } else {
                type_of(st) == 0
            }
        }),
{
    let mode = st.mode as u32;
    assert(mode & 0o170000 == ((mode >> 12) & 15) * 4096) by (bit_vector);
}

/// A path below the storage: the storage's own, a slash, and the components with
/// slashes between them.
pub proof fn stored_paths_are_below_the_storage(storage: Seq<u8>, path: Seq<Seq<u8>>)
    requires
        storage.len() > 0,
        storage.last() != 0x2f,
        proper(path),
    ensures
        path.len() == 0 ==> stored_path(storage, path) == storage,
        path.len() > 0 ==> stored_path(storage, path) == storage.push(0x2f) + path_text(path),
        stored_path(storage, path).len() > 0,
        stored_path(storage, path).last() != 0x2f,
    decreases path.len(),
{
    if path.len() > 0 {
        let above = path.drop_last();
        let last = path.last();
        assert(last == path[path.len() - 1]);
        assert(last.contains(last[last.len() - 1]));
        assert forall|i: int| 0 <= i < above.len() implies (#[trigger] above[i]).len() > 0
            && !above[i].contains(0x2f) by {
            assert(above[i] == path[i]);
        }
        stored_paths_are_below_the_storage(storage, above);
        let before = stored_path(storage, above);
        let whole = before.push(0x2f) + last;
        assert(stored_path(storage, path) == whole);
        assert(whole.last() == last.last());
        if path.len() > 1 {
            assert(whole =~= storage.push(0x2f) + (path_text(above).push(0x2f) + last));
        } else {
            assert(path[0] == last);
            assert(whole =~= storage.push(0x2f) + path_text(path));
        }
    }
}

/// The directories that are made for a storage are its own and that of each
/// masked path, and no others.
pub proof fn storage_has_the_masked_directories(
    storage: Seq<u8>,
    paths: Seq<Seq<Seq<u8>>>,
    dir: Seq<u8>,
)
    ensures
        stored_dirs(storage, paths).len() > 0,
        stored_dirs(storage, paths)[0] == storage,
        stored_dirs(storage, paths).contains(dir) <==> dir == storage || exists|i: int|
            0 <= i < paths.len() && (#[trigger] paths[i]).len() > 1 && dir == stored_path(
                storage,
                paths[i].drop_last(),
            ),
    decreases paths.len(),
{
    let dirs = stored_dirs(storage, paths);
    if paths.len() == 0 {
        assert(dirs[0] == storage);
    } else {
        let before = paths.drop_last();
        let shorter = stored_dirs(storage, before);
        storage_has_the_masked_directories(storage, before, dir);
        assert(forall|i: int| 0 <= i < before.len() ==> #[trigger] before[i] == paths[i]);
        let last = paths[paths.len() - 1];
        let added = stored_path(storage, last.drop_last());
        if shorter.contains(dir) {
            let k = choose|k: int| 0 <= k < shorter.len() && shorter[k] == dir;
            assert(dirs[k] == dir);
        }
        if dirs.contains(dir) && !shorter.contains(dir) {
            let k = choose|k: int| 0 <= k < dirs.len() && dirs[k] == dir;
            if k < shorter.len() {
                assert(shorter[k] == dir);
            }
            assert(last.len() > 1 && dir == added);
        }
        if last.len() > 1 {
            assert(dirs[dirs.len() - 1] == added);
        }
        if exists|i: int|
            0 <= i < paths.len() && (#[trigger] paths[i]).len() > 1 && dir == stored_path(
                storage,
                paths[i].drop_last(),
            ) {
            let i = choose|i: int|
                0 <= i < paths.len() && (#[trigger] paths[i]).len() > 1 && dir == stored_path(
                    storage,
                    paths[i].drop_last(),
                );
            if i < before.len() {
                assert(before[i] == paths[i]);
            }
        }
    }
}

/// A mount starts with the root alone, which is the lower backend's, and the two
/// backends' roots have the first inode.
pub proof fn mounts_start_with_the_root(masks: MaskSetView, stored: bool, inode: u64)
    ensures
        ({
            let fs = MaskView::fresh(masks, stored);
            &&& fs.masks == masks
            &&& fs.stored == stored
            &&& fs.routes.contains_key(inode) <==> inode == 1
            &&& fs.routes[1] == (RouteView { backend: Backend::Lower, path: Seq::empty() })
            &&& is_dir(fs, Seq::empty(), 1)
            &&& forall|dir: Seq<Seq<u8>>, at: u64|
                proper(dir) && dir.len() > 0 ==> !#[trigger] is_dir(fs, dir, at)
        }),
{
    let fs = MaskView::fresh(masks, stored);
    assert forall|dir: Seq<Seq<u8>>, at: u64| proper(dir) && dir.len() > 0 implies !#[trigger] is_dir(
        fs,
        dir,
        at,
    ) by {
        if path_text(dir) == Seq::<u8>::empty() {
            path_texts_are_distinct(dir, Seq::empty());
        }
    }
}

} // verus!
