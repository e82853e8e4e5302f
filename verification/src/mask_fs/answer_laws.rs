//! What a masked mount answers as it is asked, and what it knows afterwards. These
//! laws are of the functions that route the requests themselves.

use vstd::prelude::*;
use vstd::utf8::encode_utf8;
use crate::bytes::views;
use crate::config::{CachePolicy, Config, PermissionSemantics};
use crate::mask_set::{all_components, path_text};
use crate::passthrough::PassthroughFs;
use crate::stat::Stat;
use super::laws::{
    changes_are_made_in_the_names_directory, created_names_are_found, entry_types_are_the_type_bits,
    features_are_those_of_both, forgets_go_to_their_backend, is_dir, is_next_lookup, is_upper,
    links_are_made_in_the_names_directory, refusals_are_those_of_the_guest,
    renames_go_between_the_names_directories, storage_has_the_masked_directories,
};
use super::{
    Backend, MaskConfig, MaskFs, MaskView, Place, PlaceView, RenamePlace, RenamePlaceView, Route,
    stored_path,
};

verus! {

/// Where a request on a name of the upper backend is made: in the directory of
/// the name's own path, once that is known, and else after the next lookup on the
/// way there.
pub open spec fn is_in_its_directory(
    fs: MaskView,
    parent: u64,
    name: Seq<u8>,
    r: Result<Place, i32>,
) -> bool {
    let dir = fs.routes[parent].path;
    match r {
        Ok(place) => match place@ {
            PlaceView::Upper { parent: at, path } => is_dir(fs, dir, at) && path == dir.push(name),
            PlaceView::Lookup { parent: at, path } => is_next_lookup(fs, dir, at, path),
            PlaceView::Lower { .. } => false,
        },
        Err(error) => error == 22,
    }
}

/// A name of the upper backend is made or removed in the directory of its own
/// path; any other name in the directory of the lower backend that the guest named.
pub proof fn locate_change_finds_the_directory<L>(
    fs: &MaskFs<L>,
    parent: u64,
    name: &[u8],
    r: Result<Place, i32>,
    at: u64,
)
    requires
        call_ensures(MaskFs::<L>::locate_change, (fs, parent, name), r),
        fs@.routes.contains_key(parent) ==> fs@.routes[parent].path.len() <= usize::MAX,
    ensures
        ({
            let dir = fs@.routes[parent].path;
            &&& !fs@.routes.contains_key(parent) ==> r == Err::<Place, i32>(9)
            &&& is_upper(fs@, parent, name@) && !fs@.stored ==> r == Err::<Place, i32>(30)
            &&& is_upper(fs@, parent, name@) && fs@.stored ==> is_in_its_directory(
                fs@,
                parent,
                name@,
                r,
            )
            &&& is_upper(fs@, parent, name@) && fs@.stored && is_dir(fs@, dir, at) ==> r is Ok
                && r->Ok_0@ == (PlaceView::Upper { parent: at, path: dir.push(name@) })
            &&& fs@.routes.contains_key(parent) && !is_upper(fs@, parent, name@) ==> r is Ok
                && r->Ok_0@ == (PlaceView::Lower { parent, path: dir.push(name@) })
        }),
{
    refusals_are_those_of_the_guest(fs@, parent, parent, name@, name@);
    if is_upper(fs@, parent, name@) && fs@.stored {
        changes_are_made_in_the_names_directory(fs@, parent, name@);
    }
}

/// A name is looked up where it is made, as far as a file can have it. Without a
/// storage a masked name does not exist.
pub proof fn locate_finds_what_was_made<L>(
    fs: &MaskFs<L>,
    parent: u64,
    name: &[u8],
    r: Result<Place, i32>,
    at: u64,
)
    requires
        call_ensures(MaskFs::<L>::locate, (fs, parent, name), r),
        fs@.routes.contains_key(parent) ==> fs@.routes[parent].path.len() <= usize::MAX,
        !name@.contains(0u8),
    ensures
        ({
            let dir = fs@.routes[parent].path;
            &&& !fs@.routes.contains_key(parent) ==> r == Err::<Place, i32>(9)
            &&& is_upper(fs@, parent, name@) && !fs@.stored ==> r == Err::<Place, i32>(2)
            &&& is_upper(fs@, parent, name@) && fs@.stored ==> is_in_its_directory(
                fs@,
                parent,
                name@,
                r,
            )
            &&& is_upper(fs@, parent, name@) && fs@.stored && is_dir(fs@, dir, at) ==> r is Ok
                && r->Ok_0@ == (PlaceView::Upper { parent: at, path: dir.push(name@) })
            &&& fs@.routes.contains_key(parent) && !is_upper(fs@, parent, name@) ==> r is Ok
                && r->Ok_0@ == (PlaceView::Lower { parent, path: dir.push(name@) })
        }),
{
    refusals_are_those_of_the_guest(fs@, parent, parent, name@, name@);
    if is_upper(fs@, parent, name@) && fs@.stored {
        changes_are_made_in_the_names_directory(fs@, parent, name@);
        created_names_are_found(fs@, parent, name@);
    }
}

/// A rename within the upper backend is from the directory of the old path to the
/// directory of the new one; none crosses from one backend to the other.
pub proof fn locate_rename_finds_both_directories<L>(
    fs: &MaskFs<L>,
    olddir: u64,
    oldname: &[u8],
    newdir: u64,
    newname: &[u8],
    r: Result<RenamePlace, i32>,
    from: u64,
    to: u64,
)
    requires
        call_ensures(MaskFs::<L>::locate_rename, (fs, olddir, oldname, newdir, newname), r),
        fs@.routes.contains_key(olddir),
        fs@.routes.contains_key(newdir),
        0 < fs@.routes[olddir].path.len() <= usize::MAX,
        0 < fs@.routes[newdir].path.len() <= usize::MAX,
    ensures
        ({
            let (a, b) = (is_upper(fs@, olddir, oldname@), is_upper(fs@, newdir, newname@));
            &&& a != b ==> r == Err::<RenamePlace, i32>(18)
            &&& !a && !b ==> r is Ok && r->Ok_0@ == RenamePlaceView::Lower
            &&& a && b && !fs@.stored ==> r == Err::<RenamePlace, i32>(30)
            &&& a && b && fs@.stored && is_dir(fs@, fs@.routes[olddir].path, from) && is_dir(
                fs@,
                fs@.routes[newdir].path,
                to,
            ) ==> r is Ok && r->Ok_0@ == (RenamePlaceView::Upper { olddir: from, newdir: to })
        }),
{
    refusals_are_those_of_the_guest(fs@, olddir, newdir, oldname@, newname@);
    if is_upper(fs@, olddir, oldname@) && is_upper(fs@, newdir, newname@) && fs@.stored && is_dir(
        fs@,
        fs@.routes[olddir].path,
        from,
    ) && is_dir(fs@, fs@.routes[newdir].path, to) {
        renames_go_between_the_names_directories(
            fs@,
            olddir,
            oldname@,
            newdir,
            newname@,
            from,
            to,
        );
    }
}

/// A link within the upper backend is made in the directory of the new name's
/// path; none crosses from one backend to the other.
pub proof fn locate_link_finds_the_directory<L>(
    fs: &MaskFs<L>,
    inode: u64,
    newparent: u64,
    newname: &[u8],
    r: Result<Place, i32>,
    at: u64,
)
    requires
        call_ensures(MaskFs::<L>::locate_link, (fs, inode, newparent, newname), r),
        fs@.routes.contains_key(inode),
        fs@.routes.contains_key(newparent),
        0 < fs@.routes[newparent].path.len() <= usize::MAX,
    ensures
        ({
            let upper = is_upper(fs@, newparent, newname@);
            let source = fs@.routes[inode].backend == Backend::Upper;
            let path = fs@.routes[newparent].path.push(newname@);
            &&& upper != source ==> r == Err::<Place, i32>(18)
            &&& !upper && !source ==> r is Ok && r->Ok_0@ == (PlaceView::Lower {
                parent: newparent,
                path,
            })
            &&& upper && source && fs@.stored && is_dir(fs@, fs@.routes[newparent].path, at) ==> r
                is Ok && r->Ok_0@ == (PlaceView::Upper { parent: at, path })
        }),
{
    links_are_made_in_the_names_directory(fs@, inode, newparent, newname@, at);
}

/// An inode is served by the backend that it was found on.
pub proof fn dispatch_goes_to_the_backend<L>(
    fs: &MaskFs<L>,
    inode: u64,
    other: u64,
    served: Result<Backend, i32>,
    copied: Result<Backend, i32>,
    forgotten: Backend,
)
    requires
        call_ensures(MaskFs::<L>::dispatch, (fs, inode), served),
        call_ensures(MaskFs::<L>::copy_dispatch, (fs, inode, other), copied),
        call_ensures(MaskFs::<L>::forget_dispatch, (fs, inode), forgotten),
    ensures
        !fs@.routes.contains_key(inode) ==> served == Err::<Backend, i32>(9) && forgotten
            == Backend::Lower,
        fs@.routes.contains_key(inode) ==> {
            &&& forgotten == fs@.routes[inode].backend
            &&& fs@.routes[inode].backend == Backend::Lower ==> served == Ok::<Backend, i32>(
                Backend::Lower,
            )
            &&& fs@.routes[inode].backend == Backend::Upper && fs@.stored ==> served == Ok::<
                Backend,
                i32,
            >(Backend::Upper)
            &&& fs@.routes[inode].backend == Backend::Upper && !fs@.stored ==> served == Err::<
                Backend,
                i32,
            >(30)
        },
        !fs@.routes.contains_key(inode) || !fs@.routes.contains_key(other) ==> copied == Err::<
            Backend,
            i32,
        >(9),
        fs@.routes.contains_key(inode) && fs@.routes.contains_key(other) ==> {
            &&& fs@.routes[inode].backend != fs@.routes[other].backend ==> copied == Err::<
                Backend,
                i32,
            >(18)
            &&& fs@.routes[inode].backend == fs@.routes[other].backend ==> copied == served
        },
{
}

/// Each request to drop references goes to the backend of its inode.
pub proof fn split_forgets_splits<L>(
    fs: &MaskFs<L>,
    requests: &Vec<(u64, u64)>,
    r: (Vec<(u64, u64)>, Vec<(u64, u64)>),
)
    requires
        call_ensures(MaskFs::<L>::split_forgets, (fs, requests), r),
    ensures
        r.1@ == requests@.filter(
            |q: (u64, u64)|
                fs@.routes.contains_key(q.0) && fs@.routes[q.0].backend == Backend::Upper,
        ),
        r.0@ == requests@.filter(
            |q: (u64, u64)|
                !(fs@.routes.contains_key(q.0) && fs@.routes[q.0].backend == Backend::Upper),
        ),
{
    forgets_go_to_their_backend(fs@, requests@);
}

/// What was found is known under its inode and its path, and nothing else changes.
pub proof fn record_remembers<L>(
    fs: &mut MaskFs<L>,
    backend: Backend,
    path: Vec<Vec<u8>>,
    inode: u64,
    other: u64,
)
    requires
        call_ensures(MaskFs::<L>::record, (fs, backend, path, inode), ()),
    ensures
        ({
            let (before, after) = (old(fs)@, final(fs)@);
            let key = path_text(views(path@));
            &&& after.routes.contains_key(inode)
            &&& after.routes[inode].backend == backend
            &&& after.routes[inode].path == views(path@)
            &&& other != inode ==> after.routes[other] == before.routes[other]
            &&& after.routes.dom() == before.routes.dom().insert(inode)
            &&& backend == Backend::Upper ==> after.upper_inodes == before.upper_inodes.insert(
                key,
                inode,
            ) && after.lower_inodes == before.lower_inodes
            &&& backend == Backend::Lower ==> after.lower_inodes == before.lower_inodes.insert(
                key,
                inode,
            ) && after.upper_inodes == before.upper_inodes
            &&& after.masks == before.masks
            &&& after.stored == before.stored
        }),
{
    assert(final(fs)@.routes.dom() =~= old(fs)@.routes.dom().insert(inode));
}

/// What was removed from the upper backend is known no more under its path, and
/// nothing else changes.
pub proof fn unrecord_forgets<L>(fs: &mut MaskFs<L>, path: &Vec<Vec<u8>>)
    requires
        call_ensures(MaskFs::<L>::unrecord, (fs, path), ()),
    ensures
        final(fs)@.upper_inodes == old(fs)@.upper_inodes.remove(path_text(views(path@))),
        final(fs)@.lower_inodes == old(fs)@.lower_inodes,
        final(fs)@.routes == old(fs)@.routes,
        final(fs)@.masks == old(fs)@.masks,
        final(fs)@.stored == old(fs)@.stored,
{
}

/// A mount starts with the paths that are to be masked, and knows its root alone,
/// which is the lower backend's.
pub proof fn new_knows_the_root<L>(
    lower: L,
    config: &MaskConfig,
    upper: Option<PassthroughFs>,
    case_insensitive: bool,
    r: MaskFs<L>,
    inode: u64,
)
    requires
        call_ensures(MaskFs::<L>::new, (lower, config, upper, case_insensitive), r),
    ensures
        r.lower == lower,
        r.upper == upper,
        r@.masks.paths == all_components(config.paths@),
        r@.masks.case_insensitive == case_insensitive,
        r@.stored == (config.storage is Some),
        r@.routes.contains_key(inode) <==> inode == 1,
        r@.routes[1].backend == Backend::Lower,
        r@.routes[1].path.len() == 0,
{
}

/// A storage is served as the directory that it is, under the semantics of the
/// mount, with nothing cached and nothing enabled that need not be.
pub proof fn storages_are_served_uncached(
    storage: &String,
    semantics: PermissionSemantics,
    r: Config,
)
    requires
        call_ensures(super::upper_config, (storage, semantics), r),
    ensures
        r.root_dir@ == storage@,
        r.entry_timeout.secs == 0 && r.entry_timeout.nanos == 0,
        r.attr_timeout.secs == 0 && r.attr_timeout.nanos == 0,
        r.semantics == semantics,
        r.cache_policy == CachePolicy::Auto,
        !r.writeback && !r.xattr,
        r.proc_sfd_rawfd is None,
{
}

/// The directories that are made for a storage are its own and that of each masked
/// path; without a storage there are none.
pub proof fn storage_dirs_are_made(config: &MaskConfig, r: Vec<Vec<u8>>, dir: Seq<u8>)
    requires
        call_ensures(super::storage_dirs, (config,), r),
    ensures
        config.storage is None ==> r@.len() == 0,
        config.storage is Some ==> {
            let storage = encode_utf8(config.storage->Some_0@);
            let paths = all_components(config.paths@);
            &&& views(r@).len() > 0 && views(r@)[0] == storage
            &&& views(r@).contains(dir) <==> dir == storage || exists|i: int|
                0 <= i < paths.len() && (#[trigger] paths[i]).len() > 1 && dir == stored_path(
                    storage,
                    paths[i].drop_last(),
                )
        },
{
    match config.storage {
        Some(storage) => {
            storage_has_the_masked_directories(
                encode_utf8(storage@),
                all_components(config.paths@),
                dir,
            );
        },
        None => {
            assert(views(r@).len() == r@.len());
        },
    }
}

/// What is offered, and which type an entry has, by bits.
pub proof fn words_are_as_they_are(
    lower: u64,
    upper: u64,
    alone: u64,
    both: u64,
    st: &Stat,
    type_: u32,
)
    requires
        call_ensures(super::mask_options, (lower, None::<u64>), alone),
        call_ensures(super::mask_options, (lower, Some(upper)), both),
        call_ensures(super::entry_type, (st,), type_),
    ensures
        alone & 0x6000 == 0,
        alone | 0x6000 == lower | 0x6000,
        both & 0x6000 == 0,
        both | 0x6000 == (lower & upper) | 0x6000,
        ({
            let kind = (st.mode as u32 >> 12) & 15;
            if kind == 1 || kind == 2 || kind == 4 || kind == 6 || kind == 8 || kind == 10 || kind
                == 12 {
                type_ == kind
            } else {
                type_ == 0
            }
        }),
{
    features_are_those_of_both(lower, upper);
    entry_types_are_the_type_bits(*st);
}

/// What is answered of mappings that were taken away from both backends: the upper
/// backend's error if it has one, and else what the lower backend answers.
pub proof fn unmappings_answer_for_both(
    lower: Result<(), i32>,
    upper: Option<Result<(), i32>>,
    r: Result<(), i32>,
)
    requires
        call_ensures(super::unmap_result, (lower, upper), r),
    ensures
        upper matches Some(Err(error)) ==> r == Err::<(), i32>(error),
        !(upper matches Some(Err(_))) ==> r == lower,
{
}

/// A name in a directory belongs to the upper backend where the directory does, or
/// where its path is masked.
pub proof fn route_child_routes<L>(fs: &MaskFs<L>, parent: &Route, name: &[u8], r: Route)
    requires
        call_ensures(MaskFs::<L>::route_child, (fs, parent, name), r),
    ensures
        r@.path == views(parent.path@).push(name@),
        r.backend == Backend::Upper <==> parent.backend == Backend::Upper || fs@.masks.masked(
            views(parent.path@).push(name@),
        ),
{
}

} // verus!
