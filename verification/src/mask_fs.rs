//! A file system in which masked paths are served from a storage of their own,
//! and everything else from a lower file system.
//!
//! Requests go to one of two backends. Which one, and under which inode, is
//! decided here; the request itself is made by whoever asked. A path of the
//! upper backend may have to be looked up there component by component, so the
//! answer may be a lookup to make first: its result is recorded, and the question
//! asked again.

pub mod answer_laws;
pub mod laws;
pub mod listing;

use std::collections::HashMap;
use vstd::prelude::*;
use vstd::utf8::encode_utf8;
use crate::abi::{
    DT_BLK, DT_CHR, DT_DIR, DT_FIFO, DT_LNK, DT_REG, DT_SOCK, DT_UNKNOWN, FS_DO_READDIRPLUS,
    FS_READDIRPLUS_AUTO, LINUX_EBADF, LINUX_EINVAL, LINUX_ENOENT, LINUX_EROFS, LINUX_EXDEV, ROOT_ID,
    S_IFBLK, S_IFCHR, S_IFDIR, S_IFIFO, S_IFLNK, S_IFMT, S_IFREG, S_IFSOCK,
};
use crate::bytes::{append_bytes, copy_all, copy_bytes, views};
use crate::config::{CachePolicy, Config, Duration, PermissionSemantics};

use crate::mask_set::{all_components, path_key, path_text, MaskSet, MaskSetView, SLASH};
use crate::passthrough::PassthroughFs;
use crate::path_index::PathIndex;
use crate::stat::Stat;

verus! {

broadcast use vstd::std_specs::hash::group_hash_axioms;

/// Which paths are masked, and where they are stored; without a storage they do
/// not exist.
#[derive(Clone, Debug)]
pub struct MaskConfig {
    pub paths: Vec<String>,
    pub storage: Option<String>,
}

/// Where a request goes.
#[derive(Clone, Copy, Debug, PartialEq, Eq, Structural)]
pub enum Backend {
    Lower,
    Upper,
}

/// The backend and the path of an inode.
#[derive(Debug)]
pub struct Route {
    pub backend: Backend,
    pub path: Vec<Vec<u8>>,
}

/// The contents of a `Route`.
#[verifier::ext_equal]
pub struct RouteView {
    pub backend: Backend,
    pub path: Seq<Seq<u8>>,
}

impl View for Route {
    type V = RouteView;

    open spec fn view(&self) -> RouteView {
        RouteView { backend: self.backend, path: views(self.path@) }
    }
}

/// What is known of masked paths and of inodes.
pub struct RouteTable {
    masks: MaskSet,
    routes: HashMap<u64, Route>,
    lower_inodes: PathIndex,
    upper_inodes: PathIndex,
}

/// A lower file system with masked paths.
pub struct MaskFs<L> {
    pub lower: L,
    pub upper: Option<PassthroughFs>,
    pub table: RouteTable,
}

/// What a `MaskFs` routes by.
#[verifier::ext_equal]
pub struct MaskView {
    pub masks: MaskSetView,
    /// There is a storage for masked paths.
    pub stored: bool,
    pub routes: Map<u64, RouteView>,
    pub lower_inodes: Map<Seq<u8>, u64>,
    pub upper_inodes: Map<Seq<u8>, u64>,
}

/// The contents of routes.
pub open spec fn route_views(routes: Map<u64, Route>) -> Map<u64, RouteView> {
    routes.map_values(|r: Route| r@)
}

impl<L> View for MaskFs<L> {
    type V = MaskView;

    closed spec fn view(&self) -> MaskView {
        MaskView {
            masks: self.table.masks@,
            stored: self.upper is Some,
            routes: route_views(self.table.routes@),
            lower_inodes: self.table.lower_inodes@,
            upper_inodes: self.table.upper_inodes@,
        }
    }
}

/// How a path of the upper backend resolves: to an inode, or as far as `depth`
/// components, the inode of which is `parent`.
#[derive(Clone, Copy, Debug, PartialEq, Eq, Structural)]
pub enum Resolution {
    Known(u64),
    Missing { parent: u64, depth: usize },
}

/// What to do for a request on a name.
#[derive(Debug)]
pub enum Place {
    /// Make the request in this directory of the lower backend.
    Lower { parent: u64, path: Vec<Vec<u8>> },
    /// Look up the last component of `path` in this directory of the upper
    /// backend, record what is found, and ask again.
    Lookup { parent: u64, path: Vec<Vec<u8>> },
    /// Make the request in this directory of the upper backend.
    Upper { parent: u64, path: Vec<Vec<u8>> },
}

/// The contents of a `Place`.
#[verifier::ext_equal]
pub enum PlaceView {
    Lower { parent: u64, path: Seq<Seq<u8>> },
    Lookup { parent: u64, path: Seq<Seq<u8>> },
    Upper { parent: u64, path: Seq<Seq<u8>> },
}

impl View for Place {
    type V = PlaceView;

    open spec fn view(&self) -> PlaceView {
        match *self {
            Place::Lower { parent, path } => PlaceView::Lower { parent, path: views(path@) },
            Place::Lookup { parent, path } => PlaceView::Lookup { parent, path: views(path@) },
            Place::Upper { parent, path } => PlaceView::Upper { parent, path: views(path@) },
        }
    }
}

/// What to do for a rename.
#[derive(Debug)]
pub enum RenamePlace {
    Lower,
    Lookup { parent: u64, path: Vec<Vec<u8>> },
    /// Rename between these directories of the upper backend.
    Upper { olddir: u64, newdir: u64 },
}

/// The contents of a `RenamePlace`.
#[verifier::ext_equal]
pub enum RenamePlaceView {
    Lower,
    Lookup { parent: u64, path: Seq<Seq<u8>> },
    Upper { olddir: u64, newdir: u64 },
}

impl View for RenamePlace {
    type V = RenamePlaceView;

    open spec fn view(&self) -> RenamePlaceView {
        match *self {
            RenamePlace::Lower => RenamePlaceView::Lower,
            RenamePlace::Lookup { parent, path } => RenamePlaceView::Lookup {
                parent,
                path: views(path@),
            },
            RenamePlace::Upper { olddir, newdir } => RenamePlaceView::Upper { olddir, newdir },
        }
    }
}

/// The contents of an answer.
pub open spec fn answer<T: View>(r: Result<T, i32>) -> Result<T::V, i32> {
    match r {
        Ok(value) => Ok(value@),
        Err(error) => Err(error),
    }
}

/// The inodes of a path's components, as far as they are known one after the
/// other.
pub open spec fn resolving(
    known: Map<Seq<u8>, u64>,
    path: Seq<Seq<u8>>,
    index: int,
    parent: u64,
) -> Resolution
    decreases path.len() - index,
{
    if index >= path.len() {
        Resolution::Known(parent)
    } else {
        let key = path_text(path.take(index + 1));
        if known.contains_key(key) {
            resolving(known, path, index + 1, known[key])
        } else {
            Resolution::Missing { parent, depth: index as usize }
        }
    }
}

impl MaskView {
    /// A file system of which the guest knows the root alone.
    pub open spec fn fresh(masks: MaskSetView, stored: bool) -> MaskView {
        MaskView {
            masks,
            stored,
            routes: Map::empty().insert(
                ROOT_ID,
                RouteView { backend: Backend::Lower, path: Seq::empty() },
            ),
            lower_inodes: Map::empty().insert(Seq::empty(), ROOT_ID),
            upper_inodes: Map::empty().insert(Seq::empty(), ROOT_ID),
        }
    }

    /// The route of an inode.
    pub open spec fn route(self, inode: u64) -> Result<RouteView, i32> {
        if self.routes.contains_key(inode) {
            Ok(self.routes[inode])
        } else {
            Err(LINUX_EBADF)
        }
    }

    /// The backend that serves an inode.
    pub open spec fn backend_of(self, inode: u64) -> Result<Backend, i32> {
        match self.route(inode) {
            Err(error) => Err(error),
            Ok(route) => if route.backend == Backend::Upper && !self.stored {
                Err(LINUX_EROFS)
            } else {
                Ok(route.backend)
            },
        }
    }

    /// The backend and the path of a name in a directory: what stands in the
    /// upper backend stays there, and a masked path goes there.
    pub open spec fn child(self, parent: RouteView, name: Seq<u8>) -> RouteView {
        let path = parent.path.push(name);
        RouteView {
            backend: if parent.backend == Backend::Upper || self.masks.masked(path) {
                Backend::Upper
            } else {
                Backend::Lower
            },
            path,
        }
    }

    /// The inode of a directory of the upper backend, or the lookup that is
    /// needed to learn it.
    pub open spec fn upper_parent(self, path: Seq<Seq<u8>>) -> Result<Resolution, i32> {
        if path.len() == 0 {
            Ok(Resolution::Known(ROOT_ID))
        } else if self.upper_inodes.contains_key(path_text(path)) {
            Ok(Resolution::Known(self.upper_inodes[path_text(path)]))
        } else if !self.stored {
            Err(LINUX_EROFS)
        } else {
            match resolving(self.upper_inodes, path, 0, ROOT_ID) {
                Resolution::Known(inode) => Ok(Resolution::Known(inode)),
                Resolution::Missing { parent, depth } => if path[depth as int].contains(0u8) {
                    Err(LINUX_EINVAL)
                } else {
                    Ok(Resolution::Missing { parent, depth })
                },
            }
        }
    }

    /// Where to change something about a path of the upper backend.
    pub open spec fn upper_place(self, path: Seq<Seq<u8>>) -> Result<PlaceView, i32> {
        match self.upper_parent(path.drop_last()) {
            Err(error) => Err(error),
            Ok(Resolution::Missing { parent, depth }) => Ok(
                PlaceView::Lookup { parent, path: path.take(depth + 1) },
            ),
            Ok(Resolution::Known(parent)) => if self.stored {
                Ok(PlaceView::Upper { parent, path })
            } else {
                Err(LINUX_EROFS)
            },
        }
    }

    /// Where to look a path of the upper backend up.
    pub open spec fn upper_lookup(self, path: Seq<Seq<u8>>) -> Result<PlaceView, i32> {
        if path.len() == 0 {
            Err(LINUX_EINVAL)
        } else {
            match self.upper_parent(path.drop_last()) {
                Err(error) => Err(error),
                Ok(Resolution::Missing { parent, depth }) => Ok(
                    PlaceView::Lookup { parent, path: path.take(depth + 1) },
                ),
                Ok(Resolution::Known(parent)) => if path.last().contains(0u8) {
                    Err(LINUX_EINVAL)
                } else if self.stored {
                    Ok(PlaceView::Upper { parent, path })
                } else {
                    Err(LINUX_EROFS)
                },
            }
        }
    }

    /// Where to look a name up. Without a storage a masked name does not exist.
    pub open spec fn lookup_place(self, parent: u64, name: Seq<u8>) -> Result<PlaceView, i32> {
        match self.route(parent) {
            Err(error) => Err(error),
            Ok(route) => {
                let child = self.child(route, name);
                match child.backend {
                    Backend::Lower => Ok(PlaceView::Lower { parent, path: child.path }),
                    Backend::Upper => if !self.stored {
                        Err(LINUX_ENOENT)
                    } else {
                        self.upper_lookup(child.path)
                    },
                }
            },
        }
    }

    /// Where to make or remove a name.
    pub open spec fn change_place(self, parent: u64, name: Seq<u8>) -> Result<PlaceView, i32> {
        match self.route(parent) {
            Err(error) => Err(error),
            Ok(route) => {
                let child = self.child(route, name);
                match child.backend {
                    Backend::Lower => Ok(PlaceView::Lower { parent, path: child.path }),
                    Backend::Upper => self.upper_place(child.path),
                }
            },
        }
    }

    /// The directory of a name of the upper backend, under the route of the
    /// directory that the guest named.
    pub open spec fn routed_parent(self, parent: RouteView, path: Seq<Seq<u8>>) -> Result<
        Resolution,
        i32,
    > {
        if parent.backend == Backend::Upper {
            let key = path_text(parent.path);
            Ok(
                Resolution::Known(
                    if self.upper_inodes.contains_key(key) {
                        self.upper_inodes[key]
                    } else {
                        ROOT_ID
                    },
                ),
            )
        } else {
            self.upper_parent(path.drop_last())
        }
    }

    /// Where to rename. Both names must be of one backend.
    pub open spec fn rename_place(
        self,
        olddir: u64,
        oldname: Seq<u8>,
        newdir: u64,
        newname: Seq<u8>,
    ) -> Result<RenamePlaceView, i32> {
        match (self.route(olddir), self.route(newdir)) {
            (Err(error), _) => Err(error),
            (Ok(_), Err(error)) => Err(error),
            (Ok(from), Ok(to)) => {
                let source = self.child(from, oldname);
                let target = self.child(to, newname);
                if source.backend != target.backend {
                    Err(LINUX_EXDEV)
                } else if source.backend == Backend::Lower {
                    Ok(RenamePlaceView::Lower)
                } else {
                    match self.routed_parent(from, source.path) {
                        Err(error) => Err(error),
                        Ok(Resolution::Missing { parent, depth }) => Ok(
                            RenamePlaceView::Lookup { parent, path: source.path.take(depth + 1) },
                        ),
                        Ok(Resolution::Known(olddir)) => match self.routed_parent(to, target.path) {
                            Err(error) => Err(error),
                            Ok(Resolution::Missing { parent, depth }) => Ok(
                                RenamePlaceView::Lookup {
                                    parent,
                                    path: target.path.take(depth + 1),
                                },
                            ),
                            Ok(Resolution::Known(newdir)) => if self.stored {
                                Ok(RenamePlaceView::Upper { olddir, newdir })
                            } else {
                                Err(LINUX_EROFS)
                            },
                        },
                    }
                }
            },
        }
    }

    /// Where to link an inode. The inode and the new name must be of one backend.
    pub open spec fn link_place(self, inode: u64, newparent: u64, newname: Seq<u8>) -> Result<
        PlaceView,
        i32,
    > {
        match (self.route(inode), self.route(newparent)) {
            (Err(error), _) => Err(error),
            (Ok(_), Err(error)) => Err(error),
            (Ok(source), Ok(to)) => {
                let target = self.child(to, newname);
                if source.backend != target.backend {
                    Err(LINUX_EXDEV)
                } else if source.backend == Backend::Lower {
                    Ok(PlaceView::Lower { parent: newparent, path: target.path })
                } else {
                    match self.routed_parent(to, target.path) {
                        Err(error) => Err(error),
                        Ok(Resolution::Missing { parent, depth }) => Ok(
                            PlaceView::Lookup { parent, path: target.path.take(depth + 1) },
                        ),
                        Ok(Resolution::Known(parent)) => if self.stored {
                            Ok(PlaceView::Upper { parent, path: target.path })
                        } else {
                            Err(LINUX_EROFS)
                        },
                    }
                }
            },
        }
    }

    /// The backend that copies between two inodes, which must be of one backend.
    pub open spec fn copy_backend(self, input: u64, output: u64) -> Result<Backend, i32> {
        match (self.route(input), self.route(output)) {
            (Err(error), _) => Err(error),
            (Ok(_), Err(error)) => Err(error),
            (Ok(a), Ok(b)) => if a.backend != b.backend {
                Err(LINUX_EXDEV)
            } else {
                self.backend_of(input)
            },
        }
    }

    /// What is known after an inode was found under a path.
    pub open spec fn recorded(self, backend: Backend, path: Seq<Seq<u8>>, inode: u64) -> MaskView {
        let key = path_text(path);
        MaskView {
            routes: self.routes.insert(inode, RouteView { backend, path }),
            lower_inodes: if backend == Backend::Lower {
                self.lower_inodes.insert(key, inode)
            } else {
                self.lower_inodes
            },
            upper_inodes: if backend == Backend::Upper {
                self.upper_inodes.insert(key, inode)
            } else {
                self.upper_inodes
            },
            ..self
        }
    }

    /// What is known after a path of the upper backend was removed.
    pub open spec fn unrecorded(self, path: Seq<Seq<u8>>) -> MaskView {
        MaskView { upper_inodes: self.upper_inodes.remove(path_text(path)), ..self }
    }

    /// The masked paths that a listing of a directory adds.
    pub open spec fn synthetic(self, path: Seq<Seq<u8>>) -> Seq<Seq<Seq<u8>>> {
        if self.stored {
            self.masks.children(path)
        } else {
            Seq::empty()
        }
    }
}

/// What was found is found again: the inode has the route, and its path the
/// inode.
pub proof fn recorded_routes_are_found(
    fs: MaskView,
    backend: Backend,
    path: Seq<Seq<u8>>,
    inode: u64,
)
    ensures
        ({
            let after = fs.recorded(backend, path, inode);
            &&& after.route(inode) == Ok::<RouteView, i32>(RouteView { backend, path })
            &&& backend == Backend::Upper && path.len() > 0 ==> after.upper_parent(path) == Ok::<
                Resolution,
                i32,
            >(Resolution::Known(inode))
            &&& backend == Backend::Lower ==> after.upper_inodes == fs.upper_inodes
        }),
{
}

/// A lookup that was asked for and recorded brings the question forward: after
/// it the directory is known, or another component, further down, is missing. So
/// a path is known after at most as many lookups as it has components.
pub proof fn lookups_make_progress(fs: MaskView, path: Seq<Seq<u8>>, found: u64)
    requires
        path.len() <= usize::MAX,
        fs.upper_parent(path) matches Ok(Resolution::Missing { .. }),
    ensures
        ({
            let depth = fs.upper_parent(path)->Ok_0->Missing_depth;
            let after = fs.recorded(Backend::Upper, path.take(depth + 1), found);
            &&& depth < path.len()
            &&& match after.upper_parent(path) {
                Ok(Resolution::Missing { depth: next, .. }) => depth < next < path.len(),
                Ok(Resolution::Known(_)) => true,
                Err(error) => error == LINUX_EINVAL,
            }
        }),
{
    let depth = fs.upper_parent(path)->Ok_0->Missing_depth;
    let after = fs.recorded(Backend::Upper, path.take(depth + 1), found);
    lemma_depth(fs.upper_inodes, path, 0, ROOT_ID);
    lemma_prefix_known(fs.upper_inodes, path, 0, ROOT_ID);
    assert(path.take(path.len() as int) =~= path);
    lemma_resolves_beyond(
        after.upper_inodes,
        path,
        0,
        ROOT_ID,
        depth as int,
    );
}

/// Where resolution stops, the next prefix is not known, and all before it are.
pub(crate) proof fn lemma_prefix_known(known: Map<Seq<u8>, u64>, path: Seq<Seq<u8>>, index: int, parent: u64)
    requires
        0 <= index <= path.len() <= usize::MAX,
    ensures
        match resolving(known, path, index, parent) {
            Resolution::Missing { depth, .. } => forall|k: int|
                index <= k < depth ==> known.contains_key(path_text(#[trigger] path.take(k + 1))),
            Resolution::Known(_) => true,
        },
    decreases path.len() - index,
{
    if index < path.len() {
        let key = path_text(path.take(index + 1));
        if known.contains_key(key) {
            lemma_prefix_known(known, path, index + 1, known[key]);
        }
    }
}

pub(crate) proof fn lemma_depth(known: Map<Seq<u8>, u64>, path: Seq<Seq<u8>>, index: int, parent: u64)
    requires
        0 <= index <= path.len() <= usize::MAX,
    ensures
        match resolving(known, path, index, parent) {
            Resolution::Missing { depth, .. } => index <= depth < path.len(),
            Resolution::Known(_) => true,
        },
    decreases path.len() - index,
{
    if index < path.len() {
        let key = path_text(path.take(index + 1));
        if known.contains_key(key) {
            lemma_depth(known, path, index + 1, known[key]);
        }
    }
}

/// Where all prefixes up to `depth` are known, resolution gets beyond it.
proof fn lemma_resolves_beyond(
    known: Map<Seq<u8>, u64>,
    path: Seq<Seq<u8>>,
    index: int,
    parent: u64,
    depth: int,
)
    requires
        0 <= index <= depth + 1,
        depth < path.len() <= usize::MAX,
        forall|k: int|
            index <= k <= depth ==> known.contains_key(path_text(#[trigger] path.take(k + 1))),
    ensures
        match resolving(known, path, index, parent) {
            Resolution::Missing { depth: next, .. } => depth < next < path.len(),
            Resolution::Known(_) => true,
        },
    decreases path.len() - index,
{
    if index > depth {
        lemma_depth(known, path, index, parent);
    } else {
        let key = path_text(path.take(index + 1));
        lemma_resolves_beyond(known, path, index + 1, known[key], depth);
    }
}

/// No request on a masked name reaches the lower backend, nor does one on a name
/// in a directory of the upper backend; and without a storage none is made at
/// all.
pub proof fn masked_names_stay_above(fs: MaskView, parent: u64, name: Seq<u8>)
    requires
        fs.routes.contains_key(parent),
        fs.routes[parent].backend == Backend::Upper || fs.masks.masked(
            fs.routes[parent].path.push(name),
        ),
    ensures
        !(fs.lookup_place(parent, name) matches Ok(PlaceView::Lower { .. })),
        !(fs.change_place(parent, name) matches Ok(PlaceView::Lower { .. })),
        !fs.stored ==> fs.lookup_place(parent, name) == Err::<PlaceView, i32>(LINUX_ENOENT),
        !fs.stored ==> fs.change_place(parent, name) == Err::<PlaceView, i32>(LINUX_EROFS),
{
}

/// Every other name is the lower backend's, under the inode that the guest named.
pub proof fn unmasked_names_stay_below(fs: MaskView, parent: u64, name: Seq<u8>)
    requires
        fs.routes.contains_key(parent),
        fs.routes[parent].backend == Backend::Lower,
        !fs.masks.masked(fs.routes[parent].path.push(name)),
    ensures
        fs.lookup_place(parent, name) == Ok::<PlaceView, i32>(
            PlaceView::Lower { parent, path: fs.routes[parent].path.push(name) },
        ),
        fs.change_place(parent, name) == fs.lookup_place(parent, name),
{
}

/// Renames and links never cross from one backend to the other.
pub proof fn backends_are_not_mixed(
    fs: MaskView,
    olddir: u64,
    oldname: Seq<u8>,
    newdir: u64,
    newname: Seq<u8>,
)
    requires
        fs.routes.contains_key(olddir),
        fs.routes.contains_key(newdir),
        fs.child(fs.routes[olddir], oldname).backend != fs.child(
            fs.routes[newdir],
            newname,
        ).backend,
    ensures
        fs.rename_place(olddir, oldname, newdir, newname) == Err::<RenamePlaceView, i32>(
            LINUX_EXDEV,
        ),
        fs.routes[olddir].backend != fs.child(fs.routes[newdir], newname).backend
            ==> fs.link_place(olddir, newdir, newname) == Err::<PlaceView, i32>(LINUX_EXDEV),
{
}

/// The features that are offered: those of both backends, but for the listing
/// that looks every entry up, with which the guest would pass over the routes.
pub open spec fn offered(lower: u64, upper: Option<u64>) -> u64 {
    (match upper {
        Some(upper) => lower & upper,
        None => lower,
    }) & !(FS_DO_READDIRPLUS | FS_READDIRPLUS_AUTO)
}

/// Masked mounts offer nothing that a backend does not, and never the listing
/// that looks every entry up.
pub proof fn masked_mounts_never_offer_readdirplus(lower: u64, upper: Option<u64>)
    ensures
        offered(lower, upper) & FS_DO_READDIRPLUS == 0,
        offered(lower, upper) & FS_READDIRPLUS_AUTO == 0,
        offered(lower, upper) & !lower == 0,
        upper is Some ==> offered(lower, upper) & !upper->Some_0 == 0,
{
    let both = match upper {
        Some(upper) => lower & upper,
        None => lower,
    };
    assert((both & !(0x2000u64 | 0x4000)) & 0x2000 == 0 && (both & !(0x2000u64 | 0x4000)) & 0x4000
        == 0) by (bit_vector);
    assert((lower & !(0x2000u64 | 0x4000)) & !lower == 0) by (bit_vector);
    if let Some(u) = upper {
        assert(((lower & u) & !(0x2000u64 | 0x4000)) & !lower == 0 && ((lower & u) & !(0x2000u64
            | 0x4000)) & !u == 0) by (bit_vector);
    }
}

/// The features that a masked mount offers.
pub fn mask_options(lower: u64, upper: Option<u64>) -> (r: u64)
    ensures
        r == offered(lower, upper),
{
    let both: u64 = match upper {
        Some(upper) => lower & upper,
        None => lower,
    };
    both & !(FS_DO_READDIRPLUS | FS_READDIRPLUS_AUTO)
}

/// A path with one more component.
pub open spec fn below(path: Seq<u8>, component: Seq<u8>) -> Seq<u8> {
    if path.len() == 0 || path.last() == SLASH {
        path + component
    } else {
        path.push(SLASH) + component
    }
}

/// A directory of the storage.
pub open spec fn stored_path(storage: Seq<u8>, path: Seq<Seq<u8>>) -> Seq<u8>
    decreases path.len(),
{
    if path.len() == 0 {
        storage
    } else {
        below(stored_path(storage, path.drop_last()), path.last())
    }
}

/// The directories that must exist in the storage: itself, and the directory of
/// each masked path.
pub open spec fn stored_dirs(storage: Seq<u8>, paths: Seq<Seq<Seq<u8>>>) -> Seq<Seq<u8>>
    decreases paths.len(),
{
    if paths.len() == 0 {
        seq![storage]
    } else {
        let before = stored_dirs(storage, paths.drop_last());
        if paths.last().len() > 1 {
            before.push(stored_path(storage, paths.last().drop_last()))
        } else {
            before
        }
    }
}

/// A directory of the storage.
fn storage_path(storage: &[u8], path: &[Vec<u8>]) -> (r: Vec<u8>)
    ensures
        r@ == stored_path(storage@, views(path@)),
{
    let ghost whole = views(path@);
    let mut out: Vec<u8> = copy_bytes(storage);
    let mut i: usize = 0;
    assert(whole.take(0) =~= Seq::empty());
    while i < path.len()
        invariant
            i <= path.len(),
            whole == views(path@),
            out@ == stored_path(storage@, whole.take(i as int)),
        decreases path.len() - i,
    {
        let ghost taken = whole.take(i + 1);
        assert(taken.drop_last() =~= whole.take(i as int));
        assert(taken.last() == path@[i as int]@);
        if out.len() > 0 && out[out.len() - 1] != SLASH {
            out.push(SLASH);
        }
        append_bytes(&mut out, path[i].as_slice());
        i = i + 1;
    }
    assert(whole.take(i as int) =~= whole);
    out
}

/// The directories to create before a storage is served.
pub fn storage_dirs(config: &MaskConfig) -> (r: Vec<Vec<u8>>)
    ensures
        views(r@) == match config.storage {
            Some(storage) => stored_dirs(encode_utf8(storage@), all_components(config.paths@)),
            None => Seq::empty(),
        },
{
    let mut out: Vec<Vec<u8>> = Vec::new();
    let storage = match &config.storage {
        Some(storage) => storage.as_str().as_bytes(),
        None => {
            assert(views(out@) =~= Seq::empty());
            return out;
        },
    };
    let masks = MaskSet::new(&config.paths, false);
    let ghost all = masks@.paths;
    out.push(copy_bytes(storage));
    let mut i: usize = 0;
    assert(views(out@) =~= stored_dirs(storage@, all.take(0)));
    while i < masks.len()
        invariant
            i <= masks@.paths.len(),
            all == masks@.paths,
            views(out@) == stored_dirs(storage@, all.take(i as int)),
        decreases masks@.paths.len() - i,
    {
        let path = masks.path(i);
        let ghost taken = all.take(i + 1);
        assert(taken.drop_last() =~= all.take(i as int));
        assert(taken.last() == views(path@));
        if path.len() > 1 {
            let above = vstd::slice::slice_subrange(path.as_slice(), 0, path.len() - 1);
            assert(views(above@) =~= views(path@).drop_last());
            let ghost before = views(out@);
            let dir = storage_path(storage, above);
            out.push(dir);
            assert(views(out@) =~= before.push(dir@));
        }
        i = i + 1;
    }
    assert(all.take(i as int) =~= all);
    out
}

/// The configuration is one that a storage is served by: it is the storage's
/// directory, and nothing of it is cached.
pub open spec fn serves_storage(cfg: Config, storage: Seq<char>) -> bool {
    &&& cfg.root_dir@ == storage
    &&& cfg.entry_timeout == (Duration { secs: 0, nanos: 0 })
    &&& cfg.attr_timeout == (Duration { secs: 0, nanos: 0 })
}

/// How a storage is served: nothing of it is cached.
pub fn upper_config(storage: &String, semantics: PermissionSemantics) -> (r: Config)
    ensures
        serves_storage(r, storage@),
        r.semantics == semantics,
        r.cache_policy == CachePolicy::Auto,
        !r.writeback,
        !r.xattr,
        r.proc_sfd_rawfd is None,
        r.export_fsid == 0,
{
    Config {
        root_dir: storage.clone(),
        entry_timeout: Duration::zero(),
        attr_timeout: Duration::zero(),
        semantics,
        ..Config::default()
    }
}

/// The type of a directory entry for a mode.
pub open spec fn type_of(st: Stat) -> u32 {
    let kind = st.kind();
    if kind == S_IFDIR {
        DT_DIR
    } else if kind == S_IFLNK {
        DT_LNK
    } else if kind == S_IFCHR {
        DT_CHR
    } else if kind == S_IFBLK {
        DT_BLK
    } else if kind == S_IFIFO {
        DT_FIFO
    } else if kind == S_IFSOCK {
        DT_SOCK
    } else if kind == S_IFREG {
        DT_REG
    } else {
        DT_UNKNOWN
    }
}

pub fn entry_type(attr: &Stat) -> (r: u32)
    ensures
        r == type_of(*attr),
{
    let kind: u32 = attr.mode as u32 & S_IFMT;
    if kind == S_IFDIR {
        DT_DIR
    } else if kind == S_IFLNK {
        DT_LNK
    } else if kind == S_IFCHR {
        DT_CHR
    } else if kind == S_IFBLK {
        DT_BLK
    } else if kind == S_IFIFO {
        DT_FIFO
    } else if kind == S_IFSOCK {
        DT_SOCK
    } else if kind == S_IFREG {
        DT_REG
    } else {
        DT_UNKNOWN
    }
}

/// What is answered of mappings that were taken away from both backends.
pub fn unmap_result(lower: Result<(), i32>, upper: Option<Result<(), i32>>) -> (r: Result<(), i32>)
    ensures
        r == match upper {
            Some(Err(error)) => Err::<(), i32>(error),
            _ => lower,
        },
{
    match upper {
        Some(Err(error)) => Err(error),
        _ => lower,
    }
}

fn has_nul(s: &[u8]) -> (r: bool)
    ensures
        r == s@.contains(0u8),
{
    let mut i: usize = 0;
    while i < s.len()
        invariant
            i <= s.len(),
            forall|j: int| 0 <= j < i ==> s@[j] != 0,
        decreases s.len() - i,
    {
        if s[i] == 0 {
            assert(s@[i as int] == 0);
            return true;
        }
        i = i + 1;
    }
    false
}

/// The first components of a path.
fn prefix_of(path: &[Vec<u8>], len: usize) -> (r: Vec<Vec<u8>>)
    requires
        len <= path.len(),
    ensures
        views(r@) == views(path@).take(len as int),
{
    let mut out: Vec<Vec<u8>> = Vec::new();
    let mut i: usize = 0;
    while i < len
        invariant
            i <= len <= path.len(),
            out.len() == i,
            forall|j: int| 0 <= j < i ==> (#[trigger] out@[j])@ == path@[j]@,
        decreases len - i,
    {
        out.push(copy_bytes(path[i].as_slice()));
        i = i + 1;
    }
    assert(views(out@) =~= views(path@).take(len as int));
    out
}

/// The requests of one backend among requests to drop references. What is not
/// known is the lower backend's.
pub open spec fn forgets_of(fs: MaskView, requests: Seq<(u64, u64)>, backend: Backend) -> Seq<
    (u64, u64),
>
    decreases requests.len(),
{
    if requests.len() == 0 {
        Seq::empty()
    } else {
        let before = forgets_of(fs, requests.drop_last(), backend);
        if fs.forget_backend(requests.last().0) == backend {
            before.push(requests.last())
        } else {
            before
        }
    }
}

impl MaskView {
    /// The backend that drops references to an inode.
    pub open spec fn forget_backend(self, inode: u64) -> Backend {
        match self.route(inode) {
            Ok(route) => route.backend,
            Err(_) => Backend::Lower,
        }
    }
}

impl<L> MaskFs<L> {
    pub closed spec fn wf(&self) -> bool {
        self.table.lower_inodes.wf() && self.table.upper_inodes.wf()
    }

    /// Masks paths of a lower file system. The storage is served by `upper`.
    pub fn new(
        lower: L,
        config: &MaskConfig,
        upper: Option<PassthroughFs>,
        case_insensitive: bool,
    ) -> (r: MaskFs<L>)
        requires
            upper is Some <==> config.storage is Some,
            upper is Some ==> serves_storage(upper->Some_0@.cfg, config.storage->Some_0@),
        ensures
            r.wf(),
            r.lower == lower,
            r.upper == upper,
            r@ == MaskView::fresh(
                MaskSetView { paths: all_components(config.paths@), case_insensitive },
                config.storage is Some,
            ),
    {
        let mut routes: HashMap<u64, Route> = HashMap::new();
        let root = Route { backend: Backend::Lower, path: Vec::new() };
        assert(root@.path =~= Seq::empty());
        routes.insert(ROOT_ID, root);
        let mut lower_inodes = PathIndex::new();
        let empty: Vec<u8> = Vec::new();
        assert(empty@ =~= Seq::empty());
        lower_inodes.insert(empty, ROOT_ID);
        let mut upper_inodes = PathIndex::new();
        let empty: Vec<u8> = Vec::new();
        assert(empty@ =~= Seq::empty());
        upper_inodes.insert(empty, ROOT_ID);
        let masks = MaskSet::new(&config.paths, case_insensitive);
        let fs = MaskFs {
            lower,
            upper,
            table: RouteTable { masks, routes, lower_inodes, upper_inodes },
        };
        assert(fs@.routes =~= MaskView::fresh(fs@.masks, fs@.stored).routes);
        fs
    }

    /// The backend that serves an inode.
    pub fn dispatch(&self, inode: u64) -> (r: Result<Backend, i32>)
        ensures
            r == self@.backend_of(inode),
    {
        match self.table.routes.get(&inode) {
            None => Err(LINUX_EBADF),
            Some(route) => match route.backend {
                Backend::Lower => Ok(Backend::Lower),
                Backend::Upper => if self.upper.is_some() {
                    Ok(Backend::Upper)
                } else {
                    Err(LINUX_EROFS)
                },
            },
        }
    }

    /// The backend that copies between two inodes.
    pub fn copy_dispatch(&self, input: u64, output: u64) -> (r: Result<Backend, i32>)
        ensures
            r == self@.copy_backend(input, output),
    {
        match (self.table.routes.get(&input), self.table.routes.get(&output)) {
            (None, _) => Err(LINUX_EBADF),
            (Some(_), None) => Err(LINUX_EBADF),
            (Some(a), Some(b)) => if a.backend != b.backend {
                Err(LINUX_EXDEV)
            } else {
                self.dispatch(input)
            },
        }
    }

    /// The backend that drops references to an inode.
    pub fn forget_dispatch(&self, inode: u64) -> (r: Backend)
        ensures
            r == self@.forget_backend(inode),
    {
        match self.table.routes.get(&inode) {
            Some(route) => route.backend,
            None => Backend::Lower,
        }
    }

    /// The requests to drop references of each backend.
    pub fn split_forgets(&self, requests: &Vec<(u64, u64)>) -> (r: (
        Vec<(u64, u64)>,
        Vec<(u64, u64)>,
    ))
        ensures
            r.0@ == forgets_of(self@, requests@, Backend::Lower),
            r.1@ == forgets_of(self@, requests@, Backend::Upper),
    {
        let mut lower: Vec<(u64, u64)> = Vec::new();
        let mut upper: Vec<(u64, u64)> = Vec::new();
        let mut i: usize = 0;
        while i < requests.len()
            invariant
                i <= requests.len(),
                lower@ == forgets_of(self@, requests@.take(i as int), Backend::Lower),
                upper@ == forgets_of(self@, requests@.take(i as int), Backend::Upper),
            decreases requests.len() - i,
        {
            let request: (u64, u64) = requests[i];
            proof {
                let taken = requests@.take(i + 1);
                assert(taken.drop_last() =~= requests@.take(i as int));
                assert(taken.last() == request);
            }
            match self.forget_dispatch(request.0) {
                Backend::Lower => lower.push(request),
                Backend::Upper => upper.push(request),
            }
            i = i + 1;
        }
        assert(requests@.take(i as int) =~= requests@);
        (lower, upper)
    }

    /// Notes that an inode was found under a path.
    pub fn record(&mut self, backend: Backend, path: Vec<Vec<u8>>, inode: u64)
        requires
            old(self).wf(),
        ensures
            final(self).wf(),
            final(self)@ == old(self)@.recorded(backend, views(path@), inode),
            final(self).lower == old(self).lower,
            final(self).upper == old(self).upper,
    {
        let ghost before = self@;
        let key = path_key(path.as_slice());
        let route = Route { backend, path };
        self.table.routes.insert(inode, route);
        match backend {
            Backend::Lower => self.table.lower_inodes.insert(key, inode),
            Backend::Upper => self.table.upper_inodes.insert(key, inode),
        }
        assert(self@.routes =~= before.routes.insert(inode, route@));
    }

    /// Notes that a path of the upper backend was removed.
    pub fn unrecord(&mut self, path: &Vec<Vec<u8>>)
        requires
            old(self).wf(),
        ensures
            final(self).wf(),
            final(self)@ == old(self)@.unrecorded(views(path@)),
            final(self).lower == old(self).lower,
            final(self).upper == old(self).upper,
    {
        let key = path_key(path.as_slice());
        self.table.upper_inodes.remove(key.as_slice());
    }

    /// The backend and the path of a name in a directory.
    pub fn route_child(&self, parent: &Route, name: &[u8]) -> (r: Route)
        ensures
            r@ == self@.child(parent@, name@),
    {
        let mut path = copy_all(&parent.path);
        let ghost before = views(path@);
        path.push(copy_bytes(name));
        assert(views(path@) =~= before.push(name@));
        let backend = if parent.backend == Backend::Upper || self.table.masks.is_masked(
            path.as_slice(),
        ) {
            Backend::Upper
        } else {
            Backend::Lower
        };
        Route { backend, path }
    }

    /// The inode of a directory of the upper backend, or the lookup that is
    /// needed to learn it.
    pub fn upper_parent_inode(&self, path: &[Vec<u8>]) -> (r: Result<Resolution, i32>)
        requires
            self.wf(),
        ensures
            r == self@.upper_parent(views(path@)),
            match r {
                Ok(Resolution::Missing { depth, .. }) => depth < path@.len(),
                _ => true,
            },
    {
        let ghost whole = views(path@);
        if path.len() == 0 {
            return Ok(Resolution::Known(ROOT_ID));
        }
        let key = path_key(path);
        if let Some(inode) = self.table.upper_inodes.get(key.as_slice()) {
            return Ok(Resolution::Known(inode));
        }
        if self.upper.is_none() {
            return Err(LINUX_EROFS);
        }
        let mut parent: u64 = ROOT_ID;
        let mut i: usize = 0;
        while i < path.len()
            invariant
                self.wf(),
                i <= path.len(),
                whole == views(path@),
                self@.stored,
                whole.len() > 0,
                !self@.upper_inodes.contains_key(path_text(whole)),
                resolving(self@.upper_inodes, whole, 0, ROOT_ID) == resolving(
                    self@.upper_inodes,
                    whole,
                    i as int,
                    parent,
                ),
            decreases path.len() - i,
        {
            let prefix = vstd::slice::slice_subrange(path, 0, i + 1);
            assert(views(prefix@) =~= whole.take(i + 1));
            let key = path_key(prefix);
            match self.table.upper_inodes.get(key.as_slice()) {
                Some(inode) => {
                    parent = inode;
                },
                None => {
                    assert(whole[i as int] == path@[i as int]@);
                    if has_nul(path[i].as_slice()) {
                        return Err(LINUX_EINVAL);
                    }
                    return Ok(Resolution::Missing { parent, depth: i });
                },
            }
            i = i + 1;
        }
        Ok(Resolution::Known(parent))
    }

    /// Where to look a path of the upper backend up.
    pub fn lookup_upper_path(&self, path: &Vec<Vec<u8>>) -> (r: Result<Place, i32>)
        requires
            self.wf(),
        ensures
            answer(r) == self@.upper_lookup(views(path@)),
    {
        if path.len() == 0 {
            return Err(LINUX_EINVAL);
        }
        let last: usize = path.len() - 1;
        let above = vstd::slice::slice_subrange(path.as_slice(), 0, last);
        assert(views(above@) =~= views(path@).drop_last());
        assert(views(path@).last() == path@[last as int]@);
        match self.upper_parent_inode(above) {
            Err(error) => Err(error),
            Ok(Resolution::Missing { parent, depth }) => Ok(
                Place::Lookup { parent, path: prefix_of(path.as_slice(), depth + 1) },
            ),
            Ok(Resolution::Known(parent)) => {
                if has_nul(path[last].as_slice()) {
                    return Err(LINUX_EINVAL);
                }
                if self.upper.is_none() {
                    return Err(LINUX_EROFS);
                }
                Ok(Place::Upper { parent, path: copy_all(path) })
            },
        }
    }

    /// Where to look a name up.
    pub fn locate(&self, parent: u64, name: &[u8]) -> (r: Result<Place, i32>)
        requires
            self.wf(),
        ensures
            answer(r) == self@.lookup_place(parent, name@),
    {
        let child = match self.table.routes.get(&parent) {
            None => return Err(LINUX_EBADF),
            Some(route) => self.route_child(route, name),
        };
        match child.backend {
            Backend::Lower => Ok(Place::Lower { parent, path: child.path }),
            Backend::Upper => {
                if self.upper.is_none() {
                    return Err(LINUX_ENOENT);
                }
                self.lookup_upper_path(&child.path)
            },
        }
    }

    /// Where to make or remove a name.
    pub fn locate_change(&self, parent: u64, name: &[u8]) -> (r: Result<Place, i32>)
        requires
            self.wf(),
        ensures
            answer(r) == self@.change_place(parent, name@),
    {
        let child = match self.table.routes.get(&parent) {
            None => return Err(LINUX_EBADF),
            Some(route) => self.route_child(route, name),
        };
        let path = child.path;
        if child.backend == Backend::Lower {
            return Ok(Place::Lower { parent, path });
        }
        let above = vstd::slice::slice_subrange(path.as_slice(), 0, path.len() - 1);
        assert(views(above@) =~= views(path@).drop_last());
        match self.upper_parent_inode(above) {
            Err(error) => Err(error),
            Ok(Resolution::Missing { parent, depth }) => Ok(
                Place::Lookup { parent, path: prefix_of(path.as_slice(), depth + 1) },
            ),
            Ok(Resolution::Known(parent)) => if self.upper.is_some() {
                Ok(Place::Upper { parent, path })
            } else {
                Err(LINUX_EROFS)
            },
        }
    }

    fn routed_parent(&self, parent: &Route, path: &Vec<Vec<u8>>) -> (r: Result<Resolution, i32>)
        requires
            self.wf(),
            path@.len() > 0,
        ensures
            r == self@.routed_parent(parent@, views(path@)),
            match r {
                Ok(Resolution::Missing { depth, .. }) => depth + 1 < path@.len(),
                _ => true,
            },
    {
        if parent.backend == Backend::Upper {
            let key = path_key(parent.path.as_slice());
            return match self.table.upper_inodes.get(key.as_slice()) {
                Some(inode) => Ok(Resolution::Known(inode)),
                None => Ok(Resolution::Known(ROOT_ID)),
            };
        }
        let above = vstd::slice::slice_subrange(path.as_slice(), 0, path.len() - 1);
        assert(views(above@) =~= views(path@).drop_last());
        self.upper_parent_inode(above)
    }

    /// Where to rename.
    pub fn locate_rename(&self, olddir: u64, oldname: &[u8], newdir: u64, newname: &[u8]) -> (r:
        Result<RenamePlace, i32>)
        requires
            self.wf(),
        ensures
            answer(r) == self@.rename_place(olddir, oldname@, newdir, newname@),
    {
        let (from, to) = match (self.table.routes.get(&olddir), self.table.routes.get(&newdir)) {
            (Some(from), Some(to)) => (from, to),
            _ => return Err(LINUX_EBADF),
        };
        let source = self.route_child(from, oldname);
        let target = self.route_child(to, newname);
        if source.backend != target.backend {
            return Err(LINUX_EXDEV);
        }
        if source.backend == Backend::Lower {
            return Ok(RenamePlace::Lower);
        }
        let olddir: u64 = match self.routed_parent(from, &source.path) {
            Err(error) => return Err(error),
            Ok(Resolution::Missing { parent, depth }) => {
                return Ok(
                    RenamePlace::Lookup {
                        parent,
                        path: prefix_of(source.path.as_slice(), depth + 1),
                    },
                );
            },
            Ok(Resolution::Known(inode)) => inode,
        };
        let newdir: u64 = match self.routed_parent(to, &target.path) {
            Err(error) => return Err(error),
            Ok(Resolution::Missing { parent, depth }) => {
                return Ok(
                    RenamePlace::Lookup {
                        parent,
                        path: prefix_of(target.path.as_slice(), depth + 1),
                    },
                );
            },
            Ok(Resolution::Known(inode)) => inode,
        };
        if self.upper.is_none() {
            return Err(LINUX_EROFS);
        }
        Ok(RenamePlace::Upper { olddir, newdir })
    }

    /// Where to link an inode.
    pub fn locate_link(&self, inode: u64, newparent: u64, newname: &[u8]) -> (r: Result<Place, i32>)
        requires
            self.wf(),
        ensures
            answer(r) == self@.link_place(inode, newparent, newname@),
    {
        let (source, to) = match (
            self.table.routes.get(&inode),
            self.table.routes.get(&newparent),
        ) {
            (Some(source), Some(to)) => (source, to),
            _ => return Err(LINUX_EBADF),
        };
        let target = self.route_child(to, newname);
        if source.backend != target.backend {
            return Err(LINUX_EXDEV);
        }
        if source.backend == Backend::Lower {
            return Ok(Place::Lower { parent: newparent, path: target.path });
        }
        let resolved = self.routed_parent(to, &target.path);
        match resolved {
            Err(error) => Err(error),
            Ok(Resolution::Missing { parent, depth }) => {
                assert(depth + 1 < target.path.len());
                Ok(Place::Lookup { parent, path: prefix_of(target.path.as_slice(), depth + 1) })
            },
            Ok(Resolution::Known(parent)) => if self.upper.is_some() {
                Ok(Place::Upper { parent, path: target.path })
            } else {
                Err(LINUX_EROFS)
            },
        }
    }
}

} // verus!
