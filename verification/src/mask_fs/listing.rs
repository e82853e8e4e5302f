//! Listings of directories in which paths are masked.
//!
//! A directory of the lower backend is listed in passes, each of which goes on
//! behind the last entry of the one before, until one has no entry. What is
//! masked is left out. Then come the masked paths that stand in the directory, as
//! far as the storage has them, under offsets of their own.

use vstd::prelude::*;
use crate::abi::LINUX_ENOENT;
use crate::bytes::{copy_all, copy_bytes, views};
use crate::handles::{DirEntry, DirEntryView};
use crate::passthrough::Entry;
use super::{entry_type, type_of, Backend, MaskFs, MaskView};

verus! {

broadcast use vstd::std_specs::hash::group_hash_axioms;

/// Offsets of entries that stand for masked paths have this bit.
pub const SYNTHETIC_READDIR_OFFSET: u64 = 0x8000_0000_0000_0000;

/// The offset behind the masked path at `index` of a listing.
pub open spec fn synthetic_offset(index: u64) -> u64 {
    SYNTHETIC_READDIR_OFFSET.wrapping_add(index).wrapping_add(1)
}

/// One pass over the entries of the lower backend.
#[derive(Clone, Copy, Debug, PartialEq, Eq, Structural)]
pub struct Pass {
    /// Whether any entry came.
    pub seen: bool,
    /// Whether the guest's buffer is full.
    pub stopped: bool,
    /// The offset behind the last entry; at first, where the pass starts.
    pub last_offset: u64,
}

/// A pass that starts at an offset.
pub open spec fn pass_from(offset: u64) -> Pass {
    Pass { seen: false, stopped: false, last_offset: offset }
}

/// How far a listing has come, and what it waits for.
#[derive(Clone, Copy, Debug, PartialEq, Eq, Structural)]
pub enum Listing {
    /// The upper backend makes the whole listing.
    Upper,
    /// The next entry of a pass over the lower backend, or the end of the pass.
    Lower { pass: Pass },
    /// The entry that came is handed to the guest.
    Offer { pass: Pass },
    /// The masked path at this index is looked up in the storage.
    Masked { index: u64 },
    /// The masked path at this index is handed to the guest.
    OfferMasked { index: u64, ino: u64, offset: u64, type_: u32 },
    /// Nothing: the listing is over.
    Finished,
    /// Nothing: the listing has failed.
    Failed(i32),
}

/// What came of what a listing waited for.
pub enum ListEvent<'a> {
    /// The pass has this entry. The offset is that behind the entry.
    Entry(&'a DirEntry<'a>),
    /// The pass is over.
    PassEnd,
    PassFailed(i32),
    /// An entry was handed out, and took this many bytes; none if it did not fit.
    Delivered(usize),
    /// An entry could not be handed out. The lower backend ends its pass over
    /// that, as it does over an entry that did not fit.
    Refused(i32),
    /// A masked path was looked up.
    Looked(Result<Entry, i32>),
}

/// The contents of a `ListEvent`.
#[verifier::ext_equal]
pub enum ListEventView {
    Entry(DirEntryView),
    PassEnd,
    PassFailed(i32),
    Delivered(usize),
    Refused(i32),
    Looked(Result<Entry, i32>),
}

impl<'a> View for ListEvent<'a> {
    type V = ListEventView;

    open spec fn view(&self) -> ListEventView {
        match *self {
            ListEvent::Entry(entry) => ListEventView::Entry(entry@),
            ListEvent::PassEnd => ListEventView::PassEnd,
            ListEvent::PassFailed(error) => ListEventView::PassFailed(error),
            ListEvent::Delivered(size) => ListEventView::Delivered(size),
            ListEvent::Refused(error) => ListEventView::Refused(error),
            ListEvent::Looked(result) => ListEventView::Looked(result),
        }
    }
}

/// A listing of a directory: the directory's path, and how far it has come.
#[derive(Debug)]
pub struct MaskListing {
    pub path: Vec<Vec<u8>>,
    pub state: Listing,
}

/// A masked path of a listing.
#[derive(Debug)]
pub struct MaskedChild {
    pub name: Vec<u8>,
    pub path: Vec<Vec<u8>>,
}

/// Going on with the masked paths from an index on.
pub open spec fn masked_from(fs: MaskView, path: Seq<Seq<u8>>, index: int) -> Listing {
    if index < fs.synthetic(path).len() {
        Listing::Masked { index: index as u64 }
    } else {
        Listing::Finished
    }
}

/// How a listing starts at an offset.
pub open spec fn listing_start(fs: MaskView, inode: u64, offset: u64) -> Result<Listing, i32> {
    match fs.backend_of(inode) {
        Err(error) => Err(error),
        Ok(Backend::Upper) => Ok(Listing::Upper),
        Ok(Backend::Lower) => if offset >= SYNTHETIC_READDIR_OFFSET {
            Ok(
                masked_from(
                    fs,
                    fs.routes[inode].path,
                    offset - SYNTHETIC_READDIR_OFFSET,
                ),
            )
        } else {
            Ok(Listing::Lower { pass: pass_from(offset) })
        },
    }
}

/// What a listing does after a pass.
pub open spec fn after_pass(fs: MaskView, path: Seq<Seq<u8>>, pass: Pass) -> Listing {
    if pass.stopped {
        Listing::Finished
    } else if pass.seen {
        Listing::Lower { pass: pass_from(pass.last_offset) }
    } else {
        masked_from(fs, path, 0)
    }
}

/// How a listing goes on. An event that the listing does not wait for changes
/// nothing.
pub open spec fn list_next(
    fs: MaskView,
    path: Seq<Seq<u8>>,
    state: Listing,
    event: ListEventView,
) -> Listing {
    match (state, event) {
        (Listing::Lower { pass }, ListEventView::Entry(entry)) => {
            let pass = Pass { seen: true, last_offset: entry.offset, ..pass };
            if fs.masks.has_child(path, entry.name) {
                Listing::Lower { pass }
            } else {
                Listing::Offer { pass }
            }
        },
        (Listing::Lower { pass }, ListEventView::PassEnd) => after_pass(fs, path, pass),
        (Listing::Lower { pass: _ }, ListEventView::PassFailed(error)) => Listing::Failed(error),
        (Listing::Offer { pass }, ListEventView::Delivered(size)) => Listing::Lower {
            pass: Pass { stopped: pass.stopped || size == 0, ..pass },
        },
        (Listing::Offer { pass }, ListEventView::Refused(_)) => Listing::Lower { pass },
        (Listing::Masked { index }, ListEventView::Looked(Ok(entry))) => Listing::OfferMasked {
            index,
            ino: entry.attr.ino,
            offset: synthetic_offset(index),
            type_: type_of(entry.attr),
        },
        (Listing::Masked { index }, ListEventView::Looked(Err(error))) => if error
            == LINUX_ENOENT {
            masked_from(fs, path, index + 1)
        } else {
            Listing::Failed(error)
        },
        (
            Listing::OfferMasked { index, ino: _, offset: _, type_: _ },
            ListEventView::Delivered(size),
        ) => if size == 0 {
            Listing::Finished
        } else {
            masked_from(fs, path, index + 1)
        },
        (
            Listing::OfferMasked { index: _, ino: _, offset: _, type_: _ },
            ListEventView::Refused(error),
        ) => Listing::Failed(error),
        _ => state,
    }
}

/// What an event has the listing hand to the guest.
pub open spec fn handed(
    fs: MaskView,
    path: Seq<Seq<u8>>,
    state: Listing,
    event: ListEventView,
) -> Option<DirEntryView> {
    match (state, event) {
        (Listing::Lower { pass: _ }, ListEventView::Entry(entry)) => if fs.masks.has_child(
            path,
            entry.name,
        ) {
            None
        } else {
            Some(entry)
        },
        (Listing::Masked { index }, ListEventView::Looked(Ok(entry))) => Some(
            masked_entry(fs, path, index, entry),
        ),
        _ => None,
    }
}

/// The directory entry of a masked path that the storage has.
pub open spec fn masked_entry(
    fs: MaskView,
    path: Seq<Seq<u8>>,
    index: u64,
    entry: Entry,
) -> DirEntryView {
    DirEntryView {
        ino: entry.attr.ino,
        offset: synthetic_offset(index),
        type_: type_of(entry.attr),
        name: fs.synthetic(path)[index as int].last(),
    }
}

/// How a listing goes on over several events.
pub open spec fn list_all(
    fs: MaskView,
    path: Seq<Seq<u8>>,
    state: Listing,
    events: Seq<ListEventView>,
) -> Listing
    decreases events.len(),
{
    if events.len() == 0 {
        state
    } else {
        list_next(fs, path, list_all(fs, path, state, events.drop_last()), events.last())
    }
}

/// What a listing hands out over several events, in order.
pub open spec fn all_handed(
    fs: MaskView,
    path: Seq<Seq<u8>>,
    state: Listing,
    events: Seq<ListEventView>,
) -> Seq<DirEntryView>
    decreases events.len(),
{
    if events.len() == 0 {
        Seq::empty()
    } else {
        let before = all_handed(fs, path, state, events.drop_last());
        match handed(fs, path, list_all(fs, path, state, events.drop_last()), events.last()) {
            Some(entry) => before.push(entry),
            None => before,
        }
    }
}

/// The entries that are not masked. Each entry comes with the room that it takes
/// in the guest's buffer.
pub open spec fn unhidden(
    fs: MaskView,
    path: Seq<Seq<u8>>,
    entries: Seq<(DirEntryView, usize)>,
) -> Seq<DirEntryView>
    decreases entries.len(),
{
    if entries.len() == 0 {
        Seq::empty()
    } else {
        let before = unhidden(fs, path, entries.drop_last());
        if fs.masks.has_child(path, entries.last().0.name) {
            before
        } else {
            before.push(entries.last().0)
        }
    }
}

/// The entries of several passes, one pass after the other.
pub open spec fn flattened(passes: Seq<Seq<(DirEntryView, usize)>>) -> Seq<(DirEntryView, usize)>
    decreases passes.len(),
{
    if passes.len() == 0 {
        Seq::empty()
    } else {
        flattened(passes.drop_last()) + passes.last()
    }
}

/// The masked paths from an index on that the storage has, by what was found of
/// each.
pub open spec fn offered(
    fs: MaskView,
    path: Seq<Seq<u8>>,
    from: int,
    found: Seq<(Result<Entry, i32>, usize)>,
) -> Seq<DirEntryView>
    decreases found.len(),
{
    if found.len() == 0 {
        Seq::empty()
    } else {
        let before = offered(fs, path, from, found.drop_last());
        match found.last().0 {
            Ok(entry) => before.push(
                masked_entry(fs, path, (from + found.len() - 1) as u64, entry),
            ),
            Err(_) => before,
        }
    }
}

/// What happens in a pass over the lower backend: each entry comes, and each that
/// is handed out takes its room.
pub open spec fn pass_events(
    fs: MaskView,
    path: Seq<Seq<u8>>,
    entries: Seq<(DirEntryView, usize)>,
) -> Seq<ListEventView>
    decreases entries.len(),
{
    if entries.len() == 0 {
        Seq::empty()
    } else {
        let came = pass_events(fs, path, entries.drop_last()).push(
            ListEventView::Entry(entries.last().0),
        );
        if fs.masks.has_child(path, entries.last().0.name) {
            came
        } else {
            came.push(ListEventView::Delivered(entries.last().1))
        }
    }
}

/// What happens in several passes.
pub open spec fn lower_events(
    fs: MaskView,
    path: Seq<Seq<u8>>,
    passes: Seq<Seq<(DirEntryView, usize)>>,
) -> Seq<ListEventView>
    decreases passes.len(),
{
    if passes.len() == 0 {
        Seq::empty()
    } else {
        lower_events(fs, path, passes.drop_last()) + pass_events(fs, path, passes.last()).push(
            ListEventView::PassEnd,
        )
    }
}

/// What happens as masked paths are looked up and handed out.
pub open spec fn masked_events(found: Seq<(Result<Entry, i32>, usize)>) -> Seq<ListEventView>
    decreases found.len(),
{
    if found.len() == 0 {
        Seq::empty()
    } else {
        let looked = masked_events(found.drop_last()).push(ListEventView::Looked(found.last().0));
        match found.last().0 {
            Ok(_) => looked.push(ListEventView::Delivered(found.last().1)),
            Err(_) => looked,
        }
    }
}

/// The guest has room for every entry.
pub open spec fn has_room(entries: Seq<(DirEntryView, usize)>) -> bool {
    forall|i: int| 0 <= i < entries.len() ==> (#[trigger] entries[i]).1 > 0
}

/// Every masked path was found, and the guest has room for it, or does not exist.
pub open spec fn present_or_absent(found: Seq<(Result<Entry, i32>, usize)>) -> bool {
    forall|i: int|
        0 <= i < found.len() ==> match (#[trigger] found[i]).0 {
            Ok(_) => found[i].1 > 0,
            Err(error) => error == LINUX_ENOENT,
        }
}

proof fn lemma_list_concat(
    fs: MaskView,
    path: Seq<Seq<u8>>,
    state: Listing,
    a: Seq<ListEventView>,
    b: Seq<ListEventView>,
)
    ensures
        list_all(fs, path, state, a + b) == list_all(fs, path, list_all(fs, path, state, a), b),
        all_handed(fs, path, state, a + b) == all_handed(fs, path, state, a) + all_handed(
            fs,
            path,
            list_all(fs, path, state, a),
            b,
        ),
    decreases b.len(),
{
    if b.len() == 0 {
        assert(a + b =~= a);
        assert(all_handed(fs, path, state, a) =~= all_handed(fs, path, state, a) + Seq::empty());
    } else {
        lemma_list_concat(fs, path, state, a, b.drop_last());
        assert((a + b).drop_last() =~= a + b.drop_last());
        assert((a + b).last() == b.last());
        let middle = list_all(fs, path, state, a);
        assert(all_handed(fs, path, state, a + b) =~= all_handed(fs, path, state, a) + all_handed(
            fs,
            path,
            middle,
            b,
        ));
    }
}

/// One event more.
proof fn lemma_list_push(
    fs: MaskView,
    path: Seq<Seq<u8>>,
    state: Listing,
    events: Seq<ListEventView>,
    event: ListEventView,
)
    ensures
        list_all(fs, path, state, events.push(event)) == list_next(
            fs,
            path,
            list_all(fs, path, state, events),
            event,
        ),
        all_handed(fs, path, state, events.push(event)) == match handed(
            fs,
            path,
            list_all(fs, path, state, events),
            event,
        ) {
            Some(entry) => all_handed(fs, path, state, events).push(entry),
            None => all_handed(fs, path, state, events),
        },
{
    assert(events.push(event).drop_last() =~= events);
}

/// A pass hands out its entries that are not masked, in order, and ends behind
/// its last one.
proof fn lemma_pass(
    fs: MaskView,
    path: Seq<Seq<u8>>,
    pass: Pass,
    entries: Seq<(DirEntryView, usize)>,
)
    requires
        has_room(entries),
    ensures
        list_all(fs, path, Listing::Lower { pass }, pass_events(fs, path, entries))
            == (Listing::Lower {
            pass: if entries.len() == 0 {
                pass
            } else {
                Pass { seen: true, last_offset: entries.last().0.offset, ..pass }
            },
        }),
        all_handed(fs, path, Listing::Lower { pass }, pass_events(fs, path, entries)) == unhidden(
            fs,
            path,
            entries,
        ),
    decreases entries.len(),
{
    if entries.len() > 0 {
        let before = entries.drop_last();
        let (entry, size) = entries.last();
        assert(entries[entries.len() - 1].1 > 0);
        assert forall|i: int| 0 <= i < before.len() implies (#[trigger] before[i]).1 > 0 by {
            assert(before[i] == entries[i]);
        }
        lemma_pass(fs, path, pass, before);
        let start = Listing::Lower { pass };
        let events = pass_events(fs, path, before);
        let came = events.push(ListEventView::Entry(entry));
        lemma_list_push(fs, path, start, events, ListEventView::Entry(entry));
        lemma_list_push(fs, path, start, came, ListEventView::Delivered(size));
    }
}

/// Several passes, none of them empty, hand out their entries that are not masked
/// in order, and each pass goes on behind the last entry of the one before.
pub proof fn passes_go_on_behind_the_last_entry(
    fs: MaskView,
    path: Seq<Seq<u8>>,
    offset: u64,
    passes: Seq<Seq<(DirEntryView, usize)>>,
)
    requires
        forall|i: int|
            0 <= i < passes.len() ==> (#[trigger] passes[i]).len() > 0 && has_room(passes[i]),
    ensures
        ({
            let start = Listing::Lower { pass: pass_from(offset) };
            let events = lower_events(fs, path, passes);
            &&& list_all(fs, path, start, events) == (Listing::Lower {
                pass: pass_from(
                    if passes.len() == 0 {
                        offset
                    } else {
                        passes.last().last().0.offset
                    },
                ),
            })
            &&& all_handed(fs, path, start, events) == unhidden(fs, path, flattened(passes))
        }),
    decreases passes.len(),
{
    let start = Listing::Lower { pass: pass_from(offset) };
    if passes.len() > 0 {
        let before = passes.drop_last();
        let last = passes.last();
        assert(passes[passes.len() - 1] == last);
        assert forall|i: int| 0 <= i < before.len() implies (#[trigger] before[i]).len() > 0
            && has_room(before[i]) by {
            assert(before[i] == passes[i]);
        }
        passes_go_on_behind_the_last_entry(fs, path, offset, before);
        let first = lower_events(fs, path, before);
        let events = pass_events(fs, path, last);
        lemma_list_concat(fs, path, start, first, events.push(ListEventView::PassEnd));
        let middle = list_all(fs, path, start, first);
        let pass = middle->Lower_pass;
        lemma_pass(fs, path, pass, last);
        lemma_list_push(fs, path, middle, events, ListEventView::PassEnd);
        lemma_unhidden_concat(fs, path, flattened(before), last);
    }
}

proof fn lemma_unhidden_concat(
    fs: MaskView,
    path: Seq<Seq<u8>>,
    a: Seq<(DirEntryView, usize)>,
    b: Seq<(DirEntryView, usize)>,
)
    ensures
        unhidden(fs, path, a + b) == unhidden(fs, path, a) + unhidden(fs, path, b),
    decreases b.len(),
{
    if b.len() == 0 {
        assert(a + b =~= a);
        assert(unhidden(fs, path, a) + Seq::empty() =~= unhidden(fs, path, a));
    } else {
        lemma_unhidden_concat(fs, path, a, b.drop_last());
        assert((a + b).drop_last() =~= a + b.drop_last());
        assert((a + b).last() == b.last());
        assert(unhidden(fs, path, a + b) =~= unhidden(fs, path, a) + unhidden(fs, path, b));
    }
}

/// The masked paths from an index on are handed out in order, as far as the
/// storage has them.
proof fn lemma_masked(
    fs: MaskView,
    path: Seq<Seq<u8>>,
    from: int,
    found: Seq<(Result<Entry, i32>, usize)>,
)
    requires
        0 <= from,
        from + found.len() <= fs.synthetic(path).len() <= u64::MAX,
        present_or_absent(found),
    ensures
        list_all(fs, path, masked_from(fs, path, from), masked_events(found)) == masked_from(
            fs,
            path,
            from + found.len(),
        ),
        all_handed(fs, path, masked_from(fs, path, from), masked_events(found)) == offered(
            fs,
            path,
            from,
            found,
        ),
    decreases found.len(),
{
    if found.len() > 0 {
        let before = found.drop_last();
        let (result, size) = found.last();
        assert(found[found.len() - 1] == found.last());
        assert forall|i: int| 0 <= i < before.len() implies match (#[trigger] before[i]).0 {
            Ok(_) => before[i].1 > 0,
            Err(error) => error == LINUX_ENOENT,
        } by {
            assert(before[i] == found[i]);
        }
        lemma_masked(fs, path, from, before);
        let start = masked_from(fs, path, from);
        let events = masked_events(before);
        let looked = events.push(ListEventView::Looked(result));
        lemma_list_push(fs, path, start, events, ListEventView::Looked(result));
        lemma_list_push(fs, path, start, looked, ListEventView::Delivered(size));
    }
}

/// A whole listing of a directory of the lower backend, for a guest with room
/// for it, hands out the entries of the lower backend that are not masked, as
/// they came, and then the masked paths that the storage has, in order.
pub proof fn listing_is_complete(
    fs: MaskView,
    inode: u64,
    offset: u64,
    passes: Seq<Seq<(DirEntryView, usize)>>,
    found: Seq<(Result<Entry, i32>, usize)>,
)
    requires
        fs.backend_of(inode) == Ok::<Backend, i32>(Backend::Lower),
        offset < SYNTHETIC_READDIR_OFFSET,
        forall|i: int|
            0 <= i < passes.len() ==> (#[trigger] passes[i]).len() > 0 && has_room(passes[i]),
        found.len() == fs.synthetic(fs.routes[inode].path).len(),
        found.len() <= u64::MAX,
        present_or_absent(found),
    ensures
        ({
            let path = fs.routes[inode].path;
            let start = listing_start(fs, inode, offset)->Ok_0;
            let events = lower_events(fs, path, passes).push(ListEventView::PassEnd)
                + masked_events(found);
            &&& listing_start(fs, inode, offset) is Ok
            &&& list_all(fs, path, start, events) == Listing::Finished
            &&& all_handed(fs, path, start, events) == unhidden(fs, path, flattened(passes))
                + offered(fs, path, 0, found)
        }),
{
    let path = fs.routes[inode].path;
    let start = listing_start(fs, inode, offset)->Ok_0;
    let first = lower_events(fs, path, passes);
    let lower = first.push(ListEventView::PassEnd);
    passes_go_on_behind_the_last_entry(fs, path, offset, passes);
    lemma_list_push(fs, path, start, first, ListEventView::PassEnd);
    lemma_list_concat(fs, path, start, lower, masked_events(found));
    lemma_masked(fs, path, 0, found);
}

/// A listing that goes on at the offset of a masked path hands out the masked
/// paths from that one on, and nothing else; the offset behind the masked path at
/// an index is that of the next.
pub proof fn listing_resumes(
    fs: MaskView,
    inode: u64,
    index: u64,
    found: Seq<(Result<Entry, i32>, usize)>,
)
    requires
        fs.backend_of(inode) == Ok::<Backend, i32>(Backend::Lower),
        index < SYNTHETIC_READDIR_OFFSET,
        fs.synthetic(fs.routes[inode].path).len() <= u64::MAX,
        found.len() == if index < fs.synthetic(fs.routes[inode].path).len() {
            fs.synthetic(fs.routes[inode].path).len() - index
        } else {
            0
        },
        present_or_absent(found),
    ensures
        ({
            let path = fs.routes[inode].path;
            let offset = (SYNTHETIC_READDIR_OFFSET + index) as u64;
            let start = listing_start(fs, inode, offset)->Ok_0;
            &&& listing_start(fs, inode, offset) is Ok
            &&& list_all(fs, path, start, masked_events(found)) == Listing::Finished
            &&& all_handed(fs, path, start, masked_events(found)) == offered(
                fs,
                path,
                index as int,
                found,
            )
            &&& index > 0 ==> synthetic_offset((index - 1) as u64) == offset
        }),
{
    let path = fs.routes[inode].path;
    if index < fs.synthetic(path).len() {
        lemma_masked(fs, path, index as int, found);
    }
}

/// No entry of the lower backend that is masked is handed out.
pub proof fn masked_entries_are_not_handed_out(
    fs: MaskView,
    path: Seq<Seq<u8>>,
    entries: Seq<(DirEntryView, usize)>,
)
    ensures
        forall|i: int|
            0 <= i < unhidden(fs, path, entries).len() ==> !fs.masks.has_child(
                path,
                (#[trigger] unhidden(fs, path, entries)[i]).name,
            ),
    decreases entries.len(),
{
    if entries.len() > 0 {
        let before = unhidden(fs, path, entries.drop_last());
        masked_entries_are_not_handed_out(fs, path, entries.drop_last());
        assert forall|i: int| 0 <= i < unhidden(fs, path, entries).len() implies !fs.masks.has_child(
            path,
            (#[trigger] unhidden(fs, path, entries)[i]).name,
        ) by {
            if i < before.len() {
                assert(unhidden(fs, path, entries)[i] == before[i]);
            }
        }
    }
}

/// A masked path that the storage has is handed out as the storage has it, under
/// its own name and an offset of its own; one that it does not have is passed
/// over, and any other failure ends the listing.
pub proof fn masked_entries_are_the_storages(
    fs: MaskView,
    path: Seq<Seq<u8>>,
    index: u64,
    entry: Entry,
    error: i32,
)
    requires
        fs.stored,
        index < fs.masks.children(path).len(),
        index < 0x7fff_ffff_ffff_ffff,
    ensures
        ({
            let state = Listing::Masked { index };
            let offset = 0x8000_0000_0000_0000 + index + 1;
            let found = ListEventView::Looked(Ok(entry));
            let next = if index + 1 < fs.masks.children(path).len() {
                Listing::Masked { index: (index + 1) as u64 }
            } else {
                Listing::Finished
            };
            let offer = list_next(fs, path, state, found);
            let shown = handed(fs, path, state, found)->Some_0;
            &&& handed(fs, path, state, found) is Some
            &&& shown.ino == entry.attr.ino
            &&& shown.offset == offset
            &&& shown.type_ == type_of(entry.attr)
            &&& shown.name == fs.masks.children(path)[index as int].last()
            &&& offer == (Listing::OfferMasked {
                index,
                ino: shown.ino,
                offset: shown.offset,
                type_: shown.type_,
            })
            &&& forall|size: usize|
                size > 0 ==> #[trigger] list_next(
                    fs,
                    path,
                    offer,
                    ListEventView::Delivered(size),
                ) == next
            &&& list_next(fs, path, offer, ListEventView::Refused(error)) == Listing::Failed(error)
            &&& list_next(fs, path, state, ListEventView::Looked(Err(2))) == next
            &&& error != 2 ==> list_next(fs, path, state, ListEventView::Looked(Err(error)))
                == Listing::Failed(error)
            &&& handed(fs, path, state, ListEventView::Looked(Err(error))) is None
        }),
{
}

/// An entry of the lower backend that is not masked is handed out as it came; a
/// pass that failed ends the listing with its error. A directory of the upper
/// backend is listed there.
pub proof fn lower_entries_are_handed_on(
    fs: MaskView,
    path: Seq<Seq<u8>>,
    inode: u64,
    offset: u64,
    pass: Pass,
    entry: DirEntryView,
    error: i32,
)
    ensures
        ({
            let state = Listing::Lower { pass };
            let came = ListEventView::Entry(entry);
            &&& !fs.masks.has_child(path, entry.name) ==> handed(fs, path, state, came) == Some(
                entry,
            )
            &&& fs.masks.has_child(path, entry.name) ==> handed(fs, path, state, came) is None
            &&& list_next(fs, path, state, ListEventView::PassFailed(error)) == Listing::Failed(
                error,
            )
            &&& fs.routes.contains_key(inode) && fs.routes[inode].backend == Backend::Upper
                && fs.stored ==> listing_start(fs, inode, offset) == Ok::<Listing, i32>(
                Listing::Upper,
            )
            &&& fs.routes.contains_key(inode) && fs.routes[inode].backend == Backend::Lower
                && offset < 0x8000_0000_0000_0000 ==> listing_start(fs, inode, offset) == Ok::<
                Listing,
                i32,
            >(Listing::Lower { pass: Pass { seen: false, stopped: false, last_offset: offset } })
            &&& !fs.stored ==> fs.synthetic(path).len() == 0
            &&& fs.stored ==> fs.synthetic(path) == fs.masks.children(path)
        }),
{
}

/// A listing whose entry does not fit is over with its pass, and hands out
/// nothing more.
pub proof fn full_buffers_end_a_listing(
    fs: MaskView,
    path: Seq<Seq<u8>>,
    pass: Pass,
    index: u64,
    ino: u64,
    offset: u64,
    type_: u32,
)
    ensures
        ({
            let full = seq![ListEventView::Delivered(0), ListEventView::PassEnd];
            let masked = Listing::OfferMasked { index, ino, offset, type_ };
            &&& list_all(fs, path, Listing::Offer { pass }, full) == Listing::Finished
            &&& list_next(fs, path, masked, ListEventView::Delivered(0)) == Listing::Finished
        }),
{
    let start = Listing::Offer { pass };
    let none = Seq::<ListEventView>::empty();
    let one = none.push(ListEventView::Delivered(0));
    lemma_list_push(fs, path, start, none, ListEventView::Delivered(0));
    lemma_list_push(fs, path, start, one, ListEventView::PassEnd);
    assert(one.push(ListEventView::PassEnd) =~= seq![
        ListEventView::Delivered(0),
        ListEventView::PassEnd,
    ]);
}

impl<L> MaskFs<L> {
    /// How many masked paths a listing has.
    fn masked_count(&self, path: &Vec<Vec<u8>>) -> (r: usize)
        ensures
            r == self@.synthetic(views(path@)).len(),
    {
        if self.upper.is_none() {
            return 0;
        }
        self.table.masks.direct_children(path.as_slice()).len()
    }

    /// Starts a listing of a directory at an offset.
    pub fn begin_listing(&self, inode: u64, offset: u64) -> (r: Result<MaskListing, i32>)
        ensures
            match r {
                Ok(listing) => {
                    &&& listing_start(self@, inode, offset) == Ok::<Listing, i32>(listing.state)
                    &&& views(listing.path@) == self@.routes[inode].path
                },
                Err(error) => listing_start(self@, inode, offset) == Err::<Listing, i32>(error),
            },
    {
        let backend = match self.dispatch(inode) {
            Err(error) => return Err(error),
            Ok(backend) => backend,
        };
        let path = match self.table.routes.get(&inode) {
            Some(route) => copy_all(&route.path),
            None => Vec::new(),
        };
        let state = match backend {
            Backend::Upper => Listing::Upper,
            Backend::Lower => if offset >= SYNTHETIC_READDIR_OFFSET {
                let index: u64 = offset - SYNTHETIC_READDIR_OFFSET;
                if index < self.masked_count(&path) as u64 {
                    Listing::Masked { index }
                } else {
                    Listing::Finished
                }
            } else {
                Listing::Lower { pass: Pass { seen: false, stopped: false, last_offset: offset } }
            },
        };
        Ok(MaskListing { path, state })
    }

    /// The masked path behind the one at `index`, if the listing has one.
    fn masked_after(&self, path: &Vec<Vec<u8>>, index: u64) -> (r: Listing)
        ensures
            r == masked_from(self@, views(path@), index + 1),
    {
        let count: usize = self.masked_count(path);
        if index < u64::MAX && index + 1 < count as u64 {
            Listing::Masked { index: index + 1 }
        } else {
            Listing::Finished
        }
    }
}

impl MaskListing {
    /// Goes on with a listing.
    pub fn next<L>(&mut self, fs: &MaskFs<L>, event: ListEvent<'_>)
        ensures
            final(self).path == old(self).path,
            final(self).state == list_next(fs@, views(old(self).path@), old(self).state, event@),
    {
        self.state = match (self.state, event) {
            (Listing::Lower { pass }, ListEvent::Entry(entry)) => {
                let pass = Pass { seen: true, last_offset: entry.offset, ..pass };
                if fs.table.masks.is_direct_child(self.path.as_slice(), entry.name) {
                    Listing::Lower { pass }
                } else {
                    Listing::Offer { pass }
                }
            },
            (Listing::Lower { pass }, ListEvent::PassEnd) => if pass.stopped {
                Listing::Finished
            } else if pass.seen {
                Listing::Lower {
                    pass: Pass { seen: false, stopped: false, last_offset: pass.last_offset },
                }
            } else if fs.masked_count(&self.path) > 0 {
                Listing::Masked { index: 0 }
            } else {
                Listing::Finished
            },
            (Listing::Lower { pass: _ }, ListEvent::PassFailed(error)) => Listing::Failed(error),
            (Listing::Offer { pass }, ListEvent::Delivered(size)) => Listing::Lower {
                pass: Pass { stopped: pass.stopped || size == 0, ..pass },
            },
            (Listing::Offer { pass }, ListEvent::Refused(_)) => Listing::Lower { pass },
            (Listing::Masked { index }, ListEvent::Looked(Ok(entry))) => Listing::OfferMasked {
                index,
                ino: entry.attr.ino,
                offset: SYNTHETIC_READDIR_OFFSET.wrapping_add(index).wrapping_add(1),
                type_: entry_type(&entry.attr),
            },
            (Listing::Masked { index }, ListEvent::Looked(Err(error))) => if error
                == LINUX_ENOENT {
                fs.masked_after(&self.path, index)
            } else {
                Listing::Failed(error)
            },
            (
                Listing::OfferMasked { index, ino: _, offset: _, type_: _ },
                ListEvent::Delivered(size),
            ) => if size == 0 {
                Listing::Finished
            } else {
                fs.masked_after(&self.path, index)
            },
            (
                Listing::OfferMasked { index: _, ino: _, offset: _, type_: _ },
                ListEvent::Refused(error),
            ) => Listing::Failed(error),
            (state, _) => state,
        };
    }

    /// The masked path at an index of the listing.
    pub fn child<L>(&self, fs: &MaskFs<L>, index: u64) -> (r: Option<MaskedChild>)
        ensures
            match r {
                Some(child) => {
                    &&& index < fs@.synthetic(views(self.path@)).len()
                    &&& views(child.path@) == fs@.synthetic(views(self.path@))[index as int]
                    &&& child.path@.len() > 0
                    &&& child.name@ == views(child.path@).last()
                },
                None => index >= fs@.synthetic(views(self.path@)).len(),
            },
    {
        if fs.upper.is_none() {
            return None;
        }
        let children = fs.table.masks.direct_children(self.path.as_slice());
        if index >= children.len() as u64 {
            return None;
        }
        let child = &children[index as usize];
        assert(child.stands_for(fs@.synthetic(views(self.path@))[index as int]));
        Some(MaskedChild { name: copy_bytes(child.name.as_slice()), path: copy_all(&child.path) })
    }

    /// The path of an entry of the directory.
    pub fn entry_path(&self, name: &[u8]) -> (r: Vec<Vec<u8>>)
        ensures
            views(r@) == views(self.path@).push(name@),
    {
        let mut path = copy_all(&self.path);
        let ghost before = views(path@);
        path.push(copy_bytes(name));
        assert(views(path@) =~= before.push(name@));
        path
    }
}

/// A listing of a directory starts where it is asked to, on the backend of the
/// directory, and what is behind the lower backend's entries are the masked paths.
pub proof fn begin_listing_begins<L>(
    fs: &MaskFs<L>,
    inode: u64,
    offset: u64,
    r: Result<MaskListing, i32>,
)
    requires
        call_ensures(MaskFs::<L>::begin_listing, (fs, inode, offset), r),
    ensures
        !fs@.routes.contains_key(inode) ==> r == Err::<MaskListing, i32>(9),
        fs@.routes.contains_key(inode) && fs@.routes[inode].backend == Backend::Upper ==> {
            &&& !fs@.stored ==> r == Err::<MaskListing, i32>(30)
            &&& fs@.stored ==> r is Ok && r->Ok_0.state == Listing::Upper
        },
        fs@.routes.contains_key(inode) && fs@.routes[inode].backend == Backend::Lower ==> {
            &&& r is Ok
            &&& views(r->Ok_0.path@) == fs@.routes[inode].path
            &&& offset < 0x8000_0000_0000_0000 ==> r->Ok_0.state == (Listing::Lower {
                pass: Pass { seen: false, stopped: false, last_offset: offset },
            })
            &&& offset >= 0x8000_0000_0000_0000 ==> {
                let index = offset - 0x8000_0000_0000_0000;
                if fs@.stored && index < fs@.masks.children(fs@.routes[inode].path).len() {
                    r->Ok_0.state == (Listing::Masked { index: index as u64 })
                } else {
                    r->Ok_0.state == Listing::Finished
                }
            }
        },
{
}

/// A listing goes on as its state and what came say; the masked path at an index
/// is the one that the directory has there.
pub proof fn listings_go_on<L>(
    listing: &mut MaskListing,
    fs: &MaskFs<L>,
    entry: Entry,
    index: u64,
)
    requires
        call_ensures(
            MaskListing::next::<L>,
            (listing, fs, ListEvent::Looked(Ok(entry))),
            (),
        ),
        old(listing).state == (Listing::Masked { index }),
        index < 0x7fff_ffff_ffff_ffff,
    ensures
        final(listing).path == old(listing).path,
        match final(listing).state {
            Listing::OfferMasked { index: i, ino, offset, type_ } => {
                &&& i == index
                &&& ino == entry.attr.ino
                &&& offset == 0x8000_0000_0000_0000 + index + 1
                &&& type_ == type_of(entry.attr)
            },
            _ => false,
        },
{
}

} // verus!
