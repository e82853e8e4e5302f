//! The inodes that the guest knows: what host file each denotes, and how many
//! references the guest holds.

use std::collections::HashMap;
use vstd::prelude::*;

verus! {

broadcast use vstd::std_specs::hash::group_hash_axioms;

/// No descriptor.
pub const NO_FD: i32 = -1;

/// One inode.
#[derive(Debug, Clone, Copy, PartialEq, Eq, Structural)]
pub struct InodeData {
    pub inode: u64,
    /// The host file's number on its volume.
    pub ino: u64,
    /// The host file's volume.
    pub dev: i32,
    pub refcount: u64,
    /// A descriptor that was kept when the file lost its last name; negative
    /// where there is none.
    pub unlinked_fd: i32,
}

/// The inodes by number, and an index by host file.
pub struct InodeTable {
    by_number: HashMap<u64, InodeData>,
    by_file: HashMap<u128, u64>,
}

impl View for InodeTable {
    type V = Map<u64, InodeData>;

    closed spec fn view(&self) -> Map<u64, InodeData> {
        self.by_number@
    }
}

/// Two records of one host file.
pub open spec fn same_file(a: InodeData, b: InodeData) -> bool {
    a.ino == b.ino && a.dev == b.dev
}

/// Every record stands under its own number, and no host file has two.
pub open spec fn well_numbered(m: Map<u64, InodeData>) -> bool {
    &&& forall|i: u64| #[trigger] m.contains_key(i) ==> m[i].inode == i
    &&& forall|i: u64, j: u64| #[trigger]
        m.contains_key(i) && #[trigger] m.contains_key(j) && same_file(m[i], m[j]) ==> i == j
}

/// `i` is the inode of the host file.
pub open spec fn denotes(m: Map<u64, InodeData>, i: u64, ino: u64, dev: i32) -> bool {
    m.contains_key(i) && m[i].ino == ino && m[i].dev == dev
}

/// The inode of a host file, if the guest knows it.
pub open spec fn inode_of(m: Map<u64, InodeData>, ino: u64, dev: i32) -> Option<u64> {
    if exists|i: u64| denotes(m, i, ino, dev) {
        Some(choose|i: u64| denotes(m, i, ino, dev))
    } else {
        None
    }
}

/// The inodes with `data` in place of what stood under its number or denoted
/// its host file.
pub open spec fn inserted(m: Map<u64, InodeData>, data: InodeData) -> Map<u64, InodeData> {
    match inode_of(m, data.ino, data.dev) {
        Some(i) => m.remove(i).insert(data.inode, data),
        None => m.insert(data.inode, data),
    }
}

/// The inodes after one more reference to `inode`.
pub open spec fn referenced(m: Map<u64, InodeData>, inode: u64) -> Map<u64, InodeData> {
    m.insert(inode, InodeData { refcount: m[inode].refcount.wrapping_add(1), ..m[inode] })
}

/// The inodes with a descriptor kept for `inode`.
pub open spec fn preserved(m: Map<u64, InodeData>, inode: u64, fd: i32) -> Map<u64, InodeData> {
    m.insert(inode, InodeData { unlinked_fd: fd, ..m[inode] })
}

/// The inodes after `count` references to `inode` were dropped. The inode goes
/// with its last reference.
pub open spec fn forgotten(m: Map<u64, InodeData>, inode: u64, count: u64) -> Map<
    u64,
    InodeData,
> {
    if !m.contains_key(inode) {
        m
    } else if m[inode].refcount <= count {
        m.remove(inode)
    } else {
        m.insert(
            inode,
            InodeData { refcount: (m[inode].refcount - count) as u64, ..m[inode] },
        )
    }
}

/// The descriptor that is of no more use once those references were dropped.
pub open spec fn released(m: Map<u64, InodeData>, inode: u64, count: u64) -> Option<i32> {
    if m.contains_key(inode) && m[inode].refcount <= count && m[inode].unlinked_fd >= 0 {
        Some(m[inode].unlinked_fd)
    } else {
        None
    }
}

/// The inodes after several such requests.
pub open spec fn all_forgotten(m: Map<u64, InodeData>, requests: Seq<(u64, u64)>) -> Map<
    u64,
    InodeData,
>
    decreases requests.len(),
{
    if requests.len() == 0 {
        m
    } else {
        forgotten(
            all_forgotten(m, requests.drop_last()),
            requests.last().0,
            requests.last().1,
        )
    }
}

/// The descriptors that those requests leave without use, in order.
pub open spec fn all_released(m: Map<u64, InodeData>, requests: Seq<(u64, u64)>) -> Seq<i32>
    decreases requests.len(),
{
    if requests.len() == 0 {
        Seq::empty()
    } else {
        let before = all_released(m, requests.drop_last());
        match released(
            all_forgotten(m, requests.drop_last()),
            requests.last().0,
            requests.last().1,
        ) {
            Some(fd) => before.push(fd),
            None => before,
        }
    }
}

/// Looking a file up and forgetting it once leaves the inodes as they were,
/// whether or not the guest knew the file.
pub proof fn lookup_then_forget(m: Map<u64, InodeData>, data: InodeData)
    requires
        well_numbered(m),
        data.refcount == 1,
        inode_of(m, data.ino, data.dev) is None ==> !m.contains_key(data.inode),
        forall|i: u64| #[trigger]
            m.contains_key(i) ==> 1 <= m[i].refcount && m[i].refcount < u64::MAX,
    ensures
        match inode_of(m, data.ino, data.dev) {
            Some(i) => forgotten(referenced(m, i), i, 1) == m && released(referenced(m, i), i, 1)
                is None,
            None => forgotten(inserted(m, data), data.inode, 1) == m,
        },
{
    match inode_of(m, data.ino, data.dev) {
        Some(i) => {
            assert(m.contains_key(i));
            assert(forgotten(referenced(m, i), i, 1) =~= m);
        },
        None => {
            assert(forgotten(inserted(m, data), data.inode, 1) =~= m);
        },
    }
}

/// An inode stays known while the guest holds a reference to it, and no
/// longer; no other inode is touched.
pub proof fn forget_drops_only_the_last_reference(m: Map<u64, InodeData>, inode: u64, count: u64)
    ensures
        m.contains_key(inode) ==> (forgotten(m, inode, count).contains_key(inode) <==> count
            < m[inode].refcount),
        forall|i: u64|
            i != inode ==> (#[trigger] forgotten(m, inode, count).contains_key(i)
                <==> m.contains_key(i)) && forgotten(m, inode, count)[i] == m[i],
{
}

/// The inode of a host file is the one that denotes it.
pub proof fn lemma_inode_of(m: Map<u64, InodeData>, i: u64)
    requires
        well_numbered(m),
        m.contains_key(i),
    ensures
        inode_of(m, m[i].ino, m[i].dev) == Some(i),
{
    assert(denotes(m, i, m[i].ino, m[i].dev));
    let j = choose|j: u64| denotes(m, j, m[i].ino, m[i].dev);
    assert(denotes(m, j, m[i].ino, m[i].dev));
    assert(same_file(m[i], m[j]));
}

/// A host file as one number.
pub open spec fn file_key(ino: u64, dev: i32) -> u128 {
    ((dev + 0x8000_0000) * 0x1_0000_0000_0000_0000 + ino) as u128
}

proof fn lemma_file_key_injective(a: u64, b: i32, c: u64, d: i32)
    requires
        file_key(a, b) == file_key(c, d),
    ensures
        a == c,
        b == d,
{
}

fn key_of(ino: u64, dev: i32) -> (r: u128)
    ensures
        r == file_key(ino, dev),
{
    (dev as i64 + 0x8000_0000) as u128 * 0x1_0000_0000_0000_0000 + ino as u128
}

impl InodeTable {
    /// The index has exactly the host files of the inodes.
    pub closed spec fn indexed(&self) -> bool {
        &&& forall|i: u64| #[trigger]
            self.by_number@.contains_key(i) ==> {
                let key = file_key(self.by_number@[i].ino, self.by_number@[i].dev);
                self.by_file@.contains_key(key) && self.by_file@[key] == i
            }
        &&& forall|key: u128| #[trigger]
            self.by_file@.contains_key(key) ==> {
                let i = self.by_file@[key];
                self.by_number@.contains_key(i) && key == file_key(
                    self.by_number@[i].ino,
                    self.by_number@[i].dev,
                )
            }
    }

    pub open spec fn wf(&self) -> bool {
        &&& self.indexed()
        &&& well_numbered(self@)
    }

    pub fn new() -> (r: InodeTable)
        ensures
            r.wf(),
            r@ == Map::<u64, InodeData>::empty(),
    {
        InodeTable { by_number: HashMap::new(), by_file: HashMap::new() }
    }

    /// The record of an inode.
    pub fn get(&self, inode: u64) -> (r: Option<InodeData>)
        ensures
            r == if self@.contains_key(inode) {
                Some(self@[inode])
            } else {
                None
            },
    {
        match self.by_number.get(&inode) {
            Some(data) => Some(*data),
            None => None,
        }
    }

    /// The inode of a host file.
    pub fn find(&self, ino: u64, dev: i32) -> (r: Option<u64>)
        requires
            self.wf(),
        ensures
            r == inode_of(self@, ino, dev),
    {
        let key: u128 = key_of(ino, dev);
        match self.by_file.get(&key) {
            Some(i) => {
                proof {
                    lemma_file_key_injective(
                        ino,
                        dev,
                        self.by_number@[*i].ino,
                        self.by_number@[*i].dev,
                    );
                    lemma_inode_of(self@, *i);
                }
                Some(*i)
            },
            None => {
                proof {
                    assert forall|i: u64| !denotes(self@, i, ino, dev) by {
                        if denotes(self@, i, ino, dev) {
                            assert(self.by_number@.contains_key(i));
                        }
                    }
                }
                None
            },
        }
    }

    /// Adds an inode, in place of what stood under its number or denoted its
    /// host file.
    pub fn insert(&mut self, data: InodeData)
        requires
            old(self).wf(),
        ensures
            final(self).wf(),
            final(self)@ == inserted(old(self)@, data),
    {
        let ghost m = self@;
        let key: u128 = key_of(data.ino, data.dev);
        if let Some(prior) = self.find(data.ino, data.dev) {
            self.by_number.remove(&prior);
            self.by_file.remove(&key);
            assert(denotes(m, prior, data.ino, data.dev));
        }
        let ghost m1 = self@;
        assert(self.indexed()) by {
            assert forall|i: u64| #[trigger] self.by_number@.contains_key(i) implies {
                let k = file_key(self.by_number@[i].ino, self.by_number@[i].dev);
                self.by_file@.contains_key(k) && self.by_file@[k] == i
            } by {
                assert(m.contains_key(i));
            }
        }
        assert forall|i: u64| #[trigger] m1.contains_key(i) implies !(m1[i].ino == data.ino
            && m1[i].dev == data.dev) by {
            assert(m.contains_key(i) && m[i] == m1[i]);
            if m1[i].ino == data.ino && m1[i].dev == data.dev {
                assert(denotes(m, i, data.ino, data.dev));
                lemma_inode_of(m, i);
            }
        }
        if let Some(other) = self.get(data.inode) {
            let stale: u128 = key_of(other.ino, other.dev);
            self.by_number.remove(&data.inode);
            self.by_file.remove(&stale);
        }
        let ghost m2 = self@;
        assert(self.indexed()) by {
            assert forall|i: u64| #[trigger] self.by_number@.contains_key(i) implies {
                let k = file_key(self.by_number@[i].ino, self.by_number@[i].dev);
                self.by_file@.contains_key(k) && self.by_file@[k] == i
            } by {
                assert(m1.contains_key(i));
            }
        }
        self.by_number.insert(data.inode, data);
        self.by_file.insert(key, data.inode);
        proof {
            assert(self@ =~= inserted(m, data));
            assert forall|k: u128| #[trigger] self.by_file@.contains_key(k) implies {
                let i = self.by_file@[k];
                self.by_number@.contains_key(i) && k == file_key(
                    self.by_number@[i].ino,
                    self.by_number@[i].dev,
                )
            } by {
                if k != key {
                    assert(m2.contains_key(self.by_file@[k]));
                }
            }
            assert forall|i: u64| #[trigger] self.by_number@.contains_key(i) implies {
                let k = file_key(self.by_number@[i].ino, self.by_number@[i].dev);
                self.by_file@.contains_key(k) && self.by_file@[k] == i
            } by {
                if i != data.inode {
                    assert(m2.contains_key(i) && m1.contains_key(i));
                    if file_key(m2[i].ino, m2[i].dev) == key {
                        lemma_file_key_injective(m2[i].ino, m2[i].dev, data.ino, data.dev);
                    }
                }
            }
            assert forall|i: u64, j: u64| #[trigger]
                self@.contains_key(i) && #[trigger] self@.contains_key(j) && same_file(
                    self@[i],
                    self@[j],
                ) implies i == j by {
                if i != data.inode {
                    assert(m1.contains_key(i) && m.contains_key(i));
                }
                if j != data.inode {
                    assert(m1.contains_key(j) && m.contains_key(j));
                }
            }
            assert forall|i: u64| #[trigger] self@.contains_key(i) implies self@[i].inode == i by {
                if i != data.inode {
                    assert(m.contains_key(i));
                }
            }
        }
    }

    /// Replaces a record by another of the same file.
    fn replace(&mut self, data: InodeData)
        requires
            old(self).wf(),
            old(self)@.contains_key(data.inode),
            same_file(old(self)@[data.inode], data),
        ensures
            final(self).wf(),
            final(self)@ == old(self)@.insert(data.inode, data),
    {
        let ghost m = self@;
        self.by_number.insert(data.inode, data);
        proof {
            assert forall|k: u128| #[trigger] self.by_file@.contains_key(k) implies {
                let i = self.by_file@[k];
                self.by_number@.contains_key(i) && k == file_key(
                    self.by_number@[i].ino,
                    self.by_number@[i].dev,
                )
            } by {
                assert(m.contains_key(self.by_file@[k]));
            }
            assert forall|i: u64| #[trigger] self.by_number@.contains_key(i) implies {
                let k = file_key(self.by_number@[i].ino, self.by_number@[i].dev);
                self.by_file@.contains_key(k) && self.by_file@[k] == i
            } by {
                assert(m.contains_key(i));
            }
            assert forall|i: u64, j: u64| #[trigger]
                self@.contains_key(i) && #[trigger] self@.contains_key(j) && same_file(
                    self@[i],
                    self@[j],
                ) implies i == j by {
                assert(m.contains_key(i) && m.contains_key(j));
                assert(same_file(m[i], m[j]));
            }
        }
    }

    /// Counts one more reference to an inode.
    pub fn reference(&mut self, inode: u64)
        requires
            old(self).wf(),
            old(self)@.contains_key(inode),
        ensures
            final(self).wf(),
            final(self)@ == referenced(old(self)@, inode),
    {
        if let Some(data) = self.get(inode) {
            self.replace(InodeData { refcount: data.refcount.wrapping_add(1), ..data });
        }
    }

    /// Keeps a descriptor for an inode that lost its last name.
    pub fn preserve(&mut self, inode: u64, fd: i32)
        requires
            old(self).wf(),
            old(self)@.contains_key(inode),
        ensures
            final(self).wf(),
            final(self)@ == preserved(old(self)@, inode, fd),
    {
        if let Some(data) = self.get(inode) {
            self.replace(InodeData { unlinked_fd: fd, ..data });
        }
    }

    /// Drops references to an inode. The result is a descriptor to close.
    pub fn forget_one(&mut self, inode: u64, count: u64) -> (r: Option<i32>)
        requires
            old(self).wf(),
        ensures
            final(self).wf(),
            final(self)@ == forgotten(old(self)@, inode, count),
            r == released(old(self)@, inode, count),
    {
        let data = match self.get(inode) {
            Some(data) => data,
            None => return None,
        };
        let remaining: u64 = data.refcount.saturating_sub(count);
        if remaining == 0 {
            let ghost m = self@;
            let key: u128 = key_of(data.ino, data.dev);
            self.by_number.remove(&inode);
            self.by_file.remove(&key);
            proof {
                assert(self@ =~= m.remove(inode));
                assert forall|i: u64| #[trigger] self.by_number@.contains_key(i) implies {
                    let k = file_key(self.by_number@[i].ino, self.by_number@[i].dev);
                    self.by_file@.contains_key(k) && self.by_file@[k] == i
                } by {
                    assert(m.contains_key(i) && m.contains_key(inode));
                    let k = file_key(m[i].ino, m[i].dev);
                    if k == key {
                        lemma_file_key_injective(m[i].ino, m[i].dev, data.ino, data.dev);
                        assert(same_file(m[i], m[inode]));
                    }
                }
                assert forall|i: u64, j: u64| #[trigger]
                    self@.contains_key(i) && #[trigger] self@.contains_key(j) && same_file(
                        self@[i],
                        self@[j],
                    ) implies i == j by {
                    assert(m.contains_key(i) && m.contains_key(j));
                    assert(same_file(m[i], m[j]));
                }
            }
            if data.unlinked_fd >= 0 {
                Some(data.unlinked_fd)
            } else {
                None
            }
        } else {
            self.replace(InodeData { refcount: remaining, ..data });
            None
        }
    }

    /// Drops references to several inodes, in order. The result is the
    /// descriptors to close.
    pub fn forget_all(&mut self, requests: &Vec<(u64, u64)>) -> (r: Vec<i32>)
        requires
            old(self).wf(),
        ensures
            final(self).wf(),
            final(self)@ == all_forgotten(old(self)@, requests@),
            r@ == all_released(old(self)@, requests@),
    {
        let ghost m = self@;
        let mut closing: Vec<i32> = Vec::new();
        let mut i: usize = 0;
        while i < requests.len()
            invariant
                i <= requests.len(),
                self.wf(),
                self@ == all_forgotten(m, requests@.take(i as int)),
                closing@ == all_released(m, requests@.take(i as int)),
            decreases requests.len() - i,
        {
            let (inode, count): (u64, u64) = requests[i];
            proof {
                let taken = requests@.take(i + 1);
                assert(taken.drop_last() =~= requests@.take(i as int));
                assert(taken.last() == requests@[i as int]);
            }
            if let Some(fd) = self.forget_one(inode, count) {
                closing.push(fd);
            }
            i = i + 1;
        }
        assert(requests@.take(i as int) =~= requests@);
        closing
    }

    /// Forgets every inode.
    pub fn clear(&mut self)
        ensures
            final(self).wf(),
            final(self)@ == Map::<u64, InodeData>::empty(),
    {
        self.by_number.clear();
        self.by_file.clear();
    }
}

/// Several requests to drop references come to what they come to one after the
/// other, and one to what it comes to alone; the descriptors that they leave come
/// in the same order.
pub proof fn forgets_come_one_after_the_other(
    m: Map<u64, InodeData>,
    a: Seq<(u64, u64)>,
    b: Seq<(u64, u64)>,
    inode: u64,
    count: u64,
)
    ensures
        all_forgotten(m, a + b) == all_forgotten(all_forgotten(m, a), b),
        all_released(m, a + b) == all_released(m, a) + all_released(all_forgotten(m, a), b),
        all_forgotten(m, seq![(inode, count)]) == forgotten(m, inode, count),
        all_released(m, seq![(inode, count)]) == match released(m, inode, count) {
            Some(fd) => seq![fd],
            None => Seq::empty(),
        },
    decreases b.len(),
{
    reveal_with_fuel(all_forgotten, 3);
    reveal_with_fuel(all_released, 3);
    assert(seq![(inode, count)].drop_last() =~= Seq::empty());
    assert(all_released(m, seq![(inode, count)]) =~= match released(m, inode, count) {
        Some(fd) => seq![fd],
        None => Seq::empty(),
    });
    if b.len() == 0 {
        assert(a + b =~= a);
        assert(all_released(m, a) + all_released(all_forgotten(m, a), b) =~= all_released(m, a));
    } else {
        forgets_come_one_after_the_other(m, a, b.drop_last(), inode, count);
        assert((a + b).drop_last() =~= a + b.drop_last());
        assert(all_released(m, a + b) =~= all_released(m, a) + all_released(
            all_forgotten(m, a),
            b,
        ));
    }
}

} // verus!
