//! An index of inodes by path text.

use std::collections::HashMap;
use vstd::prelude::*;
use crate::bytes::bytes_equal;

verus! {

broadcast use vstd::std_specs::hash::group_hash_axioms;

/// One path and its inode.
struct Slot {
    key: Vec<u8>,
    inode: u64,
}

/// Inodes by path text. The texts are spread over buckets by a number that is
/// computed from each.
pub struct PathIndex {
    buckets: HashMap<u64, Vec<Slot>>,
}

/// The bucket of a text.
spec fn bucket_of(key: Seq<u8>) -> u64
    decreases key.len(),
{
    if key.len() == 0 {
        0xcbf2_9ce4_8422_2325
    } else {
        (bucket_of(key.drop_last()) ^ key.last() as u64).wrapping_mul(0x100_0000_01b3)
    }
}

fn bucket(key: &[u8]) -> (r: u64)
    ensures
        r == bucket_of(key@),
{
    let mut h: u64 = 0xcbf2_9ce4_8422_2325;
    let mut i: usize = 0;
    while i < key.len()
        invariant
            i <= key.len(),
            h == bucket_of(key@.take(i as int)),
        decreases key.len() - i,
    {
        assert(key@.take(i + 1).drop_last() =~= key@.take(i as int));
        h = (h ^ key[i] as u64).wrapping_mul(0x100_0000_01b3);
        i = i + 1;
    }
    assert(key@.take(i as int) =~= key@);
    h
}

/// `i` is where a bucket has the text.
spec fn at(slots: Seq<Slot>, key: Seq<u8>, i: int) -> bool {
    0 <= i < slots.len() && slots[i].key@ == key
}

spec fn holds(slots: Seq<Slot>, key: Seq<u8>) -> bool {
    exists|i: int| at(slots, key, i)
}

spec fn value(slots: Seq<Slot>, key: Seq<u8>) -> u64 {
    slots[choose|i: int| at(slots, key, i)].inode
}

/// No text stands twice in a bucket.
spec fn distinct(slots: Seq<Slot>) -> bool {
    forall|i: int, j: int|
        0 <= i < slots.len() && 0 <= j < slots.len() && i != j ==> (#[trigger] slots[i]).key@ != (
        #[trigger] slots[j]).key@
}

fn find(slots: &Vec<Slot>, key: &[u8]) -> (r: Option<usize>)
    ensures
        match r {
            Some(i) => at(slots@, key@, i as int),
            None => !holds(slots@, key@),
        },
{
    let mut i: usize = 0;
    while i < slots.len()
        invariant
            i <= slots.len(),
            forall|j: int| 0 <= j < i ==> !at(slots@, key@, j),
        decreases slots.len() - i,
    {
        if bytes_equal(slots[i].key.as_slice(), key) {
            return Some(i);
        }
        i = i + 1;
    }
    None
}

proof fn lemma_value(slots: Seq<Slot>, key: Seq<u8>, i: int)
    requires
        distinct(slots),
        at(slots, key, i),
    ensures
        holds(slots, key),
        value(slots, key) == slots[i].inode,
{
    let j = choose|j: int| at(slots, key, j);
    if i != j {
        assert(slots[i].key@ != slots[j].key@);
    }
}

impl View for PathIndex {
    type V = Map<Seq<u8>, u64>;

    closed spec fn view(&self) -> Map<Seq<u8>, u64> {
        Map::new(
            |key: Seq<u8>|
                self.buckets@.contains_key(bucket_of(key)) && holds(
                    self.buckets@[bucket_of(key)]@,
                    key,
                ),
            |key: Seq<u8>| value(self.buckets@[bucket_of(key)]@, key),
        )
    }
}

impl PathIndex {
    pub closed spec fn wf(&self) -> bool {
        forall|h: u64| #[trigger]
            self.buckets@.contains_key(h) ==> distinct(self.buckets@[h]@) && forall|i: int|
                0 <= i < self.buckets@[h]@.len() ==> bucket_of(
                    (#[trigger] self.buckets@[h]@[i]).key@,
                ) == h
    }

    pub fn new() -> (r: PathIndex)
        ensures
            r.wf(),
            r@ == Map::<Seq<u8>, u64>::empty(),
    {
        let r = PathIndex { buckets: HashMap::new() };
        assert(r@ =~= Map::<Seq<u8>, u64>::empty());
        r
    }

    pub fn get(&self, key: &[u8]) -> (r: Option<u64>)
        requires
            self.wf(),
        ensures
            r == if self@.contains_key(key@) {
                Some(self@[key@])
            } else {
                None
            },
    {
        let h: u64 = bucket(key);
        match self.buckets.get(&h) {
            None => None,
            Some(slots) => match find(slots, key) {
                None => None,
                Some(i) => {
                    proof {
                        lemma_value(slots@, key@, i as int);
                    }
                    Some(slots[i].inode)
                },
            },
        }
    }

    pub fn insert(&mut self, key: Vec<u8>, inode: u64)
        requires
            old(self).wf(),
        ensures
            final(self).wf(),
            final(self)@ == old(self)@.insert(key@, inode),
    {
        let ghost before = self.buckets@;
        let ghost was = self@;
        let ghost k = key@;
        let h: u64 = bucket(key.as_slice());
        let mut slots: Vec<Slot> = match self.buckets.remove(&h) {
            Some(slots) => slots,
            None => Vec::new(),
        };
        let ghost old_slots = slots@;
        assert(distinct(old_slots));
        let place: usize = match find(&slots, key.as_slice()) {
            Some(i) => {
                slots[i] = Slot { key, inode };
                i
            },
            None => {
                slots.push(Slot { key, inode });
                slots.len() - 1
            },
        };
        let ghost new_slots = slots@;
        self.buckets.insert(h, slots);
        proof {
            assert(distinct(new_slots)) by {
                assert forall|i: int, j: int|
                    0 <= i < new_slots.len() && 0 <= j < new_slots.len() && i != j implies (
                #[trigger] new_slots[i]).key@ != (#[trigger] new_slots[j]).key@ by {
                    if i != place {
                        assert(new_slots[i] == old_slots[i]);
                    }
                    if j != place {
                        assert(new_slots[j] == old_slots[j]);
                    }
                    if i == place && place == old_slots.len() {
                        assert(!at(old_slots, k, j));
                    }
                    if j == place && place == old_slots.len() {
                        assert(!at(old_slots, k, i));
                    }
                }
            }
            assert(at(new_slots, k, place as int));
            lemma_value(new_slots, k, place as int);
            assert forall|i: int| 0 <= i < new_slots.len() implies bucket_of(
                (#[trigger] new_slots[i]).key@,
            ) == h by {
                if i != place {
                    assert(new_slots[i] == old_slots[i]);
                }
            }
            assert(self.buckets@ =~= before.insert(h, self.buckets@[h]));
            assert forall|other: Seq<u8>| other != k && bucket_of(other) == h implies holds(
                new_slots,
                other,
            ) == holds(old_slots, other) && (holds(old_slots, other) ==> value(new_slots, other)
                == value(old_slots, other)) by {
                if holds(old_slots, other) {
                    let i = choose|i: int| at(old_slots, other, i);
                    assert(i != place);
                    assert(at(new_slots, other, i));
                    lemma_value(old_slots, other, i);
                    lemma_value(new_slots, other, i);
                }
                if holds(new_slots, other) {
                    let i = choose|i: int| at(new_slots, other, i);
                    assert(i != place);
                    assert(at(old_slots, other, i));
                }
            }
            assert forall|other: Seq<u8>| #[trigger]
                self@.contains_key(other) == was.insert(k, inode).contains_key(other) by {
                if bucket_of(other) == h && other != k && !before.contains_key(h) {
                    assert(!holds(old_slots, other));
                }
            }
            assert(self@ =~= was.insert(k, inode));
        }
    }

    pub fn remove(&mut self, key: &[u8])
        requires
            old(self).wf(),
        ensures
            final(self).wf(),
            final(self)@ == old(self)@.remove(key@),
    {
        let ghost before = self.buckets@;
        let ghost was = self@;
        let h: u64 = bucket(key);
        let mut slots: Vec<Slot> = match self.buckets.remove(&h) {
            Some(slots) => slots,
            None => {
                assert(self@ =~= was.remove(key@));
                return;
            },
        };
        let ghost old_slots = slots@;
        assert(distinct(old_slots));
        let found = find(&slots, key);
        if let Some(i) = found {
            slots.remove(i);
        }
        let ghost new_slots = slots@;
        self.buckets.insert(h, slots);
        proof {
            let gone = match found {
                Some(i) => i as int,
                None => old_slots.len() as int,
            };
            assert forall|i: int| 0 <= i < new_slots.len() implies #[trigger] new_slots[i]
                == old_slots[if i < gone { i } else { i + 1 }] by {}
            assert(distinct(new_slots));
            assert(!holds(new_slots, key@)) by {
                if holds(new_slots, key@) {
                    let i = choose|i: int| at(new_slots, key@, i);
                    let j = if i < gone { i } else { i + 1 };
                    assert(at(old_slots, key@, j));
                    assert(found is Some);
                    assert(old_slots[j].key@ != old_slots[gone].key@);
                }
            }
            assert forall|i: int| 0 <= i < new_slots.len() implies bucket_of(
                (#[trigger] new_slots[i]).key@,
            ) == h by {
                let j = if i < gone { i } else { i + 1 };
                assert(new_slots[i] == old_slots[j]);
            }
            assert(self.buckets@ =~= before.insert(h, self.buckets@[h]));
            assert forall|other: Seq<u8>| other != key@ implies holds(new_slots, other) == holds(
                old_slots,
                other,
            ) && (holds(old_slots, other) ==> value(new_slots, other) == value(old_slots, other)) by {
                if holds(old_slots, other) {
                    let j = choose|j: int| at(old_slots, other, j);
                    let i = if j < gone { j } else { j - 1 };
                    assert(j != gone);
                    assert(at(new_slots, other, i));
                    lemma_value(old_slots, other, j);
                    lemma_value(new_slots, other, i);
                }
                if holds(new_slots, other) {
                    let i = choose|i: int| at(new_slots, other, i);
                    let j = if i < gone { i } else { i + 1 };
                    assert(at(old_slots, other, j));
                }
            }
            assert(self@ =~= was.remove(key@));
        }
    }
}

} // verus!
