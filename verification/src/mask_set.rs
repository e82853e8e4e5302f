//! Paths that are masked: served from another place than the rest of a tree.

use vstd::prelude::*;
use crate::bytes::{
    append_bytes, bytes_equal, bytes_equal_ignoring_case, copy_all, copy_bytes, join_fields,
    lemma_join_split, same_ignoring_case, split_bytes, split_fields, views,
};
use vstd::utf8::encode_utf8;

verus! {

/// The byte between the components of a path.
pub const SLASH: u8 = 0x2f;

/// The contents of a vector of paths.
pub open spec fn path_views(paths: Seq<Vec<Vec<u8>>>) -> Seq<Seq<Seq<u8>>> {
    paths.map_values(|p: Vec<Vec<u8>>| views(p@))
}

/// The fields that are not empty.
pub open spec fn nonempty(fields: Seq<Seq<u8>>) -> Seq<Seq<u8>>
    decreases fields.len(),
{
    if fields.len() == 0 {
        Seq::empty()
    } else if fields.last().len() == 0 {
        nonempty(fields.drop_last())
    } else {
        nonempty(fields.drop_last()).push(fields.last())
    }
}

/// The components of a path as text. Empty ones do not count.
pub open spec fn components(text: Seq<u8>) -> Seq<Seq<u8>> {
    nonempty(split_fields(text, SLASH))
}

/// The components of each of several paths.
pub open spec fn all_components(paths: Seq<String>) -> Seq<Seq<Seq<u8>>> {
    paths.map_values(|p: String| components(encode_utf8(p@)))
}

/// A path as one text.
pub open spec fn path_text(path: Seq<Seq<u8>>) -> Seq<u8> {
    join_fields(path, SLASH)
}

/// A component that a file can have: not empty, and without a separator.
pub open spec fn proper(path: Seq<Seq<u8>>) -> bool {
    forall|i: int|
        0 <= i < path.len() ==> (#[trigger] path[i]).len() > 0 && !path[i].contains(SLASH)
}

/// Whether two components are the same.
pub open spec fn same_name(a: Seq<u8>, b: Seq<u8>, case_insensitive: bool) -> bool {
    if case_insensitive {
        same_ignoring_case(a, b)
    } else {
        a == b
    }
}

/// `path` is `prefix` or lies below it. Nothing lies below the empty prefix.
pub open spec fn lies_within(
    path: Seq<Seq<u8>>,
    prefix: Seq<Seq<u8>>,
    case_insensitive: bool,
) -> bool {
    &&& prefix.len() > 0
    &&& path.len() >= prefix.len()
    &&& forall|i: int|
        0 <= i < prefix.len() ==> same_name(#[trigger] path[i], prefix[i], case_insensitive)
}

/// A masked path, as a child of the directory that it stands in.
#[derive(Debug)]
pub struct MaskChild {
    pub name: Vec<u8>,
    pub path: Vec<Vec<u8>>,
}

impl MaskChild {
    /// The child is the masked path `path`.
    pub open spec fn stands_for(self, path: Seq<Seq<u8>>) -> bool {
        &&& path.len() > 0
        &&& views(self.path@) == path
        &&& self.name@ == path.last()
    }
}

/// Masked paths.
pub struct MaskSet {
    paths: Vec<Vec<Vec<u8>>>,
    case_insensitive: bool,
}

/// The contents of a `MaskSet`.
#[verifier::ext_equal]
pub struct MaskSetView {
    pub paths: Seq<Seq<Seq<u8>>>,
    pub case_insensitive: bool,
}

impl View for MaskSet {
    type V = MaskSetView;

    closed spec fn view(&self) -> MaskSetView {
        MaskSetView { paths: path_views(self.paths@), case_insensitive: self.case_insensitive }
    }
}

/// The paths that stand directly in the directory `parent`.
pub open spec fn children_of(paths: Seq<Seq<Seq<u8>>>, parent: Seq<Seq<u8>>) -> Seq<Seq<Seq<u8>>>
    decreases paths.len(),
{
    if paths.len() == 0 {
        Seq::empty()
    } else {
        let before = children_of(paths.drop_last(), parent);
        let last = paths.last();
        if last.len() > 0 && path_text(last.drop_last()) == path_text(parent) {
            before.push(last)
        } else {
            before
        }
    }
}

impl MaskSetView {
    /// The path is one of the masked ones, or lies below one.
    pub open spec fn masked(self, path: Seq<Seq<u8>>) -> bool {
        exists|i: int|
            0 <= i < self.paths.len() && lies_within(
                path,
                #[trigger] self.paths[i],
                self.case_insensitive,
            )
    }

    /// The masked paths that stand directly in a directory.
    pub open spec fn children(self, parent: Seq<Seq<u8>>) -> Seq<Seq<Seq<u8>>> {
        children_of(self.paths, parent)
    }

    /// A masked path of this name stands directly in the directory.
    pub open spec fn has_child(self, parent: Seq<Seq<u8>>, name: Seq<u8>) -> bool {
        exists|i: int|
            0 <= i < self.children(parent).len() && same_name(
                (#[trigger] self.children(parent)[i]).last(),
                name,
                self.case_insensitive,
            )
    }
}

/// Paths of proper components are the same where their texts are.
pub proof fn path_texts_are_distinct(a: Seq<Seq<u8>>, b: Seq<Seq<u8>>)
    requires
        proper(a),
        proper(b),
        path_text(a) == path_text(b),
    ensures
        a == b,
{
    if a.len() > 0 {
        lemma_join_split(a, SLASH);
        lemma_nonempty_text(a);
    }
    if b.len() > 0 {
        lemma_join_split(b, SLASH);
        lemma_nonempty_text(b);
    }
    assert(a =~= b);
}

proof fn lemma_nonempty_text(path: Seq<Seq<u8>>)
    requires
        proper(path),
        path.len() > 0,
    ensures
        path_text(path).len() > 0,
{
    assert(path[0].len() > 0);
    if path.len() > 1 {
        assert(path.last() == path[path.len() - 1]);
        assert(path.last().len() > 0);
    }
}

/// What lies below a masked path is masked.
pub proof fn masks_cover_descendants(masks: MaskSetView, path: Seq<Seq<u8>>, below: Seq<Seq<u8>>)
    requires
        masks.masked(path),
    ensures
        masks.masked(path + below),
{
    let i = choose|i: int|
        0 <= i < masks.paths.len() && lies_within(
            path,
            #[trigger] masks.paths[i],
            masks.case_insensitive,
        );
    assert(lies_within(path + below, masks.paths[i], masks.case_insensitive)) by {
        assert forall|j: int| 0 <= j < masks.paths[i].len() implies same_name(
            #[trigger] (path + below)[j],
            masks.paths[i][j],
            masks.case_insensitive,
        ) by {
            assert((path + below)[j] == path[j]);
        }
    }
}

/// Each masked path but the empty one is masked, and the root never is.
pub proof fn masks_cover_their_paths(masks: MaskSetView, i: int)
    requires
        0 <= i < masks.paths.len(),
    ensures
        masks.paths[i].len() > 0 ==> masks.masked(masks.paths[i]),
        !masks.masked(Seq::empty()),
{
    if masks.paths[i].len() > 0 {
        assert(lies_within(masks.paths[i], masks.paths[i], masks.case_insensitive));
    }
}

/// Where case does not count, it does not count for any component.
pub proof fn masks_ignore_case(masks: MaskSetView, a: Seq<Seq<u8>>, b: Seq<Seq<u8>>)
    requires
        masks.case_insensitive,
        a.len() == b.len(),
        forall|i: int| 0 <= i < a.len() ==> same_ignoring_case(#[trigger] a[i], b[i]),
    ensures
        masks.masked(a) == masks.masked(b),
{
    assert forall|i: int| 0 <= i < masks.paths.len() implies lies_within(
        a,
        #[trigger] masks.paths[i],
        true,
    ) == lies_within(b, masks.paths[i], true) by {
        let mask = masks.paths[i];
        if mask.len() > 0 && mask.len() <= a.len() {
            assert forall|j: int| 0 <= j < mask.len() implies same_ignoring_case(a[j], mask[j])
                == same_ignoring_case(b[j], mask[j]) by {
                assert(same_ignoring_case(a[j], b[j]));
                lemma_same_case_transfers(a[j], b[j], mask[j]);
            }
            if lies_within(a, mask, true) {
                assert forall|j: int| 0 <= j < mask.len() implies same_name(
                    #[trigger] b[j],
                    mask[j],
                    true,
                ) by {
                    assert(same_name(a[j], mask[j], true));
                }
            }
            if lies_within(b, mask, true) {
                assert forall|j: int| 0 <= j < mask.len() implies same_name(
                    #[trigger] a[j],
                    mask[j],
                    true,
                ) by {
                    assert(same_name(b[j], mask[j], true));
                }
            }
        }
    }
}

proof fn lemma_same_case_transfers(a: Seq<u8>, b: Seq<u8>, c: Seq<u8>)
    requires
        same_ignoring_case(a, b),
    ensures
        same_ignoring_case(a, c) == same_ignoring_case(b, c),
{
    if same_ignoring_case(a, c) {
        assert forall|i: int| 0 <= i < b.len() implies crate::bytes::ascii_lower(#[trigger] b[i])
            == crate::bytes::ascii_lower(c[i]) by {
            assert(crate::bytes::ascii_lower(a[i]) == crate::bytes::ascii_lower(b[i]));
            assert(crate::bytes::ascii_lower(a[i]) == crate::bytes::ascii_lower(c[i]));
        }
    }
    if same_ignoring_case(b, c) {
        assert forall|i: int| 0 <= i < a.len() implies crate::bytes::ascii_lower(#[trigger] a[i])
            == crate::bytes::ascii_lower(c[i]) by {
            assert(crate::bytes::ascii_lower(b[i]) == crate::bytes::ascii_lower(c[i]));
        }
    }
}

/// The children of a directory are masked paths that stand in it.
proof fn lemma_children(paths: Seq<Seq<Seq<u8>>>, parent: Seq<Seq<u8>>, i: int)
    requires
        0 <= i < children_of(paths, parent).len(),
    ensures
        paths.contains(children_of(paths, parent)[i]),
        children_of(paths, parent)[i].len() > 0,
        path_text(children_of(paths, parent)[i].drop_last()) == path_text(parent),
    decreases paths.len(),
{
    let before = children_of(paths.drop_last(), parent);
    if i < before.len() {
        lemma_children(paths.drop_last(), parent, i);
        let child = before[i];
        let j = choose|j: int|
            0 <= j < paths.drop_last().len() && paths.drop_last()[j] == child;
        assert(paths[j] == child);
    } else {
        assert(paths[paths.len() - 1] == paths.last());
    }
}

/// Every masked path that stands in a directory is among its children.
proof fn lemma_is_child(paths: Seq<Seq<Seq<u8>>>, parent: Seq<Seq<u8>>, k: int)
    requires
        0 <= k < paths.len(),
        paths[k].len() > 0,
        path_text(paths[k].drop_last()) == path_text(parent),
    ensures
        children_of(paths, parent).contains(paths[k]),
    decreases paths.len(),
{
    let before = children_of(paths.drop_last(), parent);
    if k == paths.len() - 1 {
        assert(children_of(paths, parent).last() == paths[k]);
    } else {
        lemma_is_child(paths.drop_last(), parent, k);
        let i = choose|i: int| 0 <= i < before.len() && before[i] == paths[k];
        assert(children_of(paths, parent)[i] == before[i]);
    }
}

/// A name that a listing leaves out is one that is masked.
pub proof fn hidden_names_are_masked(masks: MaskSetView, parent: Seq<Seq<u8>>, name: Seq<u8>)
    requires
        proper(parent),
        forall|i: int| 0 <= i < masks.paths.len() ==> proper(#[trigger] masks.paths[i]),
        masks.has_child(parent, name),
    ensures
        masks.masked(parent.push(name)),
{
    let i = choose|i: int|
        0 <= i < masks.children(parent).len() && same_name(
            (#[trigger] masks.children(parent)[i]).last(),
            name,
            masks.case_insensitive,
        );
    let child = masks.children(parent)[i];
    lemma_children(masks.paths, parent, i);
    let k = choose|k: int| 0 <= k < masks.paths.len() && masks.paths[k] == child;
    assert(proper(masks.paths[k]));
    let above = child.drop_last();
    assert(proper(above)) by {
        assert forall|j: int| 0 <= j < above.len() implies (#[trigger] above[j]).len() > 0
            && !above[j].contains(SLASH) by {
            assert(above[j] == child[j]);
        }
    }
    path_texts_are_distinct(above, parent);
    let whole = parent.push(name);
    assert forall|j: int| 0 <= j < child.len() implies same_name(
        #[trigger] whole[j],
        child[j],
        masks.case_insensitive,
    ) by {
        if j < parent.len() {
            assert(child[j] == above[j]);
        } else {
            assert(child[j] == child.last());
        }
    }
    assert(lies_within(whole, masks.paths[k], masks.case_insensitive));
}

/// Where case counts, a listing of a directory that is not masked leaves out
/// exactly the names that are.
pub proof fn listing_hides_exactly_the_masked(
    masks: MaskSetView,
    parent: Seq<Seq<u8>>,
    name: Seq<u8>,
)
    requires
        !masks.case_insensitive,
        proper(parent),
        forall|i: int| 0 <= i < masks.paths.len() ==> proper(#[trigger] masks.paths[i]),
        !masks.masked(parent),
    ensures
        masks.has_child(parent, name) <==> masks.masked(parent.push(name)),
{
    if masks.has_child(parent, name) {
        hidden_names_are_masked(masks, parent, name);
    }
    let whole = parent.push(name);
    if masks.masked(whole) {
        let k = choose|k: int|
            0 <= k < masks.paths.len() && lies_within(whole, #[trigger] masks.paths[k], false);
        let mask = masks.paths[k];
        if mask.len() <= parent.len() {
            assert(lies_within(parent, mask, false)) by {
                assert forall|j: int| 0 <= j < mask.len() implies same_name(
                    #[trigger] parent[j],
                    mask[j],
                    false,
                ) by {
                    assert(same_name(whole[j], mask[j], false));
                }
            }
        }
        assert(mask.len() == whole.len());
        assert forall|j: int| 0 <= j < mask.len() implies mask[j] == whole[j] by {
            assert(same_name(whole[j], mask[j], false));
        }
        assert(mask =~= whole);
        assert(mask.drop_last() =~= parent);
        lemma_is_child(masks.paths, parent, k);
        let i = choose|i: int|
            0 <= i < masks.children(parent).len() && masks.children(parent)[i] == mask;
        assert(masks.children(parent)[i].last() == name);
    }
}

/// A path is masked where it starts with a masked one that is not empty: exactly,
/// or but for the case of letters.
pub proof fn masked_paths_start_with_a_mask(masks: MaskSetView, path: Seq<Seq<u8>>)
    ensures
        !masks.case_insensitive ==> (masks.masked(path) <==> exists|i: int|
            0 <= i < masks.paths.len() && 0 < (#[trigger] masks.paths[i]).len() <= path.len()
                && path.take(masks.paths[i].len() as int) == masks.paths[i]),
        masks.case_insensitive ==> (masks.masked(path) <==> exists|i: int|
            0 <= i < masks.paths.len() && 0 < (#[trigger] masks.paths[i]).len() <= path.len()
                && forall|j: int|
                0 <= j < masks.paths[i].len() ==> differs_in_case(
                    #[trigger] path[j],
                    masks.paths[i][j],
                )),
{
    assert forall|i: int| 0 <= i < masks.paths.len() && !masks.case_insensitive implies lies_within(
        path,
        #[trigger] masks.paths[i],
        false,
    ) == (0 < masks.paths[i].len() <= path.len() && path.take(masks.paths[i].len() as int)
        == masks.paths[i]) by {
        let mask = masks.paths[i];
        if 0 < mask.len() <= path.len() {
            let start = path.take(mask.len() as int);
            assert(forall|j: int| 0 <= j < mask.len() ==> start[j] == path[j]);
            if lies_within(path, mask, false) {
                assert forall|j: int| 0 <= j < mask.len() implies start[j] == mask[j] by {
                    assert(same_name(path[j], mask[j], false));
                }
                assert(start =~= mask);
            }
            if start == mask {
                assert forall|j: int| 0 <= j < mask.len() implies same_name(
                    #[trigger] path[j],
                    mask[j],
                    false,
                ) by {
                    assert(start[j] == mask[j]);
                }
            }
        }
    }
    assert forall|a: Seq<u8>, b: Seq<u8>| same_name(a, b, true) == #[trigger] differs_in_case(
        a,
        b,
    ) by {
        lemma_differs_in_case(a, b);
    }
    assert forall|i: int| 0 <= i < masks.paths.len() && masks.case_insensitive implies lies_within(
        path,
        #[trigger] masks.paths[i],
        true,
    ) == (0 < masks.paths[i].len() <= path.len() && forall|j: int|
        0 <= j < masks.paths[i].len() ==> differs_in_case(
            #[trigger] path[j],
            masks.paths[i][j],
        )) by {
        let mask = masks.paths[i];
        if lies_within(path, mask, true) {
            assert forall|j: int| 0 <= j < mask.len() implies differs_in_case(
                #[trigger] path[j],
                mask[j],
            ) by {
                assert(same_name(path[j], mask[j], true));
                lemma_differs_in_case(path[j], mask[j]);
            }
        }
        if 0 < mask.len() <= path.len() && forall|j: int|
            0 <= j < mask.len() ==> differs_in_case(#[trigger] path[j], mask[j]) {
            assert forall|j: int| 0 <= j < mask.len() implies same_name(
                #[trigger] path[j],
                mask[j],
                true,
            ) by {
                assert(differs_in_case(path[j], mask[j]));
                lemma_differs_in_case(path[j], mask[j]);
            }
        }
    }
}

/// Two names are the same, but for letters of which one has the one case and the
/// other the other.
pub open spec fn differs_in_case(a: Seq<u8>, b: Seq<u8>) -> bool {
    &&& a.len() == b.len()
    &&& forall|i: int|
        0 <= i < a.len() ==> {
            ||| #[trigger] a[i] == b[i]
            ||| 65 <= a[i] <= 90 && b[i] == a[i] + 32
            ||| 97 <= a[i] <= 122 && a[i] == b[i] + 32
        }
}

proof fn lemma_differs_in_case(a: Seq<u8>, b: Seq<u8>)
    ensures
        same_name(a, b, true) == differs_in_case(a, b),
{
    if same_ignoring_case(a, b) {
        assert forall|i: int| 0 <= i < a.len() implies {
            ||| #[trigger] a[i] == b[i]
            ||| 65 <= a[i] <= 90 && b[i] == a[i] + 32
            ||| 97 <= a[i] <= 122 && a[i] == b[i] + 32
        } by {
            assert(crate::bytes::ascii_lower(a[i]) == crate::bytes::ascii_lower(b[i]));
        }
    }
}

/// The components of a text without a slash are the text itself, or none if it is
/// empty; and those of two texts with a slash between them are those of the one
/// and then those of the other.
pub proof fn components_stand_between_slashes(a: Seq<u8>, b: Seq<u8>)
    ensures
        !a.contains(0x2f) && a.len() > 0 ==> components(a) == seq![a],
        a.len() == 0 ==> components(a).len() == 0,
        components(a.push(0x2f) + b) == components(a) + components(b),
{
    if !a.contains(0x2f) {
        lemma_one_field(a);
        assert(seq![a].drop_last() =~= Seq::empty());
        assert(nonempty(seq![a].drop_last()) =~= Seq::<Seq<u8>>::empty());
        if a.len() > 0 {
            assert(nonempty(seq![a]) =~= seq![a]);
        }
    }
    lemma_split_concat(a, b);
    lemma_nonempty_concat(split_fields(a, SLASH), split_fields(b, SLASH));
}

proof fn lemma_one_field(a: Seq<u8>)
    requires
        !a.contains(SLASH),
    ensures
        split_fields(a, SLASH) == seq![a],
    decreases a.len(),
{
    if a.len() == 0 {
        assert(a =~= Seq::empty());
    } else {
        let init = a.drop_last();
        assert forall|i: int| 0 <= i < init.len() implies init[i] != SLASH by {
            assert(a.contains(a[i]));
        }
        lemma_one_field(init);
        assert(a.contains(a[a.len() - 1]));
        assert(seq![init].drop_last().push(init.push(a.last())) =~= seq![a]) by {
            assert(init.push(a.last()) =~= a);
        }
    }
}

proof fn lemma_split_concat(a: Seq<u8>, b: Seq<u8>)
    ensures
        split_fields(a.push(SLASH) + b, SLASH) == split_fields(a, SLASH) + split_fields(b, SLASH),
    decreases b.len(),
{
    let whole = a.push(SLASH) + b;
    let first = split_fields(a, SLASH);
    if b.len() == 0 {
        assert(whole.drop_last() =~= a);
        assert(first.push(Seq::empty()) =~= first + seq![Seq::<u8>::empty()]);
    } else {
        lemma_split_concat(a, b.drop_last());
        assert(whole.drop_last() =~= a.push(SLASH) + b.drop_last());
        let before = split_fields(b.drop_last(), SLASH);
        crate::bytes::lemma_split_join(b.drop_last(), SLASH);
        assert((first + before).last() == before.last());
        if b.last() == SLASH {
            assert((first + before).push(Seq::empty()) =~= first + before.push(Seq::empty()));
        } else {
            let last = before.last().push(b.last());
            assert((first + before).drop_last().push(last) =~= first + before.drop_last().push(
                last,
            ));
        }
    }
}

proof fn lemma_nonempty_concat(a: Seq<Seq<u8>>, b: Seq<Seq<u8>>)
    ensures
        nonempty(a + b) == nonempty(a) + nonempty(b),
    decreases b.len(),
{
    if b.len() == 0 {
        assert(a + b =~= a);
        assert(nonempty(a) + nonempty(b) =~= nonempty(a));
    } else {
        lemma_nonempty_concat(a, b.drop_last());
        assert((a + b).drop_last() =~= a + b.drop_last());
        assert(nonempty(a + b) =~= nonempty(a) + nonempty(b));
    }
}

/// The masked paths that stand in a directory are those that are its path and one
/// component more, in the order in which they are masked.
pub proof fn children_have_the_directorys_path(masks: MaskSetView, parent: Seq<Seq<u8>>)
    requires
        proper(parent),
        forall|i: int| 0 <= i < masks.paths.len() ==> proper(#[trigger] masks.paths[i]),
    ensures
        masks.children(parent) == masks.paths.filter(
            |p: Seq<Seq<u8>>| p.len() > 0 && p.drop_last() == parent,
        ),
    decreases masks.paths.len(),
{
    reveal(Seq::filter);
    if masks.paths.len() > 0 {
        let before = MaskSetView { paths: masks.paths.drop_last(), ..masks };
        assert forall|i: int| 0 <= i < before.paths.len() implies proper(
            #[trigger] before.paths[i],
        ) by {
            assert(before.paths[i] == masks.paths[i]);
        }
        children_have_the_directorys_path(before, parent);
        let last = masks.paths[masks.paths.len() - 1];
        if last.len() > 0 {
            let above = last.drop_last();
            assert forall|j: int| 0 <= j < above.len() implies (#[trigger] above[j]).len() > 0
                && !above[j].contains(SLASH) by {
                assert(above[j] == last[j]);
            }
            if path_text(above) == path_text(parent) {
                path_texts_are_distinct(above, parent);
            }
        }
    }
}

/// The text of a path.
pub fn path_key(path: &[Vec<u8>]) -> (r: Vec<u8>)
    ensures
        r@ == path_text(views(path@)),
{
    let ghost whole = views(path@);
    let mut key: Vec<u8> = Vec::new();
    let mut i: usize = 0;
    assert(key@ =~= path_text(whole.take(0)));
    while i < path.len()
        invariant
            i <= path.len(),
            whole == views(path@),
            key@ == path_text(whole.take(i as int)),
        decreases path.len() - i,
    {
        let ghost taken = whole.take(i + 1);
        assert(taken.drop_last() =~= whole.take(i as int));
        assert(taken.last() == path@[i as int]@);
        let ghost before = key@;
        if i > 0 {
            key.push(SLASH);
        }
        append_bytes(&mut key, path[i].as_slice());
        proof {
            if i == 0 {
                assert(taken[0] == path@[0]@);
                assert(key@ =~= path@[0]@);
            } else {
                assert(key@ =~= before.push(SLASH) + path@[i as int]@);
            }
        }
        i = i + 1;
    }
    assert(whole.take(i as int) =~= whole);
    key
}

/// The components of a path as text.
fn split_components(text: &[u8]) -> (r: Vec<Vec<u8>>)
    ensures
        views(r@) == components(text@),
{
    let fields = split_bytes(text, SLASH);
    let ghost whole = split_fields(text@, SLASH);
    let mut out: Vec<Vec<u8>> = Vec::new();
    let mut i: usize = 0;
    assert(views(out@) =~= nonempty(whole.take(0)));
    while i < fields.len()
        invariant
            i <= fields.len(),
            whole == views(fields@),
            views(out@) == nonempty(whole.take(i as int)),
        decreases fields.len() - i,
    {
        let ghost taken = whole.take(i + 1);
        assert(taken.drop_last() =~= whole.take(i as int));
        assert(taken.last() == fields@[i as int]@);
        if fields[i].len() != 0 {
            let ghost before = views(out@);
            out.push(copy_bytes(fields[i].as_slice()));
            assert(views(out@) =~= before.push(fields@[i as int]@));
        }
        i = i + 1;
    }
    assert(whole.take(i as int) =~= whole);
    out
}

/// The components of a path are proper.
proof fn lemma_components_proper(text: Seq<u8>)
    ensures
        proper(components(text)),
{
    crate::bytes::lemma_split_join(text, SLASH);
    lemma_nonempty_proper(split_fields(text, SLASH));
}

proof fn lemma_nonempty_proper(fields: Seq<Seq<u8>>)
    requires
        forall|i: int| 0 <= i < fields.len() ==> !(#[trigger] fields[i]).contains(SLASH),
    ensures
        proper(nonempty(fields)),
    decreases fields.len(),
{
    if fields.len() > 0 {
        let before = fields.drop_last();
        assert forall|i: int| 0 <= i < before.len() implies !(#[trigger] before[i]).contains(
            SLASH,
        ) by {
            assert(before[i] == fields[i]);
        }
        lemma_nonempty_proper(before);
        assert(!fields[fields.len() - 1].contains(SLASH));
    }
}

/// Masked paths are made of proper components.
pub proof fn masks_are_proper(paths: Seq<String>)
    ensures
        forall|i: int| 0 <= i < all_components(paths).len() ==> proper(
            #[trigger] all_components(paths)[i],
        ),
{
    assert forall|i: int| 0 <= i < all_components(paths).len() implies proper(
        #[trigger] all_components(paths)[i],
    ) by {
        lemma_components_proper(encode_utf8(paths[i]@));
    }
}

/// Whether `path` is `prefix` or lies below it.
pub fn path_starts_with(path: &[Vec<u8>], prefix: &[Vec<u8>], case_insensitive: bool) -> (r: bool)
    ensures
        r == lies_within(views(path@), views(prefix@), case_insensitive),
{
    if prefix.len() == 0 || path.len() < prefix.len() {
        return false;
    }
    let ghost (p, q) = (views(path@), views(prefix@));
    let mut i: usize = 0;
    while i < prefix.len()
        invariant
            i <= prefix.len() <= path.len(),
            p == views(path@),
            q == views(prefix@),
            forall|j: int| 0 <= j < i ==> same_name(#[trigger] p[j], q[j], case_insensitive),
        decreases prefix.len() - i,
    {
        let same: bool = if case_insensitive {
            bytes_equal_ignoring_case(path[i].as_slice(), prefix[i].as_slice())
        } else {
            bytes_equal(path[i].as_slice(), prefix[i].as_slice())
        };
        assert(p[i as int] == path@[i as int]@ && q[i as int] == prefix@[i as int]@);
        if !same {
            assert(!same_name(p[i as int], q[i as int], case_insensitive));
            return false;
        }
        i = i + 1;
    }
    true
}

impl MaskSet {
    pub fn new(paths: &Vec<String>, case_insensitive: bool) -> (r: MaskSet)
        ensures
            r@ == (MaskSetView { paths: all_components(paths@), case_insensitive }),
    {
        let mut out: Vec<Vec<Vec<u8>>> = Vec::new();
        let mut i: usize = 0;
        while i < paths.len()
            invariant
                i <= paths.len(),
                out.len() == i,
                forall|j: int|
                    0 <= j < i ==> views((#[trigger] out@[j])@) == components(
                        encode_utf8(paths@[j]@),
                    ),
            decreases paths.len() - i,
        {
            out.push(split_components(paths[i].as_str().as_bytes()));
            i = i + 1;
        }
        assert(path_views(out@) =~= all_components(paths@));
        MaskSet { paths: out, case_insensitive }
    }

    /// How many paths are masked.
    pub fn len(&self) -> (r: usize)
        ensures
            r == self@.paths.len(),
    {
        self.paths.len()
    }

    /// A masked path.
    pub fn path(&self, index: usize) -> (r: &Vec<Vec<u8>>)
        requires
            index < self@.paths.len(),
        ensures
            views(r@) == self@.paths[index as int],
    {
        &self.paths[index]
    }

    /// Whether a path is masked.
    pub fn is_masked(&self, path: &[Vec<u8>]) -> (r: bool)
        ensures
            r == self@.masked(views(path@)),
    {
        let mut i: usize = 0;
        while i < self.paths.len()
            invariant
                i <= self.paths.len(),
                forall|j: int|
                    0 <= j < i ==> !lies_within(
                        views(path@),
                        #[trigger] self@.paths[j],
                        self@.case_insensitive,
                    ),
            decreases self.paths.len() - i,
        {
            if path_starts_with(path, self.paths[i].as_slice(), self.case_insensitive) {
                assert(lies_within(
                    views(path@),
                    self@.paths[i as int],
                    self@.case_insensitive,
                ));
                return true;
            }
            assert(self@.paths[i as int] == views(self.paths@[i as int]@));
            i = i + 1;
        }
        false
    }

    /// The masked paths that stand directly in a directory.
    pub fn direct_children(&self, parent: &[Vec<u8>]) -> (r: Vec<MaskChild>)
        ensures
            r@.len() == self@.children(views(parent@)).len(),
            forall|i: int|
                0 <= i < r@.len() ==> (#[trigger] r@[i]).stands_for(
                    self@.children(views(parent@))[i],
                ),
    {
        let key = path_key(parent);
        let ghost place = views(parent@);
        let ghost all = self@.paths;
        let mut out: Vec<MaskChild> = Vec::new();
        let mut i: usize = 0;
        assert(all.take(0) =~= Seq::empty());
        while i < self.paths.len()
            invariant
                i <= self.paths.len(),
                all == self@.paths,
                place == views(parent@),
                key@ == path_text(place),
                out@.len() == children_of(all.take(i as int), place).len(),
                forall|j: int|
                    0 <= j < out@.len() ==> (#[trigger] out@[j]).stands_for(
                        children_of(all.take(i as int), place)[j],
                    ),
            decreases self.paths.len() - i,
        {
            let path = &self.paths[i];
            let ghost taken = all.take(i + 1);
            assert(taken.drop_last() =~= all.take(i as int));
            assert(taken.last() == views(path@));
            if path.len() > 0 {
                let last: usize = path.len() - 1;
                let above = vstd::slice::slice_subrange(path.as_slice(), 0, last);
                assert(views(above@) =~= views(path@).drop_last());
                let above_key = path_key(above);
                if bytes_equal(above_key.as_slice(), key.as_slice()) {
                    assert(views(path@).last() == path@[last as int]@);
                    assert(children_of(taken, place) == children_of(
                        all.take(i as int),
                        place,
                    ).push(views(path@)));
                    out.push(
                        MaskChild { name: copy_bytes(path[last].as_slice()), path: copy_all(path) },
                    );
                }
            }
            i = i + 1;
        }
        assert(all.take(i as int) =~= all);
        out
    }

    /// Whether a masked path of this name stands directly in a directory.
    pub fn is_direct_child(&self, parent: &[Vec<u8>], name: &[u8]) -> (r: bool)
        ensures
            r == self@.has_child(views(parent@), name@),
    {
        let children = self.direct_children(parent);
        let ghost seen = self@.children(views(parent@));
        let mut i: usize = 0;
        while i < children.len()
            invariant
                i <= children.len(),
                seen == self@.children(views(parent@)),
                children@.len() == seen.len(),
                forall|j: int|
                    0 <= j < children@.len() ==> (#[trigger] children@[j]).stands_for(seen[j]),
                forall|j: int|
                    0 <= j < i ==> !same_name(
                        (#[trigger] seen[j]).last(),
                        name@,
                        self@.case_insensitive,
                    ),
            decreases children.len() - i,
        {
            let same: bool = if self.case_insensitive {
                bytes_equal_ignoring_case(children[i].name.as_slice(), name)
            } else {
                bytes_equal(children[i].name.as_slice(), name)
            };
            assert(children@[i as int].stands_for(seen[i as int]));
            if same {
                assert(same_name(seen[i as int].last(), name@, self@.case_insensitive));
                return true;
            }
            i = i + 1;
        }
        false
    }
}

} // verus!
