//! Byte strings: comparison, prefixes, splitting and joining.

use vstd::prelude::*;
use vstd::utf8::encode_utf8_decode_utf8;

verus! {

/// The contents of a vector of byte strings.
pub open spec fn views(v: Seq<Vec<u8>>) -> Seq<Seq<u8>> {
    v.map_values(|b: Vec<u8>| b@)
}

/// `prefix` is a prefix of `s`.
pub open spec fn has_prefix(s: Seq<u8>, prefix: Seq<u8>) -> bool {
    &&& prefix.len() <= s.len()
    &&& s.take(prefix.len() as int) == prefix
}

/// The lower-case form of an ASCII letter; every other byte is its own.
pub open spec fn ascii_lower(b: u8) -> u8 {
    if 0x41 <= b <= 0x5a {
        (b + 0x20) as u8
    } else {
        b
    }
}

/// Equality of byte strings up to the case of ASCII letters.
pub open spec fn same_ignoring_case(a: Seq<u8>, b: Seq<u8>) -> bool {
    &&& a.len() == b.len()
    &&& forall|i: int| 0 <= i < a.len() ==> ascii_lower(#[trigger] a[i]) == ascii_lower(b[i])
}

/// The fields of `s` between occurrences of `sep`: one more than there are
/// separators, in order.
pub open spec fn split_fields(s: Seq<u8>, sep: u8) -> Seq<Seq<u8>>
    decreases s.len(),
{
    if s.len() == 0 {
        seq![Seq::<u8>::empty()]
    } else {
        let before = split_fields(s.drop_last(), sep);
        if s.last() == sep {
            before.push(Seq::empty())
        } else {
            before.drop_last().push(before.last().push(s.last()))
        }
    }
}

/// The fields written one after the other with `sep` between them.
pub open spec fn join_fields(fields: Seq<Seq<u8>>, sep: u8) -> Seq<u8>
    decreases fields.len(),
{
    if fields.len() == 0 {
        Seq::empty()
    } else if fields.len() == 1 {
        fields[0]
    } else {
        join_fields(fields.drop_last(), sep).push(sep) + fields.last()
    }
}

/// Splitting and joining again gives back the same bytes, and no field holds
/// the separator.
pub proof fn lemma_split_join(s: Seq<u8>, sep: u8)
    ensures
        split_fields(s, sep).len() >= 1,
        join_fields(split_fields(s, sep), sep) == s,
        forall|i: int|
            0 <= i < split_fields(s, sep).len() ==> !(#[trigger] split_fields(s, sep)[i]).contains(
                sep,
            ),
    decreases s.len(),
{
    let fields = split_fields(s, sep);
    if s.len() == 0 {
        assert(fields[0] == Seq::<u8>::empty());
        assert(s =~= Seq::<u8>::empty());
    } else {
        let init = s.drop_last();
        let before = split_fields(init, sep);
        lemma_split_join(init, sep);
        assert(s =~= init.push(s.last()));
        if s.last() == sep {
            assert(fields.drop_last() =~= before);
            assert(join_fields(fields, sep) =~= s);
            assert forall|i: int| 0 <= i < fields.len() implies !(#[trigger] fields[i]).contains(
                sep,
            ) by {
                if i < before.len() {
                    assert(fields[i] == before[i]);
                }
            }
        } else {
            let last = before.last().push(s.last());
            assert(fields.drop_last() =~= before.drop_last());
            assert(fields.last() == last);
            assert(join_fields(fields, sep) =~= join_fields(before, sep).push(s.last()));
            assert forall|i: int| 0 <= i < fields.len() implies !(#[trigger] fields[i]).contains(
                sep,
            ) by {
                if i < before.len() - 1 {
                    assert(fields[i] == before[i]);
                } else {
                    assert(!before[before.len() - 1].contains(sep));
                    assert forall|j: int| 0 <= j < last.len() implies last[j] != sep by {
                        if j < before.last().len() {
                            assert(before.last()[j] == last[j]);
                            assert(before.last().contains(before.last()[j]));
                        }
                    }
                }
            }
        }
    }
}

/// Joining fields that do not hold the separator and splitting again gives
/// back the same fields.
pub proof fn lemma_join_split(fields: Seq<Seq<u8>>, sep: u8)
    requires
        fields.len() >= 1,
        forall|i: int| 0 <= i < fields.len() ==> !(#[trigger] fields[i]).contains(sep),
    ensures
        split_fields(join_fields(fields, sep), sep) == fields,
    decreases fields.len(), fields.last().len(),
{
    let s = join_fields(fields, sep);
    let last = fields.last();
    if last.len() == 0 {
        if fields.len() == 1 {
            assert(s.len() == 0);
            assert(last =~= Seq::empty());
            assert(fields =~= seq![Seq::<u8>::empty()]);
        } else {
            let before = fields.drop_last();
            assert(s =~= join_fields(before, sep).push(sep));
            assert(s.drop_last() =~= join_fields(before, sep));
            assert forall|i: int| 0 <= i < before.len() implies !(#[trigger] before[i]).contains(
                sep,
            ) by {
                assert(before[i] == fields[i]);
            }
            lemma_join_split(before, sep);
            assert(last =~= Seq::empty());
            assert(fields =~= before.push(Seq::empty()));
        }
    } else {
        let shorter = fields.drop_last().push(last.drop_last());
        assert(shorter.drop_last() =~= fields.drop_last());
        assert(last.contains(last[last.len() - 1]));
        assert(join_fields(shorter, sep) =~= s.drop_last());
        assert(s.last() == last.last());
        assert forall|i: int| 0 <= i < shorter.len() implies !(#[trigger] shorter[i]).contains(
            sep,
        ) by {
            if i < fields.len() - 1 {
                assert(shorter[i] == fields[i]);
            } else {
                assert forall|j: int| 0 <= j < shorter[i].len() implies shorter[i][j] != sep by {
                    assert(shorter[i][j] == last[j]);
                    assert(last.contains(last[j]));
                }
            }
        }
        lemma_join_split(shorter, sep);
        assert(last =~= last.drop_last().push(last.last()));
        assert(fields =~= shorter.drop_last().push(shorter.last().push(s.last())));
    }
}

/// Whether two byte strings are equal.
pub fn bytes_equal(a: &[u8], b: &[u8]) -> (r: bool)
    ensures
        r == (a@ == b@),
{
    if a.len() != b.len() {
        return false;
    }
    let mut i: usize = 0;
    while i < a.len()
        invariant
            i <= a.len(),
            a.len() == b.len(),
            forall|j: int| 0 <= j < i ==> a[j] == b[j],
        decreases a.len() - i,
    {
        if a[i] != b[i] {
            assert(a@[i as int] != b@[i as int]);
            return false;
        }
        i = i + 1;
    }
    assert(a@ =~= b@);
    true
}

/// Whether two texts are equal.
pub fn text_equal(a: &str, b: &str) -> (r: bool)
    ensures
        r == (a@ == b@),
{
    proof {
        encode_utf8_decode_utf8(a@);
        encode_utf8_decode_utf8(b@);
    }
    bytes_equal(a.as_bytes(), b.as_bytes())
}

/// Whether `s` starts with `prefix`.
pub fn starts_with(s: &[u8], prefix: &[u8]) -> (r: bool)
    ensures
        r == has_prefix(s@, prefix@),
{
    if s.len() < prefix.len() {
        return false;
    }
    let mut i: usize = 0;
    while i < prefix.len()
        invariant
            i <= prefix.len() <= s.len(),
            forall|j: int| 0 <= j < i ==> s[j] == prefix[j],
        decreases prefix.len() - i,
    {
        if s[i] != prefix[i] {
            assert(s@.take(prefix@.len() as int)[i as int] != prefix@[i as int]);
            return false;
        }
        i = i + 1;
    }
    assert(s@.take(prefix@.len() as int) =~= prefix@);
    true
}

/// The lower-case form of a byte.
pub fn to_ascii_lower(b: u8) -> (r: u8)
    ensures
        r == ascii_lower(b),
{
    if 0x41 <= b && b <= 0x5a {
        b + 0x20
    } else {
        b
    }
}

/// Whether two byte strings are equal up to the case of ASCII letters.
pub fn bytes_equal_ignoring_case(a: &[u8], b: &[u8]) -> (r: bool)
    ensures
        r == same_ignoring_case(a@, b@),
{
    if a.len() != b.len() {
        return false;
    }
    let mut i: usize = 0;
    while i < a.len()
        invariant
            i <= a.len(),
            a.len() == b.len(),
            forall|j: int| 0 <= j < i ==> ascii_lower(#[trigger] a@[j]) == ascii_lower(b@[j]),
        decreases a.len() - i,
    {
        if to_ascii_lower(a[i]) != to_ascii_lower(b[i]) {
            assert(ascii_lower(a@[i as int]) != ascii_lower(b@[i as int]));
            return false;
        }
        i = i + 1;
    }
    true
}

/// The bytes of `s` from `from` up to, not including, `to`.
pub fn copy_range(s: &[u8], from: usize, to: usize) -> (r: Vec<u8>)
    requires
        from <= to <= s.len(),
    ensures
        r@ == s@.subrange(from as int, to as int),
{
    let mut out: Vec<u8> = Vec::new();
    let mut i: usize = from;
    while i < to
        invariant
            from <= i <= to <= s.len(),
            out@ == s@.subrange(from as int, i as int),
        decreases to - i,
    {
        out.push(s[i]);
        assert(s@.subrange(from as int, i + 1) =~= s@.subrange(from as int, i as int).push(
            s@[i as int],
        ));
        i = i + 1;
    }
    out
}

/// A copy of `s`.
pub fn copy_bytes(s: &[u8]) -> (r: Vec<u8>)
    ensures
        r@ == s@,
{
    let r = copy_range(s, 0, s.len());
    assert(s@.subrange(0, s@.len() as int) =~= s@);
    r
}

/// A copy of a vector of byte strings.
pub fn copy_all(v: &Vec<Vec<u8>>) -> (r: Vec<Vec<u8>>)
    ensures
        views(r@) == views(v@),
{
    let mut out: Vec<Vec<u8>> = Vec::new();
    let mut i: usize = 0;
    while i < v.len()
        invariant
            i <= v.len(),
            out.len() == i,
            forall|j: int| 0 <= j < i ==> (#[trigger] out@[j])@ == v@[j]@,
        decreases v.len() - i,
    {
        out.push(copy_bytes(v[i].as_slice()));
        i = i + 1;
    }
    assert(views(out@) =~= views(v@));
    out
}

/// Appends `s` to `out`.
pub fn append_bytes(out: &mut Vec<u8>, s: &[u8])
    ensures
        final(out)@ == old(out)@ + s@,
{
    let ghost start = out@;
    let mut i: usize = 0;
    assert(start + s@.take(0) =~= start);
    while i < s.len()
        invariant
            i <= s.len(),
            out@ == start + s@.take(i as int),
        decreases s.len() - i,
    {
        out.push(s[i]);
        assert(start + s@.take(i + 1) =~= (start + s@.take(i as int)).push(s@[i as int]));
        i = i + 1;
    }
    assert(s@.take(s@.len() as int) =~= s@);
}

/// The fields of `s` between occurrences of `sep`.
pub fn split_bytes(s: &[u8], sep: u8) -> (r: Vec<Vec<u8>>)
    ensures
        views(r@) == split_fields(s@, sep),
        r.len() >= 1,
{
    let mut done: Vec<Vec<u8>> = Vec::new();
    let mut current: Vec<u8> = Vec::new();
    let mut i: usize = 0;
    assert(views(done@).push(current@) =~= split_fields(s@.take(0), sep));
    while i < s.len()
        invariant
            i <= s.len(),
            views(done@).push(current@) == split_fields(s@.take(i as int), sep),
        decreases s.len() - i,
    {
        let ghost taken = s@.take(i + 1);
        let ghost before = split_fields(s@.take(i as int), sep);
        assert(taken.drop_last() =~= s@.take(i as int));
        assert(taken.last() == s@[i as int]);
        assert(before.last() == current@);
        assert(before.drop_last() =~= views(done@));
        if s[i] == sep {
            done.push(current);
            current = Vec::new();
            assert(views(done@) =~= before);
            assert(views(done@).push(current@) =~= split_fields(taken, sep));
        } else {
            current.push(s[i]);
            assert(views(done@).push(current@) =~= split_fields(taken, sep));
        }
        i = i + 1;
    }
    assert(s@.take(s@.len() as int) =~= s@);
    done.push(current);
    assert(views(done@) =~= split_fields(s@, sep));
    done
}

} // verus!
