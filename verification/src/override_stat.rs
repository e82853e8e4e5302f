//! The Linux owner and mode of a host file, kept in one of its attributes as
//! `uid:gid:0mode`, with an `x` for each part that is not set.

use vstd::prelude::*;
use crate::abi::S_IFMT;
use crate::bytes::{join_fields, lemma_join_split, split_bytes, split_fields, views};
use crate::host::{
    bytes_of, stat_of, unit_of, Attr, Call, CallView, HostCall, Node, Reply, Step, StepView,
};
use crate::sandbox::{link_options, sandbox_xattr_options};
use crate::stat::{host_bits, low_bits, Stat};
use crate::text::{
    digits, digits_value, is_digit, lemma_digits, lemma_digits_exclude, number, parse_number,
    push_digits, unsigned_digits,
};

verus! {

/// One more than the largest owner that can be set.
pub const UID_MAX: u32 = 0xffff_fffe;

/// How many bytes of the attribute are read.
pub const OVERRIDE_SIZE: u64 = 32;

/// The byte between the parts.
pub const SEPARATOR: u8 = 0x3a;

/// The owner, group and mode that an attribute sets.
#[derive(Debug, Clone, Copy, PartialEq, Eq, Structural)]
pub struct Override {
    pub uid: Option<u32>,
    pub gid: Option<u32>,
    pub mode: Option<u32>,
}

impl View for Override {
    type V = Override;

    open spec fn view(&self) -> Override {
        *self
    }
}

/// The number in the part at `index`, if there is such a part and it is one.
pub open spec fn part_number(parts: Seq<Seq<u8>>, index: int, radix: nat) -> Option<u32> {
    if index < parts.len() {
        number(parts[index], radix)
    } else {
        None
    }
}

/// What an attribute's bytes set: owner and group in decimal, the mode in
/// octal. A part that is no number sets nothing.
pub open spec fn override_of(value: Seq<u8>) -> Override {
    let parts = split_fields(value, SEPARATOR);
    Override {
        uid: part_number(parts, 0, 10),
        gid: part_number(parts, 1, 10),
        mode: part_number(parts, 2, 8),
    }
}

/// An owner or group as it is written.
pub open spec fn id_text(id: Option<u32>) -> Seq<u8> {
    match id {
        Some(id) => digits(id as nat, 10),
        None => seq![0x78u8],
    }
}

/// A mode as it is written.
pub open spec fn octal_text(mode: Option<u32>) -> Seq<u8> {
    match mode {
        Some(mode) => seq![0x30u8] + digits(mode as nat, 8),
        None => seq![0x78u8],
    }
}

/// The parts of an attribute.
pub open spec fn override_parts(o: Override) -> Seq<Seq<u8>> {
    seq![id_text(o.uid), id_text(o.gid), octal_text(o.mode)]
}

/// An attribute as it is written.
pub open spec fn override_text(o: Override) -> Seq<u8> {
    join_fields(override_parts(o), SEPARATOR)
}

/// What was written is what is read back.
pub proof fn override_round_trip(o: Override)
    ensures
        override_of(override_text(o)) == o,
{
    let parts = override_parts(o);
    assert forall|i: int| 0 <= i < parts.len() implies !(#[trigger] parts[i]).contains(
        SEPARATOR,
    ) by {
        if let Some(uid) = o.uid {
            lemma_digits_exclude(uid as nat, 10, SEPARATOR);
        }
        if let Some(gid) = o.gid {
            lemma_digits_exclude(gid as nat, 10, SEPARATOR);
        }
        if let Some(mode) = o.mode {
            let octal = digits(mode as nat, 8);
            lemma_digits_exclude(mode as nat, 8, SEPARATOR);
            assert forall|j: int| 0 <= j < parts[2].len() implies parts[2][j] != SEPARATOR by {
                if j > 0 {
                    assert(parts[2][j] == octal[j - 1]);
                    assert(octal.contains(octal[j - 1]));
                }
            }
        }
    }
    lemma_join_split(parts, SEPARATOR);
    assert(!is_digit(0x78, 10) && !is_digit(0x78, 8));
    let unset = seq![0x78u8];
    assert(unset[0] == 0x78);
    assert(unsigned_digits(unset) == unset);
    if let Some(uid) = o.uid {
        lemma_number_of_digits(uid, 10);
    }
    if let Some(gid) = o.gid {
        lemma_number_of_digits(gid, 10);
    }
    if let Some(mode) = o.mode {
        lemma_number_of_padded(mode);
    }
}

proof fn lemma_number_of_digits(n: u32, radix: nat)
    requires
        2 <= radix <= 10,
    ensures
        number(digits(n as nat, radix), radix) == Some(n),
{
    let d = digits(n as nat, radix);
    lemma_digits(n as nat, radix);
    assert(is_digit(d[0], radix));
    assert(unsigned_digits(d) == d);
}

/// A leading zero does not change the value of a number.
proof fn lemma_padded_value(d: Seq<u8>, radix: nat)
    ensures
        digits_value(seq![0x30u8] + d, radix) == digits_value(d, radix),
    decreases d.len(),
{
    let padded = seq![0x30u8] + d;
    if d.len() == 0 {
        assert(padded =~= seq![0x30u8]);
        assert(padded.drop_last() =~= Seq::<u8>::empty());
        assert(digits_value(padded.drop_last(), radix) == 0);
        assert(0 * radix == 0) by (nonlinear_arith);
    } else {
        lemma_padded_value(d.drop_last(), radix);
        assert(padded.drop_last() =~= seq![0x30u8] + d.drop_last());
        assert(padded.last() == d.last());
    }
}

proof fn lemma_number_of_padded(mode: u32)
    ensures
        number(octal_text(Some(mode)), 8) == Some(mode),
{
    let d = digits(mode as nat, 8);
    let text = octal_text(Some(mode));
    lemma_digits(mode as nat, 8);
    lemma_padded_value(d, 8);
    assert(text[0] == 0x30);
    assert forall|i: int| 0 <= i < text.len() implies is_digit(#[trigger] text[i], 8) by {
        if i > 0 {
            assert(text[i] == d[i - 1]);
        }
    }
}

/// The number in one part.
pub fn item_to_value(item: &[u8], radix: u32) -> (r: Option<u32>)
    requires
        2 <= radix <= 36,
    ensures
        r == number(item@, radix as nat),
{
    parse_number(item, radix)
}

/// Reads an attribute's bytes.
pub fn get_xattr_common(value: &[u8]) -> (r: Override)
    ensures
        r == override_of(value@),
{
    let parts = split_bytes(value, SEPARATOR);
    assert(views(parts@)[0] == parts@[0]@);
    let uid = item_to_value(parts[0].as_slice(), 10);
    let gid = if parts.len() > 1 {
        assert(views(parts@)[1] == parts@[1]@);
        item_to_value(parts[1].as_slice(), 10)
    } else {
        None
    };
    let mode = if parts.len() > 2 {
        assert(views(parts@)[2] == parts@[2]@);
        item_to_value(parts[2].as_slice(), 8)
    } else {
        None
    };
    Override { uid, gid, mode }
}

fn push_id(out: &mut Vec<u8>, id: Option<u32>)
    ensures
        final(out)@ == old(out)@ + id_text(id),
{
    let ghost start = out@;
    match id {
        Some(id) => push_digits(out, id as u64, 10),
        None => out.push(0x78),
    }
    assert(out@ =~= start + id_text(id));
}

/// Writes an attribute.
pub fn encode_override(o: Override) -> (r: Vec<u8>)
    ensures
        r@ == override_text(o),
{
    let mut out: Vec<u8> = Vec::new();
    push_id(&mut out, o.uid);
    out.push(SEPARATOR);
    push_id(&mut out, o.gid);
    out.push(SEPARATOR);
    match o.mode {
        Some(mode) => {
            out.push(0x30);
            push_digits(&mut out, mode as u64, 8);
        },
        None => out.push(0x78),
    }
    proof {
        let parts = override_parts(o);
        let two = parts.drop_last();
        let one = two.drop_last();
        assert(join_fields(one, SEPARATOR) == parts[0]);
        assert(join_fields(two, SEPARATOR) == parts[0].push(SEPARATOR) + parts[1]);
        assert(out@ =~= override_text(o));
    }
    out
}

/// The attributes of a file with what its attribute sets. A mode without a file
/// type keeps the file's own.
pub open spec fn overridden(st: Stat, o: Override) -> Stat {
    Stat {
        uid: match o.uid {
            Some(uid) => uid,
            None => st.uid,
        },
        gid: match o.gid {
            Some(gid) => gid,
            None => st.gid,
        },
        mode: match o.mode {
            Some(mode) => if host_bits(mode) & (S_IFMT as u16) == 0 {
                (st.mode & (S_IFMT as u16)) | host_bits(mode)
            } else {
                host_bits(mode)
            },
            None => st.mode,
        },
        ..st
    }
}

pub fn stat_xattr_common(st: Stat, o: Override) -> (r: Stat)
    ensures
        r == overridden(st, o),
{
    let mut out: Stat = st;
    if let Some(uid) = o.uid {
        out.uid = uid;
    }
    if let Some(gid) = o.gid {
        out.gid = gid;
    }
    if let Some(mode) = o.mode {
        let bits: u16 = low_bits(mode);
        if bits & (S_IFMT as u16) == 0 {
            out.mode = (st.mode & (S_IFMT as u16)) | bits;
        } else {
            out.mode = bits;
        }
    }
    out
}

/// Reading the attribute: nothing is set where it cannot be read.
pub open spec fn reading_override(at: Node, st: Stat, log: Seq<Reply>, pos: int) -> StepView<
    Override,
> {
    if pos >= log.len() {
        StepView::Call(
            CallView::Do(
                Call::GetAttr {
                    at,
                    attr: Attr::Override,
                    size: OVERRIDE_SIZE,
                    options: link_options(st),
                },
            ),
        )
    } else {
        match bytes_of(log[pos]) {
            Err(_) => StepView::Done(Override { uid: None, gid: None, mode: None }, pos + 1),
            Ok(value) => StepView::Done(override_of(value), pos + 1),
        }
    }
}

/// Reads what a file's attribute sets.
pub fn get_override(at: Node, st: Stat, log: &Vec<Reply>, pos: usize) -> (r: Step<Override>)
    ensures
        r@ == reading_override(at, st, log@, pos as int),
{
    if pos >= log.len() {
        return Step::Call(
            HostCall::Do(
                Call::GetAttr {
                    at,
                    attr: Attr::Override,
                    size: OVERRIDE_SIZE,
                    options: sandbox_xattr_options(st),
                },
            ),
        );
    }
    match log[pos].bytes() {
        Err(_) => Step::Done(Override { uid: None, gid: None, mode: None }, pos + 1),
        Ok(value) => Step::Done(get_xattr_common(value.as_slice()), pos + 1),
    }
}

/// An owner and a group that can both be set.
pub open spec fn settable(owner: Option<(u32, u32)>) -> bool {
    match owner {
        Some((uid, gid)) => uid < UID_MAX && gid < UID_MAX,
        None => false,
    }
}

pub fn is_valid_owner(owner: Option<(u32, u32)>) -> (r: bool)
    ensures
        r == settable(owner),
{
    match owner {
        Some((uid, gid)) => uid < UID_MAX && gid < UID_MAX,
        None => false,
    }
}

/// What the attribute sets after an owner and a mode were set. What is not
/// given, or cannot be set, stays as it was.
pub open spec fn merged(
    old: Override,
    owner: Option<(u32, u32)>,
    mode: Option<u32>,
) -> Override {
    Override {
        uid: match owner {
            Some((uid, _)) => if uid < UID_MAX {
                Some(uid)
            } else {
                old.uid
            },
            None => old.uid,
        },
        gid: match owner {
            Some((_, gid)) => if gid < UID_MAX {
                Some(gid)
            } else {
                old.gid
            },
            None => old.gid,
        },
        mode: match mode {
            Some(mode) => Some(mode),
            None => old.mode,
        },
    }
}

fn merge_override(
    before: Override,
    owner: Option<(u32, u32)>,
    mode: Option<u32>,
) -> (r: Override)
    ensures
        r == merged(before, owner, mode),
{
    let (uid, gid) = match owner {
        Some((uid, gid)) => (
            if uid < UID_MAX {
                Some(uid)
            } else {
                before.uid
            },
            if gid < UID_MAX {
                Some(gid)
            } else {
                before.gid
            },
        ),
        None => (before.uid, before.gid),
    };
    Override {
        uid,
        gid,
        mode: match mode {
            Some(mode) => Some(mode),
            None => before.mode,
        },
    }
}

/// Storing the attribute.
pub open spec fn storing_override(
    at: Node,
    st: Stat,
    o: Override,
    log: Seq<Reply>,
    pos: int,
) -> StepView<()> {
    if pos >= log.len() {
        StepView::Call(
            CallView::Store {
                at,
                attr: Attr::Override,
                value: override_text(o),
                options: link_options(st),
            },
        )
    } else {
        match unit_of(log[pos]) {
            Ok(_) => StepView::Done((), pos + 1),
            Err(error) => StepView::Fail(error.linux, pos + 1),
        }
    }
}

/// Setting the owner and the mode of a file through its attribute: the host
/// attributes, which `given` stands for where they are known; what is set so
/// far, unless everything is set anew; and the new attribute.
pub open spec fn setting_override(
    at: Node,
    given: Option<Stat>,
    owner: Option<(u32, u32)>,
    mode: Option<u32>,
    log: Seq<Reply>,
    pos: int,
) -> StepView<()> {
    if pos >= log.len() {
        StepView::Call(CallView::Do(Call::Stat { at }))
    } else {
        match stat_of(log[pos]) {
            Err(error) => StepView::Fail(error.linux, pos + 1),
            Ok(host) => {
                let st = match given {
                    Some(st) => st,
                    None => host,
                };
                let unset = Override { uid: None, gid: None, mode: None };
                if settable(owner) && mode is Some {
                    storing_override(at, st, merged(unset, owner, mode), log, pos + 1)
                } else {
                    match reading_override(at, st, log, pos + 1) {
                        StepView::Call(call) => StepView::Call(call),
                        StepView::Fail(error, next) => StepView::Fail(error, next),
                        StepView::Done(before, next) => storing_override(
                            at,
                            st,
                            merged(before, owner, mode),
                            log,
                            next,
                        ),
                    }
                }
            },
        }
    }
}

/// Sets the owner and the mode of a file through its attribute.
pub fn set_xattr_stat(
    at: Node,
    given: Option<Stat>,
    owner: Option<(u32, u32)>,
    mode: Option<u32>,
    log: &Vec<Reply>,
    pos: usize,
) -> (r: Step<()>)
    ensures
        r@ == setting_override(at, given, owner, mode, log@, pos as int),
{
    if pos >= log.len() {
        return Step::Call(HostCall::Do(Call::Stat { at }));
    }
    let host: Stat = match log[pos].stat() {
        Err(error) => return Step::Fail(error.linux, pos + 1),
        Ok(host) => host,
    };
    let st: Stat = match given {
        Some(st) => st,
        None => host,
    };
    let unset = Override { uid: None, gid: None, mode: None };
    let (before, next) = if is_valid_owner(owner) && mode.is_some() {
        (unset, pos + 1)
    } else {
        match get_override(at, st, log, pos + 1) {
            Step::Call(call) => return Step::Call(call),
            Step::Fail(error, next) => return Step::Fail(error, next),
            Step::Done(before, next) => (before, next),
        }
    };
    if next >= log.len() {
        return Step::Call(
            HostCall::Store {
                at,
                attr: Attr::Override,
                value: encode_override(merge_override(before, owner, mode)),
                options: sandbox_xattr_options(st),
            },
        );
    }
    match log[next].unit() {
        Ok(_) => Step::Done((), next + 1),
        Err(error) => Step::Fail(error.linux, next + 1),
    }
}

/// The attribute is written as the owner and the group in decimal and the mode in
/// octal behind a zero, with colons between them, and an `x` for what is not set.
pub proof fn overrides_are_laid_out(o: Override)
    ensures
        ({
            let uid = match o.uid {
                Some(uid) => digits(uid as nat, 10),
                None => seq![120u8],
            };
            let gid = match o.gid {
                Some(gid) => digits(gid as nat, 10),
                None => seq![120u8],
            };
            let mode = match o.mode {
                Some(mode) => seq![48u8] + digits(mode as nat, 8),
                None => seq![120u8],
            };
            override_text(o) == uid + seq![58u8] + gid + seq![58u8] + mode
        }),
{
    let parts = override_parts(o);
    let two = parts.drop_last();
    let one = two.drop_last();
    assert(join_fields(one, SEPARATOR) == parts[0]);
    assert(join_fields(two, SEPARATOR) == parts[0].push(SEPARATOR) + parts[1]);
    assert(override_text(o) =~= parts[0] + seq![58u8] + parts[1] + seq![58u8] + parts[2]);
}

} // verus!
