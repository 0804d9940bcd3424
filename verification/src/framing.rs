//! Length-prefixed fields: a big-endian `u32` length, then that many bytes.

use vstd::prelude::*;

use crate::bytes::{
    be_bytes, be_decode, be_encode, be_value, copy_range, extend, lemma_be_round_trip,
    lemma_be_value_bound, lemma_be_value_round_trip, lemma_pow256_values, lemma_concat,
};

verus! {

/// The longest field a frame can hold.
pub const MAX_FIELD: usize = 0xffff_ffff;

/// The frame of `data`.
pub open spec fn field(data: Seq<u8>) -> Seq<u8> {
    be_bytes(data.len(), 4) + data
}

/// The field that starts at `off`, and the offset behind it; `None` where less
/// than a whole field remains.
pub open spec fn field_at(bytes: Seq<u8>, off: int) -> Option<(Seq<u8>, int)> {
    if 0 <= off && off + 4 <= bytes.len() {
        let end = off + 4 + be_value(bytes.subrange(off, off + 4));
        if end <= bytes.len() {
            Some((bytes.subrange(off + 4, end), end))
        } else {
            None
        }
    } else {
        None
    }
}

/// Appends the frame of `data` to `out`.
pub fn frame(out: &mut Vec<u8>, data: &[u8])
    requires
        data@.len() <= MAX_FIELD,
    ensures
        final(out)@ == old(out)@ + field(data@),
{
    let len: Vec<u8> = be_encode(data.len() as u128, 4);
    extend(out, len.as_slice());
    extend(out, data);
    assert(out@ =~= old(out)@ + field(data@));
}

/// Reads the field at `off`, and moves `off` behind it; `None` where less than
/// a whole field remains, and then `off` stays.
pub fn read_field(bytes: &[u8], off: &mut usize) -> (r: Option<Vec<u8>>)
    requires
        *old(off) <= bytes@.len(),
    ensures
        *final(off) <= bytes@.len(),
        match field_at(bytes@, *old(off) as int) {
            Some((data, end)) => r matches Some(v) && v@ == data && *final(off) == end,
            None => r is None && *final(off) == *old(off),
        },
{
    let start: usize = *off;
    if bytes.len() - start < 4 {
        return None;
    }
    let len: u128 = be_decode(bytes, start, start + 4);
    if ((bytes.len() - start - 4) as u128) < len {
        return None;
    }
    let end: usize = start + 4 + len as usize;
    *off = end;
    Some(copy_range(bytes, start + 4, end))
}

/// A frame is read back as its data, wherever it stands.
pub proof fn lemma_field_at_frame(head: Seq<u8>, data: Seq<u8>, tail: Seq<u8>)
    requires
        data.len() <= MAX_FIELD,
    ensures
        field(data).len() == 4 + data.len(),
        field_at(head + field(data) + tail, head.len() as int) == Some(
            (data, (head.len() + field(data).len()) as int),
        ),
{
    let bytes = head + field(data) + tail;
    let at = head.len() as int;
    lemma_pow256_values();
    lemma_be_round_trip(data.len(), 4);
    assert(bytes.subrange(at, at + 4) =~= be_bytes(data.len(), 4));
    assert(bytes.subrange(at + 4, at + 4 + data.len()) =~= data);
}

/// What a field reads does not depend on what stands behind it.
pub proof fn lemma_field_at_longer(bytes: Seq<u8>, tail: Seq<u8>, off: int)
    requires
        field_at(bytes, off) is Some,
    ensures
        field_at(bytes + tail, off) == field_at(bytes, off),
{
    let whole = bytes + tail;
    assert(whole.subrange(off, off + 4) =~= bytes.subrange(off, off + 4));
    let end = (field_at(bytes, off)->0).1;
    assert(whole.subrange(off + 4, end) =~= bytes.subrange(off + 4, end));
}

/// A frame that was cut short reads as no field.
pub proof fn lemma_field_at_torn(head: Seq<u8>, data: Seq<u8>, cut: int)
    requires
        data.len() <= MAX_FIELD,
        0 <= cut < field(data).len(),
    ensures
        field_at(head + field(data).take(cut), head.len() as int) is None,
{
    let bytes = head + field(data).take(cut);
    let at = head.len() as int;
    lemma_pow256_values();
    lemma_be_round_trip(data.len(), 4);
    if cut >= 4 {
        assert(bytes.subrange(at, at + 4) =~= be_bytes(data.len(), 4));
    }
}

/// The bytes a field was read from are the frame of what was read.
pub proof fn lemma_field_at_is_field(bytes: Seq<u8>, off: int)
    requires
        field_at(bytes, off) is Some,
    ensures
        ({
            let (data, end) = field_at(bytes, off)->0;
            &&& bytes.subrange(off, end) == field(data)
            &&& data.len() <= MAX_FIELD
        }),
{
    let (data, end) = field_at(bytes, off)->0;
    let len = bytes.subrange(off, off + 4);
    lemma_be_value_round_trip(len);
    lemma_be_value_bound(len);
    lemma_pow256_values();
    assert(bytes.subrange(off, end) =~= len + data);
}

/// A frame can be told from what follows it.
pub proof fn lemma_field_then(a: Seq<u8>, b: Seq<u8>, x: Seq<u8>, y: Seq<u8>)
    requires
        a.len() <= MAX_FIELD,
        b.len() <= MAX_FIELD,
        field(a) + x == field(b) + y,
    ensures
        a == b,
        x == y,
{
    lemma_field_at_frame(Seq::empty(), a, x);
    lemma_field_at_frame(Seq::empty(), b, y);
    assert(Seq::<u8>::empty() + field(a) + x =~= field(a) + x);
    assert(Seq::<u8>::empty() + field(b) + y =~= field(b) + y);
    lemma_concat(field(a), field(b), x, y);
}

} // verus!
