//! Byte strings: comparison, copying and fixed-width big-endian integers.

use vstd::prelude::*;

verus! {

/// `256^n`.
pub open spec fn pow256(n: nat) -> nat
    decreases n,
{
    if n == 0 {
        1
    } else {
        256 * pow256((n - 1) as nat)
    }
}

/// The `len` low bytes of `n`, most significant first.
pub open spec fn be_bytes(n: nat, len: nat) -> Seq<u8>
    decreases len,
{
    if len == 0 {
        Seq::empty()
    } else {
        be_bytes(n / 256, (len - 1) as nat).push((n % 256) as u8)
    }
}

/// The number a byte string denotes, most significant byte first.
pub open spec fn be_value(s: Seq<u8>) -> nat
    decreases s.len(),
{
    if s.len() == 0 {
        0
    } else {
        be_value(s.drop_last()) * 256 + s.last() as nat
    }
}

pub proof fn lemma_pow256_values()
    ensures
        pow256(4) == 0x1_0000_0000,
        pow256(8) == 0x1_0000_0000_0000_0000,
        pow256(16) == 0x1_0000_0000_0000_0000_0000_0000_0000_0000,
{
    reveal_with_fuel(pow256, 17);
}

pub proof fn lemma_pow256_monotone(a: nat, b: nat)
    requires
        a <= b,
    ensures
        1 <= pow256(a) <= pow256(b),
    decreases b,
{
    if a < b {
        lemma_pow256_monotone(a, (b - 1) as nat);
    } else if b > 0 {
        lemma_pow256_monotone((a - 1) as nat, (b - 1) as nat);
    }
}

pub proof fn lemma_be_bytes_len(n: nat, len: nat)
    ensures
        be_bytes(n, len).len() == len,
    decreases len,
{
    if len > 0 {
        lemma_be_bytes_len(n / 256, (len - 1) as nat);
    }
}

pub proof fn lemma_be_value_bound(s: Seq<u8>)
    ensures
        be_value(s) < pow256(s.len()),
    decreases s.len(),
{
    if s.len() > 0 {
        lemma_be_value_bound(s.drop_last());
    }
}

/// Writing a number in `len` bytes and reading it back gives the number, if it
/// fits in `len` bytes.
pub proof fn lemma_be_round_trip(n: nat, len: nat)
    requires
        n < pow256(len),
    ensures
        be_bytes(n, len).len() == len,
        be_value(be_bytes(n, len)) == n,
    decreases len,
{
    lemma_be_bytes_len(n, len);
    if len > 0 {
        lemma_be_round_trip(n / 256, (len - 1) as nat);
        assert(be_bytes(n, len).drop_last() =~= be_bytes(n / 256, (len - 1) as nat));
    }
}

/// Reading `len` bytes and writing the number back gives the bytes.
pub proof fn lemma_be_value_round_trip(s: Seq<u8>)
    ensures
        be_bytes(be_value(s), s.len()) =~= s,
    decreases s.len(),
{
    if s.len() > 0 {
        lemma_be_value_round_trip(s.drop_last());
        let n = be_value(s);
        assert(n / 256 == be_value(s.drop_last()));
        assert((n % 256) as u8 == s.last());
    }
}

/// Two byte strings that start with parts of the same length agree in those parts and in
/// the rest.
pub proof fn lemma_concat(a: Seq<u8>, b: Seq<u8>, x: Seq<u8>, y: Seq<u8>)
    requires
        a.len() == b.len(),
        a + x == b + y,
    ensures
        a == b,
        x == y,
{
    assert((a + x).take(a.len() as int) =~= a);
    assert((b + y).take(b.len() as int) =~= b);
    assert((a + x).skip(a.len() as int) =~= x);
    assert((b + y).skip(b.len() as int) =~= y);
}

/// A number written in a fixed width can be told from what follows it.
pub proof fn lemma_number_then(a: nat, b: nat, len: nat, x: Seq<u8>, y: Seq<u8>)
    requires
        a < pow256(len),
        b < pow256(len),
        be_bytes(a, len) + x == be_bytes(b, len) + y,
    ensures
        a == b,
        x == y,
{
    lemma_be_bytes_len(a, len);
    lemma_be_bytes_len(b, len);
    lemma_concat(be_bytes(a, len), be_bytes(b, len), x, y);
    lemma_be_round_trip(a, len);
    lemma_be_round_trip(b, len);
}

/// An octet can be told from what follows it.
pub proof fn lemma_octet_then(a: u8, b: u8, x: Seq<u8>, y: Seq<u8>)
    requires
        seq![a] + x == seq![b] + y,
    ensures
        a == b,
        x == y,
{
    lemma_concat(seq![a], seq![b], x, y);
    assert(seq![a][0] == seq![b][0]);
}

/// Writes `n` in `len` bytes, most significant first.
pub fn be_encode(n: u128, len: usize) -> (out: Vec<u8>)
    ensures
        out@ == be_bytes(n as nat, len as nat),
    decreases len,
{
    if len == 0 {
        Vec::new()
    } else {
        let mut out: Vec<u8> = be_encode(n / 256, len - 1);
        out.push((n % 256) as u8);
        out
    }
}

/// Reads the bytes `from..to` as a number, most significant first.
pub fn be_decode(bytes: &[u8], from: usize, to: usize) -> (n: u128)
    requires
        from <= to <= bytes@.len(),
        to - from <= 16,
    ensures
        n == be_value(bytes@.subrange(from as int, to as int)),
{
    let mut i: usize = from;
    let mut n: u128 = 0;
    while i < to
        invariant
            from <= i <= to <= bytes@.len(),
            to - from <= 16,
            n == be_value(bytes@.subrange(from as int, i as int)),
        decreases to - i,
    {
        proof {
            let before = bytes@.subrange(from as int, i as int);
            let after = bytes@.subrange(from as int, i + 1);
            assert(after.drop_last() =~= before);
            lemma_be_value_bound(after);
            lemma_pow256_monotone(after.len(), 16);
            lemma_pow256_values();
        }
        n = n * 256 + bytes[i] as u128;
        i = i + 1;
    }
    n
}

/// Whether two fixed-length byte strings are equal.
pub fn same_array<const N: usize>(a: &[u8; N], b: &[u8; N]) -> (r: bool)
    ensures
        r == (*a == *b),
{
    let mut i: usize = 0;
    while i < N
        invariant
            i <= N,
            forall|j: int| 0 <= j < i ==> a[j] == b[j],
        decreases N - i,
    {
        if a[i] != b[i] {
            return false;
        }
        i = i + 1;
    }
    assert(*a =~= *b);
    true
}

/// Whether two byte strings are equal.
pub fn same_bytes(a: &[u8], b: &[u8]) -> (r: bool)
    ensures
        r == (a@ == b@),
{
    if a.len() != b.len() {
        return false;
    }
    let mut i: usize = 0;
    while i < a.len()
        invariant
            i <= a@.len(),
            a@.len() == b@.len(),
            forall|j: int| 0 <= j < i ==> a@[j] == b@[j],
        decreases a@.len() - i,
    {
        if a[i] != b[i] {
            return false;
        }
        i = i + 1;
    }
    assert(a@ =~= b@);
    true
}

/// Appends `data` to `out`.
pub fn extend(out: &mut Vec<u8>, data: &[u8])
    ensures
        final(out)@ == old(out)@ + data@,
{
    let mut i: usize = 0;
    while i < data.len()
        invariant
            i <= data@.len(),
            out@ == old(out)@ + data@.subrange(0, i as int),
        decreases data@.len() - i,
    {
        out.push(data[i]);
        i = i + 1;
        assert(out@ =~= old(out)@ + data@.subrange(0, i as int));
    }
    assert(data@.subrange(0, data@.len() as int) =~= data@);
}

/// A copy of `data`.
pub fn copy_bytes(data: &[u8]) -> (out: Vec<u8>)
    ensures
        out@ == data@,
{
    let mut out: Vec<u8> = Vec::new();
    extend(&mut out, data);
    assert(out@ =~= data@);
    out
}

/// The bytes `from..to` of `data`.
pub fn copy_range(data: &[u8], from: usize, to: usize) -> (out: Vec<u8>)
    requires
        from <= to <= data@.len(),
    ensures
        out@ == data@.subrange(from as int, to as int),
{
    let mut out: Vec<u8> = Vec::new();
    let mut i: usize = from;
    while i < to
        invariant
            from <= i <= to <= data@.len(),
            out@ == data@.subrange(from as int, i as int),
        decreases to - i,
    {
        out.push(data[i]);
        i = i + 1;
        assert(out@ =~= data@.subrange(from as int, i as int));
    }
    out
}

/// The `N` bytes of `data` that start at `from`.
pub fn copy_array<const N: usize>(data: &[u8], from: usize) -> (out: [u8; N])
    requires
        from + N <= data@.len(),
    ensures
        out@ == data@.subrange(from as int, from + N),
{
    let total: usize = data.len();
    let mut out: [u8; N] = [0u8; N];
    let mut i: usize = 0;
    while i < N
        invariant
            i <= N,
            from + N <= data@.len(),
            data@.len() == total,
            forall|j: int| 0 <= j < i ==> out@[j] == data@[from + j],
        decreases N - i,
    {
        out[i] = data[from + i];
        i = i + 1;
    }
    assert(out@ =~= data@.subrange(from as int, from + N));
    out
}

} // verus!
