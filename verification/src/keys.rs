//! The keys of the channel plane's decisions. Each kind of decision has its own
//! prefix, so that one store holds them all.

use vstd::prelude::*;
use vstd::utf8::{encode_utf8, encode_utf8_decode_utf8};

use crate::bytes::{copy_range, extend};

verus! {

/// `fund:` — a consumed funding reference.
pub open spec fn fund_ns() -> Seq<u8> {
    seq![0x66u8, 0x75, 0x6e, 0x64, 0x3a]
}

/// `disp:` — the terminal close disposition of a channel.
pub open spec fn disp_ns() -> Seq<u8> {
    seq![0x64u8, 0x69, 0x73, 0x70, 0x3a]
}

/// `rfnd:` — a close refund that was reserved before its release.
pub open spec fn rfnd_ns() -> Seq<u8> {
    seq![0x72u8, 0x66, 0x6e, 0x64, 0x3a]
}

/// `rref:` — the rail reference of a released refund.
pub open spec fn rref_ns() -> Seq<u8> {
    seq![0x72u8, 0x72, 0x65, 0x66, 0x3a]
}

/// `chopen:` — a channel identifier that was accepted.
pub open spec fn chopen_ns() -> Seq<u8> {
    seq![0x63u8, 0x68, 0x6f, 0x70, 0x65, 0x6e, 0x3a]
}

/// The key of a consumed reference.
pub open spec fn fund_key_bytes(reference: Seq<char>) -> Seq<u8> {
    fund_ns() + encode_utf8(reference)
}

/// The key of a channel's disposition.
pub open spec fn disp_key_bytes(channel: [u8; 8]) -> Seq<u8> {
    disp_ns() + channel@
}

/// The key of a reserved refund.
pub open spec fn reserve_key_bytes(channel: [u8; 8], ckpt_ref: [u8; 32]) -> Seq<u8> {
    rfnd_ns() + channel@ + ckpt_ref@
}

/// The key of a released refund's reference.
pub open spec fn release_key_bytes(channel: [u8; 8], ckpt_ref: [u8; 32]) -> Seq<u8> {
    rref_ns() + channel@ + ckpt_ref@
}

/// The key of an accepted channel.
pub open spec fn open_key_bytes(channel: [u8; 8]) -> Seq<u8> {
    chopen_ns() + channel@
}

/// What follows the prefix `ns` of `key`.
pub open spec fn stripped(key: Seq<u8>, ns: Seq<u8>) -> Option<Seq<u8>> {
    if ns.len() <= key.len() && key.take(ns.len() as int) == ns {
        Some(key.skip(ns.len() as int))
    } else {
        None
    }
}

/// The key of a consumed reference.
pub fn fund_key(reference: &str) -> (key: Vec<u8>)
    ensures
        key@ == fund_key_bytes(reference@),
{
    let mut key: Vec<u8> = fund_prefix();
    extend(&mut key, reference.as_bytes());
    key
}

/// The key of a channel's disposition.
pub fn disp_key(channel: &[u8; 8]) -> (key: Vec<u8>)
    ensures
        key@ == disp_key_bytes(*channel),
{
    let mut key: Vec<u8> = disp_prefix();
    extend(&mut key, channel.as_slice());
    key
}

/// The key of a reserved refund.
pub fn refund_reserve_key(channel: &[u8; 8], ckpt_ref: &[u8; 32]) -> (key: Vec<u8>)
    ensures
        key@ == reserve_key_bytes(*channel, *ckpt_ref),
{
    let mut key: Vec<u8> = vec![0x72u8, 0x66, 0x6e, 0x64, 0x3a];
    assert(key@ =~= rfnd_ns());
    extend(&mut key, channel.as_slice());
    extend(&mut key, ckpt_ref.as_slice());
    key
}

/// The key of a released refund's reference.
pub fn refund_ref_key(channel: &[u8; 8], ckpt_ref: &[u8; 32]) -> (key: Vec<u8>)
    ensures
        key@ == release_key_bytes(*channel, *ckpt_ref),
{
    let mut key: Vec<u8> = vec![0x72u8, 0x72, 0x65, 0x66, 0x3a];
    assert(key@ =~= rref_ns());
    extend(&mut key, channel.as_slice());
    extend(&mut key, ckpt_ref.as_slice());
    key
}

/// The key of an accepted channel.
pub fn chopen_key(channel: &[u8; 8]) -> (key: Vec<u8>)
    ensures
        key@ == open_key_bytes(*channel),
{
    let mut key: Vec<u8> = chopen_prefix();
    extend(&mut key, channel.as_slice());
    key
}

/// `fund:`.
pub fn fund_prefix() -> (ns: Vec<u8>)
    ensures
        ns@ == fund_ns(),
{
    let ns: Vec<u8> = vec![0x66u8, 0x75, 0x6e, 0x64, 0x3a];
    assert(ns@ =~= fund_ns());
    ns
}

/// `disp:`.
pub fn disp_prefix() -> (ns: Vec<u8>)
    ensures
        ns@ == disp_ns(),
{
    let ns: Vec<u8> = vec![0x64u8, 0x69, 0x73, 0x70, 0x3a];
    assert(ns@ =~= disp_ns());
    ns
}

/// `chopen:`.
pub fn chopen_prefix() -> (ns: Vec<u8>)
    ensures
        ns@ == chopen_ns(),
{
    let ns: Vec<u8> = vec![0x63u8, 0x68, 0x6f, 0x70, 0x65, 0x6e, 0x3a];
    assert(ns@ =~= chopen_ns());
    ns
}

/// What follows the prefix `ns` of `key`.
pub fn strip_prefix(key: &Vec<u8>, ns: &Vec<u8>) -> (r: Option<Vec<u8>>)
    ensures
        match r {
            Some(rest) => stripped(key@, ns@) == Some(rest@),
            None => stripped(key@, ns@) is None,
        },
{
    if key.len() < ns.len() {
        return None;
    }
    let mut i: usize = 0;
    while i < ns.len()
        invariant
            i <= ns@.len() <= key@.len(),
            forall|j: int| 0 <= j < i ==> key@[j] == ns@[j],
        decreases ns@.len() - i,
    {
        if key[i] != ns[i] {
            assert(key@.take(ns@.len() as int)[i as int] != ns@[i as int]);
            return None;
        }
        i = i + 1;
    }
    assert(key@.take(ns@.len() as int) =~= ns@);
    let rest: Vec<u8> = copy_range(key.as_slice(), ns.len(), key.len());
    assert(rest@ =~= key@.skip(ns@.len() as int));
    Some(rest)
}

/// Keys of one kind are equal only for equal arguments.
pub proof fn law_keys_injective(
    r1: Seq<char>,
    r2: Seq<char>,
    c1: [u8; 8],
    c2: [u8; 8],
    k1: [u8; 32],
    k2: [u8; 32],
)
    ensures
        fund_key_bytes(r1) == fund_key_bytes(r2) ==> r1 == r2,
        disp_key_bytes(c1) == disp_key_bytes(c2) ==> c1 == c2,
        open_key_bytes(c1) == open_key_bytes(c2) ==> c1 == c2,
        reserve_key_bytes(c1, k1) == reserve_key_bytes(c2, k2) ==> c1 == c2 && k1 == k2,
        release_key_bytes(c1, k1) == release_key_bytes(c2, k2) ==> c1 == c2 && k1 == k2,
{
    encode_utf8_decode_utf8(r1);
    encode_utf8_decode_utf8(r2);
    assert(fund_key_bytes(r1).skip(5) =~= encode_utf8(r1));
    assert(fund_key_bytes(r2).skip(5) =~= encode_utf8(r2));
    assert(disp_key_bytes(c1).skip(5) =~= c1@);
    assert(disp_key_bytes(c2).skip(5) =~= c2@);
    assert(open_key_bytes(c1).skip(7) =~= c1@);
    assert(open_key_bytes(c2).skip(7) =~= c2@);
    assert(reserve_key_bytes(c1, k1).subrange(5, 13) =~= c1@);
    assert(reserve_key_bytes(c2, k2).subrange(5, 13) =~= c2@);
    assert(reserve_key_bytes(c1, k1).skip(13) =~= k1@);
    assert(reserve_key_bytes(c2, k2).skip(13) =~= k2@);
    assert(release_key_bytes(c1, k1).subrange(5, 13) =~= c1@);
    assert(release_key_bytes(c2, k2).subrange(5, 13) =~= c2@);
    assert(release_key_bytes(c1, k1).skip(13) =~= k1@);
    assert(release_key_bytes(c2, k2).skip(13) =~= k2@);
    if c1@ == c2@ {
        lemma_same_array(c1, c2);
    }
    if k1@ == k2@ {
        lemma_same_array(k1, k2);
    }
}

proof fn lemma_same_array<const N: usize>(a: [u8; N], b: [u8; N])
    requires
        a@ == b@,
    ensures
        a == b,
{
    assert forall|i: int| 0 <= i < N implies a[i] == b[i] by {
        assert(a@[i] == b@[i]);
    }
    assert(a =~= b);
}

/// Keys of different kinds are never equal.
pub proof fn law_keys_apart(r: Seq<char>, c: [u8; 8], k: [u8; 32], d: [u8; 8], e: [u8; 8], m: [u8; 32])
    ensures
        fund_key_bytes(r) != disp_key_bytes(c),
        fund_key_bytes(r) != open_key_bytes(c),
        fund_key_bytes(r) != reserve_key_bytes(c, k),
        fund_key_bytes(r) != release_key_bytes(c, k),
        disp_key_bytes(c) != open_key_bytes(d),
        disp_key_bytes(c) != reserve_key_bytes(d, k),
        disp_key_bytes(c) != release_key_bytes(d, k),
        open_key_bytes(c) != reserve_key_bytes(d, k),
        open_key_bytes(c) != release_key_bytes(d, k),
        reserve_key_bytes(c, k) != release_key_bytes(e, m),
{
    assert(fund_key_bytes(r)[0] == 0x66);
    assert(disp_key_bytes(c)[0] == 0x64 && disp_key_bytes(d)[0] == 0x64);
    assert(open_key_bytes(c)[0] == 0x63 && open_key_bytes(d)[0] == 0x63);
    assert(reserve_key_bytes(c, k)[0] == 0x72 && reserve_key_bytes(d, k)[0] == 0x72);
    assert(release_key_bytes(c, k)[0] == 0x72 && release_key_bytes(d, k)[0] == 0x72);
    assert(reserve_key_bytes(c, k)[1] == 0x66);
    assert(release_key_bytes(e, m)[1] == 0x72);
}

/// A prefix comes off exactly what it was put before.
pub proof fn law_a_prefix_comes_off(ns: Seq<u8>, rest: Seq<u8>, key: Seq<u8>)
    ensures
        stripped(ns + rest, ns) == Some(rest),
        stripped(key, ns) matches Some(tail) ==> key == ns + tail,
        stripped(key, ns) is None ==> key != ns + rest,
{
    assert((ns + rest).take(ns.len() as int) =~= ns);
    assert((ns + rest).skip(ns.len() as int) =~= rest);
    if let Some(tail) = stripped(key, ns) {
        assert(key =~= ns + tail);
    }
}

/// Every key is its kind's prefix and what it is the key of: `fund:` and the reference, `disp:`
/// and `chopen:` and the channel, `rfnd:` and `rref:` and the channel and checkpoint.
pub proof fn law_keys_say_what_they_are_for(reference: Seq<char>, channel: [u8; 8], ckpt_ref: [u8; 32])
    ensures
        fund_key_bytes(reference) == encode_utf8("fund:"@) + encode_utf8(reference),
        disp_key_bytes(channel) == encode_utf8("disp:"@) + channel@,
        open_key_bytes(channel) == encode_utf8("chopen:"@) + channel@,
        reserve_key_bytes(channel, ckpt_ref) == encode_utf8("rfnd:"@) + channel@ + ckpt_ref@,
        release_key_bytes(channel, ckpt_ref) == encode_utf8("rref:"@) + channel@ + ckpt_ref@,
{
    reveal_strlit("fund:");
    reveal_strlit("disp:");
    reveal_strlit("chopen:");
    reveal_strlit("rfnd:");
    reveal_strlit("rref:");
    vstd::utf8::is_ascii_chars_encode_utf8("fund:"@);
    vstd::utf8::is_ascii_chars_encode_utf8("disp:"@);
    vstd::utf8::is_ascii_chars_encode_utf8("chopen:"@);
    vstd::utf8::is_ascii_chars_encode_utf8("rfnd:"@);
    vstd::utf8::is_ascii_chars_encode_utf8("rref:"@);
    assert(encode_utf8("fund:"@) =~= fund_ns());
    assert(encode_utf8("disp:"@) =~= disp_ns());
    assert(encode_utf8("chopen:"@) =~= chopen_ns());
    assert(encode_utf8("rfnd:"@) =~= rfnd_ns());
    assert(encode_utf8("rref:"@) =~= rref_ns());
}

} // verus!
