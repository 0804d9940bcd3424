//! Where a closed channel's position goes.

use vstd::prelude::*;

use crate::bytes::{
    be_bytes, be_decode, be_encode, copy_array, extend, lemma_be_round_trip,
    lemma_be_value_round_trip, lemma_pow256_values,
};

verus! {

/// The close disposition of a channel.
#[derive(Debug, Clone, Copy, PartialEq, Eq)]
pub enum ChainState {
    /// The payer means to chain. The deposit can still be reclaimed and late
    /// funding is still credited; no new settlement round begins here.
    Pending,
    /// A successor imported the position, for good.
    Committed { successor: [u8; 8] },
    /// A plain close: the channel settles on its own books. `pending_draw` is
    /// the carve still to be drawn to the instance, pinned at the first close
    /// to its checkpoint and its watermark target.
    Reconciled { pending_draw: Option<([u8; 32], u128)> },
}

impl View for ChainState {
    type V = ChainState;

    open spec fn view(&self) -> ChainState {
        *self
    }
}

/// The record of a terminal disposition; a pending one has none.
pub open spec fn disp_bytes(state: ChainState) -> Seq<u8> {
    match state {
        ChainState::Committed { successor } => seq![1u8] + successor@,
        ChainState::Reconciled { pending_draw: None } => seq![2u8],
        ChainState::Reconciled { pending_draw: Some((ckpt_ref, p)) } => seq![3u8] + ckpt_ref@
            + be_bytes(p as nat, 16),
        ChainState::Pending => Seq::empty(),
    }
}

/// The terminal disposition whose record is `bytes`.
pub open spec fn disp_of(bytes: Seq<u8>) -> Option<ChainState> {
    if exists|state: ChainState| state !is Pending && #[trigger] disp_bytes(state) == bytes {
        Some(choose|state: ChainState| state !is Pending && #[trigger] disp_bytes(state) == bytes)
    } else {
        None
    }
}

/// A terminal disposition is read back from its record.
pub proof fn law_disposition_read_back(state: ChainState)
    requires
        state !is Pending,
    ensures
        disp_of(disp_bytes(state)) == Some(state),
{
    let other = disp_of(disp_bytes(state))->0;
    law_disposition_record_injective(state, other);
}

/// The record of a terminal disposition.
pub fn encode_disp(state: &ChainState) -> (out: Vec<u8>)
    ensures
        out@ == disp_bytes(*state),
{
    let mut out: Vec<u8> = Vec::new();
    match state {
        ChainState::Committed { successor } => {
            out.push(1);
            extend(&mut out, successor.as_slice());
            assert(out@ =~= seq![1u8] + successor@);
        },
        ChainState::Reconciled { pending_draw } => match pending_draw {
            None => {
                out.push(2);
                assert(out@ =~= seq![2u8]);
            },
            Some((ckpt_ref, p)) => {
                out.push(3);
                extend(&mut out, ckpt_ref.as_slice());
                let amount: Vec<u8> = be_encode(*p, 16);
                extend(&mut out, amount.as_slice());
                assert(out@ =~= seq![3u8] + ckpt_ref@ + be_bytes(*p as nat, 16));
            },
        },
        ChainState::Pending => {},
    }
    out
}

/// The disposition whose record is `bytes`; `None` where there is none. A
/// record with anything behind it is no record.
pub fn decode_disp(bytes: &[u8]) -> (r: Option<ChainState>)
    ensures
        r == disp_of(bytes@),
        r matches Some(state) ==> state !is Pending,
{
    let r: Option<ChainState> = find_disp(bytes);
    proof {
        if let Some(state) = r {
            law_disposition_read_back(state);
        }
    }
    r
}

/// The disposition that a stored value holds.
pub open spec fn disp_found(value: Option<Vec<u8>>) -> Option<ChainState> {
    match value {
        Some(bytes) => disp_of(bytes@),
        None => None,
    }
}

/// The disposition that a stored value holds; nothing stored holds none.
pub fn read_disp(value: &Option<Vec<u8>>) -> (r: Option<ChainState>)
    ensures
        r == disp_found(*value),
        r matches Some(state) ==> state !is Pending,
{
    match value {
        Some(bytes) => decode_disp(bytes.as_slice()),
        None => None,
    }
}

fn find_disp(bytes: &[u8]) -> (r: Option<ChainState>)
    ensures
        match r {
            Some(state) => state !is Pending && disp_bytes(state) == bytes@,
            None => forall|state: ChainState|
                state !is Pending ==> #[trigger] disp_bytes(state) != bytes@,
        },
{
    proof {
        lemma_pow256_values();
        assert forall|state: ChainState| state !is Pending implies (#[trigger] disp_bytes(state)).len() >= 1
            && (match state {
            ChainState::Committed { .. } => disp_bytes(state).len() == 9 && disp_bytes(state)[0] == 1,
            ChainState::Reconciled { pending_draw: None } => disp_bytes(state).len() == 1 && disp_bytes(state)[0]
                == 2,
            _ => disp_bytes(state).len() == 49 && disp_bytes(state)[0] == 3,
        }) by {
            if let ChainState::Reconciled { pending_draw: Some((_, p)) } = state {
                lemma_be_round_trip(p as nat, 16);
            }
        }
    }
    if bytes.len() == 9 && bytes[0] == 1 {
        let successor: [u8; 8] = copy_array::<8>(bytes, 1);
        assert(seq![1u8] + successor@ =~= bytes@);
        Some(ChainState::Committed { successor })
    } else if bytes.len() == 1 && bytes[0] == 2 {
        assert(bytes@ =~= seq![2u8]);
        Some(ChainState::Reconciled { pending_draw: None })
    } else if bytes.len() == 49 && bytes[0] == 3 {
        let ckpt_ref: [u8; 32] = copy_array::<32>(bytes, 1);
        let p: u128 = be_decode(bytes, 33, 49);
        proof {
            lemma_be_value_round_trip(bytes@.subrange(33, 49));
            assert(seq![3u8] + ckpt_ref@ + be_bytes(p as nat, 16) =~= bytes@);
        }
        Some(ChainState::Reconciled { pending_draw: Some((ckpt_ref, p)) })
    } else {
        None
    }
}

/// A terminal disposition is determined by its record, so that a restart
/// restores it exactly.
pub proof fn law_disposition_record_injective(a: ChainState, b: ChainState)
    requires
        a !is Pending,
        b !is Pending,
        disp_bytes(a) == disp_bytes(b),
    ensures
        a == b,
{
    lemma_pow256_values();
    match a {
        ChainState::Committed { successor } => {
            assert(disp_bytes(a)[0] == 1);
            match b {
                ChainState::Committed { successor: other } => {
                    assert(disp_bytes(a).skip(1) =~= successor@);
                    assert(disp_bytes(b).skip(1) =~= other@);
                    assert(successor =~= other) by {
                        assert forall|i: int| 0 <= i < 8 implies successor[i] == other[i] by {
                            assert(successor@[i] == other@[i]);
                        }
                    }
                },
                ChainState::Reconciled { pending_draw: None } => {
                    assert(disp_bytes(b)[0] == 2);
                },
                ChainState::Reconciled { pending_draw: Some((k, p)) } => {
                    assert(disp_bytes(b)[0] == 3);
                },
                ChainState::Pending => {},
            }
        },
        ChainState::Reconciled { pending_draw: None } => {
            assert(disp_bytes(a)[0] == 2);
            match b {
                ChainState::Committed { successor: other } => {
                    assert(disp_bytes(b)[0] == 1);
                },
                ChainState::Reconciled { pending_draw: Some((k, p)) } => {
                    assert(disp_bytes(b)[0] == 3);
                },
                _ => {},
            }
        },
        ChainState::Reconciled { pending_draw: Some((k, p)) } => {
            assert(disp_bytes(a)[0] == 3);
            match b {
                ChainState::Committed { successor: other } => {
                    assert(disp_bytes(b)[0] == 1);
                },
                ChainState::Reconciled { pending_draw: None } => {
                    assert(disp_bytes(b)[0] == 2);
                },
                ChainState::Reconciled { pending_draw: Some((l, q)) } => {
                    lemma_be_round_trip(p as nat, 16);
                    lemma_be_round_trip(q as nat, 16);
                    assert(disp_bytes(a).subrange(1, 33) =~= k@);
                    assert(disp_bytes(b).subrange(1, 33) =~= l@);
                    assert(disp_bytes(a).skip(33) =~= be_bytes(p as nat, 16));
                    assert(disp_bytes(b).skip(33) =~= be_bytes(q as nat, 16));
                    assert(k =~= l) by {
                        assert forall|i: int| 0 <= i < 32 implies k[i] == l[i] by {
                            assert(k@[i] == l@[i]);
                        }
                    }
                },
                ChainState::Pending => {},
            }
        },
        ChainState::Pending => {},
    }
}

} // verus!
