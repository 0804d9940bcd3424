//! Checkpoints: the merchant countersigns a metering that follows from its own
//! books, and holds later settlement to it.

use vstd::prelude::*;

use crate::bignat::BigNat;
use crate::bytes::{copy_bytes, same_array};
use crate::carriage::{
    bytes_option, framed, framed_bytes, Carriage, CarriageError, CarriageView, Effect, Handled,
    Operative, OperativeView, Response,
};
use crate::meed::{copy_rows, rows_nat};
use crate::one_decision::OneDecisionStore;

verus! {

/// The type octet of a checkpoint.
pub const T_CHECKPOINT: u8 = 0x04;

/// A proposed checkpoint with the merchant's signature added.
#[derive(Debug)]
pub struct Countersigned {
    /// Its reference, where it can be formed.
    pub reference: Option<[u8; 32]>,
    /// Its encoding, where it can be formed.
    pub encoded: Option<Vec<u8>>,
}

/// A request to countersign a checkpoint, and what the caller found out about it.
#[derive(Debug)]
pub struct CheckpointRequest {
    pub channel_id: [u8; 8],
    pub cum_total: BigNat,
    pub accruals: Vec<(u8, BigNat)>,
    /// Whether both of the payer's signatures verify.
    pub verified: bool,
    /// Whether the metering engine computes the same metering.
    pub recomputes: bool,
    /// The checkpoint with the merchant's signature, where it can be signed.
    pub countersigned: Option<Countersigned>,
}

/// The checkpoint that a request proposes, as the merchant countersigned it.
pub open spec fn operative_of(
    req: CheckpointRequest,
    reference: [u8; 32],
    encoded: Option<Vec<u8>>,
) -> OperativeView {
    OperativeView {
        ckpt_ref: reference,
        cum_total: req.cum_total@,
        accruals: rows_nat(req.accruals@),
        encoded: bytes_option(encoded),
    }
}

/// Whether a request can be considered: a known channel's, under its payer's
/// signatures.
pub open spec fn requestable(v: CarriageView, req: CheckpointRequest) -> bool {
    &&& v.driver.retained.dom().contains(req.channel_id)
    &&& req.verified
    &&& v.channels.dom().contains(req.channel_id)
}

/// Whether a request proposes the checkpoint that is operative already, so that the
/// answer to it was lost.
pub open spec fn repeats(v: CarriageView, req: CheckpointRequest) -> bool {
    &&& v.operative.dom().contains(req.channel_id)
    &&& req.countersigned is Some
    &&& (req.countersigned->0).reference == Some(v.operative[req.channel_id].ckpt_ref)
}

/// The carriage once a request is answered: a metering that recomputes becomes the
/// operative checkpoint.
pub open spec fn checkpointed(v: CarriageView, req: CheckpointRequest) -> CarriageView {
    match req.countersigned {
        Some(c) if requestable(v, req) && req.recomputes => match c.reference {
            Some(reference) => CarriageView {
                operative: v.operative.insert(req.channel_id, operative_of(req, reference, c.encoded)),
                ..v
            },
            None => v,
        },
        _ => v,
    }
}

/// Whether `reply` carries `encoded` as a checkpoint, or says that it cannot be
/// encoded.
pub open spec fn checkpoint_reply(
    reply: Result<Response, CarriageError>,
    encoded: Option<Vec<u8>>,
) -> bool {
    match encoded {
        Some(bytes) => reply matches Ok(Response::Message(m)) && m@ == framed_bytes(T_CHECKPOINT, bytes@),
        None => reply == Err::<Response, CarriageError>(CarriageError::Malformed),
    }
}

/// The merchant's own checkpoint of a channel, where it holds one.
pub open spec fn own_checkpoint(v: CarriageView, channel: [u8; 8]) -> Option<Seq<u8>> {
    if v.operative.dom().contains(channel) {
        v.operative[channel].encoded
    } else {
        None
    }
}

/// Whether `reply` says that a request does not follow from the books, and carries the
/// merchant's own checkpoint.
pub open spec fn mismatch_reply(reply: Result<Response, CarriageError>, own: Option<Seq<u8>>) -> bool {
    reply matches Err(CarriageError::StateMismatch(sent)) && bytes_option(sent) == own
}

fn copy_option(bytes: &Option<Vec<u8>>) -> (r: Option<Vec<u8>>)
    ensures
        bytes_option(r) == bytes_option(*bytes),
{
    match bytes {
        Some(b) => Some(copy_bytes(b.as_slice())),
        None => None,
    }
}

fn reply_with(encoded: &Option<Vec<u8>>) -> (r: Result<Response, CarriageError>)
    ensures
        checkpoint_reply(r, *encoded),
{
    match encoded {
        Some(bytes) => Ok(Response::Message(framed(T_CHECKPOINT, bytes.as_slice()))),
        None => Err(CarriageError::Malformed),
    }
}

impl<S: OneDecisionStore> Carriage<S> {
    /// Answers a checkpoint request. One that does not follow from the books is
    /// answered with the merchant's own checkpoint, where it holds one.
    pub fn on_checkpoint_request(&mut self, req: &CheckpointRequest) -> (r: Handled)
        requires
            old(self).wf(),
        ensures
            final(self).wf(),
            old(self).same_store(*final(self)),
            final(self)@ == checkpointed(old(self)@, *req),
            if !requestable(old(self)@, *req) {
                &&& r.reply == Err::<Response, CarriageError>(CarriageError::Rejected)
                &&& r.effect == Effect::Nothing
            } else if req.recomputes {
                match req.countersigned {
                    Some(c) => {
                        &&& r.effect == (Effect::RaiseFloor { channel: req.channel_id })
                        &&& c.reference is None ==> r.reply == Err::<Response, CarriageError>(
                            CarriageError::Malformed,
                        )
                        &&& c.reference is Some ==> checkpoint_reply(r.reply, c.encoded)
                    },
                    None => {
                        &&& r.reply == Err::<Response, CarriageError>(CarriageError::Malformed)
                        &&& r.effect == Effect::Nothing
                    },
                }
            } else if repeats(old(self)@, *req) {
                &&& r.effect == Effect::Nothing
                &&& checkpoint_reply(r.reply, (req.countersigned->0).encoded)
            } else {
                &&& r.effect == Effect::Nothing
                &&& mismatch_reply(r.reply, own_checkpoint(old(self)@, req.channel_id))
            },
    {
        if self.driver.payer_key(&req.channel_id).is_none() || !req.verified || !self.channels.contains(
            &req.channel_id,
        ) {
            return Handled { reply: Err(CarriageError::Rejected), effect: Effect::Nothing };
        }
        if req.recomputes {
            let c: &Countersigned = match &req.countersigned {
                Some(c) => c,
                None => return Handled {
                    reply: Err(CarriageError::Malformed),
                    effect: Effect::Nothing,
                },
            };
            let effect: Effect = Effect::RaiseFloor { channel: req.channel_id };
            let reference: [u8; 32] = match c.reference {
                Some(reference) => reference,
                None => return Handled { reply: Err(CarriageError::Malformed), effect },
            };
            self.operative.insert(
                req.channel_id,
                Operative {
                    ckpt_ref: reference,
                    cum_total: req.cum_total.copy(),
                    accruals: copy_rows(&req.accruals),
                    encoded: copy_option(&c.encoded),
                },
            );
            return Handled { reply: reply_with(&c.encoded), effect };
        }
        if let (Some(op), Some(c)) = (self.operative.get(&req.channel_id), &req.countersigned) {
            let repeated: bool = match &c.reference {
                Some(reference) => same_array(reference, &op.ckpt_ref),
                None => false,
            };
            if repeated {
                return Handled { reply: reply_with(&c.encoded), effect: Effect::Nothing };
            }
        }
        let own: Option<Vec<u8>> = match self.operative.get(&req.channel_id) {
            Some(op) => copy_option(&op.encoded),
            None => None,
        };
        Handled { reply: Err(CarriageError::StateMismatch(own)), effect: Effect::Nothing }
    }
}

/// A checkpoint becomes operative exactly where the payer signed it, for a channel that is
/// known and metered, and the merchant's own metering computes the same: then its total, its
/// accruals and its reference are what later settlement is held to. Else nothing changes, and
/// never anything but the one channel's checkpoint.
pub proof fn law_only_a_recomputed_checkpoint_is_operative(
    v: CarriageView,
    req: CheckpointRequest,
    c: Countersigned,
    reference: [u8; 32],
)
    requires
        req.countersigned == Some(c),
        c.reference == Some(reference),
    ensures
        ({
            let after = checkpointed(v, req);
            let taken = req.verified && req.recomputes && v.driver.retained.dom().contains(req.channel_id)
                && v.channels.dom().contains(req.channel_id);
            &&& !taken ==> after == v
            &&& taken ==> {
                &&& after.operative.dom() == v.operative.dom().insert(req.channel_id)
                &&& after.operative[req.channel_id].ckpt_ref == reference
                &&& after.operative[req.channel_id].cum_total == req.cum_total@
                &&& after.operative[req.channel_id].accruals == rows_nat(req.accruals@)
            }
            &&& after == (CarriageView { operative: after.operative, ..v })
            &&& forall|other: [u8; 8]|
                other != req.channel_id && #[trigger] v.operative.dom().contains(other)
                    ==> after.operative[other] == v.operative[other]
        }),
{
    assert(checkpointed(v, req).operative.dom() =~= if requestable(v, req) && req.recomputes {
        v.operative.dom().insert(req.channel_id)
    } else {
        v.operative.dom()
    });
}

/// A checkpoint that was countersigned is known again: the same request, once its metering was
/// overtaken, repeats it, and one under another reference does not.
pub proof fn law_a_countersigned_checkpoint_is_known_again(
    v: CarriageView,
    req: CheckpointRequest,
    again: CheckpointRequest,
    c: Countersigned,
    reference: [u8; 32],
    d: Countersigned,
)
    requires
        req.countersigned == Some(c),
        c.reference == Some(reference),
        requestable(v, req),
        req.recomputes,
        again.channel_id == req.channel_id,
        again.countersigned == Some(d),
    ensures
        repeats(checkpointed(v, req), again) <==> d.reference == Some(reference),
        own_checkpoint(checkpointed(v, req), req.channel_id) == bytes_option(c.encoded),
{
}

/// A request whose checkpoint cannot be signed or named makes nothing operative.
pub proof fn law_an_unnamed_checkpoint_is_not_operative(v: CarriageView, req: CheckpointRequest)
    requires
        req.countersigned is None || (req.countersigned->0).reference is None,
    ensures
        checkpointed(v, req) == v,
{
}

/// A checkpoint is sent whole, behind its type octet, or the request is malformed where it
/// cannot be encoded; a request that does not follow from the books is answered with exactly
/// the checkpoint that the merchant holds.
pub proof fn law_a_checkpoint_is_sent_whole(
    reply: Result<Response, CarriageError>,
    bytes: Vec<u8>,
    own: Option<Seq<u8>>,
)
    ensures
        checkpoint_reply(reply, Some(bytes)) <==> (reply matches Ok(Response::Message(m)) && m@ == seq![0x04u8]
            + bytes@),
        checkpoint_reply(reply, None) <==> reply == Err::<Response, CarriageError>(CarriageError::Malformed),
        mismatch_reply(reply, own) ==> (reply matches Err(CarriageError::StateMismatch(sent)) && {
            &&& sent is Some == own is Some
            &&& sent matches Some(b) ==> Some(b@) == own
        }),
        reply == Err::<Response, CarriageError>(CarriageError::StateMismatch(Some(bytes))) ==> mismatch_reply(
            reply,
            Some(bytes@),
        ),
{
}

/// A request repeats a checkpoint exactly where the channel has an operative one, and the
/// request's own, countersigned, has that one's reference.
pub proof fn law_which_requests_repeat(v: CarriageView, req: CheckpointRequest)
    ensures
        repeats(v, req) <==> v.operative.dom().contains(req.channel_id) && (req.countersigned matches Some(c)
            && c.reference == Some(v.operative[req.channel_id].ckpt_ref)),
{
}

} // verus!
