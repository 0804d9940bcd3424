//! Which message goes where, and what a stranger is told.

use vstd::prelude::*;

use crate::bytes::copy_range;
use crate::carriage::open::T_CHANNEL_ACK;
use crate::carriage::{framed, framed_bytes, Carriage, CarriageError, Response};
use crate::channel::served;
use crate::one_decision::OneDecisionStore;

verus! {

/// A control message that the channel resource takes.
#[derive(Debug, Clone, Copy, PartialEq, Eq, Structural)]
pub enum Inbound {
    Open,
    CheckpointRequest,
    Funding,
    Propose,
    Proof,
    Close,
}

/// Why the metering engine refused a batch of slices.
#[derive(Debug, Clone, Copy, PartialEq, Eq, Structural)]
pub enum AcceptError {
    BadMac,
    SeqInvalid,
    WindowExceeded,
    EvidenceRequired,
    NotOpen,
}

/// Where a type octet leads on the channel resource. Acknowledgments are asked for
/// elsewhere, and what the merchant itself sends is never taken.
pub open spec fn channel_route(octet: u8) -> Result<Inbound, CarriageError> {
    if octet == 0x01 {
        Ok(Inbound::Open)
    } else if octet == 0x03 {
        Ok(Inbound::CheckpointRequest)
    } else if octet == 0x05 {
        Ok(Inbound::Funding)
    } else if octet == 0x06 {
        Ok(Inbound::Propose)
    } else if octet == 0x07 {
        Ok(Inbound::Proof)
    } else if octet == 0x09 {
        Ok(Inbound::Close)
    } else if octet == 0x04 || octet == 0x08 {
        Err(CarriageError::Unsupported)
    } else if octet == 0x02 || octet == 0x0a {
        Err(CarriageError::Misrouted)
    } else {
        Err(CarriageError::UnknownType)
    }
}

fn route_octet(octet: u8) -> (r: Result<Inbound, CarriageError>)
    ensures
        r == channel_route(octet),
{
    match octet {
        0x01 => Ok(Inbound::Open),
        0x03 => Ok(Inbound::CheckpointRequest),
        0x05 => Ok(Inbound::Funding),
        0x06 => Ok(Inbound::Propose),
        0x07 => Ok(Inbound::Proof),
        0x09 => Ok(Inbound::Close),
        0x04 | 0x08 => Err(CarriageError::Unsupported),
        0x02 | 0x0a => Err(CarriageError::Misrouted),
        _ => Err(CarriageError::UnknownType),
    }
}

/// What a refused batch is answered: a slice that does not authenticate is told
/// nothing; a bound that an authentic slice hits is named.
pub fn map_accept_err(e: AcceptError) -> (r: CarriageError)
    ensures
        r == (match e {
            AcceptError::BadMac => CarriageError::Rejected,
            AcceptError::SeqInvalid => CarriageError::SeqInvalid,
            AcceptError::WindowExceeded => CarriageError::WindowExceeded,
            AcceptError::EvidenceRequired => CarriageError::EvidenceRequired,
            AcceptError::NotOpen => CarriageError::Closed,
        }),
{
    match e {
        AcceptError::BadMac => CarriageError::Rejected,
        AcceptError::SeqInvalid => CarriageError::SeqInvalid,
        AcceptError::WindowExceeded => CarriageError::WindowExceeded,
        AcceptError::EvidenceRequired => CarriageError::EvidenceRequired,
        AcceptError::NotOpen => CarriageError::Closed,
    }
}

impl<S: OneDecisionStore> Carriage<S> {
    /// Routes a body posted to the channel resource: its message, and the message's
    /// bytes.
    pub fn channel(body: &[u8]) -> (r: Result<(Inbound, Vec<u8>), CarriageError>)
        ensures
            if body@.len() == 0 {
                r == Err::<(Inbound, Vec<u8>), CarriageError>(CarriageError::UnknownType)
            } else {
                match channel_route(body@[0]) {
                    Ok(inbound) => r matches Ok((i, obj)) && i == inbound && obj@ == body@.skip(1),
                    Err(e) => r == Err::<(Inbound, Vec<u8>), CarriageError>(e),
                }
            },
    {
        let n: usize = body.len();
        if n == 0 {
            return Err(CarriageError::UnknownType);
        }
        match route_octet(body[0]) {
            Ok(inbound) => {
                let obj: Vec<u8> = copy_range(body, 1, n);
                assert(obj@ =~= body@.skip(1));
                Ok((inbound, obj))
            },
            Err(e) => Err(e),
        }
    }

    /// Routes a body posted to the acknowledgment resource, which takes one message
    /// only.
    pub fn ack(body: &[u8]) -> (r: Result<Vec<u8>, CarriageError>)
        ensures
            if body@.len() == 0 {
                r == Err::<Vec<u8>, CarriageError>(CarriageError::UnknownType)
            } else if body@[0] != 0x0a {
                r == Err::<Vec<u8>, CarriageError>(CarriageError::Misrouted)
            } else {
                r matches Ok(obj) && obj@ == body@.skip(1)
            },
    {
        let n: usize = body.len();
        if n == 0 {
            return Err(CarriageError::UnknownType);
        }
        if body[0] != 0x0a {
            return Err(CarriageError::Misrouted);
        }
        let obj: Vec<u8> = copy_range(body, 1, n);
        assert(obj@ =~= body@.skip(1));
        Ok(obj)
    }

    /// Answers an acknowledgment request; `signed` says whether it is signed by the
    /// channel's payer.
    pub fn serve_ack(&self, channel: &[u8; 8], timestamp: u64, signed: bool, now: u64) -> (r: Result<
        Response,
        CarriageError,
    >)
        ensures
            if served(self@.driver, *channel, timestamp, signed, now) {
                r matches Ok(Response::Message(m)) && m@ == framed_bytes(
                    T_CHANNEL_ACK,
                    self@.driver.retained[*channel].ack,
                )
            } else {
                r == Err::<Response, CarriageError>(CarriageError::Rejected)
            },
    {
        match self.driver.serve_ack_request(channel, timestamp, signed, now) {
            Some(ack) => Ok(Response::Message(framed(T_CHANNEL_ACK, ack.as_slice()))),
            None => Err(CarriageError::Rejected),
        }
    }

    /// The channel that a batch of slices is for. `head` is the channel that the
    /// batch names, and `slices` the number of its slices, where each parses. A
    /// batch that does not parse is told so whether or not its channel exists.
    pub fn batch(&self, head: &Option<[u8; 8]>, slices: &Option<usize>) -> (r: Result<[u8; 8], CarriageError>)
        ensures
            match (*head, *slices) {
                (Some(channel), Some(n)) => if n == 0 {
                    r == Err::<[u8; 8], CarriageError>(CarriageError::Malformed)
                } else if self@.channels.dom().contains(channel) {
                    r == Ok::<[u8; 8], CarriageError>(channel)
                } else {
                    r == Err::<[u8; 8], CarriageError>(CarriageError::Rejected)
                },
                _ => r == Err::<[u8; 8], CarriageError>(CarriageError::Malformed),
            },
    {
        match (head, slices) {
            (Some(channel), Some(n)) => {
                if *n == 0 {
                    Err(CarriageError::Malformed)
                } else if self.channels.contains(channel) {
                    Ok(*channel)
                } else {
                    Err(CarriageError::Rejected)
                }
            },
            _ => Err(CarriageError::Malformed),
        }
    }

    /// What a batch is answered once the metering engine took it or refused it.
    pub fn batch_reply(refused: Option<AcceptError>) -> (r: Result<Response, CarriageError>)
        ensures
            match refused {
                None => r == Ok::<Response, CarriageError>(Response::Accepted),
                Some(AcceptError::BadMac) => r == Err::<Response, CarriageError>(CarriageError::Rejected),
                Some(AcceptError::SeqInvalid) => r == Err::<Response, CarriageError>(
                    CarriageError::SeqInvalid,
                ),
                Some(AcceptError::WindowExceeded) => r == Err::<Response, CarriageError>(
                    CarriageError::WindowExceeded,
                ),
                Some(AcceptError::EvidenceRequired) => r == Err::<Response, CarriageError>(
                    CarriageError::EvidenceRequired,
                ),
                Some(AcceptError::NotOpen) => r == Err::<Response, CarriageError>(CarriageError::Closed),
            },
    {
        match refused {
            None => Ok(Response::Accepted),
            Some(e) => Err(map_accept_err(e)),
        }
    }
}

/// Six kinds of message are taken in, each by an octet of its own; the merchant's own replies
/// are unsupported, what belongs to establishment is misrouted, and no other octet is known.
pub proof fn law_each_request_has_its_octet(a: u8, b: u8)
    ensures
        channel_route(a) is Ok && channel_route(a) == channel_route(b) ==> a == b,
        channel_route(a) is Ok <==> a == 1 || a == 3 || a == 5 || a == 6 || a == 7 || a == 9,
        channel_route(a) == Err::<Inbound, CarriageError>(CarriageError::Unsupported) <==> a == 4 || a == 8,
        channel_route(a) == Err::<Inbound, CarriageError>(CarriageError::Misrouted) <==> a == 2 || a == 10,
        channel_route(a) == Err::<Inbound, CarriageError>(CarriageError::UnknownType) <==> a == 0 || a > 10,
{
}

} // verus!
