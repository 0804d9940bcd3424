//! The exactly-once guards: consumed rail references and close dispositions, and
//! how they are restored from the store.

use vstd::prelude::*;
use vstd::utf8::{
    decode_utf8, decode_utf8_encode_utf8, encode_utf8_decode_utf8, valid_utf8,
};

use crate::bytes::copy_array;
use crate::carriage::{fresh, Carriage, CarriageView, ConfigError, Profile};
use crate::channel::{open_records_sound, records_open, ChannelDriver, ChannelError, DriverView};
use crate::disposition::{
    decode_disp, disp_bytes, disp_found, disp_of, encode_disp, law_disposition_read_back,
    read_disp, ChainState,
};
use crate::framing::MAX_FIELD;
use crate::keys::{
    chopen_ns, disp_key, disp_key_bytes, disp_ns, disp_prefix, fund_key, fund_key_bytes, fund_ns, fund_prefix,
    open_key_bytes, strip_prefix, stripped,
};
use crate::medium::LogMedium;
use crate::one_decision::{
    claim, keeps, lists_all, lists_exactly, lists_truly, recordable, Decision, DurableOneDecision,
    OneDecisionStore, WalOneDecision,
};
use crate::rail::texts;
use crate::text::text_from_utf8;

verus! {

/// What claiming a rail reference gave.
#[must_use]
#[derive(Debug, Clone, Copy, PartialEq, Eq, Structural)]
pub enum ConsumeOutcome {
    /// The first claim: credit the transfer, this once.
    First,
    /// The reference was claimed before: credit nothing, and acknowledge.
    Duplicate,
    /// The claim could not be recorded: nothing was claimed, and the caller
    /// refuses.
    Failed,
}

/// A channel identifier that `bytes` spell.
pub open spec fn channel_of(bytes: Seq<u8>) -> Option<[u8; 8]> {
    if exists|c: [u8; 8]| #[trigger] c@ == bytes {
        Some(choose|c: [u8; 8]| #[trigger] c@ == bytes)
    } else {
        None
    }
}

/// Whether a stored decision is no guard, or a sound one.
pub open spec fn guard_sound(key: Seq<u8>, value: Seq<u8>) -> bool {
    match stripped(key, fund_ns()) {
        Some(text) => valid_utf8(text) && value.len() == 0,
        None => match stripped(key, disp_ns()) {
            Some(bytes) => channel_of(bytes) is Some && disp_of(value) is Some,
            None => true,
        },
    }
}

/// The carriage once a stored decision was taken over; one that is unsound
/// changes nothing.
pub open spec fn guard_replayed(v: CarriageView, key: Seq<u8>, value: Seq<u8>) -> CarriageView {
    if !guard_sound(key, value) {
        v
    } else {
        match stripped(key, fund_ns()) {
            Some(text) => CarriageView { consumed: v.consumed.insert(decode_utf8(text)), ..v },
            None => match stripped(key, disp_ns()) {
                Some(bytes) => CarriageView {
                    chain: v.chain.insert(channel_of(bytes)->0, disp_of(value)->0),
                    ..v
                },
                None => v,
            },
        }
    }
}

/// The carriage once every stored decision was taken over, in turn.
pub open spec fn guards_replayed(v: CarriageView, rows: Seq<(Vec<u8>, Vec<u8>)>) -> CarriageView
    decreases rows.len(),
{
    if rows.len() == 0 {
        v
    } else {
        guard_replayed(guards_replayed(v, rows.drop_last()), rows.last().0@, rows.last().1@)
    }
}

/// Whether every stored decision is sound.
pub open spec fn guards_sound(rows: Seq<(Vec<u8>, Vec<u8>)>) -> bool {
    forall|i: int| 0 <= i < rows.len() ==> guard_sound((#[trigger] rows[i]).0@, rows[i].1@)
}

/// Whether the decision at `n` is the first that is unsound.
pub open spec fn first_unsound(rows: Seq<(Vec<u8>, Vec<u8>)>, n: int) -> bool {
    &&& 0 <= n < rows.len()
    &&& !guard_sound(rows[n].0@, rows[n].1@)
    &&& guards_sound(rows.take(n))
}

/// The carriage after a rail reference was claimed.
pub open spec fn claimed(v: CarriageView, canonical: Seq<char>, outcome: ConsumeOutcome) -> CarriageView {
    match outcome {
        ConsumeOutcome::Failed => v,
        _ => CarriageView { consumed: v.consumed.insert(canonical), ..v },
    }
}

/// What a store's answer to the claim of a rail reference means.
pub open spec fn outcome_of(decision: Decision) -> ConsumeOutcome {
    match decision {
        Decision::Fresh => ConsumeOutcome::First,
        Decision::AlreadyDecided(_) => ConsumeOutcome::Duplicate,
        Decision::Failed => ConsumeOutcome::Failed,
    }
}

/// The driver with the identifiers that `rows` record as accepted.
pub open spec fn with_tombstones(d: DriverView, rows: Seq<(Vec<u8>, Vec<u8>)>) -> DriverView {
    DriverView {
        tombstones: Set::new(|c: [u8; 8]| d.tombstones.contains(c) || records_open(rows, c)),
        ..d
    }
}

proof fn lemma_channel_of(c: [u8; 8])
    ensures
        channel_of(c@) == Some(c),
{
    let other = channel_of(c@)->0;
    assert(other@ == c@);
    assert forall|i: int| 0 <= i < 8 implies other[i] == c[i] by {
        assert(other@[i] == c@[i]);
    }
    assert(other =~= c);
}

impl<S: OneDecisionStore> Carriage<S> {
    /// Takes over the guards among the stored decisions in `rows`. A strict
    /// carriage refuses an unsound one: a disposition that is forgotten could be
    /// decided again.
    pub fn replay_guards(&mut self, rows: &Vec<(Vec<u8>, Vec<u8>)>, strict: bool) -> (r: Result<(), ConfigError>)
        requires
            old(self).wf(),
        ensures
            final(self).wf(),
            old(self).same_store(*final(self)),
            match r {
                Ok(_) => {
                    &&& strict ==> guards_sound(rows@)
                    &&& final(self)@ == guards_replayed(old(self)@, rows@)
                },
                Err(e) => {
                    &&& strict
                    &&& e == ConfigError::DecisionLog
                    &&& exists|n: int| #[trigger]
                        first_unsound(rows@, n) && final(self)@ == guards_replayed(old(self)@, rows@.take(n))
                },
            },
    {
        let fund: Vec<u8> = fund_prefix();
        let disp: Vec<u8> = disp_prefix();
        let mut i: usize = 0;
        assert(rows@.take(0) =~= Seq::empty());
        while i < rows.len()
            invariant
                i <= rows@.len(),
                fund@ == fund_ns(),
                disp@ == disp_ns(),
                self.wf(),
                old(self).same_store(*self),
                self@ == guards_replayed(old(self)@, rows@.take(i as int)),
                strict ==> forall|j: int|
                    0 <= j < i ==> guard_sound((#[trigger] rows@[j]).0@, rows@[j].1@),
            decreases rows@.len() - i,
        {
            let ghost before: CarriageView = self@;
            let key: &Vec<u8> = &rows[i].0;
            let value: &Vec<u8> = &rows[i].1;
            let sound: bool = self.replay_guard(key, value, &fund, &disp);
            if strict && !sound {
                assert(first_unsound(rows@, i as int));
                return Err(ConfigError::DecisionLog);
            }
            proof {
                let seen = rows@.take(i + 1);
                assert(seen.drop_last() =~= rows@.take(i as int));
                assert(seen.last() == rows@[i as int]);
            }
            i = i + 1;
        }
        assert(rows@.take(rows@.len() as int) =~= rows@);
        Ok(())
    }

    fn replay_guard(
        &mut self,
        key: &Vec<u8>,
        value: &Vec<u8>,
        fund: &Vec<u8>,
        disp: &Vec<u8>,
    ) -> (sound: bool)
        requires
            old(self).wf(),
            fund@ == fund_ns(),
            disp@ == disp_ns(),
        ensures
            final(self).wf(),
            old(self).same_store(*final(self)),
            sound == guard_sound(key@, value@),
            final(self)@ == guard_replayed(old(self)@, key@, value@),
    {
        if let Some(text) = strip_prefix(key, fund) {
            if value.len() != 0 {
                return false;
            }
            return match text_from_utf8(text) {
                Some(s) => {
                    let _ = self.consumed_funding.insert(s);
                    true
                },
                None => false,
            };
        }
        if let Some(bytes) = strip_prefix(key, disp) {
            if bytes.len() != 8 {
                assert(channel_of(bytes@) is None);
                return false;
            }
            let channel: [u8; 8] = copy_array::<8>(bytes.as_slice(), 0);
            proof {
                assert(channel@ =~= bytes@);
                lemma_channel_of(channel);
            }
            return match decode_disp(value.as_slice()) {
                Some(state) => {
                    self.chain_state.insert(channel, state);
                    true
                },
                None => false,
            };
        }
        true
    }

    /// Attaches a store to a demonstration carriage, and takes over what it
    /// holds. What is unsound there is passed over.
    pub fn with_decisions(self, store: S) -> (c: Self)
        requires
            self.wf(),
            store.wf(),
        ensures
            c.wf(),
            c.store() == Some(store),
            exists|rows: Seq<(Vec<u8>, Vec<u8>)>|
                {
                    &&& #[trigger] store.listed(rows)
                    &&& lists_all(rows, store.recorded())
                    &&& lists_truly(rows, store.recorded())
                    &&& c@ == guards_replayed(self@, rows)
                },
    {
        let rows: Vec<(Vec<u8>, Vec<u8>)> = store.entries();
        let mut c: Self = self;
        let _ = c.replay_guards(&rows, false);
        c.decisions = Some(store);
        assert(c@ == guards_replayed(self@, rows@));
        c
    }

    /// Whether `r` is what claiming a rail reference in the store gave, and `after` the
    /// carriage with the store as it is then.
    pub open spec fn ref_asked(&self, canonical: Seq<char>, after: Self, r: Decision) -> bool {
        self.asked(fund_key_bytes(canonical), Seq::empty(), after, r)
    }

    /// Whether claiming a rail reference gave `outcome`, and `after` the carriage then:
    /// with a store its answer counts, without one the carriage's own record does.
    pub open spec fn ref_claimed(&self, canonical: Seq<char>, after: Self, outcome: ConsumeOutcome) -> bool {
        &&& after@ == claimed(self@, canonical, outcome)
        &&& if self.stored() {
            exists|decision: Decision| #[trigger]
                self.ref_asked(canonical, after, decision) && outcome == outcome_of(decision)
        } else {
            &&& self.same_store(after)
            &&& outcome == (if self@.consumed.contains(canonical) {
                ConsumeOutcome::Duplicate
            } else {
                ConsumeOutcome::First
            })
        }
    }

    /// Claims a rail reference. With a store its answer counts, so that the
    /// claim holds across restarts; without one the carriage's own record does.
    pub fn consume_ref(&mut self, canonical: &String) -> (outcome: ConsumeOutcome)
        requires
            old(self).wf(),
        ensures
            final(self).wf(),
            final(self).stored() == old(self).stored(),
            keeps(old(self).recorded(), final(self).recorded()),
            old(self).ref_claimed(canonical@, *final(self), outcome),
            old(self).stored() ==> match outcome {
                ConsumeOutcome::First => {
                    &&& !old(self).recorded().dom().contains(fund_key_bytes(canonical@))
                    &&& final(self).recorded().contains_pair(
                        fund_key_bytes(canonical@),
                        Seq::empty(),
                    )
                },
                ConsumeOutcome::Duplicate => final(self).recorded().dom().contains(
                    fund_key_bytes(canonical@),
                ),
                ConsumeOutcome::Failed => true,
            },
    {
        if self.decisions.is_none() {
            return if self.consumed_funding.insert(canonical.clone()) {
                ConsumeOutcome::First
            } else {
                assert(self@.consumed =~= claimed(old(self)@, canonical@, ConsumeOutcome::Duplicate).consumed);
                ConsumeOutcome::Duplicate
            };
        }
        let key: Vec<u8> = fund_key(canonical.as_str());
        let empty: Vec<u8> = Vec::new();
        let decision: Decision = claim(&mut self.decisions, &key, &empty);
        assert(empty@ =~= Seq::empty());
        assert(self@ == old(self)@);
        let outcome: ConsumeOutcome = self.ref_decided(&decision, canonical);
        assert(old(self).ref_asked(canonical@, *self, decision));
        outcome
    }

    /// Takes over a store's answer to the claim of a rail reference: a first claim and
    /// a duplicate both leave it consumed, and one that could not be recorded leaves it
    /// as it was, to be claimed again.
    pub fn ref_decided(&mut self, decision: &Decision, canonical: &String) -> (outcome: ConsumeOutcome)
        requires
            old(self).wf(),
        ensures
            final(self).wf(),
            old(self).same_store(*final(self)),
            outcome == outcome_of(*decision),
            final(self)@ == claimed(old(self)@, canonical@, outcome),
    {
        match decision {
            Decision::Fresh => {
                let _ = self.consumed_funding.insert(canonical.clone());
                ConsumeOutcome::First
            },
            Decision::AlreadyDecided(_) => {
                let _ = self.consumed_funding.insert(canonical.clone());
                ConsumeOutcome::Duplicate
            },
            Decision::Failed => ConsumeOutcome::Failed,
        }
    }

    /// Records the terminal disposition of a channel in the store, where there is
    /// one.
    pub fn record_disposition(&mut self, channel: &[u8; 8], state: &ChainState) -> (r: Decision)
        requires
            old(self).wf(),
        ensures
            final(self).wf(),
            final(self).stored() == old(self).stored(),
            keeps(old(self).recorded(), final(self).recorded()),
            final(self)@ == old(self)@,
            old(self).asked(disp_key_bytes(*channel), disp_bytes(*state), *final(self), r),
            !old(self).stored() ==> r is Fresh && old(self).same_store(*final(self)),
            old(self).stored() ==> match r {
                Decision::Fresh => {
                    &&& !old(self).recorded().dom().contains(disp_key_bytes(*channel))
                    &&& final(self).recorded().contains_pair(
                        disp_key_bytes(*channel),
                        disp_bytes(*state),
                    )
                },
                Decision::AlreadyDecided(v) => final(self).recorded().contains_pair(
                    disp_key_bytes(*channel),
                    v@,
                ),
                Decision::Failed => true,
            },
    {
        let key: Vec<u8> = disp_key(channel);
        let value: Vec<u8> = encode_disp(state);
        let r: Decision = claim(&mut self.decisions, &key, &value);
        assert(self@ == old(self)@);
        r
    }

    /// The terminal disposition that the store holds of a channel.
    pub(crate) fn stored_disposition(&self, channel: &[u8; 8]) -> (r: Option<ChainState>)
        requires
            self.wf(),
        ensures
            exists|value: Option<Vec<u8>>| #[trigger]
                self.found(disp_key_bytes(*channel), value) && r == disp_found(value),
            !self.stored() ==> r is None,
            self.recorded().dom().contains(disp_key_bytes(*channel)) ==> r == disp_of(
                self.recorded()[disp_key_bytes(*channel)],
            ),
            r matches Some(state) ==> state !is Pending,
    {
        let value: Option<Vec<u8>> = match &self.decisions {
            Some(store) => {
                let key: Vec<u8> = disp_key(channel);
                store.get(key.as_slice())
            },
            None => None,
        };
        assert(self.found(disp_key_bytes(*channel), value));
        read_disp(&value)
    }
}

impl<S: DurableOneDecision> Carriage<S> {
    /// A carriage that moves money: the rail, given by its finality levels, and a
    /// durable store are there from the start, and every guard that the store
    /// holds is taken over. A corrupt record stops it.
    pub fn durable(driver: ChannelDriver, levels: Vec<String>, store: S) -> (r: Result<Self, ConfigError>)
        requires
            store.wf(),
        ensures
            match r {
                Ok(c) => {
                    &&& openings_sound(store.recorded())
                    &&& records_sound(store.recorded())
                    &&& c.wf()
                    &&& c.store() == Some(store)
                    &&& c@ == taken_over(driver@, texts(levels@), store.recorded())
                },
                Err(ConfigError::Retention(e)) => e == ChannelError::StoreUnavailable && !openings_sound(
                    store.recorded(),
                ),
                Err(ConfigError::DecisionLog) => openings_sound(store.recorded()) && !records_sound(
                    store.recorded(),
                ),
            },
    {
        let rows: Vec<(Vec<u8>, Vec<u8>)> = store.entries();
        proof {
            store.lists_what_it_holds(rows@);
            law_restart_takes_over_the_record(driver@, texts(levels@), rows@, store.recorded());
        }
        Self::restore(driver, levels, store, &rows)
    }

    /// A carriage that moves money, restored from the stored decisions in `rows`.
    pub fn restore(
        driver: ChannelDriver,
        levels: Vec<String>,
        store: S,
        rows: &Vec<(Vec<u8>, Vec<u8>)>,
    ) -> (r: Result<Self, ConfigError>)
        requires
            store.wf(),
        ensures
            match r {
                Ok(c) => {
                    &&& c.wf()
                    &&& c.store() == Some(store)
                    &&& open_records_sound(rows@)
                    &&& guards_sound(rows@)
                    &&& c@ == restored(driver@, texts(levels@), rows@)
                },
                Err(ConfigError::Retention(e)) => e == ChannelError::StoreUnavailable
                    && !open_records_sound(rows@),
                Err(ConfigError::DecisionLog) => open_records_sound(rows@) && !guards_sound(rows@),
            },
    {
        let mut driver: ChannelDriver = driver;
        let ghost bare: DriverView = driver@;
        if let Err(e) = driver.attach_decisions(rows) {
            return Err(ConfigError::Retention(e));
        }
        proof {
            assert(driver@.tombstones =~= with_tombstones(bare, rows@).tombstones);
        }
        let mut c: Carriage<S> = Self::empty(driver, Profile::Proof, Some(levels));
        match c.replay_guards(rows, true) {
            Ok(_) => {},
            Err(e) => return Err(e),
        }
        c.decisions = Some(store);
        assert(c@ == restored(bare, texts(levels@), rows@));
        Ok(c)
    }
}

/// The carriage that the stored decisions in `rows` restore.
pub open spec fn restored(
    driver: DriverView,
    levels: Seq<Seq<char>>,
    rows: Seq<(Vec<u8>, Vec<u8>)>,
) -> CarriageView {
    guards_replayed(fresh(with_tombstones(driver, rows), Profile::Proof, Some(levels)), rows)
}

/// Whether every acceptance among the decisions names a channel.
pub open spec fn openings_sound(recorded: Map<Seq<u8>, Seq<u8>>) -> bool {
    forall|key: Seq<u8>| #[trigger]
        recorded.dom().contains(key) ==> (stripped(key, chopen_ns()) matches Some(rest) ==> rest.len() == 8)
}

/// Whether every guard among the decisions is sound.
pub open spec fn records_sound(recorded: Map<Seq<u8>, Seq<u8>>) -> bool {
    forall|key: Seq<u8>| #[trigger] recorded.dom().contains(key) ==> guard_sound(key, recorded[key])
}

/// The carriage that takes over the decisions of a store: it knows every accepted
/// channel, every consumed reference and every disposition that is recorded, and no
/// other.
pub open spec fn taken_over(
    driver: DriverView,
    levels: Seq<Seq<char>>,
    recorded: Map<Seq<u8>, Seq<u8>>,
) -> CarriageView {
    let tombstones = Set::new(
        |c: [u8; 8]| driver.tombstones.contains(c) || recorded.dom().contains(open_key_bytes(c)),
    );
    CarriageView {
        consumed: Set::new(|text: Seq<char>| recorded.dom().contains(fund_key_bytes(text))),
        chain: Map::new(
            |c: [u8; 8]| recorded.dom().contains(disp_key_bytes(c)),
            |c: [u8; 8]| disp_of(recorded[disp_key_bytes(c)])->0,
        ),
        ..fresh(DriverView { tombstones, ..driver }, Profile::Proof, Some(levels))
    }
}

proof fn lemma_guards_consumed(v: CarriageView, rows: Seq<(Vec<u8>, Vec<u8>)>, text: Seq<char>)
    requires
        guards_sound(rows),
    ensures
        guards_replayed(v, rows).consumed.contains(text) <==> v.consumed.contains(text) || exists|i: int|
            0 <= i < rows.len() && (#[trigger] rows[i]).0@ == fund_key_bytes(text),
    decreases rows.len(),
{
    if rows.len() > 0 {
        let rest = rows.drop_last();
        let n = rows.len() - 1;
        assert forall|i: int| 0 <= i < rest.len() implies guard_sound((#[trigger] rest[i]).0@, rest[i].1@) by {
            assert(rest[i] == rows[i]);
        }
        lemma_guards_consumed(v, rest, text);
        assert(guard_sound(rows[n].0@, rows[n].1@));
        let key = rows[n].0@;
        let hit = stripped(key, fund_ns()) matches Some(bytes) && decode_utf8(bytes) == text;
        assert(hit == (key == fund_key_bytes(text))) by {
            encode_utf8_decode_utf8(text);
            if hit {
                let bytes = stripped(key, fund_ns())->0;
                decode_utf8_encode_utf8(bytes);
                assert(key =~= fund_ns() + bytes);
            }
            if key == fund_key_bytes(text) {
                assert(key.take(5) =~= fund_ns());
                assert(key.skip(5) =~= vstd::utf8::encode_utf8(text));
            }
        }
        if exists|i: int| 0 <= i < rows.len() && (#[trigger] rows[i]).0@ == fund_key_bytes(text) {
            let i = choose|i: int| 0 <= i < rows.len() && (#[trigger] rows[i]).0@ == fund_key_bytes(text);
            if i < n {
                assert(rest[i].0@ == fund_key_bytes(text));
            }
        }
        if exists|i: int| 0 <= i < rest.len() && (#[trigger] rest[i]).0@ == fund_key_bytes(text) {
            let i = choose|i: int| 0 <= i < rest.len() && (#[trigger] rest[i]).0@ == fund_key_bytes(text);
            assert(rows[i].0@ == fund_key_bytes(text));
        }
    }
}

proof fn lemma_guards_chain(v: CarriageView, rows: Seq<(Vec<u8>, Vec<u8>)>, i: int, channel: [u8; 8])
    requires
        guards_sound(rows),
        0 <= i < rows.len(),
        rows[i].0@ == disp_key_bytes(channel),
    ensures
        guards_replayed(v, rows).chain.dom().contains(channel),
{
    let key = rows[i].0@;
    assert(key.take(5) =~= disp_ns());
    assert(stripped(key, fund_ns()) is None) by {
        assert(key.take(5)[0] == 0x64);
        assert(fund_ns()[0] == 0x66);
    }
    assert(key.skip(5) =~= channel@);
    lemma_channel_of(channel);
    assert(guard_sound(rows[i].0@, rows[i].1@));
    lemma_guards_keep(v, rows, i);
}

/// Where `rows` lists the decisions of a store, each once and nothing else, the order
/// does not matter: what a restart refuses, and what it takes over, is settled by the
/// decisions alone.
pub proof fn law_restart_takes_over_the_record(
    driver: DriverView,
    levels: Seq<Seq<char>>,
    rows: Seq<(Vec<u8>, Vec<u8>)>,
    recorded: Map<Seq<u8>, Seq<u8>>,
)
    requires
        lists_exactly(rows, recorded),
    ensures
        open_records_sound(rows) == openings_sound(recorded),
        guards_sound(rows) == records_sound(recorded),
        guards_sound(rows) ==> restored(driver, levels, rows) == taken_over(driver, levels, recorded),
{
    assert forall|i: int| 0 <= i < rows.len() implies recorded.dom().contains((#[trigger] rows[i]).0@)
        && recorded[rows[i].0@] == rows[i].1@ by {
        assert(recorded.contains_pair(rows[i].0@, rows[i].1@));
    }
    if open_records_sound(rows) {
        assert forall|key: Seq<u8>| #[trigger] recorded.dom().contains(key) implies (stripped(key, chopen_ns()) matches Some(
            rest,
        ) ==> rest.len() == 8) by {
            let i = choose|i: int| 0 <= i < rows.len() && #[trigger] rows[i].0@ == key && rows[i].1@ == recorded[key];
            assert(rows[i].0@ == key);
        }
    }
    if guards_sound(rows) {
        assert forall|key: Seq<u8>| #[trigger] recorded.dom().contains(key) implies guard_sound(
            key,
            recorded[key],
        ) by {
            let i = choose|i: int| 0 <= i < rows.len() && #[trigger] rows[i].0@ == key && rows[i].1@ == recorded[key];
            assert(guard_sound(rows[i].0@, rows[i].1@));
        }
        let start = fresh(with_tombstones(driver, rows), Profile::Proof, Some(levels));
        let after = guards_replayed(start, rows);
        let goal = taken_over(driver, levels, recorded);
        lemma_guards_rest(start, rows);
        assert forall|text: Seq<char>| after.consumed.contains(text) == goal.consumed.contains(text) by {
            lemma_guards_consumed(start, rows, text);
            if recorded.dom().contains(fund_key_bytes(text)) {
                let i = choose|i: int|
                    0 <= i < rows.len() && #[trigger] rows[i].0@ == fund_key_bytes(text) && rows[i].1@
                        == recorded[fund_key_bytes(text)];
                assert(rows[i].0@ == fund_key_bytes(text));
            }
        }
        assert(after.consumed =~= goal.consumed);
        assert forall|c: [u8; 8]|
            {
                &&& #[trigger] after.chain.dom().contains(c) == goal.chain.dom().contains(c)
                &&& after.chain.dom().contains(c) ==> after.chain[c] == goal.chain[c]
            } by {
            lemma_guards_value(start, rows, c);
            if recorded.dom().contains(disp_key_bytes(c)) {
                let i = choose|i: int|
                    0 <= i < rows.len() && #[trigger] rows[i].0@ == disp_key_bytes(c) && rows[i].1@
                        == recorded[disp_key_bytes(c)];
                lemma_guards_chain(start, rows, i, c);
            }
        }
        assert(after.chain.dom() =~= goal.chain.dom());
        assert(after.chain =~= goal.chain);
        assert forall|c: [u8; 8]| records_open(rows, c) == recorded.dom().contains(open_key_bytes(c)) by {
            if recorded.dom().contains(open_key_bytes(c)) {
                let i = choose|i: int|
                    0 <= i < rows.len() && #[trigger] rows[i].0@ == open_key_bytes(c) && rows[i].1@
                        == recorded[open_key_bytes(c)];
                assert(rows[i].0@ == open_key_bytes(c));
            }
        }
        assert(after.driver.tombstones =~= goal.driver.tombstones);
        assert(after =~= goal);
    }
}

/// A carriage over a healthy log is refused no claim that can be recorded: a free key is
/// fresh and is the one change, a taken one gives the value that stands and changes
/// nothing, and the log stays healthy.
pub proof fn law_healthy_log_decides<F: LogMedium>(
    c: Carriage<WalOneDecision<F>>,
    after: Carriage<WalOneDecision<F>>,
    key: Seq<u8>,
    value: Seq<u8>,
    r: Decision,
)
    requires
        c.store() is Some,
        c.store()->0.healthy(),
        recordable(key, value),
        c.asked(key, value, after, r),
    ensures
        after.store() is Some,
        after.store()->0.healthy(),
        c.recorded().dom().contains(key) ==> {
            &&& r matches Decision::AlreadyDecided(v) && v@ == c.recorded()[key]
            &&& after.recorded() == c.recorded()
        },
        !c.recorded().dom().contains(key) ==> {
            &&& r is Fresh
            &&& after.recorded() == c.recorded().insert(key, value)
        },
{
}

/// Over a healthy log a rail reference is credited on its first claim and on no other.
pub proof fn law_healthy_log_credits_once<F: LogMedium>(
    c: Carriage<WalOneDecision<F>>,
    after: Carriage<WalOneDecision<F>>,
    canonical: Seq<char>,
    r: Decision,
)
    requires
        c.store() is Some,
        c.store()->0.healthy(),
        fund_key_bytes(canonical).len() <= MAX_FIELD,
        c.ref_asked(canonical, after, r),
    ensures
        outcome_of(r) == (if c.recorded().dom().contains(fund_key_bytes(canonical)) {
            ConsumeOutcome::Duplicate
        } else {
            ConsumeOutcome::First
        }),
        after.store() is Some,
        after.store()->0.healthy(),
        after.recorded().dom() == c.recorded().dom().insert(fund_key_bytes(canonical)),
{
    law_healthy_log_decides(c, after, fund_key_bytes(canonical), Seq::empty(), r);
    assert(after.recorded().dom() =~= c.recorded().dom().insert(fund_key_bytes(canonical)));
}

proof fn lemma_guards_rest(v: CarriageView, rows: Seq<(Vec<u8>, Vec<u8>)>)
    ensures
        guards_replayed(v, rows) == (CarriageView {
            consumed: guards_replayed(v, rows).consumed,
            chain: guards_replayed(v, rows).chain,
            ..v
        }),
    decreases rows.len(),
{
    if rows.len() > 0 {
        lemma_guards_rest(v, rows.drop_last());
    }
}

proof fn lemma_guards_keep(v: CarriageView, rows: Seq<(Vec<u8>, Vec<u8>)>, i: int)
    requires
        0 <= i < rows.len(),
        guard_sound(rows[i].0@, rows[i].1@),
    ensures
        stripped(rows[i].0@, fund_ns()) matches Some(text) ==> guards_replayed(v, rows).consumed.contains(
            decode_utf8(text),
        ),
        stripped(rows[i].0@, fund_ns()) is None ==> (stripped(rows[i].0@, disp_ns()) matches Some(bytes)
            ==> guards_replayed(v, rows).chain.dom().contains(channel_of(bytes)->0)),
    decreases rows.len(),
{
    if i < rows.len() - 1 {
        lemma_guards_keep(v, rows.drop_last(), i);
        assert(rows.drop_last()[i] == rows[i]);
    }
}

proof fn lemma_guards_value(v: CarriageView, rows: Seq<(Vec<u8>, Vec<u8>)>, channel: [u8; 8])
    requires
        guards_sound(rows),
    ensures
        ({
            let after = guards_replayed(v, rows).chain;
            after.dom().contains(channel) ==> {
                ||| v.chain.dom().contains(channel) && after[channel] == v.chain[channel]
                ||| exists|i: int|
                    0 <= i < rows.len() && (#[trigger] rows[i]).0@ == disp_key_bytes(channel) && disp_of(
                        rows[i].1@,
                    ) == Some(after[channel])
            }
        }),
    decreases rows.len(),
{
    if rows.len() > 0 {
        let rest = rows.drop_last();
        assert forall|i: int| 0 <= i < rest.len() implies guard_sound((#[trigger] rest[i]).0@, rest[i].1@) by {
            assert(rest[i] == rows[i]);
        }
        lemma_guards_value(v, rest, channel);
        let key = rows.last().0@;
        let value = rows.last().1@;
        let n = rows.len() - 1;
        assert(guard_sound(rows[n].0@, rows[n].1@));
        let mid = guards_replayed(v, rest).chain;
        let after = guards_replayed(v, rows).chain;
        if after.dom().contains(channel) && !(v.chain.dom().contains(channel) && after[channel]
            == v.chain[channel]) {
            match stripped(key, disp_ns()) {
                Some(bytes) if stripped(key, fund_ns()) is None && channel_of(bytes) == Some(channel) => {
                    assert(channel@ == bytes);
                    assert(disp_ns() + bytes =~= key);
                    assert(rows[n].0@ == disp_key_bytes(channel));
                },
                _ => {
                    assert(mid.dom().contains(channel) && mid[channel] == after[channel]);
                    let i = choose|i: int|
                        0 <= i < rest.len() && (#[trigger] rest[i]).0@ == disp_key_bytes(channel)
                            && disp_of(rest[i].1@) == Some(mid[channel]);
                    assert(rows[i].0@ == disp_key_bytes(channel));
                },
            }
        }
    }
}

/// A restart forgets no money decision: every reference that the store records as
/// consumed is consumed again, and every disposition that it records stands
/// again, as recorded.
pub proof fn law_restart_restores_guards(
    driver: DriverView,
    levels: Seq<Seq<char>>,
    rows: Seq<(Vec<u8>, Vec<u8>)>,
    recorded: Map<Seq<u8>, Seq<u8>>,
    canonical: Seq<char>,
    channel: [u8; 8],
    state: ChainState,
)
    requires
        lists_all(rows, recorded),
        lists_truly(rows, recorded),
        guards_sound(rows),
        state !is Pending,
    ensures
        recorded.dom().contains(fund_key_bytes(canonical)) ==> restored(
            driver,
            levels,
            rows,
        ).consumed.contains(canonical),
        recorded.contains_pair(disp_key_bytes(channel), disp_bytes(state)) ==> restored(
            driver,
            levels,
            rows,
        ).chain.contains_pair(channel, state),
{
    let start = fresh(with_tombstones(driver, rows), Profile::Proof, Some(levels));
    if recorded.dom().contains(fund_key_bytes(canonical)) {
        let key = fund_key_bytes(canonical);
        let i = choose|i: int| 0 <= i < rows.len() && #[trigger] rows[i].0@ == key && rows[i].1@ == recorded[key];
        assert(key.take(5) =~= fund_ns());
        assert(key.skip(5) =~= vstd::utf8::encode_utf8(canonical));
        encode_utf8_decode_utf8(canonical);
        assert(guard_sound(rows[i].0@, rows[i].1@));
        lemma_guards_keep(start, rows, i);
    }
    if recorded.contains_pair(disp_key_bytes(channel), disp_bytes(state)) {
        let key = disp_key_bytes(channel);
        let i = choose|i: int| 0 <= i < rows.len() && #[trigger] rows[i].0@ == key && rows[i].1@ == recorded[key];
        assert(key.take(5) =~= disp_ns());
        assert(key[0] == 0x64);
        assert(stripped(key, fund_ns()) is None) by {
            assert(key.take(5)[0] == 0x64);
            assert(fund_ns()[0] == 0x66);
        }
        assert(key.skip(5) =~= channel@);
        lemma_channel_of(channel);
        assert(guard_sound(rows[i].0@, rows[i].1@));
        lemma_guards_keep(start, rows, i);
        lemma_guards_value(start, rows, channel);
        let after = guards_replayed(start, rows).chain;
        let j = choose|j: int|
            0 <= j < rows.len() && (#[trigger] rows[j]).0@ == disp_key_bytes(channel) && disp_of(rows[j].1@)
                == Some(after[channel]);
        assert(recorded[rows[j].0@] == rows[j].1@);
        law_disposition_read_back(state);
    }
}

/// A restart makes up no disposition: a channel of which no stored decision
/// speaks has none.
pub proof fn law_restart_adds_no_disposition(
    driver: DriverView,
    levels: Seq<Seq<char>>,
    rows: Seq<(Vec<u8>, Vec<u8>)>,
    channel: [u8; 8],
)
    requires
        guards_sound(rows),
        forall|i: int| 0 <= i < rows.len() ==> (#[trigger] rows[i]).0@ != disp_key_bytes(channel),
    ensures
        !restored(driver, levels, rows).chain.dom().contains(channel),
{
    lemma_guards_value(
        fresh(with_tombstones(driver, rows), Profile::Proof, Some(levels)),
        rows,
        channel,
    );
}

/// A restart knows what is recorded and nothing else: a reference is consumed exactly where
/// its key is recorded, a channel has a disposition exactly where one is recorded, and that
/// one, and an identifier is taken exactly where it was or its acceptance is recorded. No
/// channel, checkpoint, ledger or round outlives the process.
pub proof fn law_a_restart_knows_what_is_recorded(
    driver: DriverView,
    levels: Seq<Seq<char>>,
    recorded: Map<Seq<u8>, Seq<u8>>,
    canonical: Seq<char>,
    channel: [u8; 8],
    state: ChainState,
)
    requires
        state !is Pending,
    ensures
        ({
            let after = taken_over(driver, levels, recorded);
            &&& after.consumed.contains(canonical) <==> recorded.dom().contains(
                fund_ns() + vstd::utf8::encode_utf8(canonical),
            )
            &&& after.chain.dom().contains(channel) <==> recorded.dom().contains(disp_ns() + channel@)
            &&& recorded.contains_pair(disp_ns() + channel@, disp_bytes(state)) ==> after.chain[channel]
                == state
            &&& after.driver.tombstones.contains(channel) <==> driver.tombstones.contains(channel)
                || recorded.dom().contains(chopen_ns() + channel@)
            &&& after.driver.retained == driver.retained
            &&& after.profile == Profile::Proof
            &&& after.levels == Some(levels)
            &&& after.channels.dom().is_empty()
            &&& after.operative.dom().is_empty()
            &&& after.ledger.dom().is_empty()
            &&& after.rounds.dom().is_empty()
            &&& after.imported.dom().is_empty()
        }),
{
    law_disposition_read_back(state);
}

/// A corrupt record is told from a sound one: a consumed reference is recorded under its text
/// with nothing beside it, a disposition under its channel with a state that can be read, and
/// an acceptance under its channel; a record of another kind is no guard.
pub proof fn law_which_records_are_corrupt(
    canonical: Seq<char>,
    channel: [u8; 8],
    state: ChainState,
    value: Seq<u8>,
    key: Seq<u8>,
)
    requires
        state !is Pending,
        key.len() == 0 || (key[0] != 0x66 && key[0] != 0x64),
    ensures
        guard_sound(fund_ns() + vstd::utf8::encode_utf8(canonical), value) <==> value.len() == 0,
        guard_sound(disp_ns() + channel@, disp_bytes(state)),
        disp_of(value) is None ==> !guard_sound(disp_ns() + channel@, value),
        guard_sound(key, value),
{
    let fund = fund_ns() + vstd::utf8::encode_utf8(canonical);
    assert(fund.take(5) =~= fund_ns());
    assert(fund.skip(5) =~= vstd::utf8::encode_utf8(canonical));
    vstd::utf8::encode_utf8_valid_utf8(canonical);
    let disp = disp_ns() + channel@;
    assert(disp.take(5) =~= disp_ns());
    assert(disp.skip(5) =~= channel@);
    assert(stripped(disp, fund_ns()) is None) by {
        assert(disp.take(5)[0] == 0x64);
        assert(fund_ns()[0] == 0x66);
    }
    lemma_channel_of(channel);
    law_disposition_read_back(state);
    if key.len() >= 5 {
        assert(key.take(5)[0] == key[0]);
        assert(fund_ns()[0] == 0x66 && disp_ns()[0] == 0x64);
    }
}

/// Claiming a reference tells a first claim from a duplicate and from a failure, and keeps it
/// as consumed unless the claim failed; nothing else changes.
pub proof fn law_a_claim_consumes_its_reference(
    v: CarriageView,
    canonical: Seq<char>,
    decision: Decision,
    other: Seq<char>,
)
    ensures
        outcome_of(decision) == ConsumeOutcome::First <==> decision is Fresh,
        outcome_of(decision) == ConsumeOutcome::Duplicate <==> decision is AlreadyDecided,
        outcome_of(decision) == ConsumeOutcome::Failed <==> decision is Failed,
        claimed(v, canonical, outcome_of(decision)).consumed.contains(other) <==> v.consumed.contains(other)
            || (other == canonical && !(decision is Failed)),
        claimed(v, canonical, outcome_of(decision)) == (CarriageView {
            consumed: claimed(v, canonical, outcome_of(decision)).consumed,
            ..v
        }),
        decision is Failed ==> claimed(v, canonical, outcome_of(decision)) == v,
{
}

/// Without a store a rail reference is claimed first exactly once: by the first claim where it
/// was not consumed, and every claim after any is a duplicate.
pub proof fn law_a_reference_is_first_once<S: OneDecisionStore>(
    c: Carriage<S>,
    canonical: Seq<char>,
    after: Carriage<S>,
    outcome: ConsumeOutcome,
    later: Carriage<S>,
    again: ConsumeOutcome,
)
    requires
        !c.stored(),
        !after.stored(),
        c.ref_claimed(canonical, after, outcome),
        after.ref_claimed(canonical, later, again),
    ensures
        outcome == ConsumeOutcome::First <==> !c@.consumed.contains(canonical),
        outcome == ConsumeOutcome::Duplicate <==> c@.consumed.contains(canonical),
        again == ConsumeOutcome::Duplicate,
        after@.consumed == c@.consumed.insert(canonical),
        later@.consumed == after@.consumed,
{
    assert(after@.consumed =~= c@.consumed.insert(canonical));
    assert(later@.consumed =~= after@.consumed);
}

/// A recorded guard is taken over for what it guards, and for nothing else: a consumed reference
/// under its text, a disposition under its channel; one that is corrupt, and any other record,
/// changes nothing.
pub proof fn law_a_record_is_taken_over_for_its_own(
    v: CarriageView,
    canonical: Seq<char>,
    channel: [u8; 8],
    state: ChainState,
    value: Seq<u8>,
    key: Seq<u8>,
)
    requires
        state !is Pending,
        key.len() == 0 || (key[0] != 0x66 && key[0] != 0x64),
    ensures
        ({
            let fund = fund_ns() + vstd::utf8::encode_utf8(canonical);
            let disp = disp_ns() + channel@;
            &&& guard_replayed(v, fund, Seq::empty()) == (CarriageView {
                consumed: v.consumed.insert(canonical),
                ..v
            })
            &&& value.len() > 0 ==> guard_replayed(v, fund, value) == v
            &&& guard_replayed(v, disp, disp_bytes(state)) == (CarriageView {
                chain: v.chain.insert(channel, state),
                ..v
            })
            &&& disp_of(value) is None ==> guard_replayed(v, disp, value) == v
            &&& guard_replayed(v, key, value) == v
        }),
{
    law_which_records_are_corrupt(canonical, channel, state, value, key);
    law_which_records_are_corrupt(canonical, channel, state, Seq::empty(), key);
    let fund = fund_ns() + vstd::utf8::encode_utf8(canonical);
    assert(fund.take(5) =~= fund_ns());
    assert(fund.skip(5) =~= vstd::utf8::encode_utf8(canonical));
    vstd::utf8::encode_utf8_decode_utf8(canonical);
    let disp = disp_ns() + channel@;
    assert(disp.take(5) =~= disp_ns());
    assert(disp.skip(5) =~= channel@);
    assert(stripped(disp, fund_ns()) is None) by {
        assert(disp.take(5)[0] == 0x64);
        assert(fund_ns()[0] == 0x66);
    }
    lemma_channel_of(channel);
    law_disposition_read_back(state);
    if key.len() >= 5 {
        assert(key.take(5)[0] == key[0]);
        assert(fund_ns()[0] == 0x66 && disp_ns()[0] == 0x64);
    }
}

} // verus!
