//! The exactly-once decision record of the channel plane.
//!
//! A funding reference is credited once, a close disposition is set once, a
//! refund is reserved once. Each such decision is a key that is claimed in a
//! [`OneDecisionStore`]; the first claim is told [`Decision::Fresh`], every
//! later one is told what was recorded. [`WalOneDecision`] keeps the record in
//! an append-only log, so that it survives a restart: what the log holds
//! replays as what was decided.

use vstd::prelude::*;

use crate::bytes::{copy_bytes, same_bytes};
use crate::framing::{field, frame, MAX_FIELD};
use crate::log::{
    fields_view, framed_rows, lemma_framed_rows, lemma_log_append, lemma_log_cut, lemma_log_torn,
    read_rows, row, row_fits, rows_end, rows_from, rows_view,
};
use crate::medium::LogMedium;
use crate::sealed::Sealed;

verus! {

/// The outcome of claiming a decision key.
#[derive(Debug, Clone, PartialEq, Eq)]
pub enum Decision {
    /// The key was free; the value is now recorded under it. The caller carries
    /// out the gated effect exactly this once.
    Fresh,
    /// The key was decided before, with this value. The caller must not repeat
    /// the effect.
    AlreadyDecided(Vec<u8>),
    /// The decision could not be recorded. This is no duplicate: nothing was
    /// decided, and the caller must not act as if it were.
    Failed,
}

/// Whether every decision of `before` still stands in `after`.
pub open spec fn keeps(before: Map<Seq<u8>, Seq<u8>>, after: Map<Seq<u8>, Seq<u8>>) -> bool {
    forall|key: Seq<u8>| #[trigger]
        before.dom().contains(key) ==> after.dom().contains(key) && after[key] == before[key]
}

/// A keyed exactly-once decision record. More than one party may write to it,
/// so a call may find decisions that the caller did not make.
pub trait OneDecisionStore {
    /// The decisions this handle knows to be recorded.
    closed spec fn recorded(&self) -> Map<Seq<u8>, Seq<u8>> {
        Map::empty()
    }

    /// The store's own invariant.
    closed spec fn wf(&self) -> bool {
        true
    }

    /// Whether `r` is what claiming `key` for `value` gave, and `after` the store then.
    /// A store says here what it answers and when; one that says nothing is held to
    /// `decide` alone, and the name tells which claim was made and what came back.
    closed spec fn claimed(&self, key: Seq<u8>, value: Seq<u8>, after: &Self, r: Decision) -> bool {
        true
    }

    /// Whether `r` is what reading `key` gave.
    closed spec fn found(&self, key: Seq<u8>, r: Option<Vec<u8>>) -> bool {
        true
    }

    /// Whether `rows` is what listing the store gave.
    closed spec fn listed(&self, rows: Seq<(Vec<u8>, Vec<u8>)>) -> bool {
        true
    }

    /// Claims `key`: records `value` under it if it is free, else gives the
    /// value recorded before.
    fn decide(&mut self, key: &[u8], value: &[u8]) -> (r: Decision)
        requires
            old(self).wf(),
        ensures
            final(self).wf(),
            old(self).claimed(key@, value@, final(self), r),
            keeps(old(self).recorded(), final(self).recorded()),
            match r {
                Decision::Fresh => {
                    &&& !old(self).recorded().dom().contains(key@)
                    &&& final(self).recorded().contains_pair(key@, value@)
                },
                Decision::AlreadyDecided(v) => final(self).recorded().contains_pair(key@, v@),
                Decision::Failed => true,
            },
    ;

    /// The value recorded under `key`.
    fn get(&self, key: &[u8]) -> (r: Option<Vec<u8>>)
        requires
            self.wf(),
        ensures
            self.found(key@, r),
            match r {
                Some(v) => self.recorded().dom().contains(key@) ==> self.recorded()[key@] == v@,
                None => !self.recorded().dom().contains(key@),
            },
    ;

    /// Every recorded key and value.
    fn entries(&self) -> (r: Vec<(Vec<u8>, Vec<u8>)>)
        requires
            self.wf(),
        ensures
            self.listed(r@),
            lists_all(r@, self.recorded()),
            lists_truly(r@, self.recorded()),
    ;
}

/// What an optional store has recorded: nothing where there is none.
pub open spec fn recorded_in<S: OneDecisionStore>(store: Option<S>) -> Map<Seq<u8>, Seq<u8>> {
    match store {
        Some(s) => s.recorded(),
        None => Map::empty(),
    }
}

/// Whether an optional store is in order.
pub open spec fn in_order<S: OneDecisionStore>(store: Option<S>) -> bool {
    match store {
        Some(s) => s.wf(),
        None => true,
    }
}

/// Whether `r` is what claiming `key` for `value` gave, where there is a store; without
/// one it is fresh.
pub open spec fn claimed_in<S: OneDecisionStore>(
    before: Option<S>,
    key: Seq<u8>,
    value: Seq<u8>,
    after: Option<S>,
    r: Decision,
) -> bool {
    match (before, after) {
        (Some(b), Some(a)) => b.claimed(key, value, &a, r),
        (None, None) => r == Decision::Fresh,
        _ => false,
    }
}

/// Whether `r` is what reading `key` gave, where there is a store; without one it is
/// nothing.
pub open spec fn found_in<S: OneDecisionStore>(store: Option<S>, key: Seq<u8>, r: Option<Vec<u8>>) -> bool {
    match store {
        Some(s) => s.found(key, r),
        None => r is None,
    }
}

/// Claims `key` where there is a store. Without one nothing is recorded, and the
/// claim is fresh.
pub fn claim<S: OneDecisionStore>(store: &mut Option<S>, key: &Vec<u8>, value: &Vec<u8>) -> (r: Decision)
    requires
        in_order(*old(store)),
    ensures
        in_order(*final(store)),
        *final(store) is Some == *old(store) is Some,
        claimed_in(*old(store), key@, value@, *final(store), r),
        keeps(recorded_in(*old(store)), recorded_in(*final(store))),
        match r {
            Decision::Fresh => {
                &&& !recorded_in(*old(store)).dom().contains(key@)
                &&& *final(store) is Some ==> recorded_in(*final(store)).contains_pair(key@, value@)
            },
            Decision::AlreadyDecided(v) => *old(store) is Some && recorded_in(
                *final(store),
            ).contains_pair(key@, v@),
            Decision::Failed => *old(store) is Some,
        },
{
    match store {
        Some(s) => s.decide(key.as_slice(), value.as_slice()),
        None => Decision::Fresh,
    }
}

/// Whether `rows` holds every decision of `m`.
pub open spec fn lists_all(rows: Seq<(Vec<u8>, Vec<u8>)>, m: Map<Seq<u8>, Seq<u8>>) -> bool {
    forall|key: Seq<u8>| #[trigger]
        m.dom().contains(key) ==> exists|i: int|
            0 <= i < rows.len() && #[trigger] rows[i].0@ == key && rows[i].1@ == m[key]
}

/// Whether no row of `rows` says otherwise than `m` of a key that `m` holds.
pub open spec fn lists_truly(rows: Seq<(Vec<u8>, Vec<u8>)>, m: Map<Seq<u8>, Seq<u8>>) -> bool {
    forall|i: int|
        0 <= i < rows.len() ==> (m.dom().contains((#[trigger] rows[i]).0@) ==> m[rows[i].0@]
            == rows[i].1@)
}

/// Whether `rows` holds nothing but decisions of `m`.
pub open spec fn lists_only(rows: Seq<(Vec<u8>, Vec<u8>)>, m: Map<Seq<u8>, Seq<u8>>) -> bool {
    forall|i: int| 0 <= i < rows.len() ==> m.contains_pair((#[trigger] rows[i]).0@, rows[i].1@)
}

/// Whether `rows` holds no key twice.
pub open spec fn lists_once(rows: Seq<(Vec<u8>, Vec<u8>)>) -> bool {
    forall|i: int, j: int| 0 <= i < j < rows.len() ==> (#[trigger] rows[i]).0@ != (#[trigger] rows[j]).0@
}

/// Whether `rows` holds the decisions of `m`, each once and nothing else.
pub open spec fn lists_exactly(rows: Seq<(Vec<u8>, Vec<u8>)>, m: Map<Seq<u8>, Seq<u8>>) -> bool {
    lists_all(rows, m) && lists_only(rows, m) && lists_once(rows)
}

/// Whether `r` is the decision of `m` under `key`, or says that there is none.
pub open spec fn found_among(m: Map<Seq<u8>, Seq<u8>>, key: Seq<u8>, r: Option<Vec<u8>>) -> bool {
    match r {
        Some(v) => m.contains_pair(key, v@),
        None => !m.dom().contains(key),
    }
}

/// A store that survives a restart. Only this crate implements it, so that a
/// carriage that demands one cannot be handed a volatile store.
pub trait DurableOneDecision: OneDecisionStore + Sealed {
    /// What a durable store lists is what it holds, each decision once.
    proof fn lists_what_it_holds(&self, rows: Seq<(Vec<u8>, Vec<u8>)>)
        requires
            self.listed(rows),
        ensures
            lists_exactly(rows, self.recorded()),
    ;
}

impl<F: LogMedium> Sealed for WalOneDecision<F> {

}

impl<F: LogMedium> DurableOneDecision for WalOneDecision<F> {
    proof fn lists_what_it_holds(&self, rows: Seq<(Vec<u8>, Vec<u8>)>) {
    }
}

/// The decisions as rows, one under each key.
struct Decisions {
    rows: Vec<(Vec<u8>, Vec<u8>)>,
}

/// The first value under `key` in `rows`.
spec fn first_value(rows: Seq<(Vec<u8>, Vec<u8>)>, key: Seq<u8>) -> Option<Seq<u8>>
    decreases rows.len(),
{
    if rows.len() == 0 {
        None
    } else if first_value(rows.drop_last(), key) is Some {
        first_value(rows.drop_last(), key)
    } else if rows.last().0@ == key {
        Some(rows.last().1@)
    } else {
        None
    }
}

impl Decisions {
    spec fn map(&self) -> Map<Seq<u8>, Seq<u8>> {
        Map::new(
            |key: Seq<u8>| first_value(self.rows@, key) is Some,
            |key: Seq<u8>| first_value(self.rows@, key)->0,
        )
    }

    spec fn wf(&self) -> bool {
        lists_once(self.rows@)
    }

    fn new() -> (d: Decisions)
        ensures
            d.wf(),
            d.map() == Map::<Seq<u8>, Seq<u8>>::empty(),
    {
        let d: Decisions = Decisions { rows: Vec::new() };
        assert(d.map() =~= Map::<Seq<u8>, Seq<u8>>::empty());
        d
    }

    fn get(&self, key: &[u8]) -> (r: Option<Vec<u8>>)
        ensures
            match r {
                Some(v) => self.map().contains_pair(key@, v@),
                None => !self.map().dom().contains(key@),
            },
    {
        let mut i: usize = 0;
        while i < self.rows.len()
            invariant
                i <= self.rows@.len(),
                first_value(self.rows@.take(i as int), key@) is None,
            decreases self.rows@.len() - i,
        {
            proof {
                assert(self.rows@.take(i + 1).drop_last() =~= self.rows@.take(i as int));
            }
            if same_bytes(self.rows[i].0.as_slice(), key) {
                proof {
                    lemma_first_value_prefix(self.rows@, i + 1, key@);
                }
                return Some(copy_bytes(self.rows[i].1.as_slice()));
            }
            i = i + 1;
        }
        assert(self.rows@.take(self.rows@.len() as int) =~= self.rows@);
        None
    }

    fn add_if_free(&mut self, key: Vec<u8>, value: Vec<u8>)
        requires
            old(self).wf(),
        ensures
            final(self).wf(),
            final(self).map() == (if old(self).map().dom().contains(key@) {
                old(self).map()
            } else {
                old(self).map().insert(key@, value@)
            }),
    {
        if self.get(key.as_slice()).is_some() {
            return;
        }
        proof {
            assert forall|i: int| 0 <= i < self.rows@.len() implies (#[trigger] self.rows@[i]).0@ != key@ by {
                lemma_first_value_row(self.rows@, i);
            }
        }
        self.rows.push((key, value));
        proof {
            assert(self.rows@.drop_last() =~= old(self).rows@);
            assert(self.map() =~= old(self).map().insert(key@, value@));
        }
    }

    fn list(&self) -> (out: Vec<(Vec<u8>, Vec<u8>)>)
        requires
            self.wf(),
        ensures
            lists_all(out@, self.map()),
            lists_only(out@, self.map()),
            lists_once(out@),
    {
        let mut out: Vec<(Vec<u8>, Vec<u8>)> = Vec::new();
        let mut i: usize = 0;
        while i < self.rows.len()
            invariant
                i <= self.rows@.len(),
                self.wf(),
                out@.len() == i,
                forall|j: int|
                    0 <= j < i ==> (#[trigger] out@[j]).0@ == self.rows@[j].0@ && out@[j].1@
                        == self.rows@[j].1@,
            decreases self.rows@.len() - i,
        {
            let key: Vec<u8> = copy_bytes(self.rows[i].0.as_slice());
            let value: Vec<u8> = copy_bytes(self.rows[i].1.as_slice());
            out.push((key, value));
            i = i + 1;
        }
        proof {
            assert forall|j: int| 0 <= j < out@.len() implies self.map().contains_pair(
                (#[trigger] out@[j]).0@,
                out@[j].1@,
            ) by {
                lemma_first_value_only(self.rows@, j);
            }
            assert forall|key: Seq<u8>| #[trigger] self.map().dom().contains(key) implies exists|j: int|
                0 <= j < out@.len() && #[trigger] out@[j].0@ == key && out@[j].1@ == self.map()[key] by {
                let j = lemma_first_value_found(self.rows@, key);
                assert(out@[j].0@ == key);
                assert(self.map().contains_pair(out@[j].0@, out@[j].1@));
            }
            assert forall|i: int, j: int| 0 <= i < j < out@.len() implies (#[trigger] out@[i]).0@ != (
            #[trigger] out@[j]).0@ by {
                assert(self.rows@[i].0@ != self.rows@[j].0@);
            }
        }
        out
    }
}

proof fn lemma_first_value_only(rows: Seq<(Vec<u8>, Vec<u8>)>, i: int)
    requires
        0 <= i < rows.len(),
        lists_once(rows),
    ensures
        first_value(rows, rows[i].0@) == Some(rows[i].1@),
    decreases rows.len(),
{
    let front = rows.drop_last();
    if i < rows.len() - 1 {
        assert(lists_once(front)) by {
            assert forall|a: int, b: int| 0 <= a < b < front.len() implies (#[trigger] front[a]).0@ != (
            #[trigger] front[b]).0@ by {
                assert(front[a] == rows[a] && front[b] == rows[b]);
            }
        }
        assert(front[i] == rows[i]);
        lemma_first_value_only(front, i);
    } else if first_value(front, rows[i].0@) is Some {
        let j = lemma_first_value_found(front, rows[i].0@);
        assert(rows[j].0@ != rows[i].0@);
    }
}

proof fn lemma_first_value_prefix(rows: Seq<(Vec<u8>, Vec<u8>)>, n: int, key: Seq<u8>)
    requires
        0 <= n <= rows.len(),
        first_value(rows.take(n), key) is Some,
    ensures
        first_value(rows, key) == first_value(rows.take(n), key),
    decreases rows.len(),
{
    if n < rows.len() {
        assert(rows.drop_last().take(n) =~= rows.take(n));
        lemma_first_value_prefix(rows.drop_last(), n, key);
    } else {
        assert(rows.take(n) =~= rows);
    }
}

proof fn lemma_first_value_row(rows: Seq<(Vec<u8>, Vec<u8>)>, i: int)
    requires
        0 <= i < rows.len(),
    ensures
        first_value(rows, rows[i].0@) is Some,
    decreases rows.len(),
{
    if i < rows.len() - 1 {
        lemma_first_value_row(rows.drop_last(), i);
    }
}

proof fn lemma_first_value_found(rows: Seq<(Vec<u8>, Vec<u8>)>, key: Seq<u8>) -> (i: int)
    requires
        first_value(rows, key) is Some,
    ensures
        0 <= i < rows.len(),
        rows[i].0@ == key,
    decreases rows.len(),
{
    if first_value(rows.drop_last(), key) is Some {
        lemma_first_value_found(rows.drop_last(), key)
    } else {
        rows.len() - 1
    }
}

/// A store in memory, for a single process without restart durability.
pub struct InMemoryOneDecision {
    inner: Decisions,
}

impl InMemoryOneDecision {
    /// An empty store.
    pub fn new() -> (s: InMemoryOneDecision)
        ensures
            s.wf(),
            s.recorded() == Map::<Seq<u8>, Seq<u8>>::empty(),
    {
        InMemoryOneDecision { inner: Decisions::new() }
    }

    closed spec fn map(&self) -> Map<Seq<u8>, Seq<u8>> {
        self.inner.map()
    }

    closed spec fn sound(&self) -> bool {
        self.inner.wf()
    }
}

impl OneDecisionStore for InMemoryOneDecision {
    closed spec fn recorded(&self) -> Map<Seq<u8>, Seq<u8>> {
        self.map()
    }

    closed spec fn wf(&self) -> bool {
        self.sound()
    }

    /// A free key is fresh and the one change, a taken one gives its value back and
    /// changes nothing, and no claim fails.
    open spec fn claimed(&self, key: Seq<u8>, value: Seq<u8>, after: &Self, r: Decision) -> bool {
        match r {
            Decision::Fresh => {
                &&& !self.recorded().dom().contains(key)
                &&& after.recorded() == self.recorded().insert(key, value)
            },
            Decision::AlreadyDecided(v) => self.recorded().contains_pair(key, v@) && *after == *self,
            Decision::Failed => false,
        }
    }

    open spec fn found(&self, key: Seq<u8>, r: Option<Vec<u8>>) -> bool {
        found_among(self.recorded(), key, r)
    }

    open spec fn listed(&self, rows: Seq<(Vec<u8>, Vec<u8>)>) -> bool {
        lists_exactly(rows, self.recorded())
    }

    fn decide(&mut self, key: &[u8], value: &[u8]) -> (r: Decision) {
        match self.inner.get(key) {
            Some(v) => Decision::AlreadyDecided(v),
            None => {
                self.inner.add_if_free(copy_bytes(key), copy_bytes(value));
                Decision::Fresh
            },
        }
    }

    fn get(&self, key: &[u8]) -> (r: Option<Vec<u8>>) {
        self.inner.get(key)
    }

    fn entries(&self) -> (r: Vec<(Vec<u8>, Vec<u8>)>) {
        self.inner.list()
    }
}

/// The log row of a decision.
pub open spec fn decision_row(key: Seq<u8>, value: Seq<u8>) -> Seq<Seq<u8>> {
    seq![key, value]
}

/// Whether a decision can be framed, and so recorded.
pub open spec fn recordable(key: Seq<u8>, value: Seq<u8>) -> bool {
    key.len() <= MAX_FIELD && value.len() <= MAX_FIELD
}

/// The decisions of a list of rows: the first row of a key counts.
pub open spec fn decided(rows: Seq<Seq<Seq<u8>>>) -> Map<Seq<u8>, Seq<u8>>
    decreases rows.len(),
{
    if rows.len() == 0 {
        Map::empty()
    } else {
        let before = decided(rows.drop_last());
        let last = rows.last();
        if before.dom().contains(last[0]) {
            before
        } else {
            before.insert(last[0], last[1])
        }
    }
}

/// The decisions that a log replays as.
pub open spec fn replayed(log: Seq<u8>) -> Map<Seq<u8>, Seq<u8>> {
    decided(rows_from(log, 0, 2))
}

/// A later row changes no decision that stands.
pub proof fn law_first_row_counts(rows: Seq<Seq<Seq<u8>>>, later: Seq<Seq<u8>>)
    ensures
        keeps(decided(rows), decided(rows.push(later))),
{
    assert(rows.push(later).drop_last() =~= rows);
}

/// Whether some row of `rows` is under `key`.
pub open spec fn has_row(rows: Seq<Seq<Seq<u8>>>, key: Seq<u8>) -> bool {
    exists|i: int| 0 <= i < rows.len() && (#[trigger] rows[i])[0] == key
}

/// Replaying the rows of any list gives the first value of every key, no other key, and
/// the whole length.
pub proof fn law_rows_replay(rows: Seq<Seq<Seq<u8>>>)
    requires
        forall|i: int| 0 <= i < rows.len() ==> (#[trigger] rows[i]).len() == 2 && row_fits(rows[i]),
    ensures
        rows_end(framed_rows(rows), 0, 2) == framed_rows(rows).len(),
        forall|key: Seq<u8>| #[trigger]
            replayed(framed_rows(rows)).dom().contains(key) <==> has_row(rows, key),
        forall|i: int|
            0 <= i < rows.len() && !has_row(rows.take(i), (#[trigger] rows[i])[0]) ==> replayed(
                framed_rows(rows),
            ).contains_pair(rows[i][0], rows[i][1]),
{
    lemma_framed_rows(rows, 2);
    assert forall|key: Seq<u8>| #[trigger] replayed(framed_rows(rows)).dom().contains(key) <==> has_row(
        rows,
        key,
    ) by {
        lemma_decided_keys(rows, key);
    }
    assert forall|i: int|
        0 <= i < rows.len() && !has_row(rows.take(i), (#[trigger] rows[i])[0]) implies replayed(
        framed_rows(rows),
    ).contains_pair(rows[i][0], rows[i][1]) by {
        lemma_decided_first(rows, i);
    }
}

proof fn lemma_decided_keys(rows: Seq<Seq<Seq<u8>>>, key: Seq<u8>)
    ensures
        decided(rows).dom().contains(key) <==> has_row(rows, key),
    decreases rows.len(),
{
    if rows.len() > 0 {
        let front = rows.drop_last();
        lemma_decided_keys(front, key);
        if has_row(front, key) {
            let i = choose|i: int| 0 <= i < front.len() && (#[trigger] front[i])[0] == key;
            assert(rows[i][0] == key);
        }
        if rows.last()[0] == key {
            assert(rows[rows.len() - 1][0] == key);
        }
        if has_row(rows, key) {
            let i = choose|i: int| 0 <= i < rows.len() && (#[trigger] rows[i])[0] == key;
            if i < front.len() {
                assert(front[i][0] == key);
            }
        }
    }
}

proof fn lemma_decided_first(rows: Seq<Seq<Seq<u8>>>, i: int)
    requires
        0 <= i < rows.len(),
        !has_row(rows.take(i), rows[i][0]),
    ensures
        decided(rows).contains_pair(rows[i][0], rows[i][1]),
    decreases rows.len(),
{
    let front = rows.drop_last();
    if i < front.len() {
        assert(front.take(i) =~= rows.take(i));
        lemma_decided_first(front, i);
    } else {
        assert(front =~= rows.take(i));
        lemma_decided_keys(front, rows[i][0]);
    }
}

/// A decision that stands goes on standing, through any number of steps that
/// keep the decisions of the step before.
pub proof fn law_decisions_stand(
    first: Map<Seq<u8>, Seq<u8>>,
    second: Map<Seq<u8>, Seq<u8>>,
    third: Map<Seq<u8>, Seq<u8>>,
)
    requires
        keeps(first, second),
        keeps(second, third),
    ensures
        keeps(first, third),
{
    assert forall|key: Seq<u8>| #[trigger] first.dom().contains(key) implies third.dom().contains(key)
        && third[key] == first[key] by {
        assert(second.dom().contains(key));
    }
}

/// A torn row at the end of a log, and only that, is forgotten when the log is
/// opened again: the decisions of the whole rows stand as they were.
pub proof fn law_torn_decision_is_unmade(log: Seq<u8>, key: Seq<u8>, value: Seq<u8>, cut: int)
    requires
        rows_end(log, 0, 2) == log.len(),
        key.len() <= MAX_FIELD,
        value.len() <= MAX_FIELD,
        0 <= cut < row(decision_row(key, value)).len(),
    ensures
        replayed(log + row(decision_row(key, value)).take(cut)) == replayed(log),
{
    lemma_decision_row(key, value);
    lemma_log_torn(log, decision_row(key, value), cut);
}

proof fn lemma_decision_row(key: Seq<u8>, value: Seq<u8>)
    requires
        key.len() <= MAX_FIELD,
        value.len() <= MAX_FIELD,
    ensures
        row_fits(decision_row(key, value)),
        row(decision_row(key, value)) =~= field(key) + field(value),
{
    let fields = decision_row(key, value);
    assert(fields.drop_first() =~= seq![value]);
    assert(fields.drop_first().drop_first() =~= Seq::empty());
    reveal_with_fuel(row, 3);
}

/// Replays a log: the decisions of its whole rows, and where they end.
fn replay(log: &[u8]) -> (r: (Decisions, u64))
    ensures
        r.0.wf(),
        r.0.map() == replayed(log@),
        r.1 == rows_end(log@, 0, 2),
{
    let (rows, valid): (Vec<Vec<Vec<u8>>>, usize) = read_rows(log, 2);
    let mut map: Decisions = Decisions::new();
    let mut i: usize = 0;
    while i < rows.len()
        invariant
            i <= rows@.len(),
            forall|j: int| 0 <= j < rows@.len() ==> (#[trigger] rows@[j])@.len() == 2,
            map.wf(),
            map.map() == decided(rows_view(rows@).take(i as int)),
        decreases rows@.len() - i,
    {
        let key: Vec<u8> = copy_bytes(rows[i][0].as_slice());
        let value: Vec<u8> = copy_bytes(rows[i][1].as_slice());
        proof {
            let seen = rows_view(rows@).take(i + 1);
            assert(seen.drop_last() =~= rows_view(rows@).take(i as int));
            assert(seen.last() == fields_view(rows@[i as int]@));
        }
        map.add_if_free(key, value);
        i = i + 1;
    }
    assert(rows_view(rows@).take(rows@.len() as int) =~= rows_view(rows@));
    (map, valid as u64)
}

/// A durable store: an append-only log that is replayed when it is opened.
///
/// A decision is on the medium before the caller learns that it is fresh. A
/// record that a crash cut short replays as not made. A failed append is cut
/// off again; where even that fails the store is poisoned, and then it decides
/// nothing more, so that no record can come to lie behind torn bytes.
pub struct WalOneDecision<F> {
    map: Decisions,
    medium: F,
    len: u64,
    poisoned: bool,
}

impl<F: LogMedium> WalOneDecision<F> {
    /// The bytes on the medium.
    pub closed spec fn log(&self) -> Seq<u8> {
        self.medium.contents()
    }

    /// Whether the store has poisoned itself.
    pub closed spec fn poisoned(&self) -> bool {
        self.poisoned
    }

    /// Whether the medium can be relied on to be appended to and cut back.
    pub closed spec fn writable(&self) -> bool {
        self.medium.writable()
    }

    /// Whether every claim that can be recorded will be: the store is not poisoned, and
    /// its medium can be relied on.
    pub open spec fn healthy(&self) -> bool {
        !self.poisoned() && self.writable()
    }

    closed spec fn map(&self) -> Map<Seq<u8>, Seq<u8>> {
        self.map.map()
    }

    closed spec fn sound(&self) -> bool {
        &&& self.map.wf()
        &&& !self.poisoned ==> {
            &&& self.len == self.medium.contents().len()
            &&& self.medium.cursor() == self.len
            &&& rows_end(self.medium.contents(), 0, 2) == self.len
            &&& replayed(self.medium.contents()) == self.map.map()
        }
        &&& keeps(self.map.map(), replayed(self.medium.contents()))
    }

    /// Opens the log on `medium`: replays its complete records, and cuts off a
    /// torn one. `None` where the medium fails: one that can be read is opened, and
    /// where a torn record lies on it, one that can also be cut back.
    pub fn open(medium: F) -> (r: Option<WalOneDecision<F>>)
        ensures
            medium.readable() && (medium.writable() || rows_end(medium.contents(), 0, 2)
                == medium.contents().len()) ==> r is Some,
            r matches Some(s) ==> {
                &&& s.wf()
                &&& !s.poisoned()
                &&& s.recorded() == replayed(medium.contents())
                &&& s.log() == medium.contents().take(rows_end(medium.contents(), 0, 2))
                &&& medium.writable() ==> s.writable()
            },
    {
        let ghost start: Seq<u8> = medium.contents();
        let mut medium: F = medium;
        let bytes: Vec<u8> = match medium.read_all() {
            Some(bytes) => bytes,
            None => return None,
        };
        let (map, valid): (Decisions, u64) = replay(bytes.as_slice());
        proof {
            lemma_log_cut(start, 2);
        }
        if valid != bytes.len() as u64 {
            if !medium.cut(valid) {
                return None;
            }
        } else {
            assert(start.take(valid as int) =~= start);
        }
        if !medium.seek(valid) {
            return None;
        }
        Some(WalOneDecision { map, medium, len: valid, poisoned: false })
    }

    /// Whether the store has poisoned itself; it then decides nothing more.
    pub fn is_poisoned(&self) -> (r: bool)
        ensures
            r == self.poisoned(),
    {
        self.poisoned
    }

    /// The medium, with the log on it.
    pub fn into_medium(self) -> (medium: F)
        ensures
            medium.contents() == self.log(),
            medium.writable() == self.writable(),
    {
        self.medium
    }
}

/// Every decision a store holds is on its medium, so that a restart replays it;
/// and where no append was left torn, a restart replays nothing else.
pub proof fn law_restart_replays_decisions<F: LogMedium>(store: WalOneDecision<F>)
    requires
        store.wf(),
    ensures
        keeps(store.recorded(), replayed(store.log())),
        !store.poisoned() ==> replayed(store.log()) == store.recorded(),
{
}

impl<F: LogMedium> OneDecisionStore for WalOneDecision<F> {
    closed spec fn recorded(&self) -> Map<Seq<u8>, Seq<u8>> {
        self.map()
    }

    closed spec fn wf(&self) -> bool {
        self.sound()
    }

    /// A poisoned store fails and stays as it is. Else a taken key gives its value back
    /// and changes nothing, and a free one is fresh wherever it can be recorded: the
    /// decision is then on the medium, and the one change. A failed claim records
    /// nothing, and leaves at most a part of the row behind.
    open spec fn claimed(&self, key: Seq<u8>, value: Seq<u8>, after: &Self, r: Decision) -> bool {
        &&& keeps(after.recorded(), replayed(after.log()))
        &&& self.writable() ==> after.writable()
        &&& self.poisoned() ==> r is Failed
        &&& !self.poisoned() && self.recorded().dom().contains(key) ==> r is AlreadyDecided
        &&& !self.poisoned() && !self.recorded().dom().contains(key) ==> {
            &&& !recordable(key, value) ==> r is Failed
            &&& recordable(key, value) && self.writable() ==> r is Fresh
        }
        &&& match r {
            Decision::Fresh => {
                &&& !self.recorded().dom().contains(key)
                &&& !self.poisoned() && !after.poisoned()
                &&& after.recorded() == self.recorded().insert(key, value)
                &&& after.log() == self.log() + row(decision_row(key, value))
            },
            Decision::AlreadyDecided(v) => self.recorded().contains_pair(key, v@) && *after == *self,
            Decision::Failed => {
                &&& after.recorded() == self.recorded()
                &&& !after.poisoned() ==> after.log() == self.log()
                &&& self.poisoned() || self.writable() || !recordable(key, value) ==> *after == *self
                &&& exists|cut: int|
                    0 <= cut <= row(decision_row(key, value)).len() && after.log() == self.log()
                        + #[trigger] row(decision_row(key, value)).take(cut)
            },
        }
    }

    open spec fn found(&self, key: Seq<u8>, r: Option<Vec<u8>>) -> bool {
        found_among(self.recorded(), key, r)
    }

    open spec fn listed(&self, rows: Seq<(Vec<u8>, Vec<u8>)>) -> bool {
        lists_exactly(rows, self.recorded())
    }

    fn decide(&mut self, key: &[u8], value: &[u8]) -> (r: Decision) {
        proof {
            let none = row(decision_row(key@, value@)).take(0);
            assert(self.log() + none =~= self.log());
        }
        if self.poisoned {
            return Decision::Failed;
        }
        if let Some(v) = self.map.get(key) {
            return Decision::AlreadyDecided(v);
        }
        if key.len() > MAX_FIELD || value.len() > MAX_FIELD {
            return Decision::Failed;
        }
        let mut rec: Vec<u8> = Vec::new();
        frame(&mut rec, key);
        frame(&mut rec, value);
        let ghost log: Seq<u8> = self.medium.contents();
        let ghost fields: Seq<Seq<u8>> = decision_row(key@, value@);
        proof {
            lemma_decision_row(key@, value@);
            assert(rec@ =~= row(fields));
            lemma_log_append(log, fields);
            law_first_row_counts(rows_from(log, 0, 2), fields);
            assert(rows_from(log, 0, 2).push(fields).drop_last() =~= rows_from(log, 0, 2));
        }
        if !self.medium.append(&rec) {
            proof {
                let cut = choose|cut: int|
                    0 <= cut <= rec@.len() && self.medium.contents() == log + #[trigger] rec@.take(cut);
                if cut < rec@.len() {
                    lemma_log_torn(log, fields, cut);
                } else {
                    assert(rec@.take(cut) =~= rec@);
                }
                assert((log + rec@.take(cut)).take(log.len() as int) =~= log);
            }
            let len: u64 = self.len;
            let cut: bool = self.medium.cut(len);
            let seek: bool = self.medium.seek(len);
            if !cut || !seek {
                self.poisoned = true;
            }
            return Decision::Failed;
        }
        self.len = self.len + rec.len() as u64;
        self.map.add_if_free(copy_bytes(key), copy_bytes(value));
        Decision::Fresh
    }

    fn get(&self, key: &[u8]) -> (r: Option<Vec<u8>>) {
        self.map.get(key)
    }

    fn entries(&self) -> (r: Vec<(Vec<u8>, Vec<u8>)>) {
        self.map.list()
    }
}

} // verus!
