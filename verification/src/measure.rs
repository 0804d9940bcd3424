//! The measurement report: what an object weighs, what a lifecycle costs in rail
//! operations, and where a channel beats single payments.
//!
//! A row is either structural, and carries its value, or waits for a real rail, and
//! carries none: a number from a test rail would be made up.

use vstd::prelude::*;

use crate::meed::BP_DENOM;

verus! {

/// How a row was obtained.
#[derive(Debug, Clone, Copy, PartialEq, Eq, Structural)]
pub enum Source {
    /// Bytes, operation counts and arithmetic floors: the same on every rail.
    Measured,
    /// Gas and latency: the method is named, the value withheld.
    PendingRealRail,
}

/// One row of the report.
#[derive(Debug, Clone)]
pub struct Row {
    pub name: &'static str,
    pub unit: &'static str,
    /// The value, or `None` where it waits for a real rail.
    pub value: Option<u64>,
    pub source: Source,
    pub note: &'static str,
}

/// The encoded sizes of the sample objects.
#[derive(Debug, Clone, Copy)]
pub struct SampleSizes {
    pub slice: u64,
    pub checkpoint: u64,
    pub attestation: u64,
}

/// What a row says.
#[verifier::ext_equal]
pub struct RowView {
    pub name: Seq<char>,
    pub unit: Seq<char>,
    pub value: Option<u64>,
    pub source: Source,
    pub note: Seq<char>,
}

impl View for Row {
    type V = RowView;

    open spec fn view(&self) -> RowView {
        RowView {
            name: self.name@,
            unit: self.unit@,
            value: self.value,
            source: self.source,
            note: self.note@,
        }
    }
}

/// A row with a value.
pub open spec fn measured(name: &str, unit: &str, value: u64, note: &str) -> RowView {
    RowView {
        name: name@,
        unit: unit@,
        value: Some(value),
        source: Source::Measured,
        note: note@,
    }
}

/// A row that waits for a real rail.
pub open spec fn withheld(name: &str, unit: &str, note: &str) -> RowView {
    RowView {
        name: name@,
        unit: unit@,
        value: None,
        source: Source::PendingRealRail,
        note: note@,
    }
}

/// The smallest amount whose meed at `bp` basis points is a whole unit.
pub open spec fn floor_units(bp: nat) -> nat
    recommends
        bp > 0,
{
    (BP_DENOM as nat + bp - 1) as nat / bp
}

/// The rows of the report.
pub open spec fn report_rows(sizes: SampleSizes) -> Seq<RowView> {
    seq![
        measured("metering slice", "bytes", sizes.slice, "SEQ(8)+AMT(6)+TAG(16) + TLV framing"),
        measured(
            "bilateral checkpoint",
            "bytes",
            sizes.checkpoint,
            "schema-0x01 vector, 1 range, 1 event, both sigs",
        ),
        measured("attestation", "bytes", sizes.attestation, "NONCE(32)+ENTRY_ID(32)+SIG(64)"),
        measured(
            "entry: first-use instance deploy",
            "rail ops",
            1,
            "counterfactual; once per (merchant,asset,vector,contract)",
        ),
        measured(
            "two-leg purchase",
            "rail ops",
            3,
            "fund meed entry + net leg + attestation post",
        ),
        measured("entry funding", "rail ops", 1, "F4.3 fund"),
        measured("receipt claim (attest)", "rail ops", 1, "attestation releases to recipients"),
        measured("cancellation", "rail ops", 1, "refund at once, no contest"),
        measured(
            "reclaim (open+execute)",
            "rail ops",
            2,
            "open_reclaim + execute_reclaim after T_exec",
        ),
        measured("batch-of-N claim", "rail ops", 1, "batch takes N entry-ids in one call"),
        measured("batch reclaim", "rail ops", 1, "entry-ids only"),
        measured("attestation posting", "rail ops", 1, ""),
        measured(
            "channel settlement round",
            "rail ops",
            2,
            "fund claim-record + net leg (E>=1 rounds only)",
        ),
        measured(
            "splitter withdrawal / recipient",
            "rail ops",
            1,
            "each recipient withdraws its own share",
        ),
        measured("two-leg floor @ 100 bp", "min units", 100, "meed rounds up to >= 1 unit"),
        measured("two-leg floor @ 150 bp", "min units", 67, "the protocol cap"),
        withheld(
            "entry lifecycle gas",
            "gas",
            "M5: mainnet p50/p95 over a stated window, never raw devnet gas",
        ),
        withheld(
            "channel-round gas vs round value",
            "gas",
            "M5: aggregate-leg cost at several thresholds",
        ),
        withheld(
            "quote->redemption latency / finality level",
            "ms",
            "M5: distribution over repeated runs per level",
        ),
    ]
}

/// What a list of rows says.
pub open spec fn rows_view(rows: Seq<Row>) -> Seq<RowView> {
    rows.map_values(|r: Row| r@)
}

/// The smallest purchase whose meed at `bp` basis points rounds down to a whole unit
/// at least; below it the meed is dust.
pub fn two_leg_floor_units(bp: u16) -> (n: u64)
    requires
        bp > 0,
    ensures
        n == floor_units(bp as nat),
        n * bp >= BP_DENOM,
        n > 0 ==> (n - 1) * bp < BP_DENOM,
{
    let d: u32 = bp as u32;
    let n: u32 = (BP_DENOM + d - 1) / d;
    proof {
        let top = BP_DENOM + d - 1;
        vstd::arithmetic::div_mod::lemma_fundamental_div_mod(top as int, d as int);
        assert(n * d + top % (d as int) == top) by (nonlinear_arith)
            requires
                top == d * (top / (d as int)) + top % (d as int),
                n == top / (d as int),
        ;
        assert(0 <= top % (d as int) < d);
        assert((n - 1) * d == n * d - d) by (nonlinear_arith);
    }
    n as u64
}

fn structural(name: &'static str, unit: &'static str, value: u64, note: &'static str) -> (r: Row)
    ensures
        r@ == measured(name, unit, value, note),
{
    Row { name, unit, value: Some(value), source: Source::Measured, note }
}

fn pending(name: &'static str, unit: &'static str, note: &'static str) -> (r: Row)
    ensures
        r@ == withheld(name, unit, note),
{
    Row { name, unit, value: None, source: Source::PendingRealRail, note }
}

/// The measurement report, over the encoded sizes of the sample objects.
pub fn report(sizes: &SampleSizes) -> (rows: Vec<Row>)
    ensures
        rows_view(rows@) == report_rows(*sizes),
{
    let floor_100: u64 = two_leg_floor_units(100);
    let floor_150: u64 = two_leg_floor_units(150);
    assert(floor_100 == 100);
    assert(floor_150 == 67);
    let mut rows: Vec<Row> = Vec::new();
    rows.push(structural("metering slice", "bytes", sizes.slice, "SEQ(8)+AMT(6)+TAG(16) + TLV framing"));
    rows.push(
        structural(
            "bilateral checkpoint",
            "bytes",
            sizes.checkpoint,
            "schema-0x01 vector, 1 range, 1 event, both sigs",
        ),
    );
    rows.push(structural("attestation", "bytes", sizes.attestation, "NONCE(32)+ENTRY_ID(32)+SIG(64)"));
    rows.push(
        structural(
            "entry: first-use instance deploy",
            "rail ops",
            1,
            "counterfactual; once per (merchant,asset,vector,contract)",
        ),
    );
    rows.push(
        structural("two-leg purchase", "rail ops", 3, "fund meed entry + net leg + attestation post"),
    );
    rows.push(structural("entry funding", "rail ops", 1, "F4.3 fund"));
    rows.push(
        structural("receipt claim (attest)", "rail ops", 1, "attestation releases to recipients"),
    );
    rows.push(structural("cancellation", "rail ops", 1, "refund at once, no contest"));
    rows.push(
        structural(
            "reclaim (open+execute)",
            "rail ops",
            2,
            "open_reclaim + execute_reclaim after T_exec",
        ),
    );
    rows.push(structural("batch-of-N claim", "rail ops", 1, "batch takes N entry-ids in one call"));
    rows.push(structural("batch reclaim", "rail ops", 1, "entry-ids only"));
    rows.push(structural("attestation posting", "rail ops", 1, ""));
    rows.push(
        structural(
            "channel settlement round",
            "rail ops",
            2,
            "fund claim-record + net leg (E>=1 rounds only)",
        ),
    );
    rows.push(
        structural(
            "splitter withdrawal / recipient",
            "rail ops",
            1,
            "each recipient withdraws its own share",
        ),
    );
    rows.push(
        structural("two-leg floor @ 100 bp", "min units", floor_100, "meed rounds up to >= 1 unit"),
    );
    rows.push(structural("two-leg floor @ 150 bp", "min units", floor_150, "the protocol cap"));
    rows.push(
        pending(
            "entry lifecycle gas",
            "gas",
            "M5: mainnet p50/p95 over a stated window, never raw devnet gas",
        ),
    );
    rows.push(
        pending(
            "channel-round gas vs round value",
            "gas",
            "M5: aggregate-leg cost at several thresholds",
        ),
    );
    rows.push(
        pending(
            "quote->redemption latency / finality level",
            "ms",
            "M5: distribution over repeated runs per level",
        ),
    );
    assert(rows_view(rows@) =~= report_rows(*sizes));
    rows
}

/// The report makes nothing up: a row carries a value exactly where it is structural.
pub proof fn law_report_is_honest(sizes: SampleSizes, i: int)
    requires
        0 <= i < report_rows(sizes).len(),
    ensures
        report_rows(sizes)[i].value is Some <==> report_rows(sizes)[i].source == Source::Measured,
{
}

/// What stands for a crossover where no number of payments has one.
pub const NO_CROSSOVER: u64 = 1_000_001;

/// Whether a channel costs fewer rail operations than `k` single payments: one
/// deployment and its settlement rounds, against `per_payment` operations each.
pub open spec fn channel_is_cheaper(k: nat, per_payment: nat, settlements: nat, round_ops: nat) -> bool {
    1 + settlements * round_ops < k * per_payment
}

/// The smallest number of payments from which a channel costs fewer rail operations
/// than single payments; [`NO_CROSSOVER`] where no number that fits has the channel
/// cheaper.
pub fn channel_crossover_rail_ops(two_leg_ops_per_payment: u64, settlements: u64, round_ops: u64) -> (k: u64)
    ensures
        ({
            ||| {
                &&& channel_is_cheaper(
                    k as nat,
                    two_leg_ops_per_payment as nat,
                    settlements as nat,
                    round_ops as nat,
                )
                &&& forall|j: nat|
                    j < k ==> !#[trigger] channel_is_cheaper(
                        j,
                        two_leg_ops_per_payment as nat,
                        settlements as nat,
                        round_ops as nat,
                    )
            }
            ||| {
                &&& k == NO_CROSSOVER
                &&& forall|j: nat|
                    j <= u64::MAX ==> !#[trigger] channel_is_cheaper(
                        j,
                        two_leg_ops_per_payment as nat,
                        settlements as nat,
                        round_ops as nat,
                    )
            }
        }),
{
    let per: u128 = two_leg_ops_per_payment as u128;
    assert(settlements * round_ops <= 0xffff_ffff_ffff_ffff * 0xffff_ffff_ffff_ffff) by (nonlinear_arith)
        requires
            settlements <= 0xffff_ffff_ffff_ffff,
            round_ops <= 0xffff_ffff_ffff_ffff,
    ;
    let channel: u128 = 1 + settlements as u128 * round_ops as u128;
    if per == 0 {
        assert forall|j: nat| !channel_is_cheaper(j, 0, settlements as nat, round_ops as nat) by {
            assert(j * 0 == 0) by (nonlinear_arith);
        }
        return NO_CROSSOVER;
    }
    let whole: u128 = channel / per;
    assert forall|j: nat|
        channel_is_cheaper(j, two_leg_ops_per_payment as nat, settlements as nat, round_ops as nat) <==> j
            > whole by {
        lemma_quotient_is_first(channel as nat, per as nat, j);
    }
    if whole >= 0xffff_ffff_ffff_ffff {
        return NO_CROSSOVER;
    }
    whole as u64 + 1
}

proof fn lemma_quotient_is_first(n: nat, per: nat, j: nat)
    requires
        per > 0,
    ensures
        n < j * per <==> j > n / per,
{
    assert(n < j * per <==> j > n / per) by (nonlinear_arith)
        requires
            per > 0,
    ;
}

/// A channel costs its deployment and its rounds, single payments their operations each: with
/// no round the deployment alone has to be beaten, each round adds its operations to that,
/// and each payment its own to the other side.
pub proof fn law_a_channel_costs_its_rounds(k: nat, per_payment: nat, settlements: nat, round_ops: nat)
    ensures
        channel_is_cheaper(k, per_payment, 0, round_ops) <==> k * per_payment >= 2,
        channel_is_cheaper(k, per_payment, settlements + 1, round_ops) <==> k * per_payment > 1 + settlements
            * round_ops + round_ops,
        channel_is_cheaper(k, per_payment, settlements, round_ops) ==> channel_is_cheaper(
            k + 1,
            per_payment,
            settlements,
            round_ops,
        ),
        !channel_is_cheaper(0, per_payment, settlements, round_ops),
{
    assert(0 * round_ops == 0);
    assert((settlements + 1) * round_ops == settlements * round_ops + round_ops) by (nonlinear_arith);
    assert((k + 1) * per_payment == k * per_payment + per_payment) by (nonlinear_arith);
    assert(0 * per_payment == 0);
}

} // verus!
