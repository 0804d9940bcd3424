//! The bytes that the fingerprint of a round's terms is taken over.

use vstd::prelude::*;
use vstd::utf8::{encode_utf8, encode_utf8_decode_utf8};

use crate::bignat::{lemma_minimal_bytes_value, minimal_bytes, BigNat};
use crate::bytes::{
    be_bytes, be_encode, extend, lemma_concat, lemma_number_then, lemma_octet_then,
    lemma_pow256_values,
};
use crate::carriage::propose::{Conversion, InstanceLeg, SettlementPropose};
use crate::carriage::{outputs_view, Output, OutputView};
use crate::framing::{field, frame, lemma_field_then, MAX_FIELD};
use crate::meed::rows_nat;

verus! {

/// The bytes of an output.
pub open spec fn output_bytes(o: OutputView) -> Seq<u8> {
    field(minimal_bytes(o.amount)) + field(encode_utf8(o.asset)) + field(encode_utf8(o.dest))
}

/// The bytes of a list of outputs.
pub open spec fn outputs_bytes(outputs: Seq<OutputView>) -> Seq<u8>
    decreases outputs.len(),
{
    if outputs.len() == 0 {
        Seq::empty()
    } else {
        outputs_bytes(outputs.drop_last()) + output_bytes(outputs.last())
    }
}

/// The bytes of a role and its number.
pub open spec fn row_bytes(row: (u8, nat)) -> Seq<u8> {
    seq![row.0] + field(minimal_bytes(row.1))
}

/// The bytes of a list of rows.
pub open spec fn rows_bytes(rows: Seq<(u8, nat)>) -> Seq<u8>
    decreases rows.len(),
{
    if rows.len() == 0 {
        Seq::empty()
    } else {
        rows_bytes(rows.drop_last()) + row_bytes(rows.last())
    }
}

/// The bytes of a meed leg.
pub open spec fn leg_bytes(leg: Option<(nat, Seq<(u8, nat)>)>) -> Seq<u8> {
    match leg {
        Some((amount, rows)) => seq![1u8] + field(minimal_bytes(amount)) + be_bytes(rows.len(), 4)
            + rows_bytes(rows),
        None => seq![0u8],
    }
}

/// The bytes of a conversion.
pub open spec fn conversion_bytes(c: Option<(Seq<char>, u64, u64, u64)>) -> Seq<u8> {
    match c {
        Some((rate, time, exp, grace)) => seq![1u8] + field(encode_utf8(rate)) + be_bytes(time as nat, 8)
            + be_bytes(exp as nat, 8) + be_bytes(grace as nat, 8),
        None => seq![0u8],
    }
}

/// The terms of a proposal: all of it but what grows between retries.
#[verifier::ext_equal]
pub struct ProposalTerms {
    pub channel_id: [u8; 8],
    pub ckpt_ref: [u8; 32],
    pub outputs: Seq<OutputView>,
    pub leg: Option<(nat, Seq<(u8, nat)>)>,
    pub conversion: Option<(Seq<char>, u64, u64, u64)>,
}

/// The terms of a proposal.
pub open spec fn terms_of(p: SettlementPropose) -> ProposalTerms {
    ProposalTerms {
        channel_id: p.channel_id,
        ckpt_ref: p.ckpt_ref,
        outputs: outputs_view(p.outputs@),
        leg: match p.instance_leg {
            Some(l) => Some((l.amount@, rows_nat(l.extinguished@))),
            None => None,
        },
        conversion: match p.conversion {
            Some(c) => Some((c.rate@, c.rate_time, c.rate_exp, c.rate_grace)),
            None => None,
        },
    }
}

/// The bytes that the fingerprint of a round's terms is taken over.
pub open spec fn terms_bytes(t: ProposalTerms) -> Seq<u8> {
    t.channel_id@ + t.ckpt_ref@ + be_bytes(t.outputs.len(), 4) + outputs_bytes(t.outputs) + leg_bytes(
        t.leg,
    ) + conversion_bytes(t.conversion)
}

/// Whether every text, number and list of the terms can be framed.
pub open spec fn terms_fit(t: ProposalTerms) -> bool {
    &&& t.outputs.len() <= MAX_FIELD
    &&& forall|i: int|
        0 <= i < t.outputs.len() ==> {
            &&& minimal_bytes((#[trigger] t.outputs[i]).amount).len() <= MAX_FIELD
            &&& encode_utf8(t.outputs[i].asset).len() <= MAX_FIELD
            &&& encode_utf8(t.outputs[i].dest).len() <= MAX_FIELD
        }
    &&& t.leg matches Some((amount, rows)) ==> {
        &&& minimal_bytes(amount).len() <= MAX_FIELD
        &&& rows.len() <= MAX_FIELD
        &&& forall|i: int|
            0 <= i < rows.len() ==> minimal_bytes((#[trigger] rows[i]).1).len() <= MAX_FIELD
    }
    &&& t.conversion matches Some((rate, _, _, _)) ==> encode_utf8(rate).len() <= MAX_FIELD
}

fn put_outputs(out: &mut Vec<u8>, outputs: &Vec<Output>)
    requires
        forall|i: int|
            0 <= i < outputs@.len() ==> {
                &&& minimal_bytes((#[trigger] outputs_view(outputs@)[i]).amount).len() <= MAX_FIELD
                &&& encode_utf8(outputs_view(outputs@)[i].asset).len() <= MAX_FIELD
                &&& encode_utf8(outputs_view(outputs@)[i].dest).len() <= MAX_FIELD
            },
    ensures
        final(out)@ == old(out)@ + outputs_bytes(outputs_view(outputs@)),
{
    let ghost all: Seq<OutputView> = outputs_view(outputs@);
    let mut i: usize = 0;
    assert(all.take(0) =~= Seq::empty());
    assert(out@ =~= old(out)@ + outputs_bytes(all.take(0)));
    while i < outputs.len()
        invariant
            i <= outputs@.len(),
            all == outputs_view(outputs@),
            forall|j: int|
                0 <= j < outputs@.len() ==> {
                    &&& minimal_bytes((#[trigger] all[j]).amount).len() <= MAX_FIELD
                    &&& encode_utf8(all[j].asset).len() <= MAX_FIELD
                    &&& encode_utf8(all[j].dest).len() <= MAX_FIELD
                },
            out@ == old(out)@ + outputs_bytes(all.take(i as int)),
        decreases outputs@.len() - i,
    {
        let ghost before: Seq<u8> = out@;
        assert(all[i as int] == outputs@[i as int]@);
        let amount: Vec<u8> = outputs[i].amount.to_bytes();
        frame(out, amount.as_slice());
        frame(out, outputs[i].asset.as_str().as_bytes());
        frame(out, outputs[i].dest.as_str().as_bytes());
        proof {
            assert(out@ =~= before + output_bytes(all[i as int]));
            let next = all.take(i + 1);
            assert(next.drop_last() =~= all.take(i as int));
            assert(next.last() == all[i as int]);
            assert(out@ =~= old(out)@ + outputs_bytes(next));
        }
        i = i + 1;
    }
    assert(all.take(outputs@.len() as int) =~= all);
}

fn put_rows(out: &mut Vec<u8>, rows: &Vec<(u8, BigNat)>)
    requires
        forall|i: int|
            0 <= i < rows@.len() ==> minimal_bytes((#[trigger] rows_nat(rows@)[i]).1).len() <= MAX_FIELD,
    ensures
        final(out)@ == old(out)@ + rows_bytes(rows_nat(rows@)),
{
    let ghost all: Seq<(u8, nat)> = rows_nat(rows@);
    let mut i: usize = 0;
    assert(all.take(0) =~= Seq::empty());
    assert(out@ =~= old(out)@ + rows_bytes(all.take(0)));
    while i < rows.len()
        invariant
            i <= rows@.len(),
            all == rows_nat(rows@),
            forall|j: int|
                0 <= j < rows@.len() ==> minimal_bytes((#[trigger] all[j]).1).len() <= MAX_FIELD,
            out@ == old(out)@ + rows_bytes(all.take(i as int)),
        decreases rows@.len() - i,
    {
        let ghost before: Seq<u8> = out@;
        assert(all[i as int] == (rows@[i as int].0, rows@[i as int].1@));
        out.push(rows[i].0);
        let number: Vec<u8> = rows[i].1.to_bytes();
        frame(out, number.as_slice());
        proof {
            assert(out@ =~= before + row_bytes(all[i as int]));
            let next = all.take(i + 1);
            assert(next.drop_last() =~= all.take(i as int));
            assert(next.last() == all[i as int]);
            assert(out@ =~= old(out)@ + rows_bytes(next));
        }
        i = i + 1;
    }
    assert(all.take(rows@.len() as int) =~= all);
}

fn put_number(out: &mut Vec<u8>, n: u64, len: usize)
    requires
        len <= 16,
    ensures
        final(out)@ == old(out)@ + be_bytes(n as nat, len as nat),
{
    let bytes: Vec<u8> = be_encode(n as u128, len);
    extend(out, bytes.as_slice());
}

fn put_leg(out: &mut Vec<u8>, leg: &Option<InstanceLeg>)
    requires
        leg matches Some(l) ==> {
            &&& minimal_bytes(l.amount@).len() <= MAX_FIELD
            &&& l.extinguished@.len() <= MAX_FIELD
            &&& forall|i: int|
                0 <= i < l.extinguished@.len() ==> minimal_bytes(
                    (#[trigger] rows_nat(l.extinguished@)[i]).1,
                ).len() <= MAX_FIELD
        },
    ensures
        final(out)@ == old(out)@ + leg_bytes(
            match *leg {
                Some(l) => Some((l.amount@, rows_nat(l.extinguished@))),
                None => None,
            },
        ),
{
    match leg {
        Some(l) => {
            out.push(1);
            let amount: Vec<u8> = l.amount.to_bytes();
            frame(out, amount.as_slice());
            put_number(out, l.extinguished.len() as u64, 4);
            put_rows(out, &l.extinguished);
            assert(out@ =~= old(out)@ + leg_bytes(Some((l.amount@, rows_nat(l.extinguished@)))));
        },
        None => {
            out.push(0);
            assert(out@ =~= old(out)@ + leg_bytes(None));
        },
    }
}

fn put_conversion(out: &mut Vec<u8>, conversion: &Option<Conversion>)
    requires
        conversion matches Some(c) ==> encode_utf8(c.rate@).len() <= MAX_FIELD,
    ensures
        final(out)@ == old(out)@ + conversion_bytes(
            match *conversion {
                Some(c) => Some((c.rate@, c.rate_time, c.rate_exp, c.rate_grace)),
                None => None,
            },
        ),
{
    match conversion {
        Some(c) => {
            out.push(1);
            frame(out, c.rate.as_str().as_bytes());
            put_number(out, c.rate_time, 8);
            put_number(out, c.rate_exp, 8);
            put_number(out, c.rate_grace, 8);
            assert(out@ =~= old(out)@ + conversion_bytes(
                Some((c.rate@, c.rate_time, c.rate_exp, c.rate_grace)),
            ));
        },
        None => {
            out.push(0);
            assert(out@ =~= old(out)@ + conversion_bytes(None));
        },
    }
}

/// The bytes that the fingerprint of a round's terms is taken over.
pub fn terms_preimage(p: &SettlementPropose) -> (out: Vec<u8>)
    requires
        terms_fit(terms_of(*p)),
    ensures
        out@ == terms_bytes(terms_of(*p)),
{
    let ghost t: ProposalTerms = terms_of(*p);
    let mut out: Vec<u8> = Vec::new();
    extend(&mut out, p.channel_id.as_slice());
    extend(&mut out, p.ckpt_ref.as_slice());
    put_number(&mut out, p.outputs.len() as u64, 4);
    put_outputs(&mut out, &p.outputs);
    put_leg(&mut out, &p.instance_leg);
    put_conversion(&mut out, &p.conversion);
    assert(out@ =~= terms_bytes(t));
    out
}

proof fn lemma_output_then(a: OutputView, b: OutputView, x: Seq<u8>, y: Seq<u8>)
    requires
        minimal_bytes(a.amount).len() <= MAX_FIELD,
        encode_utf8(a.asset).len() <= MAX_FIELD,
        encode_utf8(a.dest).len() <= MAX_FIELD,
        minimal_bytes(b.amount).len() <= MAX_FIELD,
        encode_utf8(b.asset).len() <= MAX_FIELD,
        encode_utf8(b.dest).len() <= MAX_FIELD,
        output_bytes(a) + x == output_bytes(b) + y,
    ensures
        a == b,
        x == y,
{
    let (a1, a2, a3) = (field(minimal_bytes(a.amount)), field(encode_utf8(a.asset)), field(encode_utf8(a.dest)));
    let (b1, b2, b3) = (field(minimal_bytes(b.amount)), field(encode_utf8(b.asset)), field(encode_utf8(b.dest)));
    assert(a1 + a2 + a3 + x =~= a1 + (a2 + (a3 + x)));
    assert(b1 + b2 + b3 + y =~= b1 + (b2 + (b3 + y)));
    lemma_field_then(minimal_bytes(a.amount), minimal_bytes(b.amount), a2 + (a3 + x), b2 + (b3 + y));
    lemma_field_then(encode_utf8(a.asset), encode_utf8(b.asset), a3 + x, b3 + y);
    lemma_field_then(encode_utf8(a.dest), encode_utf8(b.dest), x, y);
    lemma_minimal_bytes_value(a.amount);
    lemma_minimal_bytes_value(b.amount);
    encode_utf8_decode_utf8(a.asset);
    encode_utf8_decode_utf8(b.asset);
    encode_utf8_decode_utf8(a.dest);
    encode_utf8_decode_utf8(b.dest);
}

proof fn lemma_outputs_first(outputs: Seq<OutputView>)
    requires
        outputs.len() > 0,
    ensures
        outputs_bytes(outputs) == output_bytes(outputs[0]) + outputs_bytes(outputs.drop_first()),
    decreases outputs.len(),
{
    let rest = outputs.drop_first();
    if outputs.len() == 1 {
        assert(outputs.drop_last() =~= Seq::empty());
        assert(rest =~= Seq::empty());
        assert(outputs_bytes(outputs) =~= output_bytes(outputs[0]) + outputs_bytes(rest));
    } else {
        lemma_outputs_first(outputs.drop_last());
        assert(outputs.drop_last().drop_first() =~= rest.drop_last());
        assert(outputs_bytes(outputs) =~= output_bytes(outputs[0]) + outputs_bytes(rest));
    }
}

proof fn lemma_outputs_then(a: Seq<OutputView>, b: Seq<OutputView>, x: Seq<u8>, y: Seq<u8>)
    requires
        a.len() == b.len(),
        forall|i: int|
            0 <= i < a.len() ==> {
                &&& minimal_bytes((#[trigger] a[i]).amount).len() <= MAX_FIELD
                &&& encode_utf8(a[i].asset).len() <= MAX_FIELD
                &&& encode_utf8(a[i].dest).len() <= MAX_FIELD
            },
        forall|i: int|
            0 <= i < b.len() ==> {
                &&& minimal_bytes((#[trigger] b[i]).amount).len() <= MAX_FIELD
                &&& encode_utf8(b[i].asset).len() <= MAX_FIELD
                &&& encode_utf8(b[i].dest).len() <= MAX_FIELD
            },
        outputs_bytes(a) + x == outputs_bytes(b) + y,
    ensures
        a == b,
        x == y,
    decreases a.len(),
{
    if a.len() == 0 {
        assert(a =~= b);
        lemma_concat(outputs_bytes(a), outputs_bytes(b), x, y);
    } else {
        let (ra, rb) = (a.drop_first(), b.drop_first());
        lemma_outputs_first(a);
        lemma_outputs_first(b);
        assert(output_bytes(a[0]) + outputs_bytes(ra) + x =~= output_bytes(a[0]) + (outputs_bytes(ra) + x));
        assert(output_bytes(b[0]) + outputs_bytes(rb) + y =~= output_bytes(b[0]) + (outputs_bytes(rb) + y));
        lemma_output_then(a[0], b[0], outputs_bytes(ra) + x, outputs_bytes(rb) + y);
        assert forall|i: int| 0 <= i < ra.len() implies {
            &&& minimal_bytes((#[trigger] ra[i]).amount).len() <= MAX_FIELD
            &&& encode_utf8(ra[i].asset).len() <= MAX_FIELD
            &&& encode_utf8(ra[i].dest).len() <= MAX_FIELD
        } by {
            assert(ra[i] == a[i + 1]);
        }
        assert forall|i: int| 0 <= i < rb.len() implies {
            &&& minimal_bytes((#[trigger] rb[i]).amount).len() <= MAX_FIELD
            &&& encode_utf8(rb[i].asset).len() <= MAX_FIELD
            &&& encode_utf8(rb[i].dest).len() <= MAX_FIELD
        } by {
            assert(rb[i] == b[i + 1]);
        }
        lemma_outputs_then(ra, rb, x, y);
        assert(a =~= seq![a[0]] + ra);
        assert(b =~= seq![b[0]] + rb);
    }
}

proof fn lemma_rows_first(rows: Seq<(u8, nat)>)
    requires
        rows.len() > 0,
    ensures
        rows_bytes(rows) == row_bytes(rows[0]) + rows_bytes(rows.drop_first()),
    decreases rows.len(),
{
    let rest = rows.drop_first();
    if rows.len() == 1 {
        assert(rows.drop_last() =~= Seq::empty());
        assert(rest =~= Seq::empty());
        assert(rows_bytes(rows) =~= row_bytes(rows[0]) + rows_bytes(rest));
    } else {
        lemma_rows_first(rows.drop_last());
        assert(rows.drop_last().drop_first() =~= rest.drop_last());
        assert(rows_bytes(rows) =~= row_bytes(rows[0]) + rows_bytes(rest));
    }
}

proof fn lemma_rows_then(a: Seq<(u8, nat)>, b: Seq<(u8, nat)>, x: Seq<u8>, y: Seq<u8>)
    requires
        a.len() == b.len(),
        forall|i: int| 0 <= i < a.len() ==> minimal_bytes((#[trigger] a[i]).1).len() <= MAX_FIELD,
        forall|i: int| 0 <= i < b.len() ==> minimal_bytes((#[trigger] b[i]).1).len() <= MAX_FIELD,
        rows_bytes(a) + x == rows_bytes(b) + y,
    ensures
        a == b,
        x == y,
    decreases a.len(),
{
    if a.len() == 0 {
        assert(a =~= b);
        lemma_concat(rows_bytes(a), rows_bytes(b), x, y);
    } else {
        let (ra, rb) = (a.drop_first(), b.drop_first());
        lemma_rows_first(a);
        lemma_rows_first(b);
        let fa = field(minimal_bytes(a[0].1));
        let fb = field(minimal_bytes(b[0].1));
        let ta = rows_bytes(ra) + x;
        let tb = rows_bytes(rb) + y;
        assert(rows_bytes(a) + x =~= seq![a[0].0] + (fa + ta));
        assert(rows_bytes(b) + y =~= seq![b[0].0] + (fb + tb));
        lemma_octet_then(a[0].0, b[0].0, fa + ta, fb + tb);
        assert(minimal_bytes(a[0].1).len() <= MAX_FIELD);
        assert(minimal_bytes(b[0].1).len() <= MAX_FIELD);
        lemma_field_then(minimal_bytes(a[0].1), minimal_bytes(b[0].1), ta, tb);
        lemma_minimal_bytes_value(a[0].1);
        lemma_minimal_bytes_value(b[0].1);
        assert forall|i: int| 0 <= i < ra.len() implies minimal_bytes((#[trigger] ra[i]).1).len()
            <= MAX_FIELD by {
            assert(ra[i] == a[i + 1]);
        }
        assert forall|i: int| 0 <= i < rb.len() implies minimal_bytes((#[trigger] rb[i]).1).len()
            <= MAX_FIELD by {
            assert(rb[i] == b[i + 1]);
        }
        lemma_rows_then(ra, rb, x, y);
        assert(a =~= seq![a[0]] + ra);
        assert(b =~= seq![b[0]] + rb);
    }
}

proof fn lemma_leg_then(
    a: Option<(nat, Seq<(u8, nat)>)>,
    b: Option<(nat, Seq<(u8, nat)>)>,
    x: Seq<u8>,
    y: Seq<u8>,
)
    requires
        a matches Some((amount, rows)) ==> {
            &&& minimal_bytes(amount).len() <= MAX_FIELD
            &&& rows.len() <= MAX_FIELD
            &&& forall|i: int|
                0 <= i < rows.len() ==> minimal_bytes((#[trigger] rows[i]).1).len() <= MAX_FIELD
        },
        b matches Some((amount, rows)) ==> {
            &&& minimal_bytes(amount).len() <= MAX_FIELD
            &&& rows.len() <= MAX_FIELD
            &&& forall|i: int|
                0 <= i < rows.len() ==> minimal_bytes((#[trigger] rows[i]).1).len() <= MAX_FIELD
        },
        leg_bytes(a) + x == leg_bytes(b) + y,
    ensures
        a == b,
        x == y,
{
    assert((leg_bytes(a) + x)[0] == leg_bytes(a)[0]);
    assert((leg_bytes(b) + y)[0] == leg_bytes(b)[0]);
    match (a, b) {
        (Some((m, r)), Some((n, s))) => {
            lemma_pow256_values();
            let (fm, fn_) = (field(minimal_bytes(m)), field(minimal_bytes(n)));
            let (cr, cs) = (be_bytes(r.len(), 4), be_bytes(s.len(), 4));
            let (tr, ts) = (rows_bytes(r) + x, rows_bytes(s) + y);
            assert(leg_bytes(a) + x =~= seq![1u8] + (fm + (cr + tr)));
            assert(leg_bytes(b) + y =~= seq![1u8] + (fn_ + (cs + ts)));
            lemma_octet_then(1, 1, fm + (cr + tr), fn_ + (cs + ts));
            lemma_field_then(minimal_bytes(m), minimal_bytes(n), cr + tr, cs + ts);
            lemma_number_then(r.len(), s.len(), 4, tr, ts);
            lemma_rows_then(r, s, x, y);
            lemma_minimal_bytes_value(m);
            lemma_minimal_bytes_value(n);
        },
        (None, None) => {
            lemma_octet_then(0, 0, x, y);
        },
        _ => {},
    }
}

proof fn lemma_conversion_then(
    a: Option<(Seq<char>, u64, u64, u64)>,
    b: Option<(Seq<char>, u64, u64, u64)>,
)
    requires
        a matches Some((rate, _, _, _)) ==> encode_utf8(rate).len() <= MAX_FIELD,
        b matches Some((rate, _, _, _)) ==> encode_utf8(rate).len() <= MAX_FIELD,
        conversion_bytes(a) == conversion_bytes(b),
    ensures
        a == b,
{
    assert(conversion_bytes(a)[0] == if a is Some {
        1u8
    } else {
        0u8
    });
    assert(conversion_bytes(b)[0] == if b is Some {
        1u8
    } else {
        0u8
    });
    match (a, b) {
        (Some((r, t, e, g)), Some((s, u, f, h))) => {
            lemma_pow256_values();
            let (fr, fs) = (field(encode_utf8(r)), field(encode_utf8(s)));
            let (t8, u8_) = (be_bytes(t as nat, 8), be_bytes(u as nat, 8));
            let (e8, f8) = (be_bytes(e as nat, 8), be_bytes(f as nat, 8));
            let (g8, h8) = (be_bytes(g as nat, 8), be_bytes(h as nat, 8));
            let none = Seq::<u8>::empty();
            assert(conversion_bytes(a) =~= seq![1u8] + (fr + (t8 + (e8 + (g8 + none)))));
            assert(conversion_bytes(b) =~= seq![1u8] + (fs + (u8_ + (f8 + (h8 + none)))));
            lemma_octet_then(1, 1, fr + (t8 + (e8 + (g8 + none))), fs + (u8_ + (f8 + (h8 + none))));
            lemma_field_then(
                encode_utf8(r),
                encode_utf8(s),
                t8 + (e8 + (g8 + none)),
                u8_ + (f8 + (h8 + none)),
            );
            lemma_number_then(t as nat, u as nat, 8, e8 + (g8 + none), f8 + (h8 + none));
            lemma_number_then(e as nat, f as nat, 8, g8 + none, h8 + none);
            lemma_number_then(g as nat, h as nat, 8, none, none);
            encode_utf8_decode_utf8(r);
            encode_utf8_decode_utf8(s);
        },
        _ => {},
    }
}

proof fn lemma_regroup(
    a: Seq<u8>,
    b: Seq<u8>,
    c: Seq<u8>,
    d: Seq<u8>,
    e: Seq<u8>,
    f: Seq<u8>,
)
    ensures
        a + b + c + d + e + f == a + (b + (c + (d + (e + f)))),
{
    assert(a + b + c + d + e + f =~= a + (b + (c + (d + (e + f)))));
}

/// The fingerprint's bytes determine a round's terms: two proposals with the same
/// bytes are the same round, whatever else of them differs.
pub proof fn law_terms_bytes_determine_the_round(a: ProposalTerms, b: ProposalTerms)
    requires
        terms_fit(a),
        terms_fit(b),
        terms_bytes(a) == terms_bytes(b),
    ensures
        a == b,
{
    lemma_pow256_values();
    let (ca, cb) = (conversion_bytes(a.conversion), conversion_bytes(b.conversion));
    let (la, lb) = (leg_bytes(a.leg), leg_bytes(b.leg));
    let (oa, ob) = (outputs_bytes(a.outputs), outputs_bytes(b.outputs));
    let (na, nb) = (be_bytes(a.outputs.len(), 4), be_bytes(b.outputs.len(), 4));
    let ta = na + (oa + (la + ca));
    let tb = nb + (ob + (lb + cb));
    lemma_regroup(a.channel_id@, a.ckpt_ref@, na, oa, la, ca);
    lemma_regroup(b.channel_id@, b.ckpt_ref@, nb, ob, lb, cb);
    lemma_concat(a.channel_id@, b.channel_id@, a.ckpt_ref@ + ta, b.ckpt_ref@ + tb);
    lemma_concat(a.ckpt_ref@, b.ckpt_ref@, ta, tb);
    lemma_number_then(a.outputs.len(), b.outputs.len(), 4, oa + (la + ca), ob + (lb + cb));
    lemma_outputs_then(a.outputs, b.outputs, la + ca, lb + cb);
    lemma_leg_then(a.leg, b.leg, ca, cb);
    lemma_conversion_then(a.conversion, b.conversion);
    assert forall|i: int| 0 <= i < 8 implies a.channel_id[i] == b.channel_id[i] by {
        assert(a.channel_id@[i] == b.channel_id@[i]);
    }
    assert(a.channel_id =~= b.channel_id);
    assert forall|i: int| 0 <= i < 32 implies a.ckpt_ref[i] == b.ckpt_ref[i] by {
        assert(a.ckpt_ref@[i] == b.ckpt_ref@[i]);
    }
    assert(a.ckpt_ref =~= b.ckpt_ref);
}

/// Proposals with the same bytes propose the same: the same checkpoint, the same outputs in
/// amount, asset and destination, the same meed leg and the same conversion.
pub proof fn law_same_bytes_propose_the_same(p: SettlementPropose, q: SettlementPropose)
    requires
        terms_fit(terms_of(p)),
        terms_fit(terms_of(q)),
        terms_bytes(terms_of(p)) == terms_bytes(terms_of(q)),
    ensures
        p.channel_id == q.channel_id,
        p.ckpt_ref == q.ckpt_ref,
        p.outputs@.len() == q.outputs@.len(),
        forall|i: int|
            0 <= i < p.outputs@.len() ==> {
                &&& (#[trigger] p.outputs@[i]).amount@ == q.outputs@[i].amount@
                &&& p.outputs@[i].asset@ == q.outputs@[i].asset@
                &&& p.outputs@[i].dest@ == q.outputs@[i].dest@
            },
        p.instance_leg is Some == q.instance_leg is Some,
        p.instance_leg is Some ==> (p.instance_leg->0).amount@ == (q.instance_leg->0).amount@ && rows_nat(
            (p.instance_leg->0).extinguished@,
        ) == rows_nat((q.instance_leg->0).extinguished@),
        p.conversion is Some == q.conversion is Some,
        p.conversion is Some ==> {
            &&& (p.conversion->0).rate@ == (q.conversion->0).rate@
            &&& (p.conversion->0).rate_time == (q.conversion->0).rate_time
            &&& (p.conversion->0).rate_exp == (q.conversion->0).rate_exp
            &&& (p.conversion->0).rate_grace == (q.conversion->0).rate_grace
        },
{
    law_terms_bytes_determine_the_round(terms_of(p), terms_of(q));
    let (a, b) = (outputs_view(p.outputs@), outputs_view(q.outputs@));
    assert(a.len() == p.outputs@.len() && b.len() == q.outputs@.len());
    assert forall|i: int| 0 <= i < p.outputs@.len() implies (#[trigger] p.outputs@[i])@ == q.outputs@[i]@ by {
        assert(a[i] == p.outputs@[i]@ && b[i] == q.outputs@[i]@);
    }
}

/// Retries of one proposal have the same bytes, whatever was signed or learned between them.
pub proof fn law_a_retry_keeps_its_bytes(p: SettlementPropose, q: SettlementPropose)
    requires
        p == (SettlementPropose { merchant_signed: p.merchant_signed, ..q }),
    ensures
        terms_bytes(terms_of(p)) == terms_bytes(terms_of(q)),
{
}

} // verus!
