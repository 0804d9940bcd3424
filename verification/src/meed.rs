//! Meed arithmetic: per-role numerators, their carve, and what stays owed.
//!
//! A meed numerator counts ten-thousandths of a unit, per role. The carve of a
//! list of numerators is their sum over `10 000`, rounded down once.

use vstd::prelude::*;

use crate::bignat::{two_pow_256, BigNat};

verus! {

/// The basis-point denominator.
pub const BP_DENOM: u32 = 10_000;

/// The roles and numbers of a list of rows.
pub open spec fn rows_nat(rows: Seq<(u8, BigNat)>) -> Seq<(u8, nat)> {
    rows.map_values(|row: (u8, BigNat)| (row.0, row.1@))
}

/// The sum over all rows.
pub open spec fn total(rows: Seq<(u8, nat)>) -> nat
    decreases rows.len(),
{
    if rows.len() == 0 {
        0
    } else {
        total(rows.drop_last()) + rows.last().1
    }
}

/// The number of the first row of `role`; zero where there is none.
pub open spec fn amount_of(rows: Seq<(u8, nat)>, role: u8) -> nat
    decreases rows.len(),
{
    if rows.len() == 0 {
        0
    } else if rows[0].0 == role {
        rows[0].1
    } else {
        amount_of(rows.drop_first(), role)
    }
}

/// Whether the roles stand in strictly ascending order.
pub open spec fn ascending(rows: Seq<(u8, nat)>) -> bool {
    forall|i: int, j: int| 0 <= i < j < rows.len() ==> (#[trigger] rows[i]).0 < (#[trigger] rows[j]).0
}

/// The carve: the sum over `10 000`, rounded down.
pub open spec fn carve(rows: Seq<(u8, nat)>) -> nat {
    total(rows) / 10_000
}

/// `rows` with `amount` added to `role`; a role that is not there yet comes to
/// stand before the first larger one.
pub open spec fn credited(rows: Seq<(u8, nat)>, role: u8, amount: nat) -> Seq<(u8, nat)>
    decreases rows.len(),
{
    if rows.len() == 0 {
        seq![(role, amount)]
    } else if rows[0].0 == role {
        seq![(role, rows[0].1 + amount)] + rows.drop_first()
    } else if role < rows[0].0 {
        seq![(role, amount)] + rows
    } else {
        seq![rows[0]] + credited(rows.drop_first(), role, amount)
    }
}

/// `rows` with every row of `more` added.
pub open spec fn credited_all(rows: Seq<(u8, nat)>, more: Seq<(u8, nat)>) -> Seq<(u8, nat)>
    decreases more.len(),
{
    if more.len() == 0 {
        rows
    } else {
        let before = credited_all(rows, more.drop_last());
        credited(before, more.last().0, more.last().1)
    }
}

/// Whether what is settled can be taken from what is accrued, role by role, with
/// every number in 256 bits.
pub open spec fn reconcilable(accrued: Seq<(u8, nat)>, settled: Seq<(u8, nat)>) -> bool {
    forall|i: int|
        0 <= i < accrued.len() ==> {
            &&& (#[trigger] accrued[i]).1 < two_pow_256()
            &&& amount_of(settled, accrued[i].0) < two_pow_256()
            &&& amount_of(settled, accrued[i].0) <= accrued[i].1
        }
}

/// What stays owed of each accrued row.
pub open spec fn outstanding(accrued: Seq<(u8, nat)>, settled: Seq<(u8, nat)>) -> Seq<(u8, nat)> {
    accrued.map_values(
        |row: (u8, nat)| (row.0, (row.1 - amount_of(settled, row.0)) as nat),
    )
}

/// The merchant's net that stays owed: the metered gross less the carve, the
/// net legs and the credited funding, and never below zero.
pub open spec fn owed_net(cum: nat, accrued: Seq<(u8, nat)>, net_legs: nat, funding: nat) -> nat {
    let rest = cum - carve(accrued) - net_legs - funding;
    if rest > 0 {
        rest as nat
    } else {
        0
    }
}

proof fn lemma_total_first(rows: Seq<(u8, nat)>)
    requires
        rows.len() > 0,
    ensures
        total(rows) == rows[0].1 + total(rows.drop_first()),
    decreases rows.len(),
{
    if rows.len() == 1 {
        assert(rows.drop_first() =~= Seq::empty());
        assert(rows.drop_last() =~= Seq::empty());
    } else {
        lemma_total_first(rows.drop_last());
        assert(rows.drop_first().drop_last() =~= rows.drop_last().drop_first());
    }
}

/// Crediting a role raises the sum by exactly what is credited.
pub proof fn lemma_credited_total(rows: Seq<(u8, nat)>, role: u8, amount: nat)
    ensures
        total(credited(rows, role, amount)) == total(rows) + amount,
    decreases rows.len(),
{
    let after = credited(rows, role, amount);
    if rows.len() == 0 {
        assert(total(after.drop_last()) == 0);
    } else {
        lemma_total_first(after);
        lemma_total_first(rows);
        if rows[0].0 == role {
            assert(after.drop_first() =~= rows.drop_first());
        } else if role < rows[0].0 {
            assert(after.drop_first() =~= rows);
        } else {
            lemma_credited_total(rows.drop_first(), role, amount);
            assert(after.drop_first() =~= credited(rows.drop_first(), role, amount));
        }
    }
}

pub proof fn lemma_credited_all_total(rows: Seq<(u8, nat)>, more: Seq<(u8, nat)>)
    ensures
        total(credited_all(rows, more)) == total(rows) + total(more),
    decreases more.len(),
{
    if more.len() > 0 {
        lemma_credited_all_total(rows, more.drop_last());
        lemma_credited_total(
            credited_all(rows, more.drop_last()),
            more.last().0,
            more.last().1,
        );
    }
}

proof fn lemma_credited_roles(rows: Seq<(u8, nat)>, role: u8, amount: nat)
    requires
        ascending(rows),
    ensures
        ascending(credited(rows, role, amount)),
        credited(rows, role, amount).len() > 0,
        rows.len() == 0 || role <= rows[0].0 ==> credited(rows, role, amount)[0].0 == role,
        rows.len() > 0 && role > rows[0].0 ==> credited(rows, role, amount)[0] == rows[0],
        forall|r: u8| #[trigger]
            amount_of(credited(rows, role, amount), r) == amount_of(rows, r) + (if r == role {
                amount
            } else {
                0
            }),
    decreases rows.len(),
{
    let after = credited(rows, role, amount);
    if rows.len() == 0 {
        assert(after.drop_first() =~= Seq::empty());
        assert forall|r: u8| #[trigger] amount_of(after, r) == amount_of(rows, r) + (if r == role {
            amount
        } else {
            0
        }) by {
            assert(amount_of(after.drop_first(), r) == 0);
        }
    } else {
        let rest = rows.drop_first();
        assert(ascending(rest)) by {
            assert forall|i: int, j: int| 0 <= i < j < rest.len() implies (#[trigger] rest[i]).0 < (#[trigger] rest[j]).0 by {
                assert(rest[i] == rows[i + 1]);
                assert(rest[j] == rows[j + 1]);
            }
        }
        if rows[0].0 == role {
            assert(after.drop_first() =~= rest);
            assert forall|i: int, j: int| 0 <= i < j < after.len() implies (#[trigger] after[i]).0 < (#[trigger] after[j]).0 by {
                assert(rows[i].0 < rows[j].0);
                assert(after[j] == rows[j]);
            }
        } else if role < rows[0].0 {
            assert(after.drop_first() =~= rows);
            assert forall|i: int, j: int| 0 <= i < j < after.len() implies (#[trigger] after[i]).0 < (#[trigger] after[j]).0 by {
                assert(after[j] == rows[j - 1]);
                if i > 0 {
                    assert(after[i] == rows[i - 1]);
                } else if j > 1 {
                    assert(rows[0].0 < rows[j - 1].0);
                }
            }
            lemma_amount_below(rows, role);
        } else {
            lemma_credited_roles(rest, role, amount);
            let more = credited(rest, role, amount);
            assert(after.drop_first() =~= more);
            assert(rest.len() > 0 ==> rows[0].0 < rest[0].0) by {
                if rest.len() > 0 {
                    assert(rest[0] == rows[1]);
                }
            }
            assert forall|i: int, j: int| 0 <= i < j < after.len() implies (#[trigger] after[i]).0 < (#[trigger] after[j]).0 by {
                assert(after[j] == more[j - 1]);
                if i > 0 {
                    assert(after[i] == more[i - 1]);
                } else if j > 1 {
                    assert(more[0].0 < more[j - 1].0);
                }
            }
            assert forall|r: u8| #[trigger] amount_of(after, r) == amount_of(rows, r) + (if r == role {
                amount
            } else {
                0
            }) by {
                assert(amount_of(more, r) == amount_of(rest, r) + (if r == role {
                    amount
                } else {
                    0
                }));
            }
        }
    }
}

proof fn lemma_amount_below(rows: Seq<(u8, nat)>, role: u8)
    requires
        ascending(rows),
        rows.len() == 0 || role < rows[0].0,
    ensures
        amount_of(rows, role) == 0,
    decreases rows.len(),
{
    if rows.len() > 0 {
        let rest = rows.drop_first();
        assert forall|i: int, j: int| 0 <= i < j < rest.len() implies (#[trigger] rest[i]).0 < (#[trigger] rest[j]).0 by {
            assert(rest[i] == rows[i + 1]);
            assert(rest[j] == rows[j + 1]);
        }
        if rest.len() > 0 {
            assert(rest[0] == rows[1]);
        }
        lemma_amount_below(rest, role);
    }
}

/// In a list with ascending roles, dropping the last row changes what is found of
/// its role only.
proof fn lemma_amount_last(rows: Seq<(u8, nat)>, role: u8)
    requires
        ascending(rows),
        rows.len() > 0,
    ensures
        role == rows.last().0 ==> amount_of(rows, role) == rows.last().1 && amount_of(
            rows.drop_last(),
            role,
        ) == 0,
        role != rows.last().0 ==> amount_of(rows, role) == amount_of(rows.drop_last(), role),
    decreases rows.len(),
{
    if rows.len() == 1 {
        assert(rows.drop_last() =~= Seq::empty());
        assert(rows.drop_first() =~= Seq::empty());
        assert(amount_of(rows.drop_last(), role) == 0);
        assert(amount_of(rows.drop_first(), role) == 0);
    } else {
        let rest = rows.drop_first();
        lemma_ascending_rest(rows);
        lemma_amount_last(rest, role);
        assert(rest.drop_last() =~= rows.drop_last().drop_first());
        assert(rest.last() == rows.last());
        assert(rows[0].0 < rows.last().0);
        assert(rows.drop_last()[0] == rows[0]);
    }
}

proof fn lemma_ascending_rest(rows: Seq<(u8, nat)>)
    requires
        ascending(rows),
        rows.len() > 0,
    ensures
        ascending(rows.drop_first()),
        ascending(rows.drop_last()),
{
    let rest = rows.drop_first();
    assert forall|i: int, j: int| 0 <= i < j < rest.len() implies (#[trigger] rest[i]).0 < (#[trigger] rest[j]).0 by {
        assert(rest[i] == rows[i + 1]);
        assert(rest[j] == rows[j + 1]);
    }
    let front = rows.drop_last();
    assert forall|i: int, j: int| 0 <= i < j < front.len() implies (#[trigger] front[i]).0 < (#[trigger] front[j]).0 by {
        assert(front[i] == rows[i]);
        assert(front[j] == rows[j]);
    }
}

/// In a list with ascending roles, each row is what is found of its role.
proof fn lemma_amount_at(rows: Seq<(u8, nat)>, i: int)
    requires
        ascending(rows),
        0 <= i < rows.len(),
    ensures
        amount_of(rows, rows[i].0) == rows[i].1,
    decreases rows.len(),
{
    lemma_amount_last(rows, rows[i].0);
    if i < rows.len() - 1 {
        lemma_ascending_rest(rows);
        lemma_amount_at(rows.drop_last(), i);
        assert(rows[i].0 < rows.last().0);
    }
}

proof fn lemma_amount_absent(rows: Seq<(u8, nat)>, role: u8)
    requires
        forall|i: int| 0 <= i < rows.len() ==> (#[trigger] rows[i]).0 != role,
    ensures
        amount_of(rows, role) == 0,
    decreases rows.len(),
{
    if rows.len() > 0 {
        let rest = rows.drop_first();
        assert(rows[0].0 != role);
        assert forall|i: int| 0 <= i < rest.len() implies (#[trigger] rest[i]).0 != role by {
            assert(rest[i] == rows[i + 1]);
        }
        lemma_amount_absent(rest, role);
    }
}

/// Folding rows into a list keeps it ascending, and adds to every role exactly
/// what the rows hold for it: a settled amount never falls.
pub proof fn law_fold_is_exact(rows: Seq<(u8, nat)>, more: Seq<(u8, nat)>, role: u8)
    requires
        ascending(rows),
        ascending(more),
    ensures
        ascending(credited_all(rows, more)),
        amount_of(credited_all(rows, more), role) == amount_of(rows, role) + amount_of(more, role),
        total(credited_all(rows, more)) == total(rows) + total(more),
    decreases more.len(),
{
    lemma_credited_all_total(rows, more);
    if more.len() > 0 {
        lemma_ascending_rest(more);
        law_fold_is_exact(rows, more.drop_last(), role);
        lemma_credited_roles(credited_all(rows, more.drop_last()), more.last().0, more.last().1);
        lemma_amount_last(more, role);
    }
}

/// A round that extinguishes no more than stays owed never settles more than was
/// accrued, so that the next round can be computed.
pub proof fn law_fold_stays_within(
    accrued: Seq<(u8, nat)>,
    settled: Seq<(u8, nat)>,
    e_r: Seq<(u8, nat)>,
)
    requires
        ascending(accrued),
        ascending(settled),
        ascending(e_r),
        reconcilable(accrued, settled),
        forall|i: int|
            0 <= i < accrued.len() ==> amount_of(e_r, (#[trigger] accrued[i]).0) <= accrued[i].1
                - amount_of(settled, accrued[i].0),
    ensures
        reconcilable(accrued, credited_all(settled, e_r)),
{
    let after = credited_all(settled, e_r);
    assert forall|i: int| 0 <= i < accrued.len() implies {
        &&& (#[trigger] accrued[i]).1 < two_pow_256()
        &&& amount_of(after, accrued[i].0) < two_pow_256()
        &&& amount_of(after, accrued[i].0) <= accrued[i].1
    } by {
        law_fold_is_exact(settled, e_r, accrued[i].0);
    }
}

/// Whether every role of `part` is a role of `whole`.
pub open spec fn roles_within(part: Seq<(u8, nat)>, whole: Seq<(u8, nat)>) -> bool {
    forall|i: int|
        0 <= i < part.len() ==> exists|j: int|
            0 <= j < whole.len() && (#[trigger] whole[j]).0 == (#[trigger] part[i]).0
}

/// What stays owed and what is settled add up to what is accrued.
pub proof fn law_outstanding_completes_settled(accrued: Seq<(u8, nat)>, settled: Seq<(u8, nat)>)
    requires
        ascending(accrued),
        ascending(settled),
        reconcilable(accrued, settled),
        roles_within(settled, accrued),
    ensures
        total(outstanding(accrued, settled)) + total(settled) == total(accrued),
    decreases accrued.len(),
{
    let out = outstanding(accrued, settled);
    if accrued.len() == 0 {
        if settled.len() > 0 {
            let i = 0int;
            assert(settled[i].0 == settled[0].0);
        }
        assert(settled.len() == 0);
    } else {
        let front = accrued.drop_last();
        let last = accrued.last();
        lemma_ascending_rest(accrued);
        assert(reconcilable(accrued, settled));
        assert(accrued[accrued.len() - 1] == last);
        if settled.len() > 0 && settled.last().0 == last.0 {
            let rest = settled.drop_last();
            lemma_ascending_rest(settled);
            lemma_amount_last(settled, last.0);
            assert forall|i: int| 0 <= i < front.len() implies amount_of(rest, (#[trigger] front[i]).0)
                == amount_of(settled, front[i].0) by {
                assert(front[i] == accrued[i]);
                assert(accrued[i].0 < last.0);
                lemma_amount_last(settled, front[i].0);
            }
            assert(reconcilable(front, rest)) by {
                assert forall|i: int| 0 <= i < front.len() implies {
                    &&& (#[trigger] front[i]).1 < two_pow_256()
                    &&& amount_of(rest, front[i].0) < two_pow_256()
                    &&& amount_of(rest, front[i].0) <= front[i].1
                } by {
                    assert(front[i] == accrued[i]);
                }
            }
            assert(roles_within(rest, front)) by {
                assert forall|i: int| 0 <= i < rest.len() implies exists|j: int|
                    0 <= j < front.len() && (#[trigger] front[j]).0 == (#[trigger] rest[i]).0 by {
                    assert(rest[i] == settled[i]);
                    assert(settled[i].0 < settled[settled.len() - 1].0);
                    let j = choose|j: int|
                        0 <= j < accrued.len() && (#[trigger] accrued[j]).0 == settled[i].0;
                    assert(front[j] == accrued[j]);
                }
            }
            law_outstanding_completes_settled(front, rest);
            assert(out.drop_last() =~= outstanding(front, rest)) by {
                assert forall|i: int| 0 <= i < front.len() implies out[i] == outstanding(front, rest)[i] by {
                    assert(front[i] == accrued[i]);
                }
            }
        } else {
            assert forall|k: int| 0 <= k < settled.len() implies (#[trigger] settled[k]).0 != last.0 by {
                if settled[k].0 == last.0 {
                    let z = settled.len() - 1;
                    assert(settled[k].0 <= settled[z].0);
                    let j = choose|j: int|
                        0 <= j < accrued.len() && (#[trigger] accrued[j]).0 == settled[z].0;
                    assert(j < accrued.len() - 1 ==> accrued[j].0 < accrued[accrued.len() - 1].0);
                }
            }
            lemma_amount_absent(settled, last.0);
            assert(reconcilable(front, settled)) by {
                assert forall|i: int| 0 <= i < front.len() implies {
                    &&& (#[trigger] front[i]).1 < two_pow_256()
                    &&& amount_of(settled, front[i].0) < two_pow_256()
                    &&& amount_of(settled, front[i].0) <= front[i].1
                } by {
                    assert(front[i] == accrued[i]);
                }
            }
            assert(roles_within(settled, front)) by {
                assert forall|i: int| 0 <= i < settled.len() implies exists|j: int|
                    0 <= j < front.len() && (#[trigger] front[j]).0 == (#[trigger] settled[i]).0 by {
                    let j = choose|j: int|
                        0 <= j < accrued.len() && (#[trigger] accrued[j]).0 == settled[i].0;
                    assert(front[j] == accrued[j]);
                }
            }
            law_outstanding_completes_settled(front, settled);
            assert(out.drop_last() =~= outstanding(front, settled));
        }
    }
}

/// Every settled number fits in 256 bits, for it is found by its role.
pub proof fn lemma_settled_fits(accrued: Seq<(u8, nat)>, settled: Seq<(u8, nat)>)
    requires
        ascending(settled),
        reconcilable(accrued, settled),
        roles_within(settled, accrued),
    ensures
        forall|i: int| 0 <= i < settled.len() ==> (#[trigger] settled[i]).1 < two_pow_256(),
{
    assert forall|i: int| 0 <= i < settled.len() implies (#[trigger] settled[i]).1 < two_pow_256() by {
        lemma_amount_at(settled, i);
        let j = choose|j: int| 0 <= j < accrued.len() && (#[trigger] accrued[j]).0 == settled[i].0;
        assert(amount_of(settled, accrued[j].0) < two_pow_256());
    }
}

/// The carve of a sum is the sum of the carves, or one more: what rounding
/// down each part apart leaves behind is at most one unit.
pub proof fn law_carve_dust(whole: nat, part: nat)
    requires
        part <= whole,
    ensures
        0 <= whole / 10_000 - part / 10_000 - ((whole - part) as nat) / 10_000 <= 1,
{
}

/// The settled-carve steps of successive folds add up to the carve of the whole:
/// no unit is lost or counted twice between rounds.
pub proof fn law_carve_steps_add_up(
    start: Seq<(u8, nat)>,
    first: Seq<(u8, nat)>,
    second: Seq<(u8, nat)>,
)
    ensures
        ({
            let mid = credited_all(start, first);
            let end = credited_all(mid, second);
            (carve(mid) - carve(start)) + (carve(end) - carve(mid)) == (total(start) + total(first)
                + total(second)) / 10_000 - carve(start)
        }),
{
    lemma_credited_all_total(start, first);
    lemma_credited_all_total(credited_all(start, first), second);
}

/// The sum over all rows.
pub fn sum_rows(rows: &Vec<(u8, BigNat)>) -> (r: BigNat)
    ensures
        r@ == total(rows_nat(rows@)),
{
    let mut sum: BigNat = BigNat::zero();
    let mut i: usize = 0;
    while i < rows.len()
        invariant
            i <= rows@.len(),
            sum@ == total(rows_nat(rows@).take(i as int)),
        decreases rows@.len() - i,
    {
        proof {
            assert(rows_nat(rows@).take(i + 1).drop_last() =~= rows_nat(rows@).take(i as int));
        }
        sum = sum.plus(&rows[i].1);
        i = i + 1;
    }
    assert(rows_nat(rows@).take(rows@.len() as int) =~= rows_nat(rows@));
    sum
}

/// The carve of the rows.
pub fn meed_carve(rows: &Vec<(u8, BigNat)>) -> (r: BigNat)
    ensures
        r@ == carve(rows_nat(rows@)),
{
    sum_rows(rows).over(BP_DENOM)
}

/// The number of the first row of `role`; zero where there is none.
pub fn find_amount(rows: &Vec<(u8, BigNat)>, role: u8) -> (r: BigNat)
    ensures
        r@ == amount_of(rows_nat(rows@), role),
{
    let mut i: usize = 0;
    assert(rows_nat(rows@).skip(0) =~= rows_nat(rows@));
    while i < rows.len()
        invariant
            i <= rows@.len(),
            amount_of(rows_nat(rows@).skip(i as int), role) == amount_of(rows_nat(rows@), role),
        decreases rows@.len() - i,
    {
        proof {
            assert(rows_nat(rows@).skip(i as int).drop_first() =~= rows_nat(rows@).skip(i + 1));
            assert(rows_nat(rows@).skip(i as int)[0] == rows_nat(rows@)[i as int]);
        }
        if rows[i].0 == role {
            return rows[i].1.copy();
        }
        i = i + 1;
    }
    BigNat::zero()
}

/// Whether the roles stand in strictly ascending order.
pub fn roles_ascend(rows: &Vec<(u8, BigNat)>) -> (r: bool)
    ensures
        r == ascending(rows_nat(rows@)),
{
    let ghost s: Seq<(u8, nat)> = rows_nat(rows@);
    let mut i: usize = 1;
    while i < rows.len()
        invariant
            1 <= i,
            s == rows_nat(rows@),
            i <= rows@.len() || rows@.len() == 0,
            forall|j: int, k: int| 0 <= j < k < i && k < rows@.len() ==> (#[trigger] s[j]).0 < (#[trigger] s[k]).0,
        decreases rows@.len() - i,
    {
        if rows[i - 1].0 >= rows[i].0 {
            assert(s[i - 1].0 >= s[i as int].0);
            return false;
        }
        proof {
            assert forall|j: int, k: int| 0 <= j < k < i + 1 && k < rows@.len() implies (#[trigger] s[j]).0 < (#[trigger] s[k]).0 by {
                if k == i {
                    assert(s[i - 1].0 < s[k].0);
                    if j < i - 1 {
                        assert(s[j].0 < s[i - 1].0);
                    }
                }
            }
        }
        i = i + 1;
    }
    true
}

/// A copy of the rows.
pub fn copy_rows(rows: &Vec<(u8, BigNat)>) -> (out: Vec<(u8, BigNat)>)
    ensures
        rows_nat(out@) == rows_nat(rows@),
{
    let mut out: Vec<(u8, BigNat)> = Vec::new();
    let mut i: usize = 0;
    while i < rows.len()
        invariant
            i <= rows@.len(),
            out@.len() == i,
            forall|j: int| 0 <= j < i ==> (#[trigger] out@[j]).0 == rows@[j].0 && out@[j].1@ == rows@[j].1@,
        decreases rows@.len() - i,
    {
        out.push((rows[i].0, rows[i].1.copy()));
        i = i + 1;
    }
    assert(rows_nat(out@) =~= rows_nat(rows@));
    out
}

/// Whether two lists of rows say the same.
pub fn same_rows(a: &Vec<(u8, BigNat)>, b: &Vec<(u8, BigNat)>) -> (r: bool)
    ensures
        r == (rows_nat(a@) == rows_nat(b@)),
{
    if a.len() != b.len() {
        assert(rows_nat(a@).len() != rows_nat(b@).len());
        return false;
    }
    let mut i: usize = 0;
    while i < a.len()
        invariant
            i <= a@.len(),
            a@.len() == b@.len(),
            forall|j: int| 0 <= j < i ==> #[trigger] rows_nat(a@)[j] == rows_nat(b@)[j],
        decreases a@.len() - i,
    {
        if a[i].0 != b[i].0 || !a[i].1.same(&b[i].1) {
            assert(rows_nat(a@)[i as int] != rows_nat(b@)[i as int]);
            return false;
        }
        i = i + 1;
    }
    assert(rows_nat(a@) =~= rows_nat(b@));
    true
}

/// Adds `amount` to `role`.
fn credit(rows: &mut Vec<(u8, BigNat)>, role: u8, amount: &BigNat)
    ensures
        rows_nat(final(rows)@) == credited(rows_nat(old(rows)@), role, amount@),
{
    let ghost s: Seq<(u8, nat)> = rows_nat(rows@);
    let mut i: usize = 0;
    assert(s.take(0) + credited(s.skip(0), role, amount@) =~= credited(s, role, amount@)) by {
        assert(s.skip(0) =~= s);
    }
    while i < rows.len() && rows[i].0 < role
        invariant
            i <= rows@.len(),
            *rows == *old(rows),
            s == rows_nat(rows@),
            s.take(i as int) + credited(s.skip(i as int), role, amount@) == credited(s, role, amount@),
        decreases rows@.len() - i,
    {
        proof {
            let rest = s.skip(i as int);
            assert(rest.drop_first() =~= s.skip(i + 1));
            assert(rest[0] == s[i as int]);
            assert(s.take(i + 1) =~= s.take(i as int) + seq![s[i as int]]);
            assert(s.take(i as int) + (seq![rest[0]] + credited(s.skip(i + 1), role, amount@)) =~= s.take(i + 1)
                + credited(s.skip(i + 1), role, amount@));
        }
        i = i + 1;
    }
    proof {
        if i < rows@.len() {
            assert(s.skip(i as int)[0] == s[i as int]);
            assert(s.skip(i as int).drop_first() =~= s.skip(i + 1));
        }
    }
    if i < rows.len() && rows[i].0 == role {
        let sum: BigNat = rows[i].1.plus(amount);
        rows[i] = (role, sum);
        assert(rows_nat(rows@) =~= s.take(i as int) + (seq![(role, s[i as int].1 + amount@)] + s.skip(i + 1)));
    } else {
        rows.insert(i, (role, amount.copy()));
        assert(rows_nat(rows@) =~= s.take(i as int) + (seq![(role, amount@)] + s.skip(i as int)));
        proof {
            if i == s.len() {
                assert(s.skip(i as int) =~= Seq::empty());
                assert(seq![(role, amount@)] + s.skip(i as int) =~= seq![(role, amount@)]);
            }
        }
    }
}

/// Adds every row of `more`.
pub fn credit_all(rows: &mut Vec<(u8, BigNat)>, more: &Vec<(u8, BigNat)>)
    ensures
        rows_nat(final(rows)@) == credited_all(rows_nat(old(rows)@), rows_nat(more@)),
{
    let mut i: usize = 0;
    assert(rows_nat(more@).take(0) =~= Seq::empty());
    while i < more.len()
        invariant
            i <= more@.len(),
            rows_nat(rows@) == credited_all(rows_nat(old(rows)@), rows_nat(more@).take(i as int)),
        decreases more@.len() - i,
    {
        credit(rows, more[i].0, &more[i].1);
        proof {
            let seen = rows_nat(more@).take(i + 1);
            assert(seen.drop_last() =~= rows_nat(more@).take(i as int));
            assert(seen.last() == rows_nat(more@)[i as int]);
        }
        i = i + 1;
    }
    assert(rows_nat(more@).take(more@.len() as int) =~= rows_nat(more@));
}

/// What stays owed of each accrued row; `None` where the settled side cannot be
/// taken from it.
pub fn outstanding_meed_per_role(
    accrued: &Vec<(u8, BigNat)>,
    settled: &Vec<(u8, BigNat)>,
) -> (r: Option<Vec<(u8, BigNat)>>)
    ensures
        match r {
            Some(rows) => {
                &&& reconcilable(rows_nat(accrued@), rows_nat(settled@))
                &&& rows_nat(rows@) == outstanding(rows_nat(accrued@), rows_nat(settled@))
            },
            None => !reconcilable(rows_nat(accrued@), rows_nat(settled@)),
        },
{
    let ghost a: Seq<(u8, nat)> = rows_nat(accrued@);
    let ghost s: Seq<(u8, nat)> = rows_nat(settled@);
    let mut out: Vec<(u8, BigNat)> = Vec::new();
    let mut i: usize = 0;
    while i < accrued.len()
        invariant
            i <= accrued@.len(),
            a == rows_nat(accrued@),
            s == rows_nat(settled@),
            out@.len() == i,
            forall|j: int|
                0 <= j < i ==> {
                    &&& (#[trigger] a[j]).1 < two_pow_256()
                    &&& amount_of(s, a[j].0) < two_pow_256()
                    &&& amount_of(s, a[j].0) <= a[j].1
                },
            forall|j: int| 0 <= j < i ==> #[trigger] rows_nat(out@)[j] == outstanding(a, s)[j],
        decreases accrued@.len() - i,
    {
        let ghost before: Seq<(u8, BigNat)> = out@;
        let role: u8 = accrued[i].0;
        let paid: BigNat = find_amount(settled, role);
        if !accrued[i].1.fits_256() || !paid.fits_256() {
            assert(a[i as int].1 >= two_pow_256() || amount_of(s, a[i as int].0) >= two_pow_256());
            return None;
        }
        let rest: BigNat = match accrued[i].1.minus(&paid) {
            Some(rest) => rest,
            None => {
                assert(amount_of(s, a[i as int].0) > a[i as int].1);
                return None;
            },
        };
        out.push((role, rest));
        proof {
            assert forall|j: int| 0 <= j < i + 1 implies #[trigger] rows_nat(out@)[j] == outstanding(a, s)[j] by {
                if j < i {
                    assert(rows_nat(out@)[j] == rows_nat(before)[j]);
                } else {
                    assert(a[j] == (accrued@[j].0, accrued@[j].1@));
                }
            }
        }
        i = i + 1;
    }
    assert(rows_nat(out@) =~= outstanding(a, s));
    Some(out)
}

/// The merchant's net that stays owed.
pub fn outstanding_merchant_net(
    cum: &BigNat,
    accrued: &Vec<(u8, BigNat)>,
    net_legs: u128,
    funding: u128,
) -> (r: BigNat)
    ensures
        r@ == owed_net(cum@, rows_nat(accrued@), net_legs as nat, funding as nat),
{
    let taken: BigNat = meed_carve(accrued).plus(&BigNat::from_u128(net_legs)).plus(
        &BigNat::from_u128(funding),
    );
    match cum.minus(&taken) {
        Some(rest) => rest,
        None => BigNat::zero(),
    }
}

/// The unconsumed part of a deposit; `None` where more was consumed than
/// deposited.
pub fn prepay_unconsumed_deposit(funding: u128, cum: u128) -> (r: Option<u128>)
    ensures
        match r {
            Some(rest) => cum <= funding && rest == funding - cum,
            None => cum > funding,
        },
{
    if cum > funding {
        None
    } else {
        Some(funding - cum)
    }
}

/// Sums add up: nothing sums to zero, one row to its number, and two lists to what each of
/// them sums to.
pub proof fn law_sums_add_up(a: Seq<(u8, nat)>, b: Seq<(u8, nat)>, role: u8, n: nat)
    ensures
        total(Seq::<(u8, nat)>::empty()) == 0,
        total(seq![(role, n)]) == n,
        total(a + b) == total(a) + total(b),
    decreases b.len(),
{
    assert(seq![(role, n)].drop_last() =~= Seq::empty());
    assert(total(seq![(role, n)].drop_last()) == 0);
    if b.len() == 0 {
        assert(a + b =~= a);
    } else {
        law_sums_add_up(a, b.drop_last(), role, n);
        assert((a + b).drop_last() =~= a + b.drop_last());
    }
}

/// The carve takes one unit for every ten thousand, and leaves less than that over.
pub proof fn law_carve_takes_whole_units(rows: Seq<(u8, nat)>)
    ensures
        10_000 * carve(rows) <= total(rows),
        total(rows) < 10_000 * carve(rows) + 10_000,
{
}

/// The carve, the net legs, the funding and what stays owed to the merchant make up what
/// was metered; where the first three reach it, nothing stays owed.
pub proof fn law_owed_net_is_the_rest(cum: nat, accrued: Seq<(u8, nat)>, net_legs: nat, funding: nat)
    ensures
        ({
            let taken = total(accrued) / 10_000 + net_legs + funding;
            &&& taken <= cum ==> owed_net(cum, accrued, net_legs, funding) + taken == cum
            &&& taken >= cum ==> owed_net(cum, accrued, net_legs, funding) == 0
        }),
{
}

/// Each role stays owed what it accrued less what was settled for it.
pub proof fn law_each_role_stays_owed_the_rest(accrued: Seq<(u8, nat)>, settled: Seq<(u8, nat)>, i: int)
    requires
        reconcilable(accrued, settled),
        0 <= i < accrued.len(),
    ensures
        outstanding(accrued, settled).len() == accrued.len(),
        outstanding(accrued, settled)[i].0 == accrued[i].0,
        outstanding(accrued, settled)[i].1 + amount_of(settled, accrued[i].0) == accrued[i].1,
{
}

/// A history is consistent exactly where no role has settled more than it accrued; one in
/// which some role has is refused.
pub proof fn law_nothing_settles_beyond_its_accrual(accrued: Seq<(u8, nat)>, settled: Seq<(u8, nat)>)
    requires
        forall|i: int| 0 <= i < accrued.len() ==> (#[trigger] accrued[i]).1 < two_pow_256(),
    ensures
        reconcilable(accrued, settled) <==> forall|i: int|
            0 <= i < accrued.len() ==> accrued[i].1 >= amount_of(settled, (#[trigger] accrued[i]).0),
{
}

/// In a list with ascending roles every row is what its role has, and a role without a row
/// has nothing.
pub proof fn law_a_role_has_its_row(rows: Seq<(u8, nat)>, i: int, role: u8)
    requires
        ascending(rows),
        0 <= i < rows.len(),
        forall|j: int| 0 <= j < rows.len() ==> (#[trigger] rows[j]).0 != role,
    ensures
        amount_of(rows, rows[i].0) == rows[i].1,
        amount_of(rows, role) == 0,
        amount_of(Seq::empty(), role) == 0,
{
    lemma_amount_at(rows, i);
    lemma_amount_absent(rows, role);
}

/// What the rows hold beyond what was settled for their roles, together.
pub open spec fn unsettled(rows: Seq<(u8, nat)>, settled: Seq<(u8, nat)>) -> nat
    decreases rows.len(),
{
    if rows.len() == 0 {
        0
    } else {
        unsettled(rows.drop_last(), settled) + (rows.last().1 - amount_of(settled, rows.last().0)) as nat
    }
}

/// What stays owed of a list is what it holds beyond what was settled.
pub proof fn law_outstanding_is_unsettled(rows: Seq<(u8, nat)>, settled: Seq<(u8, nat)>)
    ensures
        total(outstanding(rows, settled)) == unsettled(rows, settled),
    decreases rows.len(),
{
    if rows.len() > 0 {
        law_outstanding_is_unsettled(rows.drop_last(), settled);
        assert(outstanding(rows, settled).drop_last() =~= outstanding(rows.drop_last(), settled));
    }
}

/// Where nothing was settled, everything is unsettled.
pub proof fn law_all_is_unsettled_at_first(rows: Seq<(u8, nat)>)
    ensures
        unsettled(rows, Seq::empty()) == total(rows),
    decreases rows.len(),
{
    if rows.len() > 0 {
        law_all_is_unsettled_at_first(rows.drop_last());
    }
}

/// The sum of a list of numbers.
pub open spec fn sum_of(numbers: Seq<nat>) -> nat
    decreases numbers.len(),
{
    if numbers.len() == 0 {
        0
    } else {
        sum_of(numbers.drop_last()) + numbers.last()
    }
}

/// What accrues on top of a position stays unsettled on top of what the position left
/// unsettled.
pub proof fn law_later_accrual_is_unsettled(
    base: Seq<(u8, nat)>,
    later: Seq<(u8, nat)>,
    more: Seq<nat>,
    settled: Seq<(u8, nat)>,
)
    requires
        later.len() == base.len(),
        more.len() == base.len(),
        forall|i: int|
            0 <= i < base.len() ==> {
                &&& (#[trigger] later[i]).0 == base[i].0
                &&& later[i].1 == base[i].1 + more[i]
                &&& amount_of(settled, base[i].0) <= base[i].1
            },
    ensures
        unsettled(later, settled) == unsettled(base, settled) + sum_of(more),
    decreases base.len(),
{
    if base.len() > 0 {
        let (b, l, m) = (base.drop_last(), later.drop_last(), more.drop_last());
        assert forall|i: int| 0 <= i < b.len() implies {
            &&& (#[trigger] l[i]).0 == b[i].0
            &&& l[i].1 == b[i].1 + m[i]
            &&& amount_of(settled, b[i].0) <= b[i].1
        } by {
            assert(later[i] == l[i]);
        }
        law_later_accrual_is_unsettled(b, l, m, settled);
        assert(later[base.len() - 1].0 == base[base.len() - 1].0);
    }
}

} // verus!
