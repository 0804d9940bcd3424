//! What a settlement rail reports, as plain values.

use vstd::prelude::*;

verus! {

/// The contents of a list of strings.
pub open spec fn texts(list: Seq<String>) -> Seq<Seq<char>> {
    list.map_values(|s: String| s@)
}

/// The finality of a reference: its level, and when it was reached.
#[derive(Debug)]
pub struct Finality {
    pub level: String,
    pub time: u64,
}

/// The fact that a transfer moved a channel's meed watermark, and to where.
#[derive(Debug, Clone, Copy, PartialEq, Eq)]
pub struct AdvanceFact {
    pub channel_id: [u8; 8],
    pub seed_instance: [u8; 32],
    pub funded_p: u128,
}

/// The transfer behind a reference.
#[derive(Debug)]
pub struct RefInfo {
    pub to: String,
    pub asset: String,
    pub amount: u128,
    pub memo: Option<[u8; 32]>,
    /// The rail's one name for the transfer, whatever name it was asked by.
    pub canonical: String,
    /// Set only where the transfer ran the meed division.
    pub advanced: Option<AdvanceFact>,
    /// The entry the transfer funded, if any.
    pub funds_entry: Option<[u8; 32]>,
}

/// What the rail says of one reference.
#[derive(Debug)]
pub struct RefRead {
    pub info: Option<RefInfo>,
    pub finality: Option<Finality>,
}

/// The first position of `level` in the rail's order of levels.
pub open spec fn rank(levels: Seq<Seq<char>>, level: Seq<char>) -> Option<int>
    decreases levels.len(),
{
    if levels.len() == 0 {
        None
    } else if levels[0] == level {
        Some(0int)
    } else {
        match rank(levels.drop_first(), level) {
            Some(i) => Some(i + 1),
            None => None,
        }
    }
}

/// Whether `reached` is at or above `required`, in the rail's own order. A level
/// that the rail does not declare is never reached, and reaches nothing.
pub open spec fn at_least(levels: Seq<Seq<char>>, reached: Seq<char>, required: Seq<char>) -> bool {
    match (rank(levels, reached), rank(levels, required)) {
        (Some(a), Some(b)) => a >= b,
        _ => false,
    }
}

/// Whether a finality is at or above `required`.
pub open spec fn final_enough(
    levels: Seq<Seq<char>>,
    finality: Option<Finality>,
    required: Seq<char>,
) -> bool {
    match finality {
        Some(f) => at_least(levels, f.level@, required),
        None => false,
    }
}

/// Whether both levels are the rail's last, strongest one. Without a rail there
/// is no finality to fall short of.
pub open spec fn irreversible(
    levels: Option<Seq<Seq<char>>>,
    fin_meed: Seq<char>,
    fin_denom: Seq<char>,
) -> bool {
    match levels {
        Some(levels) => levels.len() > 0 && fin_meed == levels.last() && fin_denom == levels.last(),
        None => true,
    }
}

fn find_rank(levels: &Vec<String>, level: &String) -> (r: Option<usize>)
    ensures
        match r {
            Some(i) => rank(texts(levels@), level@) == Some(i as int),
            None => rank(texts(levels@), level@) is None,
        },
{
    let ghost all: Seq<Seq<char>> = texts(levels@);
    let mut i: usize = 0;
    assert(all.skip(0) =~= all);
    while i < levels.len()
        invariant
            i <= levels@.len(),
            all == texts(levels@),
            match rank(all.skip(i as int), level@) {
                Some(k) => rank(all, level@) == Some(i + k),
                None => rank(all, level@) is None,
            },
        decreases levels@.len() - i,
    {
        proof {
            assert(all.skip(i as int)[0] == levels@[i as int]@);
            assert(all.skip(i as int).drop_first() =~= all.skip(i + 1));
        }
        if levels[i] == *level {
            return Some(i);
        }
        i = i + 1;
    }
    None
}

/// Whether a finality is at or above `required`, in the rail's own order.
pub fn finality_reached(
    levels: &Vec<String>,
    finality: &Option<Finality>,
    required: &String,
) -> (r: bool)
    ensures
        r == final_enough(texts(levels@), *finality, required@),
{
    match finality {
        Some(f) => match (find_rank(levels, &f.level), find_rank(levels, required)) {
            (Some(a), Some(b)) => a >= b,
            _ => false,
        },
        None => false,
    }
}

/// The contents of an optional list of levels.
pub open spec fn levels_view(levels: Option<&Vec<String>>) -> Option<Seq<Seq<char>>> {
    match levels {
        Some(l) => Some(texts(l@)),
        None => None,
    }
}

/// Whether both levels are the rail's strongest one.
pub fn finality_is_irreversible(
    levels: Option<&Vec<String>>,
    fin_meed: &String,
    fin_denom: &String,
) -> (r: bool)
    ensures
        r == irreversible(levels_view(levels), fin_meed@, fin_denom@),
{
    match levels {
        Some(levels) => {
            let n: usize = levels.len();
            if n == 0 {
                return false;
            }
            assert(texts(levels@).last() == levels@[n - 1]@);
            *fin_meed == levels[n - 1] && *fin_denom == levels[n - 1]
        },
        None => true,
    }
}

proof fn lemma_rank_of(levels: Seq<Seq<char>>, i: int)
    requires
        levels.no_duplicates(),
        0 <= i < levels.len(),
    ensures
        rank(levels, levels[i]) == Some(i),
    decreases levels.len(),
{
    if i > 0 {
        let rest = levels.drop_first();
        assert forall|a: int, b: int| 0 <= a < rest.len() && 0 <= b < rest.len() && a != b implies rest[a]
            != rest[b] by {
            assert(rest[a] == levels[a + 1] && rest[b] == levels[b + 1]);
        }
        lemma_rank_of(rest, i - 1);
        assert(levels[0] != levels[i]);
        assert(rest[i - 1] == levels[i]);
    }
}

proof fn lemma_rank_found(levels: Seq<Seq<char>>, level: Seq<char>)
    ensures
        rank(levels, level) is Some ==> levels.contains(level),
    decreases levels.len(),
{
    if levels.len() > 0 && levels[0] != level {
        lemma_rank_found(levels.drop_first(), level);
        if levels.drop_first().contains(level) {
            let i = choose|i: int| 0 <= i < levels.drop_first().len() && levels.drop_first()[i] == level;
            assert(levels[i + 1] == level);
        }
    } else if levels.len() > 0 {
        assert(levels[0] == level);
    }
}

/// The rail's levels stand weakest first: one is at least another exactly where it stands
/// no earlier.
pub proof fn law_later_levels_are_stronger(levels: Seq<Seq<char>>, i: int, j: int)
    requires
        levels.no_duplicates(),
        0 <= i < levels.len(),
        0 <= j < levels.len(),
    ensures
        at_least(levels, levels[i], levels[j]) <==> i >= j,
{
    lemma_rank_of(levels, i);
    lemma_rank_of(levels, j);
}

/// A level that the rail does not declare reaches nothing, and is not reached; nor does a
/// transfer without a finality reach any level.
pub proof fn law_undeclared_levels_count_nothing(levels: Seq<Seq<char>>, level: Seq<char>, other: Seq<char>)
    requires
        !levels.contains(level),
    ensures
        !at_least(levels, level, other),
        !at_least(levels, other, level),
        !final_enough(levels, None, other),
{
    lemma_rank_found(levels, level);
}

/// A finality counts by its level.
pub proof fn law_finality_counts_by_its_level(levels: Seq<Seq<char>>, f: Finality, i: int, j: int)
    requires
        levels.no_duplicates(),
        0 <= i < levels.len(),
        0 <= j < levels.len(),
        f.level@ == levels[i],
    ensures
        final_enough(levels, Some(f), levels[j]) <==> i >= j,
{
    law_later_levels_are_stronger(levels, i, j);
}

/// A channel's finality is irreversible exactly where no level of the rail is stronger than
/// either of its two; without a rail nothing can be reversed.
pub proof fn law_irreversible_is_the_strongest(levels: Seq<Seq<char>>, i: int, j: int)
    requires
        levels.no_duplicates(),
        0 <= i < levels.len(),
        0 <= j < levels.len(),
    ensures
        irreversible(Some(levels), levels[i], levels[j]) <==> i == levels.len() - 1 && j == levels.len() - 1,
        forall|level: Seq<char>|
            !levels.contains(level) ==> !(#[trigger] irreversible(Some(levels), level, levels[j])),
        forall|level: Seq<char>|
            !levels.contains(level) ==> !(#[trigger] irreversible(Some(levels), levels[i], level)),
        irreversible(None, levels[i], levels[j]),
{
    assert(levels.contains(levels[levels.len() - 1]));
}

} // verus!
