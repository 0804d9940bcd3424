//! Chains of channels: a position moves from a channel to its successor.

use vstd::prelude::*;
use vstd::set_lib::lemma_len_subset;

use crate::carriage::{live_tip, tip_from};
use crate::disposition::ChainState;

verus! {

/// Whether the position of a channel moved on to a successor.
pub open spec fn moved_on(chain: Map<[u8; 8], ChainState>, channel: [u8; 8]) -> bool {
    chain.dom().contains(channel) && chain[channel] is Committed
}

proof fn lemma_tip_stays(chain: Map<[u8; 8], ChainState>, channel: [u8; 8], n: nat)
    requires
        !moved_on(chain, channel),
    ensures
        tip_from(chain, channel, n) == channel,
{
}

proof fn lemma_tip_splits(chain: Map<[u8; 8], ChainState>, channel: [u8; 8], a: nat, b: nat)
    ensures
        tip_from(chain, channel, a + b) == tip_from(chain, tip_from(chain, channel, a), b),
    decreases a,
{
    if a > 0 {
        if moved_on(chain, channel) {
            let next = chain[channel]->successor;
            lemma_tip_splits(chain, next, (a - 1) as nat, b);
        } else {
            lemma_tip_stays(chain, channel, a + b);
            lemma_tip_stays(chain, channel, a);
            lemma_tip_stays(chain, channel, b);
        }
    }
}

/// The smallest number of links that leads to a channel whose position stayed.
proof fn lemma_first_stop(chain: Map<[u8; 8], ChainState>, channel: [u8; 8], n: nat) -> (m: nat)
    requires
        !moved_on(chain, tip_from(chain, channel, n)),
    ensures
        m <= n,
        !moved_on(chain, tip_from(chain, channel, m)),
        forall|i: nat| i < m ==> moved_on(chain, #[trigger] tip_from(chain, channel, i)),
    decreases n,
{
    if n > 0 && exists|i: nat| i < n && !moved_on(chain, #[trigger] tip_from(chain, channel, i)) {
        let i = choose|i: nat| i < n && !moved_on(chain, #[trigger] tip_from(chain, channel, i));
        lemma_first_stop(chain, channel, i)
    } else {
        n
    }
}

/// The live tip carries the position now: wherever following the successors comes to
/// an end, the tip that is credited is that end.
pub proof fn law_live_tip_is_the_end_of_the_chain(
    chain: Map<[u8; 8], ChainState>,
    channel: [u8; 8],
    n: nat,
)
    requires
        chain.dom().finite(),
        !moved_on(chain, tip_from(chain, channel, n)),
    ensures
        !moved_on(chain, live_tip(chain, channel)),
        live_tip(chain, channel) == tip_from(chain, channel, n),
{
    let m = lemma_first_stop(chain, channel, n);
    let size = chain.dom().len();
    let end = tip_from(chain, channel, m);
    if m > size {
        let path = Seq::new(m, |i: int| tip_from(chain, channel, i as nat));
        assert(path.no_duplicates()) by {
            assert forall|i: int, j: int| 0 <= i < path.len() && 0 <= j < path.len() && i != j implies path[i]
                != path[j] by {
                let (a, b) = if i < j {
                    (i as nat, j as nat)
                } else {
                    (j as nat, i as nat)
                };
                if path[i] == path[j] {
                    let rest = (m - b) as nat;
                    lemma_tip_splits(chain, channel, b, rest);
                    lemma_tip_splits(chain, channel, a, rest);
                    assert(a + rest < m);
                    assert(tip_from(chain, channel, a + rest) == end);
                    assert(moved_on(chain, tip_from(chain, channel, a + rest)));
                }
            }
        }
        path.unique_seq_to_set();
        assert(path.to_set().subset_of(chain.dom())) by {
            assert forall|c: [u8; 8]| #[trigger] path.to_set().contains(c) implies chain.dom().contains(c) by {
                let i = choose|i: int| 0 <= i < path.len() && path[i] == c;
                assert(moved_on(chain, tip_from(chain, channel, i as nat)));
            }
        }
        lemma_len_subset(path.to_set(), chain.dom());
    } else {
        lemma_tip_splits(chain, channel, m, (size + 1 - m) as nat);
        lemma_tip_stays(chain, end, (size + 1 - m) as nat);
    }
    lemma_tip_splits(chain, channel, m, (n - m) as nat);
    lemma_tip_stays(chain, end, (n - m) as nat);
}

} // verus!
