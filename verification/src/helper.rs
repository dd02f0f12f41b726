//! The move aggregator: many conflicting pending inputs become one
//! authoritative direction per tick. Inputs that would reverse the snake are
//! dropped, up to five of the rest are sampled at random, the sample is
//! tallied, and one direction among those tied at the highest count is
//! picked at random.
use vstd::prelude::*;
use crate::rng::{choose_random, random_below};
use crate::MovementDirection;

verus! {

/// At most this many sampled entries feed one tick's vote, so a burst of
/// inputs cannot dominate a tick.
pub const SAMPLE_LIMIT: usize = 5;

/// Number of occurrences of `d` in `moves`.
pub open spec fn count_moves(moves: Seq<MovementDirection>, d: MovementDirection) -> int
    decreases moves.len(),
{
    if moves.len() == 0 {
        0
    } else {
        count_moves(moves.drop_last(), d) + if moves.last() == d {
            1int
        } else {
            0int
        }
    }
}

pub proof fn lemma_count_moves_le_len(moves: Seq<MovementDirection>, d: MovementDirection)
    ensures
        0 <= count_moves(moves, d) <= moves.len(),
    decreases moves.len(),
{
    if moves.len() > 0 {
        lemma_count_moves_le_len(moves.drop_last(), d);
    }
}

/// Extending a prefix by one move raises its count by one exactly when that
/// move is `d`.
pub proof fn lemma_count_moves_take_succ(
    moves: Seq<MovementDirection>,
    d: MovementDirection,
    i: int,
)
    requires
        0 <= i < moves.len(),
    ensures
        count_moves(moves.take(i + 1), d) == count_moves(moves.take(i), d) + if moves[i] == d {
            1int
        } else {
            0int
        },
{
    assert(moves.take(i + 1).drop_last() =~= moves.take(i));
    assert(moves.take(i + 1).last() == moves[i]);
}

/// The pending inputs that survive the reversal filter, in order: everything
/// but the exact reverse of the current direction.
pub open spec fn surviving(
    pending: Seq<MovementDirection>,
    current: MovementDirection,
) -> Seq<MovementDirection> {
    pending.filter(|m: MovementDirection| m != current.spec_opposite())
}

proof fn lemma_surviving_push(
    pending: Seq<MovementDirection>,
    current: MovementDirection,
    v: MovementDirection,
)
    ensures
        surviving(pending.push(v), current) == if v != current.spec_opposite() {
            surviving(pending, current).push(v)
        } else {
            surviving(pending, current)
        },
{
    reveal(Seq::filter);
    assert(pending.push(v).drop_last() =~= pending);
    assert(pending.push(v).last() == v);
}

/// A direction's occurrence count is its multiset multiplicity, so counting
/// ignores the order of a batch.
proof fn lemma_count_moves_multiset(moves: Seq<MovementDirection>, d: MovementDirection)
    ensures
        count_moves(moves, d) == moves.to_multiset().count(d),
    decreases moves.len(),
{
    broadcast use vstd::seq_lib::group_to_multiset_ensures;
    broadcast use vstd::multiset::group_multiset_axioms;
    broadcast use vstd::multiset::group_multiset_properties;

    if moves.len() == 0 {
        assert(!moves.contains(d));
        assert(moves.to_multiset().count(d) == 0);
    } else {
        lemma_count_moves_multiset(moves.drop_last(), d);
        assert(moves =~= moves.drop_last().push(moves.last()));
        assert(moves.to_multiset() =~= moves.drop_last().to_multiset().insert(moves.last()));
    }
}

/// Batches with the same elements tally the same.
proof fn lemma_count_moves_permutation(
    a: Seq<MovementDirection>,
    b: Seq<MovementDirection>,
    d: MovementDirection,
)
    requires
        a.to_multiset() == b.to_multiset(),
    ensures
        count_moves(a, d) == count_moves(b, d),
{
    lemma_count_moves_multiset(a, d);
    lemma_count_moves_multiset(b, d);
}

/// A direction occurs in a batch exactly when its count is positive.
pub proof fn lemma_count_moves_contains(moves: Seq<MovementDirection>, d: MovementDirection)
    ensures
        moves.contains(d) <==> count_moves(moves, d) >= 1,
    decreases moves.len(),
{
    if moves.len() > 0 {
        lemma_count_moves_contains(moves.drop_last(), d);
        if moves.contains(d) && moves.last() != d {
            let k = choose|k: int| 0 <= k < moves.len() && moves[k] == d;
            assert(moves.drop_last()[k] == d);
        }
        if moves.drop_last().contains(d) {
            let k = choose|k: int| 0 <= k < moves.drop_last().len() && moves.drop_last()[k] == d;
            assert(moves[k] == d);
        }
        lemma_count_moves_le_len(moves.drop_last(), d);
    }
}

/// Occurrence counts of each direction within one batch.
#[derive(Debug, Copy, Clone, PartialEq, Eq, Structural)]
pub struct MoveTally {
    pub up: usize,
    pub down: usize,
    pub left: usize,
    pub right: usize,
}

impl MoveTally {
    pub open spec fn spec_count(self, d: MovementDirection) -> int {
        match d {
            MovementDirection::Up => self.up as int,
            MovementDirection::Down => self.down as int,
            MovementDirection::Left => self.left as int,
            MovementDirection::Right => self.right as int,
        }
    }

    /// The highest of the four counts.
    pub open spec fn spec_most(self) -> int {
        let a = if self.up >= self.down {
            self.up as int
        } else {
            self.down as int
        };
        let b = if self.left >= self.right {
            self.left as int
        } else {
            self.right as int
        };
        if a >= b {
            a
        } else {
            b
        }
    }

    /// The directions whose count equals `count`, in the fixed order
    /// up, down, left, right.
    pub open spec fn spec_with_count(self, count: int) -> Seq<MovementDirection> {
        (if self.up == count {
            seq![MovementDirection::Up]
        } else {
            Seq::empty()
        }) + (if self.down == count {
            seq![MovementDirection::Down]
        } else {
            Seq::empty()
        }) + (if self.left == count {
            seq![MovementDirection::Left]
        } else {
            Seq::empty()
        }) + (if self.right == count {
            seq![MovementDirection::Right]
        } else {
            Seq::empty()
        })
    }

    pub fn count_of(&self, d: MovementDirection) -> (r: usize)
        ensures
            r == self.spec_count(d),
    {
        match d {
            MovementDirection::Up => self.up,
            MovementDirection::Down => self.down,
            MovementDirection::Left => self.left,
            MovementDirection::Right => self.right,
        }
    }

    /// Whatever `spec_with_count` lists has exactly the claimed count.
    pub proof fn lemma_with_count_member(self, count: int, d: MovementDirection)
        requires
            self.spec_with_count(count).contains(d),
        ensures
            self.spec_count(d) == count,
    {
        if self.spec_count(d) != count {
            let s = self.spec_with_count(count);
            let k = choose|k: int| 0 <= k < s.len() && s[k] == d;
            assert(s[k] != d);
        }
    }

    /// The directions tied at `count`, in the fixed order up, down, left,
    /// right.
    pub fn moves_with_count(&self, count: usize) -> (r: Vec<MovementDirection>)
        ensures
            r@ == self.spec_with_count(count as int),
    {
        let mut r: Vec<MovementDirection> = Vec::new();
        if self.up == count {
            r.push(MovementDirection::Up);
        }
        if self.down == count {
            r.push(MovementDirection::Down);
        }
        if self.left == count {
            r.push(MovementDirection::Left);
        }
        if self.right == count {
            r.push(MovementDirection::Right);
        }
        proof {
            assert(r@ =~= self.spec_with_count(count as int));
        }
        r
    }
}

/// Tally a batch of moves: each direction's occurrence count, and the
/// highest count among the four (zero for an empty batch).
pub fn get_most_move_occurrences_in(moves: &Vec<MovementDirection>) -> (r: (usize, MoveTally))
    ensures
        r.1.up == count_moves(moves@, MovementDirection::Up),
        r.1.down == count_moves(moves@, MovementDirection::Down),
        r.1.left == count_moves(moves@, MovementDirection::Left),
        r.1.right == count_moves(moves@, MovementDirection::Right),
        r.0 == r.1.spec_most(),
{
    let mut tally = MoveTally { up: 0, down: 0, left: 0, right: 0 };
    let mut i: usize = 0;
    proof {
        assert(moves@.take(0) =~= Seq::<MovementDirection>::empty());
    }
    while i < moves.len()
        invariant
            i <= moves@.len(),
            tally.up == count_moves(moves@.take(i as int), MovementDirection::Up),
            tally.down == count_moves(moves@.take(i as int), MovementDirection::Down),
            tally.left == count_moves(moves@.take(i as int), MovementDirection::Left),
            tally.right == count_moves(moves@.take(i as int), MovementDirection::Right),
        decreases moves@.len() - i,
    {
        proof {
            lemma_count_moves_take_succ(moves@, MovementDirection::Up, i as int);
            lemma_count_moves_take_succ(moves@, MovementDirection::Down, i as int);
            lemma_count_moves_take_succ(moves@, MovementDirection::Left, i as int);
            lemma_count_moves_take_succ(moves@, MovementDirection::Right, i as int);
            lemma_count_moves_le_len(moves@.take(i as int + 1), MovementDirection::Up);
            lemma_count_moves_le_len(moves@.take(i as int + 1), MovementDirection::Down);
            lemma_count_moves_le_len(moves@.take(i as int + 1), MovementDirection::Left);
            lemma_count_moves_le_len(moves@.take(i as int + 1), MovementDirection::Right);
        }
        match moves[i] {
            MovementDirection::Up => {
                tally.up = tally.up + 1;
            },
            MovementDirection::Down => {
                tally.down = tally.down + 1;
            },
            MovementDirection::Left => {
                tally.left = tally.left + 1;
            },
            MovementDirection::Right => {
                tally.right = tally.right + 1;
            },
        }
        i += 1;
    }
    proof {
        assert(moves@.take(moves@.len() as int) =~= moves@);
    }
    let mut most = tally.up;
    if tally.down > most {
        most = tally.down;
    }
    if tally.left > most {
        most = tally.left;
    }
    if tally.right > most {
        most = tally.right;
    }
    (most, tally)
}

/// Resolve one tick's pending inputs against the current direction. Every
/// input equal to the exact reverse of the current direction is dropped
/// (an immediately fatal reversal is filtered here, not applied); if nothing
/// remains there is no direction change. Otherwise up to `SAMPLE_LIMIT`
/// survivors are sampled at random without replacement, the sample is
/// tallied, and the result is drawn at random from the directions tied at
/// the highest count.
pub fn aggregate_moves(pending: &Vec<MovementDirection>, current: MovementDirection) -> (r:
    Option<MovementDirection>)
    ensures
        r is None <==> (forall|i: int|
            0 <= i < pending@.len() ==> #[trigger] pending@[i] == current.spec_opposite()),
        match r {
            Some(d) => pending@.contains(d) && d != current.spec_opposite(),
            None => true,
        },
        match r {
            // when every survivor fits in one sample the vote is exact: the
            // chosen direction occurs at least as often among the survivors
            // as any other
            Some(d) => surviving(pending@, current).len() <= SAMPLE_LIMIT ==> forall|
                e: MovementDirection,
            |
                #[trigger] count_moves(surviving(pending@, current), e) <= count_moves(
                    surviving(pending@, current),
                    d,
                ),
            None => true,
        },
{
    let mut available: Vec<MovementDirection> = Vec::new();
    let mut i: usize = 0;
    proof {
        assert(pending@.take(0) =~= Seq::<MovementDirection>::empty());
        reveal(Seq::filter);
        assert(available@ == surviving(pending@.take(0), current));
    }
    while i < pending.len()
        invariant
            i <= pending@.len(),
            forall|j: int|
                0 <= j < available@.len() ==> pending@.contains(#[trigger] available@[j])
                    && available@[j] != current.spec_opposite(),
            (available@.len() == 0) <==> (forall|j: int|
                0 <= j < i ==> #[trigger] pending@[j] == current.spec_opposite()),
            available@ == surviving(pending@.take(i as int), current),
        decreases pending@.len() - i,
    {
        let mov = pending[i];
        proof {
            assert(pending@.take(i as int + 1) =~= pending@.take(i as int).push(
                pending@[i as int],
            ));
            lemma_surviving_push(pending@.take(i as int), current, pending@[i as int]);
        }
        if !current.is_opposite_to(&mov) {
            available.push(mov);
            proof {
                assert(pending@[i as int] == mov);
                assert(pending@.contains(mov));
            }
        }
        i += 1;
    }
    proof {
        assert(pending@.take(pending@.len() as int) =~= pending@);
    }
    if available.len() == 0 {
        return None;
    }

    // sample up to SAMPLE_LIMIT survivors at random, without replacement
    let sample = choose_random(&available, SAMPLE_LIMIT);
    assert(sample@.len() > 0);
    let (most, tally) = get_most_move_occurrences_in(&sample);
    proof {
        // the sample is not empty, so its first direction counts at least
        // once and the highest count is positive
        lemma_count_moves_contains(sample@, sample@[0]);
        assert(sample@.contains(sample@[0]));
        assert(tally.spec_most() >= 1);
    }

    // the directions tied at the highest count; never empty, because the
    // maximum of the four counts is one of them
    let ties = tally.moves_with_count(most);
    assert(ties@.len() > 0);
    let pick = random_below(ties.len());
    let chosen = ties[pick];
    proof {
        assert(ties@.contains(chosen));
        tally.lemma_with_count_member(most as int, chosen);
        lemma_count_moves_contains(sample@, chosen);
        assert(sample@.contains(chosen));
        let k = choose|k: int| 0 <= k < sample@.len() && sample@[k] == chosen;
        assert(available@.contains(sample@[k]));
        let j = choose|j: int| 0 <= j < available@.len() && available@[j] == chosen;
        assert(pending@.contains(available@[j]));
        // when the whole surviving batch was the sample, the pick carries
        // the highest count among the survivors, not just the sample
        if available@.len() <= SAMPLE_LIMIT {
            assert(sample@.to_multiset() == available@.to_multiset());
            assert forall|e: MovementDirection|
                #[trigger] count_moves(available@, e) <= count_moves(available@, chosen) by {
                lemma_count_moves_permutation(sample@, available@, e);
                lemma_count_moves_permutation(sample@, available@, chosen);
                assert(count_moves(sample@, e) <= tally.spec_most());
            }
        }
    }
    Some(chosen)
}

} // verus!
