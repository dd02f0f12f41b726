//! The probabilistic fruit spawner: bounded by a fruit-count limit, gated by
//! a random chance draw, and placing on one uniformly chosen empty tile.
use vstd::prelude::*;
use crate::game_level::{
    count_kind, lemma_count_kind_take_succ, lemma_count_kind_update, lemma_count_kind_whole,
    GameLevel, Tile, TileType,
};
use crate::rng::random_below;
use crate::GameError;

verus! {

/// Spawns fruit at random on empty tiles, keeping at most `limit` fruit on
/// the level at once. The spawn chance is held in hundredths: from 1 (one
/// in a hundred) up to 100 (every attempt).
pub struct FruitRandomLimited {
    pub limit: usize,
    pub chance: u64,
}

impl FruitRandomLimited {
    /// Either the level is untouched, or — only while the fruit count was
    /// still under the limit — exactly one previously empty tile now holds
    /// fruit.
    pub open spec fn spawn_rel(self, pre: GameLevel, post: GameLevel) -> bool {
        ||| post == pre
        ||| (count_kind(pre.level@, TileType::Fruit) < self.limit && exists|i: int|
            0 <= i < pre.size() && pre.kind_at(i) is Empty && post.level@ == pre.level@.update(
                i,
                Tile { index: i as usize, kind: TileType::Fruit },
            ))
    }

    /// Rejects a chance outside one to one hundred hundredths as a fatal
    /// configuration error.
    pub fn new(limit: usize, chance: u64) -> (r: Result<FruitRandomLimited, GameError>)
        ensures
            1 <= chance <= 100 ==> r == Ok::<FruitRandomLimited, GameError>(
                FruitRandomLimited { limit, chance },
            ),
            !(1 <= chance <= 100) ==> r == Err::<FruitRandomLimited, GameError>(
                GameError::ConfigError,
            ),
    {
        if chance < 1 || chance > 100 {
            return Err(GameError::ConfigError);
        }
        Ok(FruitRandomLimited { limit, chance })
    }

    /// One spawn attempt: count the fruit already on the level and do
    /// nothing at or above the limit; otherwise draw a chance, and when the
    /// draw succeeds put a fruit on one empty tile chosen uniformly from the
    /// empty tiles — or do nothing if there is none. The draw is a hundredth
    /// in one to ninety-nine, so a chance of ninety-nine or more succeeds on
    /// every outcome: under the limit, with an empty tile to take, a spawn
    /// is then certain.
    #[verifier::loop_isolation(false)]
    pub fn put_on(&self, level: &mut GameLevel) -> (r: Result<(), GameError>)
        requires
            old(level).wf(),
        ensures
            r is Ok,
            final(level).wf(),
            final(level).width == old(level).width,
            final(level).height == old(level).height,
            self.spawn_rel(*old(level), *final(level)),
            count_kind(old(level).level@, TileType::Fruit) >= self.limit ==> *final(level) == *old(
                level,
            ),
            count_kind(old(level).level@, TileType::Fruit) < self.limit ==> count_kind(
                final(level).level@,
                TileType::Fruit,
            ) <= self.limit,
            count_kind(old(level).level@, TileType::Fruit) < self.limit && self.chance >= 99
                && count_kind(old(level).level@, TileType::Empty) > 0 ==> count_kind(
                final(level).level@,
                TileType::Fruit,
            ) == count_kind(old(level).level@, TileType::Fruit) + 1,
    {
        // count the fruit already on the level
        let mut count_fruits: usize = 0;
        let mut i: usize = 0;
        proof {
            assert(level.level@.take(0) =~= Seq::<Tile>::empty());
        }
        while i < level.level.len()
            invariant
                i <= level.level@.len(),
                count_fruits == count_kind(level.level@.take(i as int), TileType::Fruit),
                count_fruits <= i,
            decreases level.level@.len() - i,
        {
            proof {
                lemma_count_kind_take_succ(level.level@, TileType::Fruit, i as int);
            }
            if matches!(level.level[i].tile_type(), TileType::Fruit) {
                count_fruits = count_fruits + 1;
            }
            i += 1;
        }
        proof {
            lemma_count_kind_whole(level.level@, TileType::Fruit);
        }

        // if under the limit, draw a chance to put one fruit
        if count_fruits < self.limit {
            let draw = random_below(99) + 1;
            if self.chance >= draw as u64 {
                // collect the empty tiles
                let mut empty_tiles: Vec<usize> = Vec::new();
                let mut j: usize = 0;
                proof {
                    assert(level.level@.take(0) =~= Seq::<Tile>::empty());
                }
                while j < level.level.len()
                    invariant
                        j <= level.level@.len(),
                        forall|k: int|
                            0 <= k < empty_tiles@.len() ==> (#[trigger] empty_tiles@[k])
                                < level.size() && level.kind_at(empty_tiles@[k] as int) is Empty,
                        empty_tiles@.len() == count_kind(
                            level.level@.take(j as int),
                            TileType::Empty,
                        ),
                    decreases level.level@.len() - j,
                {
                    proof {
                        lemma_count_kind_take_succ(level.level@, TileType::Empty, j as int);
                    }
                    if matches!(level.level[j].tile_type(), TileType::Empty) {
                        empty_tiles.push(j);
                    }
                    j += 1;
                }
                proof {
                    lemma_count_kind_whole(level.level@, TileType::Empty);
                }

                // there may be nowhere to put fruit
                if empty_tiles.len() == 0 {
                    return Ok(());
                }

                // put a fruit on one of the empty tiles, chosen uniformly
                let ghost pre = *level;
                let pick = random_below(empty_tiles.len());
                let target = empty_tiles[pick];
                match level.get_tile_mut(target) {
                    Some(tile) => tile.set_to(TileType::Fruit),
                    None => {},
                }
                proof {
                    assert(level.level@ =~= pre.level@.update(
                        target as int,
                        Tile { index: target, kind: TileType::Fruit },
                    ));
                    lemma_count_kind_update(
                        pre.level@,
                        TileType::Fruit,
                        target as int,
                        Tile { index: target, kind: TileType::Fruit },
                    );
                    assert forall|t: int| 0 <= t < level.level@.len() implies (
                    #[trigger] level.level@[t]).index == t by {}
                }
            }
        }
        Ok(())
    }
}

} // verus!
