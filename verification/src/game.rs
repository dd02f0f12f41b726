//! The composed game: the level grid, the snake acting on it, the fruit
//! spawner, and the renderer — the operations a tick driver calls.
use vstd::prelude::*;
use crate::fruit::FruitRandomLimited;
use crate::game_level::{count_kind, GameLevel, Tile, TileType};
use crate::renderer::{spec_render, GameDisplayToString};
use crate::snake::{placement_body, step_rel, walk_ok, SnakeUnbounded};
use crate::{GameError, MovementDirection};

verus! {

/// One successful tick: a snake step onto some intermediate level, followed
/// by one fruit-spawn attempt on it. The attempt is never skipped: whenever
/// the stepped level is under the fruit limit, the chance succeeds on every
/// draw (ninety-nine hundredths or more), and an empty tile remains, the
/// tick ends with exactly one more fruit.
pub open spec fn tick_rel(
    fruit: FruitRandomLimited,
    pre_snake: SnakeUnbounded,
    pre_level: GameLevel,
    post_snake: SnakeUnbounded,
    post_level: GameLevel,
) -> bool {
    exists|mid: GameLevel|
        step_rel(pre_snake, pre_level, post_snake, mid, Ok(())) && #[trigger] fruit.spawn_rel(
            mid,
            post_level,
        ) && (count_kind(mid.level@, TileType::Fruit) < fruit.limit && fruit.chance >= 99
            && count_kind(mid.level@, TileType::Empty) > 0 ==> count_kind(
            post_level.level@,
            TileType::Fruit,
        ) == count_kind(mid.level@, TileType::Fruit) + 1)
}

/// Law: across any number of ticks — each a successful snake step followed
/// by one fruit-spawn attempt — the number of fruit tiles never exceeds the
/// spawner's limit once it is within it.
pub proof fn lemma_fruit_bound_over_ticks(
    fruit: FruitRandomLimited,
    snakes: Seq<SnakeUnbounded>,
    levels: Seq<GameLevel>,
    n: int,
)
    requires
        0 <= n,
        snakes.len() == n + 1,
        levels.len() == n + 1,
        count_kind(levels[0].level@, TileType::Fruit) <= fruit.limit,
        forall|k: int| 0 <= k < n ==> (#[trigger] levels[k]).wf(),
        forall|k: int| 0 <= k < n ==> (#[trigger] snakes[k]).consistent_with(levels[k]),
        forall|k: int|
            0 <= k < n ==> tick_rel(fruit, #[trigger] snakes[k], levels[k], snakes[k + 1], levels[k
                + 1]),
    ensures
        count_kind(levels[n].level@, TileType::Fruit) <= fruit.limit,
    decreases n,
{
    if n > 0 {
        let ps = snakes.drop_last();
        let pl = levels.drop_last();
        assert forall|k: int| 0 <= k < n - 1 implies (#[trigger] pl[k]).wf() by {
            assert(pl[k] == levels[k]);
        }
        assert forall|k: int| 0 <= k < n - 1 implies (#[trigger] ps[k]).consistent_with(
            pl[k],
        ) by {
            assert(ps[k] == snakes[k]);
            assert(pl[k] == levels[k]);
        }
        assert forall|k: int|
            0 <= k < n - 1 implies tick_rel(fruit, #[trigger] ps[k], pl[k], ps[k + 1], pl[k
            + 1]) by {
            assert(ps[k] == snakes[k]);
            assert(ps[k + 1] == snakes[k + 1]);
            assert(pl[k] == levels[k]);
            assert(pl[k + 1] == levels[k + 1]);
            assert(tick_rel(fruit, snakes[k], levels[k], snakes[k + 1], levels[k + 1]));
        }
        assert(pl[0] == levels[0]);
        lemma_fruit_bound_over_ticks(fruit, ps, pl, n - 1);
        assert(pl[n - 1] == levels[n - 1]);
        // the final tick keeps the bound: the step never increases the
        // count, and the spawner only spawns below the limit
        assert(tick_rel(fruit, snakes[n - 1], levels[n - 1], snakes[n], levels[n]));
        let mid = choose|mid: GameLevel|
            step_rel(snakes[n - 1], levels[n - 1], snakes[n], mid, Ok(())) && #[trigger]
                fruit.spawn_rel(mid, levels[n]);
        SnakeUnbounded::lemma_step_fruit_nonincreasing(
            snakes[n - 1],
            levels[n - 1],
            snakes[n],
            mid,
            Ok(()),
        );
        if levels[n] != mid {
            assert(levels[n - 1].wf());
            assert(mid.width == levels[n - 1].width && mid.height == levels[n - 1].height);
            assert(mid.level@.len() == levels[n - 1].level@.len());
            assert(mid.level@.len() == mid.size());
            let i = choose|i: int|
                0 <= i < mid.size() && mid.kind_at(i) is Empty && levels[n].level@
                    == mid.level@.update(i, Tile { index: i as usize, kind: TileType::Fruit });
            crate::game_level::lemma_count_kind_update(
                mid.level@,
                TileType::Fruit,
                i,
                Tile { index: i as usize, kind: TileType::Fruit },
            );
        }
    }
}

/// A running game session.
pub struct Game {
    pub snake: SnakeUnbounded,
    pub fruit: FruitRandomLimited,
    pub renderer: GameDisplayToString,
    pub level: GameLevel,
}

impl Game {
    /// A usable level whose snake markings are in 1:1 correspondence with
    /// the snake's body.
    pub open spec fn wf(self) -> bool {
        &&& self.level.wf()
        &&& self.snake.consistent_with(self.level)
    }

    pub fn new(
        renderer: GameDisplayToString,
        level: GameLevel,
        snake: SnakeUnbounded,
        fruit: FruitRandomLimited,
    ) -> (r: Game)
        ensures
            r.renderer == renderer,
            r.level == level,
            r.snake == snake,
            r.fruit == fruit,
    {
        Game { snake, fruit, renderer, level }
    }

    /// Place the snake at the level's center, its tail extending opposite to
    /// its direction; see `SnakeUnbounded::put_on` for the exact effect.
    pub fn put_snake(&mut self, tail_size: usize) -> (r: Result<(), GameError>)
        requires
            old(self).wf(),
            old(self).snake.tail@.len() == 0,
        ensures
            final(self).wf(),
            final(self).fruit == old(self).fruit,
            final(self).level.width == old(self).level.width,
            final(self).level.height == old(self).level.height,
            final(self).snake.movement_direction == old(self).snake.movement_direction,
            if 1 <= tail_size && walk_ok(
                old(self).level,
                old(self).snake.movement_direction,
                tail_size as int,
            ) {
                &&& r is Ok
                &&& final(self).snake.tail@ == placement_body(
                    old(self).level,
                    old(self).snake.movement_direction,
                    tail_size as int,
                )
                &&& forall|t: int|
                    0 <= t < old(self).level.size() ==> (#[trigger] final(self).level.kind_at(t))
                        == (if placement_body(
                        old(self).level,
                        old(self).snake.movement_direction,
                        tail_size as int,
                    ).contains(t as usize) {
                        TileType::Snake
                    } else {
                        old(self).level.kind_at(t)
                    })
            } else {
                &&& r == Err::<(), GameError>(GameError::InvalidInternalState)
                &&& *final(self) == *old(self)
            },
    {
        self.snake.put_on(&mut self.level, tail_size)
    }

    /// Forward a direction change to the snake: the exact reverse fails with
    /// `GameOver` and changes nothing.
    pub fn set_snake_direction(&mut self, new_direction: MovementDirection) -> (r: Result<
        (),
        GameError,
    >)
        ensures
            final(self).level == old(self).level,
            final(self).fruit == old(self).fruit,
            final(self).snake.tail@ == old(self).snake.tail@,
            old(self).wf() ==> final(self).wf(),
            new_direction == old(self).snake.movement_direction.spec_opposite()
                ==> r == Err::<(), GameError>(GameError::GameOver) && *final(self) == *old(self),
            new_direction != old(self).snake.movement_direction.spec_opposite()
                ==> r is Ok && final(self).snake.movement_direction == new_direction,
    {
        self.snake.set_direction(new_direction)
    }

    /// Resolve one tick's batch of pending inputs through the move
    /// aggregator and apply the direction it yields, if any. Fatal reversals
    /// are filtered by the aggregator before they reach the snake, so this
    /// never fails. The direction stays only when every input is the exact
    /// reverse of the current direction; as soon as one input survives the
    /// filter, the new direction is one of the inputs and no reversal.
    pub fn apply_pending_moves(&mut self, inputs: &Vec<MovementDirection>) -> (r: Result<
        (),
        GameError,
    >)
        ensures
            r is Ok,
            final(self).level == old(self).level,
            final(self).fruit == old(self).fruit,
            final(self).snake.tail@ == old(self).snake.tail@,
            old(self).wf() ==> final(self).wf(),
            (forall|i: int|
                0 <= i < inputs@.len() ==> #[trigger] inputs@[i] == old(
                    self,
                ).snake.movement_direction.spec_opposite()) ==> final(self).snake.movement_direction
                == old(self).snake.movement_direction,
            (exists|i: int|
                0 <= i < inputs@.len() && #[trigger] inputs@[i] != old(
                    self,
                ).snake.movement_direction.spec_opposite()) ==> inputs@.contains(
                final(self).snake.movement_direction,
            ) && final(self).snake.movement_direction != old(
                self,
            ).snake.movement_direction.spec_opposite(),
            final(self).snake.movement_direction == old(self).snake.movement_direction || (
            inputs@.contains(final(self).snake.movement_direction)
                && final(self).snake.movement_direction != old(
                self,
            ).snake.movement_direction.spec_opposite()),
    {
        let current = self.snake.direction();
        match crate::helper::aggregate_moves(inputs, current) {
            Some(movement) => self.set_snake_direction(movement),
            None => Ok(()),
        }
    }

    pub fn level(&self) -> (r: &GameLevel)
        ensures
            *r == self.level,
    {
        &self.level
    }

    pub fn snake(&self) -> (r: &SnakeUnbounded)
        ensures
            *r == self.snake,
    {
        &self.snake
    }

    /// Render the current level as a text frame; see
    /// `GameDisplayToString::render`.
    pub fn render(&self) -> (r: Result<String, GameError>)
        requires
            self.level.wf(),
        ensures
            r is Ok,
            r->Ok_0@ == spec_render(self.level),
    {
        self.renderer.render(&self.level)
    }

    /// One tick: one snake step, then — only when the step succeeded — one
    /// fruit-spawn attempt. A failed step commits nothing.
    pub fn try_move(&mut self) -> (r: Result<(), GameError>)
        requires
            old(self).wf(),
        ensures
            final(self).wf(),
            final(self).fruit == old(self).fruit,
            final(self).level.width == old(self).level.width,
            final(self).level.height == old(self).level.height,
            final(self).snake.movement_direction == old(self).snake.movement_direction,
            r is Err ==> *final(self) == *old(self) && step_rel(
                old(self).snake,
                old(self).level,
                final(self).snake,
                final(self).level,
                r,
            ),
            r is Ok ==> tick_rel(
                old(self).fruit,
                old(self).snake,
                old(self).level,
                final(self).snake,
                final(self).level,
            ),
            count_kind(old(self).level.level@, TileType::Fruit) <= old(self).fruit.limit
                ==> count_kind(final(self).level.level@, TileType::Fruit) <= old(
                self,
            ).fruit.limit,
    {
        let ghost pre = *self;
        let r = self.snake.make_move(&mut self.level);
        proof {
            SnakeUnbounded::lemma_step_fruit_nonincreasing(
                pre.snake,
                pre.level,
                self.snake,
                self.level,
                r,
            );
        }
        match r {
            Ok(()) => {},
            Err(e) => {
                proof {
                    assert(step_rel(pre.snake, pre.level, self.snake, self.level, r));
                }
                return Err(e);
            },
        }
        let ghost mid_level = self.level;
        let r2 = self.fruit.put_on(&mut self.level);
        match r2 {
            Ok(()) => {},
            Err(e) => {
                return Err(e);
            },
        }
        proof {
            assert(step_rel(pre.snake, pre.level, self.snake, mid_level, Ok::<(), GameError>(())));
            assert(pre.fruit.spawn_rel(mid_level, self.level));
            assert(count_kind(mid_level.level@, TileType::Fruit) < pre.fruit.limit
                && pre.fruit.chance >= 99 && count_kind(mid_level.level@, TileType::Empty) > 0
                ==> count_kind(self.level.level@, TileType::Fruit) == count_kind(
                mid_level.level@,
                TileType::Fruit,
            ) + 1);
            assert(tick_rel(pre.fruit, pre.snake, pre.level, self.snake, self.level));
            if self.level != mid_level {
                // the spawner changed exactly one empty tile into a fruit
                let i = choose|i: int|
                    0 <= i < mid_level.size() && mid_level.kind_at(i) is Empty
                        && self.level.level@ == mid_level.level@.update(
                        i,
                        Tile { index: i as usize, kind: TileType::Fruit },
                    );
                assert forall|j: int| 0 <= j < self.level.level@.len() implies (
                #[trigger] self.level.level@[j]).index == j by {}
                assert forall|t: int|
                    #![trigger self.level.kind_at(t)]
                    #![trigger self.snake.tail@.contains(t as usize)]
                    0 <= t < self.level.size() implies (self.level.kind_at(t) is Snake
                    <==> self.snake.tail@.contains(t as usize)) by {
                    assert(mid_level.kind_at(t) is Snake <==> self.snake.tail@.contains(
                        t as usize,
                    ));
                    if t != i {
                        assert(self.level.kind_at(t) == mid_level.kind_at(t));
                    }
                }
                assert forall|k: int|
                    0 <= k < self.snake.tail@.len() implies (#[trigger] self.snake.tail@[k])
                    < self.level.size() by {}
            }
        }
        Ok(())
    }
}

} // verus!
