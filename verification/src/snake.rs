//! The snake state machine: placement at the level's center, advancing one
//! tile per tick with growth on fruit and failure on self-collision, and the
//! wraparound ("globe") policy at the level's edges.
use vstd::prelude::*;
use std::collections::VecDeque;
use vstd::arithmetic::div_mod::{lemma_div_nonincreasing, lemma_div_pos_is_pos};
use crate::game_level::{
    count_kind, lemma_count_kind_update, GameLevel, SiblingPosition, Tile, TileType,
};
use crate::{GameError, MovementDirection};

verus! {

/// Column of the level's center tile.
pub open spec fn spec_center_x(level: GameLevel) -> int {
    (level.width - 1) / 2
}

/// Row of the level's center tile.
pub open spec fn spec_center_y(level: GameLevel) -> int {
    (level.height - 1) / 2
}

/// Index of the level's center tile, where a fresh snake anchors its head.
pub open spec fn spec_center(level: GameLevel) -> int {
    spec_center_y(level) * level.width + spec_center_x(level)
}

/// Index delta of one placement step: the tail extends opposite to the
/// movement direction.
pub open spec fn tail_step(level: GameLevel, d: MovementDirection) -> int {
    match d {
        MovementDirection::Up => level.width as int,
        MovementDirection::Down => -(level.width as int),
        MovementDirection::Left => 1int,
        MovementDirection::Right => -1int,
    }
}

/// The `k`-th tile of a freshly placed snake: the head (`k == 0`) at the
/// center, each further segment one step opposite to the movement direction.
pub open spec fn placement_index(level: GameLevel, d: MovementDirection, k: int) -> int {
    spec_center(level) + k * tail_step(level, d)
}

/// Whether the `k`-th placement tile still lies on the level: placement
/// never wraps, so the walk from the center must not cross an edge.
pub open spec fn walk_ok(level: GameLevel, d: MovementDirection, k: int) -> bool {
    match d {
        MovementDirection::Up => spec_center_y(level) + k < level.height,
        MovementDirection::Down => spec_center_y(level) - k >= 0,
        MovementDirection::Left => spec_center_x(level) + k < level.width,
        MovementDirection::Right => spec_center_x(level) - k >= 0,
    }
}

/// The body of a freshly placed snake, head first.
pub open spec fn placement_body(level: GameLevel, d: MovementDirection, tail_size: int) -> Seq<
    usize,
> {
    Seq::new((tail_size + 1) as nat, |k: int| placement_index(level, d, k) as usize)
}

/// The center tile exists and decodes to the center coordinates.
proof fn lemma_center_coords(level: GameLevel)
    requires
        level.wf(),
    ensures
        0 <= spec_center_x(level) < level.width,
        0 <= spec_center_y(level) < level.height,
        0 <= spec_center(level) < level.size(),
        level.spec_x(spec_center(level)) == spec_center_x(level),
        level.spec_y(spec_center(level)) == spec_center_y(level),
{
    let w = level.width as int;
    let h = level.height as int;
    lemma_div_pos_is_pos(w - 1, 2);
    lemma_div_nonincreasing(w - 1, 2);
    lemma_div_pos_is_pos(h - 1, 2);
    lemma_div_nonincreasing(h - 1, 2);
    level.lemma_position_roundtrip(spec_center_x(level), spec_center_y(level));
}

/// If the walk reaches step `k`, it reached every earlier step.
proof fn lemma_walk_ok_mono(level: GameLevel, d: MovementDirection, j: int, k: int)
    requires
        j <= k,
        walk_ok(level, d, k),
    ensures
        walk_ok(level, d, j),
{
}

/// Each placement tile is a valid index, and its neighbor opposite to the
/// movement direction is the next placement tile — absent exactly when the
/// walk would cross an edge.
proof fn lemma_walk(level: GameLevel, d: MovementDirection, k: int)
    requires
        level.wf(),
        0 <= k,
        walk_ok(level, d, k),
    ensures
        0 <= placement_index(level, d, k) < level.size(),
        level.spec_sibling_index(placement_index(level, d, k), spec_heading(d.spec_opposite()))
            == if walk_ok(level, d, k + 1) {
            Some(placement_index(level, d, k + 1))
        } else {
            None::<int>
        },
{
    lemma_center_coords(level);
    let w = level.width as int;
    let cx = spec_center_x(level);
    let cy = spec_center_y(level);
    let c = spec_center(level);
    assert(c == cy * w + cx);
    match d {
        MovementDirection::Up => {
            assert(c + k * w == (cy + k) * w + cx) by (nonlinear_arith)
                requires
                    c == cy * w + cx,
            ;
            level.lemma_position_roundtrip(cx, cy + k);
            assert(c + (k + 1) * w == (c + k * w) + w) by (nonlinear_arith);
        },
        MovementDirection::Down => {
            assert(c + k * (-w) == (cy - k) * w + cx) by (nonlinear_arith)
                requires
                    c == cy * w + cx,
            ;
            level.lemma_position_roundtrip(cx, cy - k);
            assert(c + (k + 1) * (-w) == (c + k * (-w)) - w) by (nonlinear_arith);
        },
        MovementDirection::Left => {
            assert(c + k * 1 == cy * w + (cx + k));
            level.lemma_position_roundtrip(cx + k, cy);
        },
        MovementDirection::Right => {
            assert(c + k * (-1) == cy * w + (cx - k));
            level.lemma_position_roundtrip(cx - k, cy);
        },
    }
}

/// A placement body never lists a tile twice.
proof fn lemma_placement_distinct(level: GameLevel, d: MovementDirection, n: int)
    requires
        level.wf(),
        0 <= n,
        walk_ok(level, d, n),
    ensures
        placement_body(level, d, n).no_duplicates(),
        forall|k: int|
            0 <= k <= n ==> (#[trigger] placement_body(level, d, n)[k]) as int == placement_index(
                level,
                d,
                k,
            ),
{
    let body = placement_body(level, d, n);
    assert forall|k: int| 0 <= k <= n implies (#[trigger] body[k]) as int == placement_index(
        level,
        d,
        k,
    ) by {
        lemma_walk_ok_mono(level, d, k, n);
        lemma_walk(level, d, k);
    }
    assert forall|i: int, j: int| 0 <= i < j < body.len() implies body[i] != body[j] by {
        let s = tail_step(level, d);
        assert(spec_center(level) + i * s != spec_center(level) + j * s) by (nonlinear_arith)
            requires
                i < j,
                s != 0,
        ;
    }
}

/// The adjacency direction a movement direction heads toward.
pub open spec fn spec_heading(d: MovementDirection) -> SiblingPosition {
    match d {
        MovementDirection::Up => SiblingPosition::Up,
        MovementDirection::Down => SiblingPosition::Down,
        MovementDirection::Left => SiblingPosition::Left,
        MovementDirection::Right => SiblingPosition::Right,
    }
}

/// The index re-entered at the opposite edge when a step in direction `d`
/// from index `i` leaves the grid: crossing top or bottom keeps the column,
/// crossing left or right keeps the row.
pub open spec fn wrap_index(level: GameLevel, i: int, d: MovementDirection) -> int {
    let x = level.spec_x(i);
    let y = level.spec_y(i);
    let w = level.width as int;
    match d {
        MovementDirection::Up => (level.height - 1) * w + x,
        MovementDirection::Down => x,
        MovementDirection::Left => y * w + (w - 1),
        MovementDirection::Right => y * w,
    }
}

/// Where a step from index `i` in direction `d` lands: the axis-aligned
/// neighbor inside the grid, or the wrapped index at the opposite edge.
pub open spec fn next_index(level: GameLevel, i: int, d: MovementDirection) -> int {
    match level.spec_sibling_index(i, spec_heading(d)) {
        Some(j) => j,
        None => wrap_index(level, i, d),
    }
}

/// A step target is always a valid tile index.
pub proof fn lemma_next_index_in_range(level: GameLevel, i: int, d: MovementDirection)
    requires
        level.wf(),
        0 <= i < level.size(),
    ensures
        0 <= next_index(level, i, d) < level.size(),
{
    let w = level.width as int;
    let h = level.height as int;
    level.lemma_index_to_xy(i);
    let x = level.spec_x(i);
    let y = level.spec_y(i);
    assert(y * w + x == i);
    assert(w * h == level.size());
    assert(y >= 1 ==> i - w >= 0) by (nonlinear_arith)
        requires
            y * w + x == i,
            0 <= x,
            1 <= w,
    ;
    assert(y < h - 1 ==> i + w < w * h) by (nonlinear_arith)
        requires
            y * w + x == i,
            x < w,
            0 <= y,
            1 <= w,
            1 <= h,
    ;
    assert(x >= 1 ==> i - 1 >= 0) by (nonlinear_arith)
        requires
            y * w + x == i,
            0 <= y,
            1 <= w,
    ;
    assert(x < w - 1 ==> i + 1 < w * h) by (nonlinear_arith)
        requires
            y * w + x == i,
            0 <= y,
            y <= h - 1,
            1 <= w,
    ;
    assert(0 <= (h - 1) * w + x < w * h) by (nonlinear_arith)
        requires
            0 <= x < w,
            1 <= h,
            1 <= w,
    ;
    assert(0 <= x < w * h) by (nonlinear_arith)
        requires
            0 <= x < w,
            1 <= h,
    ;
    assert(0 <= y * w + (w - 1) < w * h) by (nonlinear_arith)
        requires
            0 <= y <= h - 1,
            1 <= w,
    ;
    assert(0 <= y * w < w * h) by (nonlinear_arith)
        requires
            0 <= y <= h - 1,
            1 <= w,
    ;
}

/// Appending an element to a sequence: membership grows by exactly it.
proof fn lemma_push_contains(s: Seq<usize>, v: usize, w: usize)
    ensures
        s.push(v).contains(w) <==> (w == v || s.contains(w)),
{
    if s.push(v).contains(w) {
        let k = choose|k: int| 0 <= k < s.push(v).len() && s.push(v)[k] == w;
        if k < s.len() {
            assert(s[k] == w);
        }
    }
    if w == v {
        assert(s.push(v)[s.len() as int] == w);
    }
    if s.contains(w) {
        let k = choose|k: int| 0 <= k < s.len() && s[k] == w;
        assert(s.push(v)[k] == w);
    }
}

/// Prepending an element to a sequence: membership grows by exactly it.
proof fn lemma_cons_contains(s: Seq<usize>, v: usize, w: usize)
    ensures
        (seq![v] + s).contains(w) <==> (w == v || s.contains(w)),
{
    let t = seq![v] + s;
    if t.contains(w) {
        let k = choose|k: int| 0 <= k < t.len() && t[k] == w;
        if k > 0 {
            assert(s[k - 1] == w);
        }
    }
    if w == v {
        assert(t[0] == w);
    }
    if s.contains(w) {
        let k = choose|k: int| 0 <= k < s.len() && s[k] == w;
        assert(t[k + 1] == w);
    }
}

/// Splitting off the last element: membership splits accordingly.
proof fn lemma_unsnoc_contains(s: Seq<usize>, w: usize)
    requires
        s.len() > 0,
    ensures
        s.contains(w) <==> (w == s.last() || s.drop_last().contains(w)),
{
    if s.contains(w) {
        let k = choose|k: int| 0 <= k < s.len() && s[k] == w;
        if k < s.len() - 1 {
            assert(s.drop_last()[k] == w);
        }
    }
    if s.drop_last().contains(w) {
        let k = choose|k: int| 0 <= k < s.drop_last().len() && s.drop_last()[k] == w;
        assert(s[k] == w);
    }
}

/// How a tile the snake's head is about to enter resolves.
#[derive(Clone, Copy)]
enum MovementResult<'a> {
    Advance(&'a Tile),
    GrowOn(&'a Tile),
    SnakeCollision,
    LevelBoundary,
}

/// A snake whose movement wraps around the level's edges.
#[derive(Debug)]
pub struct SnakeUnbounded {
    /// Indices of the tiles the snake occupies, head first.
    pub tail: VecDeque<usize>,
    pub movement_direction: MovementDirection,
}

/// One tick of the snake state machine, relating the state before a
/// `make_move` call to the state after it. Writing `ni` for the step target:
/// an empty target advances the body (the tail end is cleared), a fruit
/// target grows it (nothing is cleared), a snake target is a self-collision
/// that fails with `GameOver` and commits nothing.
pub open spec fn step_rel(
    pre_snake: SnakeUnbounded,
    pre_level: GameLevel,
    post_snake: SnakeUnbounded,
    post_level: GameLevel,
    r: Result<(), GameError>,
) -> bool {
    if pre_snake.tail@.len() == 0 {
        &&& r == Err::<(), GameError>(GameError::InvalidInternalState)
        &&& post_snake == pre_snake
        &&& post_level == pre_level
    } else {
        let ni = next_index(pre_level, pre_snake.tail@[0] as int, pre_snake.movement_direction);
        let te = pre_snake.tail@.last() as int;
        match pre_level.kind_at(ni) {
            TileType::Snake => {
                &&& r == Err::<(), GameError>(GameError::GameOver)
                &&& post_snake == pre_snake
                &&& post_level == pre_level
            },
            TileType::Empty => {
                &&& r is Ok
                &&& post_snake.movement_direction == pre_snake.movement_direction
                &&& post_snake.tail@ == seq![ni as usize] + pre_snake.tail@.drop_last()
                &&& post_level.level@ == pre_level.level@.update(
                    ni,
                    Tile { index: ni as usize, kind: TileType::Snake },
                ).update(te, Tile { index: te as usize, kind: TileType::Empty })
                &&& post_level.width == pre_level.width
                &&& post_level.height == pre_level.height
            },
            TileType::Fruit => {
                &&& r is Ok
                &&& post_snake.movement_direction == pre_snake.movement_direction
                &&& post_snake.tail@ == seq![ni as usize] + pre_snake.tail@
                &&& post_level.level@ == pre_level.level@.update(
                    ni,
                    Tile { index: ni as usize, kind: TileType::Snake },
                )
                &&& post_level.width == pre_level.width
                &&& post_level.height == pre_level.height
            },
        }
    }
}

impl SnakeUnbounded {
    /// The snake and the level agree: every body index is a valid tile, the
    /// body never lists a tile twice, and the tiles marked `Snake` on the
    /// level are exactly the body, in 1:1 correspondence.
    pub open spec fn consistent_with(self, level: GameLevel) -> bool {
        &&& forall|i: int| 0 <= i < self.tail@.len() ==> (#[trigger] self.tail@[i]) < level.size()
        &&& self.tail@.no_duplicates()
        &&& forall|t: int|
            #![trigger level.kind_at(t)]
            #![trigger self.tail@.contains(t as usize)]
            0 <= t < level.size() ==> (level.kind_at(t) is Snake <==> self.tail@.contains(
                t as usize,
            ))
    }

    pub fn new(initial_direction: MovementDirection) -> (r: SnakeUnbounded)
        ensures
            r.tail@.len() == 0,
            r.movement_direction == initial_direction,
    {
        SnakeUnbounded { tail: VecDeque::new(), movement_direction: initial_direction }
    }

    /// Mark `tile` as part of the snake and make it the new head, without
    /// clearing the tail end: the snake grows by one segment.
    fn grow_on(&mut self, tile: &mut Tile)
        ensures
            final(tile).index == old(tile).index,
            final(tile).kind is Snake,
            final(self).tail@ == seq![old(tile).index] + old(self).tail@,
            final(self).movement_direction == old(self).movement_direction,
    {
        tile.set_to(TileType::Snake);
        self.tail.push_front(tile.get_index());
    }

    /// Resolve what entering `to_tile` would mean: advance onto an empty
    /// tile, grow onto a fruit, collide with the snake itself, or — when
    /// there is no tile — the level boundary.
    fn try_move_to<'l>(&self, to_tile: &Option<&'l Tile>) -> (r: MovementResult<'l>)
        ensures
            match r {
                MovementResult::Advance(t) => to_tile.is_some() && *t == *to_tile.unwrap()
                    && t.kind is Empty,
                MovementResult::GrowOn(t) => to_tile.is_some() && *t == *to_tile.unwrap()
                    && t.kind is Fruit,
                MovementResult::SnakeCollision => to_tile.is_some()
                    && to_tile.unwrap().kind is Snake,
                MovementResult::LevelBoundary => to_tile.is_none(),
            },
    {
        match to_tile {
            Some(tile) => match tile.tile_type() {
                TileType::Empty => MovementResult::Advance(tile),
                TileType::Fruit => MovementResult::GrowOn(tile),
                TileType::Snake => MovementResult::SnakeCollision,
            },
            None => MovementResult::LevelBoundary,
        }
    }

    pub fn direction(&self) -> (r: MovementDirection)
        ensures
            r == self.movement_direction,
    {
        self.movement_direction
    }

    /// Reject the exact reverse of the current direction with `GameOver`
    /// (it would be a guaranteed immediate self-bite) without mutating
    /// anything; accept any other direction.
    pub fn set_direction(&mut self, new_direction: MovementDirection) -> (r: Result<
        (),
        GameError,
    >)
        ensures
            new_direction == old(self).movement_direction.spec_opposite()
                ==> r == Err::<(), GameError>(GameError::GameOver) && *final(self) == *old(self),
            new_direction != old(self).movement_direction.spec_opposite()
                ==> r is Ok && final(self).movement_direction == new_direction
                    && final(self).tail@ == old(self).tail@,
    {
        if self.movement_direction.is_opposite_to(&new_direction) {
            return Err(GameError::GameOver);
        }
        self.movement_direction = new_direction;
        Ok(())
    }

    /// Total snake length, head included.
    pub fn len(&self) -> (r: usize)
        ensures
            r == self.tail@.len(),
    {
        self.tail.len()
    }

    /// Place the snake on `level`: the head anchored at the level's center
    /// tile, `tail_size` further segments laid one neighbor step at a time in
    /// the direction opposite to the movement direction, and every resulting
    /// tile marked `Snake`. Fails with `InvalidInternalState`, committing
    /// nothing, if `tail_size < 1` or the tail would cross an edge (placement
    /// never wraps: the level must be large enough).
    #[verifier::loop_isolation(false)]
    pub fn put_on(&mut self, level: &mut GameLevel, tail_size: usize) -> (r: Result<
        (),
        GameError,
    >)
        requires
            old(level).wf(),
            old(self).tail@.len() == 0,
            old(self).consistent_with(*old(level)),
        ensures
            final(level).wf(),
            final(level).width == old(level).width,
            final(level).height == old(level).height,
            final(self).movement_direction == old(self).movement_direction,
            if 1 <= tail_size && walk_ok(
                *old(level),
                old(self).movement_direction,
                tail_size as int,
            ) {
                &&& r is Ok
                &&& final(self).tail@ == placement_body(
                    *old(level),
                    old(self).movement_direction,
                    tail_size as int,
                )
                &&& forall|t: int|
                    0 <= t < old(level).size() ==> (#[trigger] final(level).kind_at(t)) == (
                    if placement_body(
                        *old(level),
                        old(self).movement_direction,
                        tail_size as int,
                    ).contains(t as usize) {
                        TileType::Snake
                    } else {
                        old(level).kind_at(t)
                    })
                &&& final(self).consistent_with(*final(level))
            } else {
                &&& r == Err::<(), GameError>(GameError::InvalidInternalState)
                &&& *final(self) == *old(self)
                &&& *final(level) == *old(level)
            },
    {
        let ghost d = self.movement_direction;
        proof {
            lemma_center_coords(*level);
        }
        if tail_size < 1 {
            return Err(GameError::InvalidInternalState);
        }
        let coords = level.level_coordinates();
        let x_center = coords.x_max / 2;
        let y_center = coords.y_max / 2;

        let head = match level.get_tile_on(x_center, y_center) {
            Some(t) => *t,
            None => {
                return Err(GameError::InvalidInternalState);
            },
        };
        assert(head.index == spec_center(*level));

        // the tail grows opposite to the movement direction
        let grow_direction = match self.movement_direction {
            MovementDirection::Up => SiblingPosition::Down,
            MovementDirection::Down => SiblingPosition::Up,
            MovementDirection::Left => SiblingPosition::Right,
            MovementDirection::Right => SiblingPosition::Left,
        };
        assert(grow_direction == spec_heading(d.spec_opposite()));

        // collect the indices the snake will occupy, head first
        let mut tail_vec: Vec<usize> = Vec::new();
        tail_vec.push(head.get_index());
        proof {
            lemma_walk(*level, d, 0);
        }
        let mut sibling: Option<Tile> = match level.tile_sibling(&head, grow_direction) {
            Some(t) => Some(*t),
            None => None,
        };
        let mut k: usize = 0;
        while k < tail_size
            invariant
                k <= tail_size,
                tail_vec@.len() == k + 1,
                walk_ok(*level, d, k as int),
                forall|j: int|
                    0 <= j <= k ==> (#[trigger] tail_vec@[j]) as int == placement_index(
                        *level,
                        d,
                        j,
                    ),
                if walk_ok(*level, d, k + 1) {
                    sibling == Some(level.level@[placement_index(*level, d, k + 1)])
                } else {
                    sibling is None
                },
            decreases tail_size - k,
        {
            let t = match sibling {
                Some(t) => t,
                None => {
                    proof {
                        if walk_ok(*level, d, tail_size as int) {
                            lemma_walk_ok_mono(*level, d, k as int + 1, tail_size as int);
                        }
                    }
                    return Err(GameError::InvalidInternalState);
                },
            };
            tail_vec.push(t.get_index());
            proof {
                lemma_walk(*level, d, k as int + 1);
            }
            sibling = match level.tile_sibling(&t, grow_direction) {
                Some(s) => Some(*s),
                None => None,
            };
            k += 1;
        }
        proof {
            lemma_placement_distinct(*level, d, tail_size as int);
            assert(tail_vec@ =~= placement_body(*level, d, tail_size as int));
        }

        // mark every collected tile as snake
        let ghost pre_level = *level;
        let ghost body = tail_vec@;
        proof {
            assert(pre_level.wf());
            assert(forall|j: int|
                0 <= j <= tail_size ==> (#[trigger] body[j]) as int == placement_index(
                    pre_level,
                    d,
                    j,
                ));
            assert(body =~= placement_body(pre_level, d, tail_size as int));
        }
        let mut m: usize = 0;
        while m < tail_vec.len()
            invariant
                m <= tail_vec.len(),
                level.width == pre_level.width,
                level.height == pre_level.height,
                level.level@.len() == pre_level.level@.len(),
                forall|j: int|
                    0 <= j < level.level@.len() ==> (#[trigger] level.level@[j]).index == j,
                forall|t: int|
                    0 <= t < pre_level.size() ==> (#[trigger] level.kind_at(t)) == (if body.take(
                        m as int,
                    ).contains(t as usize) {
                        TileType::Snake
                    } else {
                        pre_level.kind_at(t)
                    }),
            decreases tail_vec.len() - m,
        {
            let idx = tail_vec[m];
            let ghost mid = *level;
            proof {
                lemma_walk_ok_mono(pre_level, d, m as int, tail_size as int);
                lemma_walk(pre_level, d, m as int);
            }
            match level.get_tile_mut(idx) {
                Some(tile) => tile.set_to(TileType::Snake),
                None => {},
            }
            proof {
                assert(level.level@ =~= mid.level@.update(
                    idx as int,
                    Tile { index: idx, kind: TileType::Snake },
                ));
                assert(body.take(m as int + 1) =~= body.take(m as int).push(body[m as int]));
                assert forall|t: int|
                    0 <= t < pre_level.size() implies (#[trigger] level.kind_at(t)) == (
                if body.take(m as int + 1).contains(t as usize) {
                    TileType::Snake
                } else {
                    pre_level.kind_at(t)
                }) by {
                    lemma_push_contains(body.take(m as int), body[m as int], t as usize);
                    assert(mid.kind_at(t) == (if body.take(m as int).contains(t as usize) {
                        TileType::Snake
                    } else {
                        pre_level.kind_at(t)
                    }));
                    if t != idx as int {
                        assert(level.kind_at(t) == mid.kind_at(t));
                    }
                }
            }
            m += 1;
        }
        proof {
            assert(body.take(body.len() as int) =~= body);
        }

        // record the occupied tiles, head first, to track movement
        let mut q: usize = 0;
        assert(self.tail@ =~= tail_vec@.take(0));
        while q < tail_vec.len()
            invariant
                q <= tail_vec.len(),
                self.tail@ == tail_vec@.take(q as int),
                self.movement_direction == d,
            decreases tail_vec.len() - q,
        {
            let v = tail_vec[q];
            self.tail.push_back(v);
            proof {
                assert(tail_vec@.take(q as int + 1) =~= tail_vec@.take(q as int).push(
                    tail_vec@[q as int],
                ));
            }
            q += 1;
        }
        proof {
            assert(tail_vec@.take(tail_vec@.len() as int) =~= tail_vec@);
            assert forall|i: int|
                0 <= i < self.tail@.len() implies (#[trigger] self.tail@[i]) < level.size() by {
                lemma_walk_ok_mono(pre_level, d, i, tail_size as int);
                lemma_walk(pre_level, d, i);
            }
            assert forall|t: int|
                #![trigger level.kind_at(t)]
                #![trigger self.tail@.contains(t as usize)]
                0 <= t < level.size() implies (level.kind_at(t) is Snake <==> self.tail@.contains(
                t as usize,
            )) by {
                assert(!old(self).tail@.contains(t as usize));
            }
        }
        Ok(())
    }

    /// Advance the snake by one tile in its current direction, wrapping at
    /// the level's edges, growing on fruit, and failing with `GameOver` on
    /// self-collision. The exact effect is `step_rel`.
    pub fn make_move(&mut self, level: &mut GameLevel) -> (r: Result<(), GameError>)
        requires
            old(level).wf(),
            old(self).consistent_with(*old(level)),
        ensures
            final(level).wf(),
            final(self).consistent_with(*final(level)),
            final(self).movement_direction == old(self).movement_direction,
            final(level).width == old(level).width,
            final(level).height == old(level).height,
            step_rel(*old(self), *old(level), *final(self), *final(level), r),
    {
        if self.tail.len() == 0 {
            return Err(GameError::InvalidInternalState);
        }
        let head_index = self.tail[0];
        let ghost ni = next_index(*level, head_index as int, self.movement_direction);
        proof {
            lemma_next_index_in_range(*level, head_index as int, self.movement_direction);
        }
        let head_tile = match level.get_tile(head_index) {
            Some(t) => *t,
            None => {
                return Err(GameError::InvalidInternalState);
            },
        };
        let heading = match self.movement_direction {
            MovementDirection::Up => SiblingPosition::Up,
            MovementDirection::Down => SiblingPosition::Down,
            MovementDirection::Left => SiblingPosition::Left,
            MovementDirection::Right => SiblingPosition::Right,
        };
        let to_tile = level.tile_sibling(&head_tile, heading);
        let movement_result = self.try_move_to(&to_tile);
        let movement_result = match movement_result {
            MovementResult::LevelBoundary => {
                // "globe" level behavior: re-enter at the opposite edge and
                // resolve that tile exactly like an in-bounds neighbor.
                let head_pos = level.get_tile_position(&head_tile);
                let level_dim = level.level_coordinates();
                proof {
                    level.lemma_index_to_xy(head_index as int);
                }
                let wrapped = match self.movement_direction {
                    MovementDirection::Up => level.get_tile_on(head_pos.x, level_dim.y_max),
                    MovementDirection::Down => level.get_tile_on(head_pos.x, level_dim.y_min),
                    MovementDirection::Left => level.get_tile_on(level_dim.x_max, head_pos.y),
                    MovementDirection::Right => level.get_tile_on(level_dim.x_min, head_pos.y),
                };
                self.try_move_to(&wrapped)
            },
            m => m,
        };
        assert(match movement_result {
            MovementResult::Advance(t) => *t == level.level@[ni] && t.kind is Empty,
            MovementResult::GrowOn(t) => *t == level.level@[ni] && t.kind is Fruit,
            MovementResult::SnakeCollision => level.kind_at(ni) is Snake,
            MovementResult::LevelBoundary => false,
        });

        match movement_result {
            MovementResult::Advance(tile) => {
                let ghost pre_level = *level;
                let ghost pre_tail = self.tail@;
                let next_i = tile.get_index();
                match level.get_tile_mut(next_i) {
                    Some(t) => t.set_to(TileType::Snake),
                    None => {},
                }
                self.tail.push_front(next_i);
                // the body slides: clear the tile the tail end leaves
                let tail_end_index = match self.tail.pop_back() {
                    Some(i) => i,
                    None => {
                        return Err(GameError::InvalidInternalState);
                    },
                };
                match level.get_tile_mut(tail_end_index) {
                    Some(t) => t.set_to(TileType::Empty),
                    None => {},
                }
                proof {
                    let te = pre_tail.last() as int;
                    assert(self.tail@ =~= seq![ni as usize] + pre_tail.drop_last());
                    assert(level.level@ =~= pre_level.level@.update(
                        ni,
                        Tile { index: ni as usize, kind: TileType::Snake },
                    ).update(te, Tile { index: te as usize, kind: TileType::Empty }));
                    self.lemma_consistency_after_advance(pre_tail, pre_level, *level, ni);
                }
                Ok(())
            },
            MovementResult::GrowOn(tile) => {
                let ghost pre_level = *level;
                let ghost pre_tail = self.tail@;
                let next_i = tile.get_index();
                match level.get_tile_mut(next_i) {
                    Some(t) => self.grow_on(t),
                    None => {},
                }
                proof {
                    assert(self.tail@ =~= seq![ni as usize] + pre_tail);
                    assert(level.level@ =~= pre_level.level@.update(
                        ni,
                        Tile { index: ni as usize, kind: TileType::Snake },
                    ));
                    self.lemma_consistency_after_grow(pre_tail, pre_level, *level, ni);
                }
                Ok(())
            },
            MovementResult::SnakeCollision => Err(GameError::GameOver),
            MovementResult::LevelBoundary => {
                // unreachable: the wrapped tile always exists
                proof {
                    assert(false);
                }
                Err(GameError::InvalidInternalState)
            },
        }
    }

    /// Law: stepping onto a fruit tile succeeds, grows the snake by exactly
    /// one segment, removes exactly one fruit from the level, and leaves the
    /// previous tail-end tile marked snake (the body does not slide).
    pub proof fn lemma_step_onto_fruit(
        pre_snake: SnakeUnbounded,
        pre_level: GameLevel,
        post_snake: SnakeUnbounded,
        post_level: GameLevel,
        r: Result<(), GameError>,
    )
        requires
            pre_level.wf(),
            pre_snake.consistent_with(pre_level),
            pre_snake.tail@.len() > 0,
            step_rel(pre_snake, pre_level, post_snake, post_level, r),
            pre_level.kind_at(
                next_index(pre_level, pre_snake.tail@[0] as int, pre_snake.movement_direction),
            ) is Fruit,
        ensures
            r is Ok,
            post_snake.tail@.len() == pre_snake.tail@.len() + 1,
            count_kind(post_level.level@, TileType::Fruit) == count_kind(
                pre_level.level@,
                TileType::Fruit,
            ) - 1,
            post_level.kind_at(pre_snake.tail@.last() as int) is Snake,
    {
        let ni = next_index(pre_level, pre_snake.tail@[0] as int, pre_snake.movement_direction);
        lemma_next_index_in_range(
            pre_level,
            pre_snake.tail@[0] as int,
            pre_snake.movement_direction,
        );
        lemma_count_kind_update(
            pre_level.level@,
            TileType::Fruit,
            ni,
            Tile { index: ni as usize, kind: TileType::Snake },
        );
        let te = pre_snake.tail@.last();
        assert(pre_snake.tail@.contains(te));
        assert(pre_snake.tail@.contains((te as int) as usize));
        assert(pre_level.kind_at(te as int) is Snake);
        assert(te as int != ni);
        assert(post_level.kind_at(te as int) == pre_level.kind_at(te as int));
    }

    /// A step never increases the number of fruit tiles: advancing touches
    /// no fruit, growing consumes one.
    pub proof fn lemma_step_fruit_nonincreasing(
        pre_snake: SnakeUnbounded,
        pre_level: GameLevel,
        post_snake: SnakeUnbounded,
        post_level: GameLevel,
        r: Result<(), GameError>,
    )
        requires
            pre_level.wf(),
            pre_snake.consistent_with(pre_level),
            step_rel(pre_snake, pre_level, post_snake, post_level, r),
        ensures
            count_kind(post_level.level@, TileType::Fruit) <= count_kind(
                pre_level.level@,
                TileType::Fruit,
            ),
            post_level.level@.len() == pre_level.level@.len(),
    {
        if pre_snake.tail@.len() > 0 {
            let ni = next_index(
                pre_level,
                pre_snake.tail@[0] as int,
                pre_snake.movement_direction,
            );
            lemma_next_index_in_range(
                pre_level,
                pre_snake.tail@[0] as int,
                pre_snake.movement_direction,
            );
            match pre_level.kind_at(ni) {
                TileType::Snake => {},
                TileType::Empty => {
                    let te = pre_snake.tail@.last();
                    assert(pre_snake.tail@.contains(te));
                    assert(pre_snake.tail@.contains((te as int) as usize));
                    assert(pre_level.kind_at(te as int) is Snake);
                    let mid = pre_level.level@.update(
                        ni,
                        Tile { index: ni as usize, kind: TileType::Snake },
                    );
                    lemma_count_kind_update(
                        pre_level.level@,
                        TileType::Fruit,
                        ni,
                        Tile { index: ni as usize, kind: TileType::Snake },
                    );
                    lemma_count_kind_update(
                        mid,
                        TileType::Fruit,
                        te as int,
                        Tile { index: te, kind: TileType::Empty },
                    );
                },
                TileType::Fruit => {
                    lemma_count_kind_update(
                        pre_level.level@,
                        TileType::Fruit,
                        ni,
                        Tile { index: ni as usize, kind: TileType::Snake },
                    );
                },
            }
        }
    }

    /// Law: stepping into the snake's own body fails with `GameOver` and
    /// commits nothing — the grid state and the body stay exactly as they
    /// were before the step.
    pub proof fn lemma_step_into_body(
        pre_snake: SnakeUnbounded,
        pre_level: GameLevel,
        post_snake: SnakeUnbounded,
        post_level: GameLevel,
        r: Result<(), GameError>,
    )
        requires
            pre_snake.tail@.len() > 0,
            step_rel(pre_snake, pre_level, post_snake, post_level, r),
            pre_level.kind_at(
                next_index(pre_level, pre_snake.tail@[0] as int, pre_snake.movement_direction),
            ) is Snake,
        ensures
            r == Err::<(), GameError>(GameError::GameOver),
            post_snake == pre_snake,
            post_level == pre_level,
    {
    }

    /// Law: a placed snake stepping any number of times along an
    /// unobstructed straight line never changes its length — every step
    /// lands on an empty tile, so the body only slides.
    pub proof fn lemma_straight_run_preserves_length(
        snakes: Seq<SnakeUnbounded>,
        levels: Seq<GameLevel>,
        d: MovementDirection,
        n: int,
    )
        requires
            0 <= n,
            snakes.len() == n + 1,
            levels.len() == n + 1,
            forall|k: int| 0 <= k <= n ==> (#[trigger] snakes[k]).movement_direction == d,
            forall|k: int| 0 <= k < n ==> (#[trigger] snakes[k]).tail@.len() > 0,
            forall|k: int|
                0 <= k < n ==> (#[trigger] levels[k]).kind_at(
                    next_index(levels[k], snakes[k].tail@[0] as int, d),
                ) is Empty,
            forall|k: int|
                0 <= k < n ==> step_rel(
                    #[trigger] snakes[k],
                    levels[k],
                    snakes[k + 1],
                    levels[k + 1],
                    Ok(()),
                ),
        ensures
            snakes[n].tail@.len() == snakes[0].tail@.len(),
        decreases n,
    {
        if n > 0 {
            let ps = snakes.drop_last();
            let pl = levels.drop_last();
            assert forall|k: int| 0 <= k <= n - 1 implies (#[trigger] ps[k]).movement_direction
                == d by {
                assert(ps[k] == snakes[k]);
            }
            assert forall|k: int| 0 <= k < n - 1 implies (#[trigger] ps[k]).tail@.len() > 0 by {
                assert(ps[k] == snakes[k]);
            }
            assert forall|k: int|
                0 <= k < n - 1 implies (#[trigger] pl[k]).kind_at(
                next_index(pl[k], ps[k].tail@[0] as int, d),
            ) is Empty by {
                assert(pl[k] == levels[k]);
                assert(ps[k] == snakes[k]);
            }
            assert forall|k: int|
                0 <= k < n - 1 implies step_rel(
                #[trigger] ps[k],
                pl[k],
                ps[k + 1],
                pl[k + 1],
                Ok(()),
            ) by {
                assert(ps[k] == snakes[k]);
                assert(ps[k + 1] == snakes[k + 1]);
                assert(pl[k] == levels[k]);
                assert(pl[k + 1] == levels[k + 1]);
            }
            Self::lemma_straight_run_preserves_length(ps, pl, d, n - 1);
            assert(ps[n - 1] == snakes[n - 1]);
            assert(ps[0] == snakes[0]);
            assert(step_rel(snakes[n - 1], levels[n - 1], snakes[n], levels[n], Ok(())));
            assert(snakes[n].tail@.len() == snakes[n - 1].tail@.len());
        }
    }

    /// After an advance the level and body stay in 1:1 correspondence.
    proof fn lemma_consistency_after_advance(
        self,
        pre_tail: Seq<usize>,
        pre_level: GameLevel,
        post_level: GameLevel,
        ni: int,
    )
        requires
            pre_level.wf(),
            pre_tail.len() > 0,
            forall|i: int| 0 <= i < pre_tail.len() ==> (#[trigger] pre_tail[i]) < pre_level.size(),
            pre_tail.no_duplicates(),
            forall|t: int|
                #![trigger pre_level.kind_at(t)]
                #![trigger pre_tail.contains(t as usize)]
                0 <= t < pre_level.size() ==> (pre_level.kind_at(t) is Snake
                    <==> pre_tail.contains(t as usize)),
            0 <= ni < pre_level.size(),
            pre_level.kind_at(ni) is Empty,
            self.tail@ == seq![ni as usize] + pre_tail.drop_last(),
            post_level.level@ == pre_level.level@.update(
                ni,
                Tile { index: ni as usize, kind: TileType::Snake },
            ).update(
                pre_tail.last() as int,
                Tile { index: pre_tail.last() as usize, kind: TileType::Empty },
            ),
            post_level.width == pre_level.width,
            post_level.height == pre_level.height,
        ensures
            post_level.wf(),
            self.consistent_with(post_level),
    {
        let te = pre_tail.last() as int;
        assert(pre_tail.contains(pre_tail.last()));
        assert(!pre_tail.contains(ni as usize));
        assert(te < pre_level.size());
        assert(ni != te);
        assert forall|j: int| 0 <= j < post_level.level@.len() implies (
        #[trigger] post_level.level@[j]).index == j by {}
        // the new body never lists a tile twice
        assert(!pre_tail.drop_last().contains(ni as usize)) by {
            lemma_unsnoc_contains(pre_tail, ni as usize);
        }
        assert(self.tail@.no_duplicates()) by {
            assert forall|i: int, j: int|
                0 <= i < j < self.tail@.len() implies self.tail@[i] != self.tail@[j] by {
                if i > 0 {
                    assert(pre_tail.drop_last()[i - 1] == pre_tail[i - 1]);
                    assert(pre_tail.drop_last()[j - 1] == pre_tail[j - 1]);
                } else {
                    assert(self.tail@[j] == pre_tail[j - 1]);
                    assert(pre_tail.drop_last().contains(pre_tail[j - 1]));
                }
            }
        }
        // body indices stay valid tiles
        assert forall|i: int| 0 <= i < self.tail@.len() implies (#[trigger] self.tail@[i])
            < post_level.size() by {
            if i > 0 {
                assert(self.tail@[i] == pre_tail[i - 1]);
            }
        }
        // the snake tiles are exactly the new body
        assert forall|t: int|
            #![trigger post_level.kind_at(t)]
            #![trigger self.tail@.contains(t as usize)]
            0 <= t < post_level.size() implies (post_level.kind_at(t) is Snake
            <==> self.tail@.contains(t as usize)) by {
            lemma_cons_contains(pre_tail.drop_last(), ni as usize, t as usize);
            lemma_unsnoc_contains(pre_tail, t as usize);
            if t == te {
                assert(post_level.kind_at(t) is Empty);
            } else if t == ni {
                assert(post_level.kind_at(t) is Snake);
                assert(self.tail@.contains(ni as usize));
            } else {
                assert(post_level.kind_at(t) == pre_level.kind_at(t));
            }
        }
    }

    /// After growing onto a fruit the level and body stay in 1:1
    /// correspondence.
    proof fn lemma_consistency_after_grow(
        self,
        pre_tail: Seq<usize>,
        pre_level: GameLevel,
        post_level: GameLevel,
        ni: int,
    )
        requires
            pre_level.wf(),
            pre_tail.len() > 0,
            forall|i: int| 0 <= i < pre_tail.len() ==> (#[trigger] pre_tail[i]) < pre_level.size(),
            pre_tail.no_duplicates(),
            forall|t: int|
                #![trigger pre_level.kind_at(t)]
                #![trigger pre_tail.contains(t as usize)]
                0 <= t < pre_level.size() ==> (pre_level.kind_at(t) is Snake
                    <==> pre_tail.contains(t as usize)),
            0 <= ni < pre_level.size(),
            pre_level.kind_at(ni) is Fruit,
            self.tail@ == seq![ni as usize] + pre_tail,
            post_level.level@ == pre_level.level@.update(
                ni,
                Tile { index: ni as usize, kind: TileType::Snake },
            ),
            post_level.width == pre_level.width,
            post_level.height == pre_level.height,
        ensures
            post_level.wf(),
            self.consistent_with(post_level),
    {
        assert(!pre_tail.contains(ni as usize));
        assert forall|j: int| 0 <= j < post_level.level@.len() implies (
        #[trigger] post_level.level@[j]).index == j by {}
        assert(self.tail@.no_duplicates()) by {
            assert forall|i: int, j: int|
                0 <= i < j < self.tail@.len() implies self.tail@[i] != self.tail@[j] by {
                if i > 0 {
                    assert(self.tail@[i] == pre_tail[i - 1]);
                    assert(self.tail@[j] == pre_tail[j - 1]);
                } else {
                    assert(self.tail@[j] == pre_tail[j - 1]);
                    assert(pre_tail.contains(pre_tail[j - 1]));
                }
            }
        }
        assert forall|i: int| 0 <= i < self.tail@.len() implies (#[trigger] self.tail@[i])
            < post_level.size() by {
            if i > 0 {
                assert(self.tail@[i] == pre_tail[i - 1]);
            }
        }
        assert forall|t: int|
            #![trigger post_level.kind_at(t)]
            #![trigger self.tail@.contains(t as usize)]
            0 <= t < post_level.size() implies (post_level.kind_at(t) is Snake
            <==> self.tail@.contains(t as usize)) by {
            lemma_cons_contains(pre_tail, ni as usize, t as usize);
            if t == ni {
                assert(post_level.kind_at(t) is Snake);
                assert(self.tail@.contains(ni as usize));
            } else {
                assert(post_level.kind_at(t) == pre_level.kind_at(t));
            }
        }
    }
}

} // verus!
