//! The render contract: a pure, deterministic text frame from the level
//! grid. A frame is a border row of `#`, one row per grid row framed by `#`
//! on both ends with one glyph per tile, and a matching bottom border.
use vstd::prelude::*;
use vstd::string::StringExecFns;
use crate::game_level::{GameLevel, TileType};
use crate::GameError;

verus! {

/// The glyph a tile renders as: space for empty, `@` for fruit, a solid
/// block for snake.
pub open spec fn glyph(k: TileType) -> char {
    match k {
        TileType::Empty => ' ',
        TileType::Fruit => '@',
        TileType::Snake => '\u{2588}',
    }
}

/// The separator every frame line ends with.
pub open spec fn spec_newline() -> Seq<char> {
    seq!['\n', '\r']
}

/// A border row: `width + 2` wall characters.
pub open spec fn spec_border(level: GameLevel) -> Seq<char> {
    Seq::new((level.width + 2) as nat, |i: int| '#')
}

/// The glyphs of grid row `y`, one per tile, left to right.
pub open spec fn spec_row(level: GameLevel, y: int) -> Seq<char> {
    Seq::new(level.width as nat, |x: int| glyph(level.kind_at(y * level.width + x)))
}

/// Grid rows `0..y` rendered: each framed by a wall on both ends and closed
/// by the line separator.
pub open spec fn spec_rows(level: GameLevel, y: int) -> Seq<char>
    decreases y,
{
    if y <= 0 {
        Seq::empty()
    } else {
        spec_rows(level, y - 1) + seq!['#'] + spec_row(level, y - 1) + seq!['#'] + spec_newline()
    }
}

/// The whole frame: a top border row, every grid row, a bottom border row.
pub open spec fn spec_render(level: GameLevel) -> Seq<char> {
    spec_border(level) + spec_newline() + spec_rows(level, level.height as int) + spec_border(
        level,
    )
}

proof fn lemma_rows_len(level: GameLevel, y: int)
    requires
        0 <= y,
    ensures
        spec_rows(level, y).len() == y * (level.width + 4),
    decreases y,
{
    if y > 0 {
        lemma_rows_len(level, y - 1);
        assert(y * (level.width + 4) == (y - 1) * (level.width + 4) + (level.width + 4))
            by (nonlinear_arith);
    } else {
        assert(spec_rows(level, y) =~= Seq::<char>::empty());
        assert(y * (level.width + 4) == 0) by (nonlinear_arith)
            requires
                y == 0,
        ;
    }
}

/// Law: a frame has two border rows of `width + 2` wall characters and one
/// framed line of `width + 4` characters (walls and separator included) per
/// grid row.
pub proof fn lemma_render_frame_shape(level: GameLevel)
    requires
        level.wf(),
    ensures
        spec_render(level).len() == 2 * (level.width + 2) + 2 + level.height * (level.width + 4),
        forall|i: int|
            0 <= i < level.width + 2 ==> #[trigger] spec_render(level)[i] == '#',
        forall|i: int|
            spec_render(level).len() - (level.width + 2) <= i < spec_render(level).len()
                ==> #[trigger] spec_render(level)[i] == '#',
{
    lemma_rows_len(level, level.height as int);
}

/// Renders a level as one `String` frame.
pub struct GameDisplayToString;

impl GameDisplayToString {
    /// A pure function of the grid state: deterministic, no side effects,
    /// and never failing on account of grid content.
    #[verifier::loop_isolation(false)]
    pub fn render(&self, level: &GameLevel) -> (r: Result<String, GameError>)
        requires
            level.wf(),
        ensures
            r is Ok,
            r->Ok_0@ == spec_render(*level),
    {
        proof {
            reveal_strlit("#");
            reveal_strlit(" ");
            reveal_strlit("@");
            reveal_strlit("\u{2588}");
            reveal_strlit("\n\r");
        }
        // the stretch of wall between the frame corners
        let mut v_wall = String::new();
        let mut c: usize = 0;
        proof {
            assert(v_wall@ =~= Seq::new(0nat, |i: int| '#'));
        }
        while c < level.width
            invariant
                c <= level.width,
                v_wall@ == Seq::new(c as nat, |i: int| '#'),
            decreases level.width - c,
        {
            v_wall.append("#");
            proof {
                assert(v_wall@ =~= Seq::new((c + 1) as nat, |i: int| '#'));
            }
            c += 1;
        }

        let mut output = String::new();
        // top wall
        output.append("#");
        output.append(v_wall.as_str());
        output.append("#");
        output.append("\n\r");
        proof {
            assert(output@ =~= spec_border(*level) + spec_newline());
            assert(spec_rows(*level, 0) =~= Seq::<char>::empty());
            assert(output@ =~= spec_border(*level) + spec_newline() + spec_rows(*level, 0));
        }

        let mut y: usize = 0;
        while y < level.height
            invariant
                y <= level.height,
                output@ == spec_border(*level) + spec_newline() + spec_rows(*level, y as int),
            decreases level.height - y,
        {
            let ghost row_start = output@;
            output.append("#");
            proof {
                assert(spec_row(*level, y as int).take(0) =~= Seq::<char>::empty());
                assert(output@ =~= row_start + seq!['#'] + spec_row(*level, y as int).take(0));
            }
            let mut x: usize = 0;
            while x < level.width
                invariant
                    x <= level.width,
                    output@ == row_start + seq!['#'] + spec_row(*level, y as int).take(x as int),
                decreases level.width - x,
            {
                proof {
                    level.lemma_position_roundtrip(x as int, y as int);
                }
                let index = y * level.width + x;
                match level.level[index].tile_type() {
                    TileType::Empty => output.append(" "),
                    TileType::Fruit => output.append("@"),
                    TileType::Snake => output.append("\u{2588}"),
                }
                proof {
                    assert(spec_row(*level, y as int).take(x as int + 1) =~= spec_row(
                        *level,
                        y as int,
                    ).take(x as int).push(glyph(level.kind_at(index as int))));
                    assert(output@ =~= row_start + seq!['#'] + spec_row(*level, y as int).take(
                        x as int + 1,
                    ));
                }
                x += 1;
            }
            // wall at the end of the line and start of the next
            output.append("#");
            output.append("\n\r");
            proof {
                assert(spec_row(*level, y as int).take(level.width as int) =~= spec_row(
                    *level,
                    y as int,
                ));
                assert(output@ =~= spec_border(*level) + spec_newline() + spec_rows(
                    *level,
                    y as int + 1,
                ));
            }
            y += 1;
        }

        // bottom wall
        output.append("#");
        output.append(v_wall.as_str());
        output.append("#");
        proof {
            assert(output@ =~= spec_render(*level));
        }
        Ok(output)
    }
}

} // verus!
