//! The stonework of the structure: rows of stones whose widths, shades and
//! small displacements come from a generator seeded once per basin, so that the
//! same basin shows the same stones in every frame.

use vstd::prelude::*;
use rand::rngs::StdRng;
use rand::seq::SliceRandom;
use rand::Rng;
use rand::SeedableRng;

verus! {

/// The seeded generator of the `rand` crate. Verus sees nothing inside it.
#[verifier::external_type_specification]
#[verifier::external_body]
pub struct ExStdRng(StdRng);

/// The generator that `StdRng::seed_from_u64` makes of `seed`.
pub uninterp spec fn seeded(seed: u64) -> StdRng;

/// What happens when the generator `rng` is asked for a value from `low..high`:
/// the value that it returns, and the generator that it is afterwards.
pub uninterp spec fn draw_step(rng: StdRng, low: i64, high: i64) -> (i64, StdRng);

/// What happens when the generator `rng` is asked to choose among `count`
/// options: the index of the one that it picks, and the generator that it is
/// afterwards.
pub uninterp spec fn pick_step(rng: StdRng, count: nat) -> (nat, StdRng);

/// `StdRng::seed_from_u64`: the state of the new generator is a function of the
/// seed alone.
#[verifier::external_body]
fn seed_rng(seed: u64) -> (rng: StdRng)
    ensures
        rng == seeded(seed),
{
    StdRng::seed_from_u64(seed)
}

/// `rand::Rng::gen_range` on a seeded generator, for the half-open range
/// `low..high`. The outside function panics on an empty range, which the
/// precondition rules out. Its result lies in the range; the result and the
/// generator's next state are functions of its state and of the range.
#[verifier::external_body]
fn draw_seeded(rng: &mut StdRng, low: i64, high: i64) -> (r: i64)
    requires
        low < high,
    ensures
        (r, *final(rng)) == draw_step(*old(rng), low, high),
        low <= r < high,
{
    rng.gen_range(low..high)
}

/// `rand::seq::SliceRandom::choose` with a seeded generator. The outside
/// function returns nothing for an empty slice, which the precondition rules
/// out, and else the element at an index below the length; the index and the
/// generator's next state are functions of its state and of the length.
#[verifier::external_body]
fn pick_seeded(rng: &mut StdRng, options: &Vec<u8>) -> (r: u8)
    requires
        options.len() > 0,
    ensures
        *final(rng) == pick_step(*old(rng), options.len() as nat).1,
        pick_step(*old(rng), options.len() as nat).0 < options.len() && r == options@[pick_step(
            *old(rng),
            options.len() as nat,
        ).0 as int],
{
    *options.choose(rng).unwrap()
}

/// The height of a stone.
pub const STONE_HEIGHT: i64 = 10_000_000;

/// A stone is at least this wide,
pub const STONE_MIN: i64 = 15_000_000;

/// and less than this wide.
pub const STONE_MAX: i64 = 25_000_000;

/// The rows begin at this height, relative to the structure's base,
pub const TOP_ROW: i64 = -200_000_000;

/// and there are this many of them.
pub const ROWS: i64 = 21;

/// The stonework spans from this offset, relative to the structure's centre,
pub const LEFT_EDGE: i64 = -150_000_000;

/// to this one.
pub const RIGHT_EDGE: i64 = 150_000_000;

/// Every other row begins this far to the left.
pub const STAGGER: i64 = 10_000_000;

/// Face and outline of a stone are displaced by at least this much,
pub const SHIFT_MIN: i64 = -1_000_000;

/// and by less than this much.
pub const SHIFT_MAX: i64 = 1_000_000;

/// The number of shades that a stone may have.
pub const SHADES: u8 = 3;

/// One stone: its shade, where its face and its outline are drawn, and its size.
/// Face and outline are each displaced by less than a pixel.
#[derive(Clone, Copy, Debug, PartialEq, Eq)]
pub struct Stone {
    /// Which of the shades the stone has: a number below `SHADES`.
    pub shade: u8,
    pub fill_x: i64,
    pub fill_y: i64,
    pub stroke_x: i64,
    pub stroke_y: i64,
    pub width: i64,
    pub height: i64,
}

/// The shades that a stone may have.
pub open spec fn palette() -> Seq<u8> {
    seq![0u8, 1u8, 2u8]
}

/// The height at which the row `row` lies.
pub open spec fn row_y(row: int) -> int {
    TOP_ROW + row * STONE_HEIGHT
}

/// Where the row `row` begins: every other row is staggered.
pub open spec fn row_start(row: int) -> int {
    if row % 2 == 1 {
        LEFT_EDGE - STAGGER
    } else {
        LEFT_EDGE as int
    }
}

/// The width of the stone that the generator `rng` lays next: what it draws
/// from the range of widths.
pub open spec fn stone_width(rng: StdRng) -> int {
    let width = draw_step(rng, STONE_MIN, STONE_MAX).0;
    if width < STONE_MIN {
        STONE_MIN as int
    } else if width >= STONE_MAX {
        STONE_MAX - 1
    } else {
        width as int
    }
}

/// The stone that the generator `rng` lays at `(x, y)`, and the generator that
/// it is afterwards. It is asked for the width, the shade, and the four
/// displacements, in this order.
pub open spec fn lay(rng: StdRng, x: int, y: int) -> (Stone, StdRng) {
    let width = draw_step(rng, STONE_MIN, STONE_MAX);
    let shade = pick_step(width.1, SHADES as nat);
    let fill_x = draw_step(shade.1, SHIFT_MIN, SHIFT_MAX);
    let fill_y = draw_step(fill_x.1, SHIFT_MIN, SHIFT_MAX);
    let stroke_x = draw_step(fill_y.1, SHIFT_MIN, SHIFT_MAX);
    let stroke_y = draw_step(stroke_x.1, SHIFT_MIN, SHIFT_MAX);
    (
        Stone {
            shade: palette()[shade.0 as int],
            fill_x: (x + fill_x.0) as i64,
            fill_y: (y + fill_y.0) as i64,
            stroke_x: (x + stroke_x.0) as i64,
            stroke_y: (y + stroke_y.0) as i64,
            width: stone_width(rng) as i64,
            height: STONE_HEIGHT,
        },
        stroke_y.1,
    )
}

/// The stones `laid`, and after them those that the generator `rng` lays in the
/// row `row` from `x` to the right edge; with them, the generator after the
/// row.
pub open spec fn row_from(laid: Seq<Stone>, rng: StdRng, x: int, row: int) -> (Seq<Stone>, StdRng)
    decreases RIGHT_EDGE + STONE_MAX - x,
{
    if x >= RIGHT_EDGE {
        (laid, rng)
    } else {
        let next = lay(rng, x, row_y(row));
        row_from(laid.push(next.0), next.1, x + stone_width(rng), row)
    }
}

/// The stones `laid`, and after them those that the generator `rng` lays in the
/// rows from `row` on.
pub open spec fn rows_from(laid: Seq<Stone>, rng: StdRng, row: int) -> Seq<Stone>
    decreases ROWS - row,
{
    if row >= ROWS {
        laid
    } else {
        let done = row_from(laid, rng, row_start(row), row);
        rows_from(done.0, done.1, row + 1)
    }
}

/// The stonework that belongs to the seed `seed`.
pub open spec fn stonework(seed: u64) -> Seq<Stone> {
    rows_from(Seq::empty(), seeded(seed), 0)
}

/// The shades that a stone may have.
pub fn shades() -> (v: Vec<u8>)
    ensures
        v@ == palette(),
{
    let mut v: Vec<u8> = Vec::new();
    v.push(0);
    v.push(1);
    v.push(2);
    assert(v@ =~= palette());
    v
}

/// Lays one stone at `(x, y)`.
fn lay_stone(rng: &mut StdRng, options: &Vec<u8>, x: i64, y: i64) -> (stone: Stone)
    requires
        options@ == palette(),
        LEFT_EDGE - STAGGER <= x < RIGHT_EDGE,
        TOP_ROW <= y <= 0,
    ensures
        (stone, *final(rng)) == lay(*old(rng), x as int, y as int),
        STONE_MIN <= stone.width < STONE_MAX,
        stone.shade < SHADES,
{
    let width: i64 = draw_seeded(rng, STONE_MIN, STONE_MAX);
    let shade: u8 = pick_seeded(rng, options);
    let fill_x: i64 = x + draw_seeded(rng, SHIFT_MIN, SHIFT_MAX);
    let fill_y: i64 = y + draw_seeded(rng, SHIFT_MIN, SHIFT_MAX);
    let stroke_x: i64 = x + draw_seeded(rng, SHIFT_MIN, SHIFT_MAX);
    let stroke_y: i64 = y + draw_seeded(rng, SHIFT_MIN, SHIFT_MAX);
    Stone { shade, fill_x, fill_y, stroke_x, stroke_y, width, height: STONE_HEIGHT }
}

/// The stonework that belongs to the seed `seed`: the same stones for the same
/// seed, whenever and wherever it is asked for.
pub fn cobblestones(seed: u64) -> (stones: Vec<Stone>)
    ensures
        stones@ == stonework(seed),
{
    let options: Vec<u8> = shades();
    let mut rng: StdRng = seed_rng(seed);
    let mut stones: Vec<Stone> = Vec::new();
    let mut row: i64 = 0;
    while row < ROWS
        invariant
            0 <= row <= ROWS,
            options@ == palette(),
            rows_from(stones@, rng, row as int) == stonework(seed),
        decreases ROWS - row,
    {
        let y: i64 = TOP_ROW + row * STONE_HEIGHT;
        let mut x: i64 = if row % 2 == 1 {
            LEFT_EDGE - STAGGER
        } else {
            LEFT_EDGE
        };
        while x < RIGHT_EDGE
            invariant
                0 <= row < ROWS,
                y == row_y(row as int),
                options@ == palette(),
                LEFT_EDGE - STAGGER <= x < RIGHT_EDGE + STONE_MAX,
                rows_from(
                    row_from(stones@, rng, x as int, row as int).0,
                    row_from(stones@, rng, x as int, row as int).1,
                    row + 1,
                ) == stonework(seed),
            decreases RIGHT_EDGE + STONE_MAX - x,
        {
            let stone: Stone = lay_stone(&mut rng, &options, x, y);
            stones.push(stone);
            x = x + stone.width;
        }
        row = row + 1;
    }
    stones
}

/// A rectangle of the structure, relative to its anchor.
#[derive(Clone, Copy, Debug, PartialEq, Eq)]
pub struct Block {
    pub x: i64,
    pub y: i64,
    pub width: i64,
    pub height: i64,
}

/// The largest measure that a wall's battlement may be given.
pub const WALL_LIMIT: i64 = 1_000_000_000_000;

/// The width of one merlon of a battlement `width` wide with `count` places.
pub open spec fn merlon_width(width: int, count: int) -> int {
    width / count
}

/// The merlon at the place `place` of a battlement that starts at `(x, y)`:
/// it stands on the line `y`, four fifths as high as it is wide.
pub open spec fn merlon_at(x: int, y: int, width: int, count: int, place: int) -> Block {
    let w = merlon_width(width, count);
    Block { x: (x + place * w) as i64, y: (y - w * 4 / 5) as i64, width: w as i64, height: (w * 4 / 5) as i64 }
}

/// The merlons of a battlement that runs from `(x, y)` to the right for `width`
/// and has `count` places: every other place bears a merlon, the first one too.
pub fn crenellations(x: i64, y: i64, width: i64, count: u32) -> (merlons: Vec<Block>)
    requires
        -WALL_LIMIT <= x <= WALL_LIMIT,
        -WALL_LIMIT <= y <= WALL_LIMIT,
        0 <= width <= WALL_LIMIT,
    ensures
        merlons.len() == (count + 1) / 2,
        forall|k: int|
            0 <= k < merlons.len() ==> #[trigger] merlons[k] == merlon_at(
                x as int,
                y as int,
                width as int,
                count as int,
                2 * k,
            ),
{
    let mut merlons: Vec<Block> = Vec::new();
    if count == 0 {
        return merlons;
    }
    let places: i64 = count as i64;
    let merlon_w: i64 = width / places;
    let merlon_h: i64 = merlon_w * 4 / 5;
    let mut k: i64 = 0;
    while 2 * k < places
        invariant
            0 < places == count,
            0 <= k,
            2 * k <= places + 1,
            merlons.len() == k,
            -WALL_LIMIT <= x <= WALL_LIMIT,
            -WALL_LIMIT <= y <= WALL_LIMIT,
            0 <= width <= WALL_LIMIT,
            merlon_w == merlon_width(width as int, count as int),
            0 <= merlon_w <= width,
            merlon_h == merlon_w * 4 / 5,
            forall|j: int|
                0 <= j < merlons.len() ==> #[trigger] merlons[j] == merlon_at(
                    x as int,
                    y as int,
                    width as int,
                    count as int,
                    2 * j,
                ),
        decreases places + 2 - 2 * k,
    {
        let place: i64 = 2 * k;
        assert(0 <= place * merlon_w <= width) by (nonlinear_arith)
            requires
                0 <= place < places,
                merlon_w == (width as int) / (places as int),
                0 <= width,
        ;
        merlons.push(
            Block { x: x + place * merlon_w, y: y - merlon_h, width: merlon_w, height: merlon_h },
        );
        k = k + 1;
    }
    merlons
}

} // verus!
