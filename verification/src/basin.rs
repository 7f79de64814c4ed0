//! The basin and everything in it, advanced one tick at a time.

use vstd::prelude::*;
use crate::bubble::{Bubble, SCALE_LIMIT};
use crate::chance::fresh_seed;
use crate::crab::{fits_state, other_state, Crab, CrabState};
use crate::fish::{is_nearest, lemma_nearest_unique, nearest_index, Fish, WANDER_TURN};
use crate::fixed::{clamp, clamp_to, in_world, quot, EXTENT, ONE, WORLD};
use crate::food::Food;
use crate::god_ray::GodRay;
use crate::layout::{cobblestones, stonework, Stone};
use crate::wave::WaveTable;

verus! {

/// The outline of the floor has a point every ten pixels.
pub const OUTLINE_STEP: i64 = 10_000_000;

/// The frame counter stops here.
pub const FRAME_LIMIT: u64 = 1_000_000_000_000;

/// The basin, the structure in it, and every creature and thing that moves.
pub struct Aquarium {
    pub width: i64,
    pub height: i64,
    pub god_rays: Vec<GodRay>,
    pub fishes: Vec<Fish>,
    pub food: Vec<Food>,
    pub crabs: Vec<Crab>,
    pub bubbles: Vec<Bubble>,
    /// The ticks so far.
    pub frame_count: u64,
    /// The height at which the structure stands.
    pub castle_base_y: i64,
    /// The seed of the structure's stonework.
    pub castle_seed: u64,
    pub wave: WaveTable,
}

/// The number of light shafts over a basin `width` pixels wide: one for every
/// two hundred pixels, rounded, but at least three and at most twenty.
pub open spec fn ray_count(width: int) -> int {
    clamp((width + 100) / 200, 3, 20)
}

/// The scale of the structure in a basin of the height `height`, in millionths:
/// one and a half thousandths of the height in pixels, but at least three
/// quarters.
pub open spec fn castle_scale(height: int) -> int {
    (if height / 1000 > ONE / 2 {
        height / 1000
    } else {
        ONE as int / 2
    }) * 3 / 2
}

/// The height of the floor at `x` after `frame` ticks, in a basin of the height
/// `height`: nine tenths of the height, and on it a slow wave of ten pixels and
/// a quicker one of five. The slow wave turns by a two-hundredth of a radian for
/// every pixel and by a hundredth for every tick, the quick one by a fiftieth
/// for every pixel and by a two-hundredth for every tick.
pub open spec fn floor_at(height: int, frame: int, x: int, wave: WaveTable) -> int {
    height * 9 / 10 + 10 * wave.sine(quot(x, 200) + 10_000 * frame) + 5 * wave.sine(
        quot(x, 50) + 5_000 * frame,
    )
}

/// The height of the floor at `x` after `frame` ticks.
pub fn seafloor_y(height: i64, frame: u64, x: i64, wave: &WaveTable) -> (y: i64)
    requires
        0 < height <= EXTENT,
        frame <= FRAME_LIMIT,
        wave.wf(),
    ensures
        y == floor_at(height as int, frame as int, x as int, *wave),
        height * 9 / 10 - 15 * ONE <= y <= height * 9 / 10 + 15 * ONE,
        -WORLD <= y <= WORLD,
{
    let t: i64 = frame as i64;
    let wave1: i64 = wave.sin(x / 200 + 10_000 * t) * 10;
    let wave2: i64 = wave.sin(x / 50 + 5_000 * t) * 5;
    height * 9 / 10 + wave1 + wave2
}

/// The scale of the structure in a basin of the height `height`.
pub fn castle_scale_of(height: i64) -> (scale: i64)
    requires
        0 < height <= EXTENT,
    ensures
        scale == castle_scale(height as int),
        ONE * 3 / 4 <= scale <= SCALE_LIMIT,
{
    let thousandth: i64 = height / 1000;
    let base: i64 = if thousandth > ONE / 2 {
        thousandth
    } else {
        ONE / 2
    };
    base * 3 / 2
}

/// `next` is the shaft `ray` one tick on, over a basin `width` by `height`:
/// a tick older, or a new shaft where that tick was its last.
pub open spec fn ray_ticked(ray: GodRay, next: GodRay, width: int, height: int) -> bool {
    if ray.life + 1 >= ray.max_life {
        next.wf() && next.fresh_in(width, height)
    } else {
        next == (GodRay { life: (ray.life + 1) as i64, ..ray })
    }
}

/// `next` is the bubble `bubble` one tick on: risen, or started over at the
/// structure where it has risen out of the basin.
pub open spec fn bubble_ticked(
    bubble: Bubble,
    next: Bubble,
    wave: WaveTable,
    center_x: int,
    base_y: int,
    scale: int,
) -> bool {
    let risen = bubble.risen(wave);
    if risen.escaped() {
        next.wf() && next.fresh_at(center_x, base_y, scale) && next.x == risen.x
    } else {
        next == risen
    }
}

/// `next` is the crab `crab` one tick on, whatever lengths were drawn for the
/// states that it entered.
pub open spec fn crab_ticked(crab: Crab, next: Crab, floor_y: int, width: int) -> bool {
    exists|fresh_timer: int, bounce_timer: int|
        {
            &&& fits_state(other_state(crab.state), fresh_timer)
            &&& fits_state(CrabState::Walking, bounce_timer)
            &&& #[trigger] crab.advances_to(next, floor_y, width, fresh_timer, bounce_timer)
        }
}

/// `next` is the fish `fish` one tick on, whichever way its wandering turned.
pub open spec fn fish_ticked(
    fish: Fish,
    next: Fish,
    food: Seq<Food>,
    floor_y: int,
    width: int,
    height: int,
    wave: WaveTable,
) -> bool {
    exists|turn: int|
        {
            &&& -WANDER_TURN <= turn < WANDER_TURN
            &&& #[trigger] fish.advances_to(next, food, floor_y, width, height, turn, wave)
        }
}

/// The particles of `food` from the index `from` on, without those whose index
/// is in `doomed`, in their old order.
pub open spec fn survivors(food: Seq<Food>, doomed: Set<int>, from: int) -> Seq<Food>
    decreases food.len() - from,
{
    if from < 0 || from >= food.len() {
        Seq::empty()
    } else if doomed.contains(from) {
        survivors(food, doomed, from + 1)
    } else {
        seq![food[from]] + survivors(food, doomed, from + 1)
    }
}

/// The number of indices below `upto` that are not in `doomed`.
pub open spec fn kept_below(doomed: Set<int>, upto: int) -> int
    decreases upto,
{
    if upto <= 0 {
        0
    } else if doomed.contains(upto - 1) {
        kept_below(doomed, upto - 1)
    } else {
        kept_below(doomed, upto - 1) + 1
    }
}

/// The indices that occur in `queue`.
pub open spec fn queued(queue: Seq<usize>) -> Set<int> {
    Set::new(|i: int| exists|k: int| 0 <= k < queue.len() && #[trigger] queue[k] == i)
}

/// The indices of the particles of `food` that some fish of `fishes` eats.
pub open spec fn eaten_by(fishes: Seq<Fish>, food: Seq<Food>) -> Set<int> {
    Set::new(
        |i: int|
            exists|j: int| 0 <= j < fishes.len() && (#[trigger] fishes[j]).bitten(food) == Some(i),
    )
}

/// Takes out of `food` every particle whose index is in `queue`. The queue may
/// name an index more than once, in any order, and may name indices that `food`
/// does not have.
pub fn remove_food(food: &mut Vec<Food>, queue: &Vec<usize>)
    ensures
        final(food)@ == survivors(old(food)@, queued(queue@), 0),
        final(food).len() == kept_below(queued(queue@), old(food).len() as int),
        final(food).len() <= old(food).len(),
{
    let ghost before = food@;
    let ghost doomed = queued(queue@);
    let count: usize = food.len();
    let mut marks: Vec<bool> = Vec::new();
    let mut n: usize = 0;
    while n < count
        invariant
            n <= count,
            marks.len() == n,
            forall|i: int| 0 <= i < n ==> !#[trigger] marks[i],
        decreases count - n,
    {
        marks.push(false);
        n += 1;
    }
    let mut k: usize = 0;
    while k < queue.len()
        invariant
            k <= queue.len(),
            marks.len() == count,
            forall|i: int|
                0 <= i < count ==> (#[trigger] marks[i] <==> exists|j: int|
                    0 <= j < k && #[trigger] queue[j] == i),
        decreases queue.len() - k,
    {
        let index: usize = queue[k];
        if index < count {
            marks.set(index, true);
        }
        k += 1;
    }
    assert forall|i: int| 0 <= i < count implies (#[trigger] marks[i] <==> doomed.contains(i)) by {}
    let mut i: usize = count;
    while i > 0
        invariant
            i <= count,
            count == before.len(),
            marks.len() == count,
            forall|j: int| 0 <= j < count ==> (#[trigger] marks[j] <==> doomed.contains(j)),
            food@ == before.take(i as int) + survivors(before, doomed, i as int),
        decreases i,
    {
        i -= 1;
        if marks[i] {
            food.remove(i);
        }
        assert(food@ =~= before.take(i as int) + survivors(before, doomed, i as int));
    }
    assert(before.take(0) =~= Seq::<Food>::empty());
    assert(food@ =~= survivors(before, doomed, 0));
    proof {
        lemma_survivors_places(before, doomed, 0);
        lemma_kept_below_grows(doomed, before.len() as int, before.len() as int);
    }
}

/// Ages every light shaft by a tick and starts those over that are spent.
pub fn update_rays(rays: &mut Vec<GodRay>, width: i64, height: i64)
    requires
        0 < width <= EXTENT,
        0 < height <= EXTENT,
        forall|i: int| 0 <= i < old(rays).len() ==> (#[trigger] old(rays)[i]).wf(),
    ensures
        final(rays).len() == old(rays).len(),
        forall|i: int| 0 <= i < final(rays).len() ==> (#[trigger] final(rays)[i]).wf(),
        forall|i: int|
            0 <= i < final(rays).len() ==> ray_ticked(
                old(rays)[i],
                #[trigger] final(rays)[i],
                width as int,
                height as int,
            ),
{
    let ghost before = rays@;
    let mut i: usize = 0;
    while i < rays.len()
        invariant
            i <= rays.len(),
            rays.len() == before.len(),
            0 < width <= EXTENT,
            0 < height <= EXTENT,
            forall|j: int| 0 <= j < rays.len() ==> (#[trigger] rays[j]).wf(),
            forall|j: int| i <= j < rays.len() ==> #[trigger] rays[j] == before[j],
            forall|j: int|
                0 <= j < i ==> ray_ticked(before[j], #[trigger] rays[j], width as int, height as int),
        decreases rays.len() - i,
    {
        let mut ray: GodRay = rays[i];
        ray.update();
        if ray.is_spent() {
            ray.reset(width, height);
        }
        rays.set(i, ray);
        i += 1;
    }
}

/// Lets every bubble rise for a tick and starts those over at the structure
/// that have risen out of the basin.
pub fn update_bubbles(
    bubbles: &mut Vec<Bubble>,
    wave: &WaveTable,
    castle_center_x: i64,
    castle_base_y: i64,
    castle_scale: i64,
)
    requires
        wave.wf(),
        -EXTENT <= castle_center_x <= EXTENT,
        -EXTENT <= castle_base_y <= EXTENT,
        0 <= castle_scale <= SCALE_LIMIT,
        forall|i: int| 0 <= i < old(bubbles).len() ==> (#[trigger] old(bubbles)[i]).wf(),
    ensures
        final(bubbles).len() == old(bubbles).len(),
        forall|i: int| 0 <= i < final(bubbles).len() ==> (#[trigger] final(bubbles)[i]).wf(),
        forall|i: int|
            0 <= i < final(bubbles).len() ==> bubble_ticked(
                old(bubbles)[i],
                #[trigger] final(bubbles)[i],
                *wave,
                castle_center_x as int,
                castle_base_y as int,
                castle_scale as int,
            ),
{
    let ghost before = bubbles@;
    let mut i: usize = 0;
    while i < bubbles.len()
        invariant
            i <= bubbles.len(),
            bubbles.len() == before.len(),
            wave.wf(),
            -EXTENT <= castle_center_x <= EXTENT,
            -EXTENT <= castle_base_y <= EXTENT,
            0 <= castle_scale <= SCALE_LIMIT,
            forall|j: int| 0 <= j < bubbles.len() ==> (#[trigger] bubbles[j]).wf(),
            forall|j: int| i <= j < bubbles.len() ==> #[trigger] bubbles[j] == before[j],
            forall|j: int|
                0 <= j < i ==> bubble_ticked(
                    before[j],
                    #[trigger] bubbles[j],
                    *wave,
                    castle_center_x as int,
                    castle_base_y as int,
                    castle_scale as int,
                ),
        decreases bubbles.len() - i,
    {
        let mut bubble: Bubble = bubbles[i];
        bubble.update(wave);
        if bubble.has_escaped() {
            bubble.reset(castle_center_x, castle_base_y, castle_scale);
        }
        bubbles.set(i, bubble);
        i += 1;
    }
}

/// Moves every crab by a tick along the floor.
pub fn update_crabs(crabs: &mut Vec<Crab>, width: i64, height: i64, frame: u64, wave: &WaveTable)
    requires
        wave.wf(),
        0 < width <= EXTENT,
        0 < height <= EXTENT,
        frame <= FRAME_LIMIT,
        forall|i: int| 0 <= i < old(crabs).len() ==> (#[trigger] old(crabs)[i]).wf(),
    ensures
        final(crabs).len() == old(crabs).len(),
        forall|i: int| 0 <= i < final(crabs).len() ==> (#[trigger] final(crabs)[i]).wf(),
        forall|i: int|
            0 <= i < final(crabs).len() ==> crab_ticked(
                old(crabs)[i],
                #[trigger] final(crabs)[i],
                floor_at(height as int, frame as int, old(crabs)[i].x as int, *wave),
                width as int,
            ),
        forall|i: int|
            0 <= i < final(crabs).len() && old(crabs)[i].roams(width as int) ==> (
            #[trigger] final(crabs)[i]).roams(width as int),
{
    let ghost before = crabs@;
    let mut i: usize = 0;
    while i < crabs.len()
        invariant
            i <= crabs.len(),
            crabs.len() == before.len(),
            wave.wf(),
            0 < width <= EXTENT,
            0 < height <= EXTENT,
            frame <= FRAME_LIMIT,
            forall|j: int| 0 <= j < crabs.len() ==> (#[trigger] crabs[j]).wf(),
            forall|j: int| i <= j < crabs.len() ==> #[trigger] crabs[j] == before[j],
            forall|j: int|
                0 <= j < i ==> crab_ticked(
                    before[j],
                    #[trigger] crabs[j],
                    floor_at(height as int, frame as int, before[j].x as int, *wave),
                    width as int,
                ),
            forall|j: int|
                0 <= j < i && before[j].roams(width as int) ==> (#[trigger] crabs[j]).roams(
                    width as int,
                ),
        decreases crabs.len() - i,
    {
        let mut crab: Crab = crabs[i];
        let floor_y: i64 = seafloor_y(height, frame, crab.x, wave);
        crab.update(floor_y, width);
        crabs.set(i, crab);
        i += 1;
    }
}

/// Lets every food particle sink for a tick.
pub fn update_food(food: &mut Vec<Food>, height: i64, frame: u64, wave: &WaveTable)
    requires
        wave.wf(),
        0 < height <= EXTENT,
        frame <= FRAME_LIMIT,
        forall|i: int| 0 <= i < old(food).len() ==> (#[trigger] old(food)[i]).wf(),
    ensures
        final(food).len() == old(food).len(),
        forall|i: int| 0 <= i < final(food).len() ==> (#[trigger] final(food)[i]).wf(),
        forall|i: int|
            0 <= i < final(food).len() ==> #[trigger] final(food)[i] == old(food)[i].sunk(
                floor_at(height as int, frame as int, old(food)[i].x as int, *wave),
            ),
{
    let ghost before = food@;
    let mut i: usize = 0;
    while i < food.len()
        invariant
            i <= food.len(),
            food.len() == before.len(),
            wave.wf(),
            0 < height <= EXTENT,
            frame <= FRAME_LIMIT,
            forall|j: int| 0 <= j < food.len() ==> (#[trigger] food[j]).wf(),
            forall|j: int| i <= j < food.len() ==> #[trigger] food[j] == before[j],
            forall|j: int|
                0 <= j < i ==> #[trigger] food[j] == before[j].sunk(
                    floor_at(height as int, frame as int, before[j].x as int, *wave),
                ),
        decreases food.len() - i,
    {
        let mut item: Food = food[i];
        let floor_y: i64 = seafloor_y(height, frame, item.x, wave);
        item.sink(floor_y);
        food.set(i, item);
        i += 1;
    }
}

/// Moves every fish by a tick, against the food as it lay before any fish
/// moved, and then takes out of `food` what the fish have reached.
pub fn update_fishes(
    fishes: &mut Vec<Fish>,
    food: &mut Vec<Food>,
    width: i64,
    height: i64,
    frame: u64,
    wave: &WaveTable,
)
    requires
        wave.wf(),
        0 < width <= EXTENT,
        0 < height <= EXTENT,
        frame <= FRAME_LIMIT,
        forall|i: int| 0 <= i < old(fishes).len() ==> (#[trigger] old(fishes)[i]).wf(),
        forall|i: int| 0 <= i < old(food).len() ==> (#[trigger] old(food)[i]).wf(),
    ensures
        final(fishes).len() == old(fishes).len(),
        forall|i: int| 0 <= i < final(fishes).len() ==> (#[trigger] final(fishes)[i]).wf(),
        forall|i: int|
            0 <= i < final(fishes).len() ==> fish_ticked(
                old(fishes)[i],
                #[trigger] final(fishes)[i],
                old(food)@,
                floor_at(height as int, frame as int, old(fishes)[i].x as int, *wave),
                width as int,
                height as int,
                *wave,
            ),
        forall|i: int|
            0 <= i < final(fishes).len() ==> within_speed_cap(
                old(fishes)[i],
                #[trigger] final(fishes)[i],
                old(food)@,
                width as int,
                height as int,
            ),
        final(food)@ == survivors(old(food)@, eaten_by(final(fishes)@, old(food)@), 0),
        final(food).len() == kept_below(
            eaten_by(final(fishes)@, old(food)@),
            old(food).len() as int,
        ),
        final(food).len() <= old(food).len(),
        forall|i: int| 0 <= i < final(food).len() ==> (#[trigger] final(food)[i]).wf(),
{
    let ghost before = fishes@;
    let mut food_to_remove: Vec<usize> = Vec::new();
    let mut i: usize = 0;
    while i < fishes.len()
        invariant
            i <= fishes.len(),
            fishes.len() == before.len(),
            food@ == old(food)@,
            wave.wf(),
            0 < width <= EXTENT,
            0 < height <= EXTENT,
            frame <= FRAME_LIMIT,
            forall|j: int| 0 <= j < food.len() ==> (#[trigger] food[j]).wf(),
            forall|j: int| 0 <= j < fishes.len() ==> (#[trigger] fishes[j]).wf(),
            forall|j: int| i <= j < fishes.len() ==> #[trigger] fishes[j] == before[j],
            forall|j: int|
                0 <= j < i ==> fish_ticked(
                    before[j],
                    #[trigger] fishes[j],
                    food@,
                    floor_at(height as int, frame as int, before[j].x as int, *wave),
                    width as int,
                    height as int,
                    *wave,
                ),
            forall|j: int|
                0 <= j < i ==> within_speed_cap(
                    before[j],
                    #[trigger] fishes[j],
                    food@,
                    width as int,
                    height as int,
                ),
            forall|index: int|
                queued(food_to_remove@).contains(index) <==> exists|j: int|
                    0 <= j < i && (#[trigger] fishes[j]).bitten(food@) == Some(index),
        decreases fishes.len() - i,
    {
        let mut fish: Fish = fishes[i];
        let floor_y: i64 = seafloor_y(height, frame, fish.x, wave);
        fish.update(food, floor_y, width, height, wave);
        let ghost queue_before = food_to_remove@;
        let ghost moved = fishes@;
        match fish.bite(food) {
            Some(index) => {
                food_to_remove.push(index);
                assert(food_to_remove@[queue_before.len() as int] == index);
            },
            None => {},
        }
        fishes.set(i, fish);
        proof {
            let queue = food_to_remove@;
            assert forall|index: int|
                queued(queue).contains(index) <==> exists|j: int|
                    0 <= j < i + 1 && (#[trigger] fishes[j]).bitten(food@) == Some(index) by {
                if queued(queue).contains(index) {
                    let k = choose|k: int| 0 <= k < queue.len() && #[trigger] queue[k] == index;
                    if k < queue_before.len() {
                        assert(queue_before[k] == index);
                        assert(queued(queue_before).contains(index));
                        let j = choose|j: int|
                            0 <= j < i && (#[trigger] moved[j]).bitten(food@) == Some(index);
                        assert(fishes[j] == moved[j]);
                    } else {
                        assert(fishes[i as int].bitten(food@) == Some(index));
                    }
                }
                if exists|j: int|
                    0 <= j < i + 1 && (#[trigger] fishes[j]).bitten(food@) == Some(index) {
                    let j = choose|j: int|
                        0 <= j < i + 1 && (#[trigger] fishes[j]).bitten(food@) == Some(index);
                    if j < i {
                        assert(moved[j] == fishes[j]);
                        assert(queued(queue_before).contains(index));
                        let k = choose|k: int|
                            0 <= k < queue_before.len() && #[trigger] queue_before[k] == index;
                        assert(queue[k] == index);
                    } else {
                        assert(queue[queue_before.len() as int] == index);
                    }
                }
            }
        }
        i += 1;
    }
    assert(queued(food_to_remove@) =~= eaten_by(fishes@, food@));
    remove_food(food, &food_to_remove);
    proof {
        lemma_survivors_from(old(food)@, eaten_by(fishes@, old(food)@), 0);
    }
}

/// The fish `next`, which `fish` became in a tick, is no faster than `fish` was
/// allowed to become: its top speed and half the weight of its appetite.
pub open spec fn within_speed_cap(fish: Fish, next: Fish, food: Seq<Food>, width: int, height: int) -> bool {
    let top = fish.speed_cap(food, width, height);
    &&& next.vx * next.vx + next.vy * next.vy <= top * top
    &&& top <= fish.max_speed + ONE / 2
}

/// Every survivor is one of the particles that there were.
pub proof fn lemma_survivors_from(food: Seq<Food>, doomed: Set<int>, from: int)
    requires
        0 <= from,
    ensures
        forall|i: int|
            0 <= i < survivors(food, doomed, from).len() ==> exists|k: int|
                from <= k < food.len() && !doomed.contains(k) && food[k] == #[trigger] survivors(
                    food,
                    doomed,
                    from,
                )[i],
    decreases food.len() - from,
{
    if from < food.len() {
        lemma_survivors_from(food, doomed, from + 1);
        let rest = survivors(food, doomed, from + 1);
        let all = survivors(food, doomed, from);
        assert forall|i: int| 0 <= i < all.len() implies exists|k: int|
            from <= k < food.len() && !doomed.contains(k) && food[k] == #[trigger] all[i] by {
            if doomed.contains(from) {
                let k = choose|k: int|
                    from + 1 <= k < food.len() && !doomed.contains(k) && food[k] == rest[i];
                assert(from <= k);
            } else if i == 0 {
                assert(food[from] == all[0]);
            } else {
                assert(all[i] == rest[i - 1]);
                let k = choose|k: int|
                    from + 1 <= k < food.len() && !doomed.contains(k) && food[k] == rest[i - 1];
                assert(from <= k);
            }
        }
    }
}

/// Which particles survive depends only on which indices of `food` are doomed.
pub proof fn lemma_survivors_agree(food: Seq<Food>, a: Set<int>, b: Set<int>, from: int)
    requires
        forall|k: int| from <= k < food.len() ==> (a.contains(k) <==> b.contains(k)),
    ensures
        survivors(food, a, from) == survivors(food, b, from),
    decreases food.len() - from,
{
    if 0 <= from < food.len() {
        lemma_survivors_agree(food, a, b, from + 1);
    }
}

/// The count of kept indices grows with the bound.
pub proof fn lemma_kept_below_grows(doomed: Set<int>, low: int, high: int)
    requires
        low <= high,
    ensures
        kept_below(doomed, low) <= kept_below(doomed, high),
        0 <= kept_below(doomed, low),
        low >= 0 ==> kept_below(doomed, low) <= low,
    decreases high - low, low,
{
    if low < high {
        lemma_kept_below_grows(doomed, low, high - 1);
    } else if low > 0 {
        lemma_kept_below_grows(doomed, low - 1, low - 1);
    }
}

/// The particle `food[k]` is among the survivors from `from` on, at the place
/// that the number of kept indices between `from` and `k` gives it.
pub open spec fn survives_at(food: Seq<Food>, doomed: Set<int>, from: int, k: int) -> bool {
    let place = kept_below(doomed, k) - kept_below(doomed, from);
    &&& 0 <= place < survivors(food, doomed, from).len()
    &&& survivors(food, doomed, from)[place] == food[k]
}

/// From the index `from` on, the survivors are the particles whose index is not
/// doomed, each at the place that the kept indices before it give it.
pub proof fn lemma_survivors_places(food: Seq<Food>, doomed: Set<int>, from: int)
    requires
        0 <= from <= food.len(),
    ensures
        survivors(food, doomed, from).len() == kept_below(doomed, food.len() as int) - kept_below(
            doomed,
            from,
        ),
        forall|k: int|
            from <= k < food.len() && !doomed.contains(k) ==> #[trigger] survives_at(
                food,
                doomed,
                from,
                k,
            ),
    decreases food.len() - from,
{
    if from < food.len() {
        lemma_survivors_places(food, doomed, from + 1);
        let rest = survivors(food, doomed, from + 1);
        let all = survivors(food, doomed, from);
        assert(kept_below(doomed, from + 1) == if doomed.contains(from) {
            kept_below(doomed, from)
        } else {
            kept_below(doomed, from) + 1
        });
        assert forall|k: int| from <= k < food.len() && !doomed.contains(k) implies #[trigger] survives_at(
            food,
            doomed,
            from,
            k,
        ) by {
            if k > from {
                lemma_kept_below_grows(doomed, from + 1, k);
                let place = kept_below(doomed, k) - kept_below(doomed, from + 1);
                assert(survives_at(food, doomed, from + 1, k));
                assert(0 <= place < rest.len() && rest[place] == food[k]);
                if doomed.contains(from) {
                    assert(all == rest);
                } else {
                    assert(all == seq![food[from]] + rest);
                    assert(all[place + 1] == rest[place]);
                }
            } else {
                assert(all == seq![food[from]] + rest);
                assert(all[0] == food[from]);
            }
        }
    }
}

/// Removal takes out the particles that the queue names and no others: every
/// other particle is still there, in the old order, at the place that the number
/// of unnamed particles before it gives it.
pub proof fn lemma_removal_is_exact(food: Seq<Food>, queue: Seq<usize>)
    ensures
        survivors(food, queued(queue), 0).len() == kept_below(queued(queue), food.len() as int),
        forall|k: int|
            0 <= k < food.len() && !queued(queue).contains(k) ==> #[trigger] survives_at(
                food,
                queued(queue),
                0,
                k,
            ),
        forall|i: int|
            0 <= i < survivors(food, queued(queue), 0).len() ==> exists|k: int|
                0 <= k < food.len() && !queued(queue).contains(k) && food[k]
                    == #[trigger] survivors(food, queued(queue), 0)[i],
{
    lemma_survivors_places(food, queued(queue), 0);
    lemma_survivors_from(food, queued(queue), 0);
}

/// Removal depends on which indices the queue names, not on their order nor on
/// how often each is named.
pub proof fn lemma_removal_ignores_order_and_repeats(
    food: Seq<Food>,
    first: Seq<usize>,
    second: Seq<usize>,
)
    requires
        forall|index: usize| first.contains(index) <==> second.contains(index),
    ensures
        survivors(food, queued(first), 0) == survivors(food, queued(second), 0),
{
    assert forall|k: int| 0 <= k < food.len() implies (queued(first).contains(k) <==> queued(
        second,
    ).contains(k)) by {
        if queued(first).contains(k) {
            let j = choose|j: int| 0 <= j < first.len() && #[trigger] first[j] == k;
            assert(first.contains(first[j]));
            assert(second.contains(first[j]));
            let m = choose|m: int| 0 <= m < second.len() && second[m] == first[j];
            assert(second[m] == k);
        }
        if queued(second).contains(k) {
            let j = choose|j: int| 0 <= j < second.len() && #[trigger] second[j] == k;
            assert(second.contains(second[j]));
            assert(first.contains(second[j]));
            let m = choose|m: int| 0 <= m < first.len() && first[m] == second[j];
            assert(first[m] == k);
        }
    }
    lemma_survivors_agree(food, queued(first), queued(second), 0);
}

/// An index that the collection does not have can be queued without harm.
pub proof fn lemma_removal_ignores_strays(food: Seq<Food>, queue: Seq<usize>, stray: usize)
    requires
        stray >= food.len(),
    ensures
        survivors(food, queued(queue.push(stray)), 0) == survivors(food, queued(queue), 0),
{
    let longer = queue.push(stray);
    assert forall|k: int| 0 <= k < food.len() implies (queued(longer).contains(k) <==> queued(
        queue,
    ).contains(k)) by {
        if queued(longer).contains(k) {
            let j = choose|j: int| 0 <= j < longer.len() && #[trigger] longer[j] == k;
            assert(j < queue.len());
            assert(queue[j] == k);
        }
        if queued(queue).contains(k) {
            let j = choose|j: int| 0 <= j < queue.len() && #[trigger] queue[j] == k;
            assert(longer[j] == k);
        }
    }
    lemma_survivors_agree(food, queued(longer), queued(queue), 0);
}

/// With an empty queue nothing is removed.
pub proof fn lemma_removal_of_nothing(food: Seq<Food>)
    ensures
        survivors(food, queued(Seq::<usize>::empty()), 0) == food,
{
    let nothing = queued(Seq::<usize>::empty());
    lemma_survivors_places(food, nothing, 0);
    let left = survivors(food, nothing, 0);
    assert forall|k: int| 0 <= k <= food.len() implies kept_below(nothing, k) == k by {
        lemma_kept_all(nothing, k);
    }
    assert(left.len() == food.len());
    assert forall|k: int| 0 <= k < food.len() implies left[k] == food[k] by {
        assert(!nothing.contains(k));
        assert(kept_below(nothing, k) == k);
        assert(survives_at(food, nothing, 0, k));
    }
    assert(left =~= food);
}

/// Where no index below `upto` is doomed, all of them are kept.
pub proof fn lemma_kept_all(doomed: Set<int>, upto: int)
    requires
        0 <= upto,
        forall|k: int| 0 <= k < upto ==> !doomed.contains(k),
    ensures
        kept_below(doomed, upto) == upto,
    decreases upto,
{
    if upto > 0 {
        lemma_kept_all(doomed, upto - 1);
    }
}

/// A tick that begins with a single food particle ends without it exactly if
/// some fish has reached it; else the particle is still there.
pub proof fn lemma_lone_food_is_eaten_when_reached(before: Aquarium, after: Aquarium)
    requires
        before.ticks_to(after),
        before.food.len() == 1,
    ensures
        after.food.len() == if exists|j: int|
            0 <= j < after.fishes.len() && (#[trigger] after.fishes[j]).bitten(before.food@)
                is Some {
            0int
        } else {
            1int
        },
{
    let food = before.food@;
    let eaten = eaten_by(after.fishes@, food);
    lemma_survivors_places(food, eaten, 0);
    assert(kept_below(eaten, 1) == if eaten.contains(0) {
        0int
    } else {
        1int
    }) by {
        assert(kept_below(eaten, 0) == 0);
    }
    if exists|j: int|
        0 <= j < after.fishes.len() && (#[trigger] after.fishes[j]).bitten(food) is Some {
        let j = choose|j: int|
            0 <= j < after.fishes.len() && (#[trigger] after.fishes[j]).bitten(food) is Some;
        let fish = after.fishes[j];
        assert(is_nearest(food, fish.x as int, fish.y as int, 0));
        lemma_nearest_unique(
            food,
            fish.x as int,
            fish.y as int,
            0,
            nearest_index(food, fish.x as int, fish.y as int),
        );
        assert(fish.bitten(food) == Some(0int));
        assert(eaten.contains(0));
    } else {
        if eaten.contains(0) {
            let j = choose|j: int|
                0 <= j < after.fishes.len() && (#[trigger] after.fishes[j]).bitten(food) == Some(
                    0int,
                );
            assert(after.fishes[j].bitten(food) is Some);
        }
    }
}

/// Two basins with the same seed have the same stonework.
pub proof fn lemma_same_seed_same_stonework(first: Aquarium, second: Aquarium)
    requires
        first.castle_seed == second.castle_seed,
    ensures
        stonework(first.castle_seed) == stonework(second.castle_seed),
{
}

/// A tick leaves the stonework of a basin as it was.
pub proof fn lemma_tick_keeps_stonework(before: Aquarium, after: Aquarium)
    requires
        before.ticks_to(after),
    ensures
        stonework(after.castle_seed) == stonework(before.castle_seed),
{
}

/// The number of fish in a new basin.
pub const FISH_COUNT: usize = 15;

/// The number of crabs in a new basin.
pub const CRAB_COUNT: usize = 3;

/// The number of bubbles in a new basin.
pub const BUBBLE_COUNT: usize = 30;

/// The number of light shafts over a basin `width` pixels wide.
pub fn ray_count_of(width: u32) -> (n: usize)
    ensures
        n == ray_count(width as int),
        3 <= n <= 20,
{
    let rounded: u64 = (width as u64 + 100) / 200;
    if rounded < 3 {
        3
    } else if rounded > 20 {
        20
    } else {
        rounded as usize
    }
}

impl Aquarium {
    /// The basin has a size, its structure stands where the size puts it, and
    /// everything in it is in working order: no light shaft is spent, the crabs
    /// keep to the basin, and no fish has force left over from the last tick.
    pub open spec fn wf(&self) -> bool {
        &&& 0 < self.width <= EXTENT
        &&& 0 < self.height <= EXTENT
        &&& self.frame_count <= FRAME_LIMIT
        &&& self.castle_base_y == self.height * 95 / 100
        &&& self.wave.wf()
        &&& forall|i: int|
            0 <= i < self.god_rays.len() ==> (#[trigger] self.god_rays[i]).wf()
                && !self.god_rays[i].spent()
        &&& forall|i: int| 0 <= i < self.bubbles.len() ==> (#[trigger] self.bubbles[i]).wf()
        &&& forall|i: int| 0 <= i < self.food.len() ==> (#[trigger] self.food[i]).wf()
        &&& forall|i: int|
            0 <= i < self.crabs.len() ==> (#[trigger] self.crabs[i]).wf() && self.crabs[i].roams(
                self.width as int,
            )
        &&& forall|i: int|
            0 <= i < self.fishes.len() ==> (#[trigger] self.fishes[i]).wf() && self.fishes[i].ax
                == 0 && self.fishes[i].ay == 0
    }

    /// The height of the floor at `x`, as the basin is now.
    pub open spec fn floor(&self, x: int) -> int {
        floor_at(self.height as int, self.frame_count as int, x, self.wave)
    }

    /// `next` has the size, the structure and the wave table of this basin.
    pub open spec fn same_basin(&self, next: Aquarium) -> bool {
        &&& next.width == self.width
        &&& next.height == self.height
        &&& next.castle_base_y == self.castle_base_y
        &&& next.castle_seed == self.castle_seed
        &&& next.wave == self.wave
    }

    /// `next` is this basin one tick on, whatever was drawn at random on the
    /// way. The frame counter has advanced; every shaft, bubble, crab and fish
    /// has made its own step, the fish steering by the food as it lay before; the
    /// food that a fish has reached is gone, and the rest has sunk.
    pub open spec fn ticks_to(&self, next: Aquarium) -> bool {
        let left = survivors(self.food@, eaten_by(next.fishes@, self.food@), 0);
        &&& self.same_basin(next)
        &&& next.frame_count == if self.frame_count < FRAME_LIMIT {
            self.frame_count + 1
        } else {
            self.frame_count as int
        }
        &&& next.god_rays.len() == self.god_rays.len()
        &&& forall|i: int|
            0 <= i < self.god_rays.len() ==> ray_ticked(
                self.god_rays[i],
                #[trigger] next.god_rays[i],
                self.width as int,
                self.height as int,
            )
        &&& next.bubbles.len() == self.bubbles.len()
        &&& forall|i: int|
            0 <= i < self.bubbles.len() ==> bubble_ticked(
                self.bubbles[i],
                #[trigger] next.bubbles[i],
                self.wave,
                self.width as int / 2,
                self.castle_base_y as int,
                castle_scale(self.height as int),
            )
        &&& next.crabs.len() == self.crabs.len()
        &&& forall|i: int|
            0 <= i < self.crabs.len() ==> crab_ticked(
                self.crabs[i],
                #[trigger] next.crabs[i],
                next.floor(self.crabs[i].x as int),
                self.width as int,
            )
        &&& next.fishes.len() == self.fishes.len()
        &&& forall|i: int|
            0 <= i < self.fishes.len() ==> fish_ticked(
                self.fishes[i],
                #[trigger] next.fishes[i],
                self.food@,
                next.floor(self.fishes[i].x as int),
                self.width as int,
                self.height as int,
                self.wave,
            )
        &&& forall|i: int|
            0 <= i < self.fishes.len() ==> within_speed_cap(
                self.fishes[i],
                #[trigger] next.fishes[i],
                self.food@,
                self.width as int,
                self.height as int,
            )
        &&& next.food.len() == left.len()
        &&& forall|i: int|
            0 <= i < left.len() ==> #[trigger] next.food[i] == left[i].sunk(
                next.floor(left[i].x as int),
            )
    }

    /// A basin `width` by `height` pixels, stocked with its first inhabitants:
    /// light shafts by the width, fifteen fish, three crabs, thirty bubbles and
    /// no food.
    pub fn new(width: u32, height: u32, wave: WaveTable) -> (aquarium: Aquarium)
        requires
            width > 0,
            height > 0,
            wave.wf(),
        ensures
            aquarium.wf(),
            aquarium.width == width * ONE,
            aquarium.height == height * ONE,
            aquarium.frame_count == 0,
            aquarium.wave == wave,
            aquarium.god_rays.len() == ray_count(width as int),
            aquarium.fishes.len() == FISH_COUNT,
            aquarium.crabs.len() == CRAB_COUNT,
            aquarium.bubbles.len() == BUBBLE_COUNT,
            aquarium.food.len() == 0,
            forall|i: int|
                0 <= i < aquarium.god_rays.len() ==> (#[trigger] aquarium.god_rays[i]).fresh_in(
                    aquarium.width as int,
                    aquarium.height as int,
                ),
            forall|i: int|
                0 <= i < aquarium.fishes.len() ==> (#[trigger] aquarium.fishes[i]).fresh_in(
                    aquarium.width as int,
                    aquarium.height as int,
                ),
            forall|i: int|
                0 <= i < aquarium.crabs.len() ==> (#[trigger] aquarium.crabs[i]).fresh_in(
                    aquarium.width as int,
                    aquarium.height as int,
                ),
            forall|i: int|
                0 <= i < aquarium.bubbles.len() ==> (#[trigger] aquarium.bubbles[i]).fresh_at(
                    aquarium.width as int / 2,
                    aquarium.castle_base_y as int,
                    castle_scale(aquarium.height as int),
                ),
    {
        let w: i64 = width as i64 * ONE;
        let h: i64 = height as i64 * ONE;
        let ray_total: usize = ray_count_of(width);
        let mut god_rays: Vec<GodRay> = Vec::new();
        while god_rays.len() < ray_total
            invariant
                god_rays.len() <= ray_total,
                0 < w <= EXTENT,
                0 < h <= EXTENT,
                forall|i: int| 0 <= i < god_rays.len() ==> (#[trigger] god_rays[i]).wf(),
                forall|i: int|
                    0 <= i < god_rays.len() ==> (#[trigger] god_rays[i]).fresh_in(
                        w as int,
                        h as int,
                    ),
            decreases ray_total - god_rays.len(),
        {
            god_rays.push(GodRay::new(w, h));
        }
        let mut fishes: Vec<Fish> = Vec::new();
        while fishes.len() < FISH_COUNT
            invariant
                fishes.len() <= FISH_COUNT,
                0 < w <= EXTENT,
                ONE <= h <= EXTENT,
                forall|i: int|
                    0 <= i < fishes.len() ==> (#[trigger] fishes[i]).wf() && fishes[i].fresh_in(
                        w as int,
                        h as int,
                    ),
            decreases FISH_COUNT - fishes.len(),
        {
            fishes.push(Fish::new(w, h));
        }
        let mut crabs: Vec<Crab> = Vec::new();
        while crabs.len() < CRAB_COUNT
            invariant
                crabs.len() <= CRAB_COUNT,
                0 < w <= EXTENT,
                0 < h <= EXTENT,
                forall|i: int|
                    0 <= i < crabs.len() ==> {
                        let crab = #[trigger] crabs[i];
                        &&& crab.wf()
                        &&& crab.roams(w as int)
                        &&& crab.fresh_in(w as int, h as int)
                    },
            decreases CRAB_COUNT - crabs.len(),
        {
            crabs.push(Crab::new(w, h));
        }
        let castle_base_y: i64 = h * 95 / 100;
        let castle_center_x: i64 = w / 2;
        let scale: i64 = castle_scale_of(h);
        let mut bubbles: Vec<Bubble> = Vec::new();
        while bubbles.len() < BUBBLE_COUNT
            invariant
                bubbles.len() <= BUBBLE_COUNT,
                0 <= castle_center_x <= EXTENT,
                0 <= castle_base_y <= EXTENT,
                0 <= scale <= SCALE_LIMIT,
                forall|i: int| 0 <= i < bubbles.len() ==> (#[trigger] bubbles[i]).wf(),
                forall|i: int|
                    0 <= i < bubbles.len() ==> (#[trigger] bubbles[i]).fresh_at(
                        castle_center_x as int,
                        castle_base_y as int,
                        scale as int,
                    ),
            decreases BUBBLE_COUNT - bubbles.len(),
        {
            bubbles.push(Bubble::new(castle_center_x, castle_base_y, scale));
        }
        let castle_seed: u64 = fresh_seed();
        Aquarium {
            width: w,
            height: h,
            god_rays,
            fishes,
            food: Vec::new(),
            crabs,
            bubbles,
            frame_count: 0,
            castle_base_y,
            castle_seed,
            wave,
        }
    }

    /// The scale of the structure, in millionths.
    pub fn get_castle_scale(&self) -> (scale: i64)
        requires
            self.wf(),
        ensures
            scale == castle_scale(self.height as int),
            ONE * 3 / 4 <= scale,
    {
        castle_scale_of(self.height)
    }

    /// Drops a food particle at `(x, y)`, or at the nearest point of the world.
    pub fn add_food(&mut self, x: i64, y: i64)
        requires
            old(self).wf(),
        ensures
            final(self).wf(),
            final(self).food@ == old(self).food@.push(
                Food { x: in_world(x as int) as i64, y: in_world(y as int) as i64, vy: 0 },
            ),
            *final(self) == (Aquarium { food: final(self).food, ..*old(self) }),
    {
        self.food.push(Food::new(x, y));
    }

    /// Puts a new fish at `(x, y)`, or at the nearest point of the world; its
    /// traits are drawn at random.
    pub fn add_fish(&mut self, x: i64, y: i64)
        requires
            old(self).wf(),
        ensures
            final(self).wf(),
            final(self).fishes.len() == old(self).fishes.len() + 1,
            final(self).fishes@.drop_last() == old(self).fishes@,
            final(self).fishes@.last().x == in_world(x as int),
            final(self).fishes@.last().y == in_world(y as int),
            final(self).fishes@.last().has_fresh_traits(),
            *final(self) == (Aquarium { fishes: final(self).fishes, ..*old(self) }),
    {
        let mut fish: Fish = Fish::new(self.width, self.height);
        fish.x = clamp_to(x as i128, -WORLD, WORLD);
        fish.y = clamp_to(y as i128, -WORLD, WORLD);
        self.fishes.push(fish);
        assert(self.fishes@.drop_last() =~= old(self).fishes@);
    }

    /// The height of the floor at `x`.
    pub fn get_seafloor_y_at(&self, x: i64) -> (y: i64)
        requires
            self.wf(),
        ensures
            y == self.floor(x as int),
            self.height * 9 / 10 - 15 * ONE <= y <= self.height * 9 / 10 + 15 * ONE,
    {
        seafloor_y(self.height, self.frame_count, x, &self.wave)
    }

    /// The outline of the floor: its height at every tenth pixel, from the left
    /// wall to the first such point at or beyond the right wall.
    pub fn seafloor_outline(&self) -> (points: Vec<(i64, i64)>)
        requires
            self.wf(),
        ensures
            forall|k: int|
                0 <= k < points.len() ==> {
                    let point = #[trigger] points[k];
                    &&& point.0 == k * OUTLINE_STEP
                    &&& point.0 < self.width + OUTLINE_STEP
                    &&& point.1 == self.floor(k * OUTLINE_STEP)
                },
            points.len() * OUTLINE_STEP >= self.width + OUTLINE_STEP,
    {
        let mut points: Vec<(i64, i64)> = Vec::new();
        let mut x: i64 = 0;
        while x < self.width + OUTLINE_STEP
            invariant
                self.wf(),
                x == points.len() * OUTLINE_STEP,
                0 <= x < self.width + 2 * OUTLINE_STEP,
                forall|k: int|
                    0 <= k < points.len() ==> {
                        let point = #[trigger] points[k];
                        &&& point.0 == k * OUTLINE_STEP
                        &&& point.0 < self.width + OUTLINE_STEP
                        &&& point.1 == self.floor(k * OUTLINE_STEP)
                    },
            decreases self.width + 2 * OUTLINE_STEP - x,
        {
            let y: i64 = self.get_seafloor_y_at(x);
            points.push((x, y));
            x = x + OUTLINE_STEP;
        }
        points
    }

    /// The stonework of the structure: the same stones in every frame.
    pub fn cobblestones(&self) -> (stones: Vec<Stone>)
        ensures
            stones@ == stonework(self.castle_seed),
    {
        cobblestones(self.castle_seed)
    }

    /// Advances the basin by one tick.
    pub fn tick(&mut self)
        requires
            old(self).wf(),
        ensures
            final(self).wf(),
            old(self).ticks_to(*final(self)),
            final(self).food.len() == kept_below(
                eaten_by(final(self).fishes@, old(self).food@),
                old(self).food.len() as int,
            ),
            final(self).food.len() <= old(self).food.len(),
    {
        if self.frame_count < FRAME_LIMIT {
            self.frame_count = self.frame_count + 1;
        }
        update_rays(&mut self.god_rays, self.width, self.height);
        let scale: i64 = castle_scale_of(self.height);
        update_bubbles(&mut self.bubbles, &self.wave, self.width / 2, self.castle_base_y, scale);
        update_crabs(&mut self.crabs, self.width, self.height, self.frame_count, &self.wave);
        update_fishes(
            &mut self.fishes,
            &mut self.food,
            self.width,
            self.height,
            self.frame_count,
            &self.wave,
        );
        update_food(&mut self.food, self.height, self.frame_count, &self.wave);
    }
}

} // verus!
