//! A dense reaction-diffusion grid on a torus.
//!
//! Every cell holds two concentrations, A and B, each a `u16` that stands for
//! the fraction `value / 65535`. The cells lie row by row in one buffer, A
//! before B. A pass reads one buffer and writes the other; the two then
//! change places.
//!
//! All reckoning is done in whole numbers: rates are given in thousandths,
//! the weights of the stencil in twentieths, and every new concentration is
//! the exact value of its formula, rounded to the nearest `u16` step.
//!
//! The pointer paints B onto the grid. Its positions are screen pixels; the
//! grid has two cells for every three pixels along each side.

use crate::input::is_pressed;
use crate::input::Button;
use crate::input::Input;
use crate::input::InputView;
use crate::math::clamp;
use crate::math::div_floor;
use crate::math::div_round;
use crate::math::is_rounded_sqrt;
use crate::math::lemma_rounded_sqrt_unique;
use crate::math::lerp;
use crate::math::lerp_round;
use crate::math::round_div;
use crate::math::sqrt_round;
use crate::math::wrap;
use crate::math::wrap_index;
use crate::reaction_diffusion_ui::ReactionDiffusionUI;
use crate::reaction_diffusion_ui::UiView;
use rand::Rng;
use vstd::arithmetic::div_mod::lemma_fundamental_div_mod;
use vstd::arithmetic::div_mod::lemma_fundamental_div_mod_converse;
use vstd::prelude::*;

verus! {

/// The concentration 1.
pub const FULL: u16 = 65535;

/// Half the side of the square of B that a fresh grid is seeded with.
pub const SEED_HALF: i32 = 10;

/// Whether a grid of `width` by `height` cells can be held: both positive,
/// and two values per cell counted within `i32`.
pub open spec fn valid_size(width: int, height: int) -> bool {
    &&& width > 0
    &&& height > 0
    &&& 2 * width * height <= i32::MAX
}

/// Where the A value of the cell `(x, y)` stands in the buffer; its B value
/// follows it. Both axes wrap: a coordinate beyond an edge comes back in at
/// the edge across.
pub open spec fn index_of(x: int, y: int, width: int, height: int) -> int {
    (wrap(x, width) + wrap(y, height) * width) * 2
}

/// Whether a coordinate of the seed square, which spans `SEED_HALF` cells to
/// either side of the middle of an axis of length `n`, wraps to `c` before it
/// reaches `end`.
pub open spec fn seed_hits(c: int, n: int, end: int) -> bool {
    exists|s: int| n / 2 - SEED_HALF <= s < end && #[trigger] wrap(s, n) == c
}

/// Whether the cell `(x, y)` lies in the seed square.
pub open spec fn in_seed(x: int, y: int, width: int, height: int) -> bool {
    seed_hits(x, width, width / 2 + SEED_HALF) && seed_hits(y, height, height / 2 + SEED_HALF)
}

/// A fresh grid: A is 1 everywhere, B is 1 in the seed square and 0 elsewhere.
pub open spec fn initial_cells(width: int, height: int) -> Seq<u16> {
    Seq::new(
        (2 * width * height) as nat,
        |i: int|
            if i % 2 == 0 || in_seed((i / 2) % width, (i / 2) / width, width, height) {
                FULL
            } else {
                0u16
            },
    )
}

/// A cell of a valid grid has its index inside the buffer.
pub proof fn lemma_cell_in_grid(x: int, y: int, width: int, height: int)
    requires
        valid_size(width, height),
        0 <= x < width,
        0 <= y < height,
    ensures
        0 <= x + y * width < width * height,
        2 * (x + y * width) + 1 < 2 * width * height,
        (x + y * width) % width == x,
        (x + y * width) / width == y,
{
    assert(y * width <= (height - 1) * width) by (nonlinear_arith)
        requires
            0 <= y <= height - 1,
            width > 0,
    ;
    assert((height - 1) * width == height * width - width) by (nonlinear_arith);
    assert(height * width == width * height) by (nonlinear_arith);
    assert(2 * width * height == 2 * (width * height)) by (nonlinear_arith);
    assert(y * width >= 0) by (nonlinear_arith)
        requires
            y >= 0,
            width > 0,
    ;
    lemma_fundamental_div_mod_converse(x + y * width, width, y, x);
}

/// The index wraps on both axes: a whole turn around either changes nothing.
pub proof fn lemma_index_wraps(x: int, y: int, width: int, height: int)
    requires
        width > 0,
        height > 0,
    ensures
        index_of(x + width, y, width, height) == index_of(x, y, width, height),
        index_of(x - width, y, width, height) == index_of(x, y, width, height),
        index_of(x, y + height, width, height) == index_of(x, y, width, height),
        index_of(x, y - height, width, height) == index_of(x, y, width, height),
        index_of(wrap(x, width), wrap(y, height), width, height) == index_of(x, y, width, height),
{
    lemma_wrap_turn(x, width);
    lemma_wrap_turn(y, height);
}

/// Wrapping forgets whole turns, and leaves what is in range as it is.
pub proof fn lemma_wrap_turn(x: int, n: int)
    requires
        n > 0,
    ensures
        0 <= wrap(x, n) < n,
        wrap(x + n, n) == wrap(x, n),
        wrap(x - n, n) == wrap(x, n),
        wrap(wrap(x, n), n) == wrap(x, n),
        0 <= x < n ==> wrap(x, n) == x,
{
    lemma_fundamental_div_mod(x, n);
    let q = x / n;
    let r = x % n;
    assert((q + 1) * n == q * n + n) by (nonlinear_arith);
    assert((q - 1) * n == q * n - n) by (nonlinear_arith);
    assert(n * q == q * n) by (nonlinear_arith);
    lemma_fundamental_div_mod_converse(x + n, n, q + 1, r);
    lemma_fundamental_div_mod_converse(x - n, n, q - 1, r);
    lemma_fundamental_div_mod_converse(r, n, 0, r);
    if 0 <= x < n {
        lemma_fundamental_div_mod_converse(x, n, 0, x);
    }
}

/// Where the A value of the cell `(x, y)` stands in the buffer of a grid of
/// `width` by `height` cells.
pub fn cell_xy_to_index(x: i32, y: i32, width: i32, height: i32) -> (index: usize)
    requires
        valid_size(width as int, height as int),
    ensures
        index == index_of(x as int, y as int, width as int, height as int),
        index + 1 < 2 * width * height,
{
    let cx = wrap_index(x, width);
    let cy = wrap_index(y, height);
    proof {
        lemma_cell_in_grid(cx as int, cy as int, width as int, height as int);
    }
    ((cx + cy * width) * 2) as usize
}

/// The A value of cell number `j` of a buffer.
pub open spec fn a_at(cells: Seq<u16>, j: int) -> u16 {
    cells[2 * j]
}

/// The B value of cell number `j` of a buffer.
pub open spec fn b_at(cells: Seq<u16>, j: int) -> u16 {
    cells[2 * j + 1]
}

/// Letting the seed square reach one coordinate further adds the cells that
/// this coordinate wraps to.
proof fn lemma_seed_hits_next(c: int, n: int, end: int)
    requires
        n / 2 - SEED_HALF <= end,
    ensures
        seed_hits(c, n, end + 1) <==> seed_hits(c, n, end) || wrap(end, n) == c,
        !seed_hits(c, n, n / 2 - SEED_HALF),
{
    if seed_hits(c, n, end + 1) {
        let s = choose|s: int| n / 2 - SEED_HALF <= s < end + 1 && #[trigger] wrap(s, n) == c;
        if s < end {
            assert(seed_hits(c, n, end));
        }
    }
    if seed_hits(c, n, end) {
        let s = choose|s: int| n / 2 - SEED_HALF <= s < end && #[trigger] wrap(s, n) == c;
        assert(n / 2 - SEED_HALF <= s < end + 1 && wrap(s, n) == c);
    }
    if wrap(end, n) == c {
        assert(n / 2 - SEED_HALF <= end < end + 1 && wrap(end, n) == c);
    }
}

/// Whether B is seeded in cell `j` once the columns of the seed square
/// before `sx` are done, and of column `sx` the rows before `sy`.
spec fn seeded_so_far(j: int, width: int, height: int, sx: int, sy: int) -> bool {
    ||| seed_hits(j % width, width, sx) && seed_hits(j / width, height, height / 2 + SEED_HALF)
    ||| wrap(sx, width) == j % width && seed_hits(j / width, height, sy)
}

/// Whether the buffer holds a fresh grid as far as the seed square has been
/// drawn.
spec fn seeding(cells: Seq<u16>, width: int, height: int, sx: int, sy: int) -> bool {
    &&& cells.len() == 2 * width * height
    &&& forall|j: int|
        0 <= j < width * height ==> #[trigger] a_at(cells, j) == FULL && b_at(cells, j) == if seeded_so_far(
            j,
            width,
            height,
            sx,
            sy,
        ) {
            FULL
        } else {
            0u16
        }
}

/// Seeding one more cell of the square keeps the seeding as described.
proof fn lemma_seed_cell(cells: Seq<u16>, width: int, height: int, sx: int, sy: int)
    requires
        valid_size(width, height),
        width / 2 - SEED_HALF <= sx,
        height / 2 - SEED_HALF <= sy,
        seeding(cells, width, height, sx, sy),
    ensures
        seeding(
            cells.update(index_of(sx, sy, width, height) + 1, FULL),
            width,
            height,
            sx,
            sy + 1,
        ),
{
    lemma_wrap_turn(sx, width);
    lemma_wrap_turn(sy, height);
    let j0 = wrap(sx, width) + wrap(sy, height) * width;
    lemma_cell_in_grid(wrap(sx, width), wrap(sy, height), width, height);
    assert(2 * width * height == 2 * (width * height)) by (nonlinear_arith);
    assert(index_of(sx, sy, width, height) == 2 * j0);
    let after = cells.update(2 * j0 + 1, FULL);
    assert forall|j: int| 0 <= j < width * height implies #[trigger] a_at(after, j) == FULL
        && b_at(after, j) == if seeded_so_far(j, width, height, sx, sy + 1) {
        FULL
    } else {
        0u16
    } by {
        assert(a_at(cells, j) == FULL);
        lemma_seed_hits_next(j / width, height, sy);
        lemma_fundamental_div_mod(j, width);
        assert(width * (j / width) == (j / width) * width) by (nonlinear_arith);
        if j % width == wrap(sx, width) && j / width == wrap(sy, height) {
            assert(j == j0);
        }
        if j == j0 {
            assert(b_at(after, j) == FULL);
            assert(seeded_so_far(j, width, height, sx, sy + 1));
        } else {
            assert(b_at(after, j) == b_at(cells, j));
            assert(seeded_so_far(j, width, height, sx, sy + 1) == seeded_so_far(
                j,
                width,
                height,
                sx,
                sy,
            ));
        }
    }
}

/// Fills a buffer with a fresh grid: A is 1 everywhere, B is 1 in a square
/// of twenty cells a side about the middle and 0 elsewhere. On a grid
/// narrower or lower than the square, the square wraps around.
pub fn init_cells(cells: &mut Vec<u16>, width: i32, height: i32)
    requires
        valid_size(width as int, height as int),
        old(cells).len() == 2 * width * height,
    ensures
        final(cells)@ == initial_cells(width as int, height as int),
{
    let ghost w = width as int;
    let ghost h = height as int;
    let n = cells.len();
    assert(2 * w * h == 2 * (w * h)) by (nonlinear_arith);
    let mut i: usize = 0;
    while i < n
        invariant
            n == cells.len(),
            n == 2 * (w * h),
            i % 2 == 0,
            i <= n,
            forall|j: int| 0 <= j < i / 2 ==> #[trigger] a_at(cells@, j) == FULL && b_at(cells@, j) == 0,
        decreases n - i,
    {
        let ghost before = cells@;
        cells[i] = FULL;
        cells[i + 1] = 0;
        assert forall|j: int| 0 <= j < i / 2 + 1 implies #[trigger] a_at(cells@, j) == FULL
            && b_at(cells@, j) == 0 by {
            if j < i / 2 {
                assert(a_at(before, j) == FULL);
            }
        }
        i += 2;
    }
    let x_end = width / 2 + SEED_HALF;
    let y_end = height / 2 + SEED_HALF;
    let mut sx = width / 2 - SEED_HALF;
    let ghost x0 = w / 2 - SEED_HALF;
    let ghost y0 = h / 2 - SEED_HALF;
    proof {
        assert forall|j: int| 0 <= j < w * h implies !#[trigger] seeded_so_far(j, w, h, x0, y0) by {
            lemma_seed_hits_next(j % w, w, x0);
            lemma_seed_hits_next(j / w, h, y0);
        }
    }
    while sx < x_end
        invariant
            w == width,
            h == height,
            valid_size(w, h),
            x_end == w / 2 + SEED_HALF,
            y_end == h / 2 + SEED_HALF,
            y0 == h / 2 - SEED_HALF,
            w / 2 - SEED_HALF <= sx <= x_end,
            seeding(cells@, w, h, sx as int, y0),
        decreases x_end - sx,
    {
        let mut sy = height / 2 - SEED_HALF;
        while sy < y_end
            invariant
                w == width,
                h == height,
                valid_size(w, h),
                y_end == h / 2 + SEED_HALF,
                w / 2 - SEED_HALF <= sx < w / 2 + SEED_HALF,
                h / 2 - SEED_HALF <= sy <= y_end,
                seeding(cells@, w, h, sx as int, sy as int),
            decreases y_end - sy,
        {
            let i = cell_xy_to_index(sx, sy, width, height);
            proof {
                lemma_seed_cell(cells@, w, h, sx as int, sy as int);
            }
            cells[i + 1] = FULL;
            sy += 1;
        }
        proof {
            let x1 = sx as int;
            let x2 = sx + 1;
            let y1 = y_end as int;
            assert forall|j: int| 0 <= j < w * h implies #[trigger] seeded_so_far(j, w, h, x1, y1)
                == seeded_so_far(j, w, h, x2, y0) by {
                lemma_seed_hits_next(j % w, w, x1);
                lemma_seed_hits_next(j / w, h, y0);
            }
            assert forall|j: int| 0 <= j < w * h implies #[trigger] a_at(cells@, j) == FULL
                && b_at(cells@, j) == if seeded_so_far(j, w, h, x2, y0) {
                FULL
            } else {
                0u16
            } by {
                assert(seeded_so_far(j, w, h, x1, y1) == seeded_so_far(j, w, h, x2, y0));
            }
        }
        sx += 1;
    }
    proof {
        let fresh = initial_cells(w, h);
        assert forall|i: int| 0 <= i < cells@.len() implies cells@[i] == fresh[i] by {
            let j = i / 2;
            assert(a_at(cells@, j) == FULL);
            lemma_seed_hits_next(j / w, h, y0);
        }
        assert(cells@ =~= fresh);
    }
}

/// The concentration 1 as a number to reckon with.
pub const UNIT: i128 = 65535;

/// Rates are given in thousandths.
pub const RATE_UNIT: i128 = 1000;

/// Stencil weights are given in twentieths.
pub const WEIGHT_UNIT: i128 = 20;

/// The largest feed or kill rate, in thousandths.
pub const MAX_RATE: u32 = 100;

/// The largest magnitude of a stencil weight, in twentieths.
pub const MAX_WEIGHT: i32 = 1000;

/// The largest number of passes in one step.
pub const MAX_ITERATIONS: u32 = 1000;

/// The weights of the 3 by 3 stencil, in twentieths: one for the four
/// corners, one for the four edges, one for the centre.
#[derive(Clone, Copy, Debug, PartialEq, Eq, Structural)]
pub struct Kernel {
    pub corner: i32,
    pub edge: i32,
    pub centre: i32,
}

/// What drives the simulation. Rates are in thousandths.
#[derive(Clone, Copy, Debug, PartialEq, Eq, Structural)]
pub struct Params {
    /// The feed rate F.
    pub feed: u32,
    /// The kill rate K.
    pub kill: u32,
    /// The diffusion rate of A.
    pub diffusion_a: u32,
    /// The diffusion rate of B.
    pub diffusion_b: u32,
    /// The time that one pass covers.
    pub time_step: u32,
    /// The stencil that approximates diffusion.
    pub kernel: Kernel,
    /// The number of passes in one step.
    pub iterations: u32,
}

/// Why a configuration was refused.
#[derive(Clone, Copy, Debug, PartialEq, Eq, Structural)]
pub enum ConfigError {
    /// The grid has no cells, or more than can be counted.
    Size,
    /// The feed rate is above the largest rate.
    Feed,
    /// The kill rate is above the largest rate.
    Kill,
    /// A diffusion rate is above 1.
    Diffusion,
    /// The time step is zero or above 1.
    TimeStep,
    /// A stencil weight is too large, or the weights do not sum to zero.
    Kernel,
    /// The number of passes is zero or too large.
    Iterations,
}

impl Kernel {
    /// Whether the weights are within bounds and sum to zero over the nine
    /// cells, as a discrete Laplacian does.
    pub open spec fn valid(self) -> bool {
        &&& -MAX_WEIGHT <= self.corner <= MAX_WEIGHT
        &&& -MAX_WEIGHT <= self.edge <= MAX_WEIGHT
        &&& -MAX_WEIGHT <= self.centre <= MAX_WEIGHT
        &&& 4 * self.corner + 4 * self.edge + self.centre == 0
    }
}

impl Params {
    /// The first fault of the parameters, in the order of [`ConfigError`], or
    /// none.
    pub open spec fn fault(self) -> Option<ConfigError> {
        if self.feed > MAX_RATE {
            Some(ConfigError::Feed)
        } else if self.kill > MAX_RATE {
            Some(ConfigError::Kill)
        } else if self.diffusion_a > RATE_UNIT || self.diffusion_b > RATE_UNIT {
            Some(ConfigError::Diffusion)
        } else if self.time_step == 0 || self.time_step > RATE_UNIT {
            Some(ConfigError::TimeStep)
        } else if !self.kernel.valid() {
            Some(ConfigError::Kernel)
        } else if self.iterations == 0 || self.iterations > MAX_ITERATIONS {
            Some(ConfigError::Iterations)
        } else {
            None
        }
    }

    pub open spec fn valid(self) -> bool {
        self.fault() is None
    }

    /// The parameters that a simulation starts with: F = 0.055, K = 0.062,
    /// A diffusing twice as fast as B, the stencil 0.05 / 0.2 / -1, fifteen
    /// passes a step.
    pub fn start() -> (params: Params)
        ensures
            params == (Params {
                feed: 55,
                kill: 62,
                diffusion_a: 1000,
                diffusion_b: 500,
                time_step: 1000,
                kernel: Kernel { corner: 1, edge: 4, centre: -20i32 },
                iterations: 15,
            }),
            params.valid(),
    {
        Params {
            feed: 55,
            kill: 62,
            diffusion_a: 1000,
            diffusion_b: 500,
            time_step: 1000,
            kernel: Kernel { corner: 1, edge: 4, centre: -20 },
            iterations: 15,
        }
    }

    /// Checks the parameters.
    pub fn check(&self) -> (checked: Result<(), ConfigError>)
        ensures
            checked == match self.fault() {
                Some(e) => Err::<(), ConfigError>(e),
                None => Ok(()),
            },
    {
        if self.feed > MAX_RATE {
            return Err(ConfigError::Feed);
        }
        if self.kill > MAX_RATE {
            return Err(ConfigError::Kill);
        }
        if self.diffusion_a > 1000 || self.diffusion_b > 1000 {
            return Err(ConfigError::Diffusion);
        }
        if self.time_step == 0 || self.time_step > 1000 {
            return Err(ConfigError::TimeStep);
        }
        let k = self.kernel;
        if k.corner < -MAX_WEIGHT || k.corner > MAX_WEIGHT || k.edge < -MAX_WEIGHT || k.edge
            > MAX_WEIGHT || k.centre < -MAX_WEIGHT || k.centre > MAX_WEIGHT {
            return Err(ConfigError::Kernel);
        }
        if 4 * k.corner + 4 * k.edge + k.centre != 0 {
            return Err(ConfigError::Kernel);
        }
        if self.iterations == 0 || self.iterations > MAX_ITERATIONS {
            return Err(ConfigError::Iterations);
        }
        Ok(())
    }
}

/// The value of channel `channel` (0 for A, 1 for B) in the cell `(x, y)`,
/// both axes wrapping.
pub open spec fn value_at(
    cells: Seq<u16>,
    width: int,
    height: int,
    x: int,
    y: int,
    channel: int,
) -> int {
    cells[index_of(x, y, width, height) + channel] as int
}

/// The stencil applied to one channel about the cell `(x, y)`: the weighted
/// sum of the cell and the eight around it, in twentieths of a `u16` step.
pub open spec fn laplacian(
    cells: Seq<u16>,
    width: int,
    height: int,
    kernel: Kernel,
    x: int,
    y: int,
    channel: int,
) -> int {
    kernel.corner * (value_at(cells, width, height, x - 1, y - 1, channel) + value_at(
        cells,
        width,
        height,
        x + 1,
        y - 1,
        channel,
    ) + value_at(cells, width, height, x - 1, y + 1, channel) + value_at(
        cells,
        width,
        height,
        x + 1,
        y + 1,
        channel,
    )) + kernel.edge * (value_at(cells, width, height, x, y - 1, channel) + value_at(
        cells,
        width,
        height,
        x - 1,
        y,
        channel,
    ) + value_at(cells, width, height, x + 1, y, channel) + value_at(
        cells,
        width,
        height,
        x,
        y + 1,
        channel,
    )) + kernel.centre * value_at(cells, width, height, x, y, channel)
}

/// The A value after one pass of a cell that holds `a` and `b` and whose A
/// has the stencil sum `lap`:
/// `A + (Da * lap - A * B^2 + F * (1 - A)) * dt`, rounded to the nearest
/// `u16` step and held between 0 and 1.
pub open spec fn next_a(p: Params, a: int, b: int, lap: int) -> int {
    clamp(
        a + round_div(
            p.time_step * (p.diffusion_a * lap * UNIT * UNIT - RATE_UNIT * WEIGHT_UNIT * a * b * b
                + p.feed * (UNIT - a) * WEIGHT_UNIT * UNIT * UNIT),
            RATE_UNIT * RATE_UNIT * WEIGHT_UNIT * UNIT * UNIT,
        ),
        0,
        UNIT as int,
    )
}

/// The B value after one pass of a cell that holds `a` and `b` and whose B
/// has the stencil sum `lap`:
/// `B + (Db * lap + A * B^2 - (K + F) * B) * dt`, rounded to the nearest
/// `u16` step and held between 0 and 1.
pub open spec fn next_b(p: Params, a: int, b: int, lap: int) -> int {
    clamp(
        b + round_div(
            p.time_step * (p.diffusion_b * lap * UNIT * UNIT + RATE_UNIT * WEIGHT_UNIT * a * b * b
                - (p.kill + p.feed) * b * WEIGHT_UNIT * UNIT * UNIT),
            RATE_UNIT * RATE_UNIT * WEIGHT_UNIT * UNIT * UNIT,
        ),
        0,
        UNIT as int,
    )
}

/// The value that stands at place `i` of the buffer after one pass over
/// `cells`.
pub open spec fn pass_value(cells: Seq<u16>, width: int, height: int, p: Params, i: int) -> int {
    let x = (i / 2) % width;
    let y = (i / 2) / width;
    let a = value_at(cells, width, height, x, y, 0);
    let b = value_at(cells, width, height, x, y, 1);
    if i % 2 == 0 {
        next_a(p, a, b, laplacian(cells, width, height, p.kernel, x, y, 0))
    } else {
        next_b(p, a, b, laplacian(cells, width, height, p.kernel, x, y, 1))
    }
}

/// The buffer after one pass over `cells`. Every value is reckoned from
/// `cells` alone.
pub open spec fn pass_cells(cells: Seq<u16>, width: int, height: int, p: Params) -> Seq<u16> {
    Seq::new(cells.len(), |i: int| pass_value(cells, width, height, p, i) as u16)
}

/// The buffer after `n` passes.
pub open spec fn passes(cells: Seq<u16>, width: int, height: int, p: Params, n: nat) -> Seq<u16>
    decreases n,
{
    if n == 0 {
        cells
    } else {
        pass_cells(passes(cells, width, height, p, (n - 1) as nat), width, height, p)
    }
}

/// `a * b`, for factors whose magnitudes are known to stay below the bounds
/// `am` and `bm`.
fn times(a: i128, b: i128, Ghost(am): Ghost<int>, Ghost(bm): Ghost<int>) -> (p: i128)
    requires
        -am <= a <= am,
        -bm <= b <= bm,
        0 <= am * bm <= 0x1000_0000_0000_0000_0000_0000_0000,
    ensures
        p == a * b,
        -(am * bm) <= p <= am * bm,
{
    assert(-(am * bm) <= a * b <= am * bm) by (nonlinear_arith)
        requires
            -am <= a <= am,
            -bm <= b <= bm,
    ;
    a * b
}

/// `x` held to the `u16` range.
fn to_u16(x: i128) -> (v: u16)
    ensures
        v == clamp(x as int, 0, UNIT as int),
{
    if x < 0 {
        0
    } else if x > 65535 {
        65535
    } else {
        x as u16
    }
}

/// The two values of a cell after one pass.
fn react(p: &Params, a: u16, b: u16, lap_a: i128, lap_b: i128) -> (next: (u16, u16))
    requires
        p.valid(),
        -9000 * UNIT <= lap_a <= 9000 * UNIT,
        -9000 * UNIT <= lap_b <= 9000 * UNIT,
    ensures
        next.0 == next_a(*p, a as int, b as int, lap_a as int),
        next.1 == next_b(*p, a as int, b as int, lap_b as int),
{
    let dt = p.time_step as i128;
    let da = p.diffusion_a as i128;
    let db = p.diffusion_b as i128;
    let f = p.feed as i128;
    let kf = (p.kill + p.feed) as i128;
    let a1 = a as i128;
    let b1 = b as i128;
    // A * B^2, in thousandths of twentieths
    let ab = times(a1, b1, Ghost(65535int), Ghost(65535int));
    let abb = times(ab, b1, Ghost(65535int * 65535), Ghost(65535int));
    let r0 = times(RATE_UNIT * WEIGHT_UNIT, a1, Ghost(20000int), Ghost(65535int));
    let r1 = times(r0, b1, Ghost(20000int * 65535), Ghost(65535int));
    let reaction = times(r1, b1, Ghost(20000int * 65535 * 65535), Ghost(65535int));
    assert(reaction == RATE_UNIT * WEIGHT_UNIT * a * b * b);
    // the A channel
    let d0 = times(da, lap_a, Ghost(1000int), Ghost(9000int * 65535));
    let d1 = times(d0, UNIT, Ghost(1000int * 9000 * 65535), Ghost(65535int));
    let diffusion = times(d1, UNIT, Ghost(1000int * 9000 * 65535 * 65535), Ghost(65535int));
    let f0 = times(f, UNIT - a1, Ghost(100int), Ghost(65535int));
    let f1 = times(f0, WEIGHT_UNIT, Ghost(100int * 65535), Ghost(20int));
    let f2 = times(f1, UNIT, Ghost(100int * 65535 * 20), Ghost(65535int));
    let feed = times(f2, UNIT, Ghost(100int * 65535 * 20 * 65535), Ghost(65535int));
    let sum_a = diffusion - reaction + feed;
    let num_a = times(
        dt,
        sum_a,
        Ghost(1000int),
        Ghost(
            1000int * 9000 * 65535 * 65535 * 65535 + 20000 * 65535 * 65535 * 65535 + 100 * 65535 * 20
                * 65535 * 65535,
        ),
    );
    let den: i128 = 85_896_724_500_000_000;
    assert(den == RATE_UNIT * RATE_UNIT * WEIGHT_UNIT * UNIT * UNIT);
    let delta_a = div_round(num_a, den);
    assert(delta_a * den == den * delta_a) by (nonlinear_arith);
    let next_a = to_u16(a1 + delta_a);
    // the B channel
    let e0 = times(db, lap_b, Ghost(1000int), Ghost(9000int * 65535));
    let e1 = times(e0, UNIT, Ghost(1000int * 9000 * 65535), Ghost(65535int));
    let diffusion_b = times(e1, UNIT, Ghost(1000int * 9000 * 65535 * 65535), Ghost(65535int));
    let k0 = times(kf, b1, Ghost(200int), Ghost(65535int));
    let k1 = times(k0, WEIGHT_UNIT, Ghost(200int * 65535), Ghost(20int));
    let k2 = times(k1, UNIT, Ghost(200int * 65535 * 20), Ghost(65535int));
    let kill = times(k2, UNIT, Ghost(200int * 65535 * 20 * 65535), Ghost(65535int));
    let sum_b = diffusion_b + reaction - kill;
    let num_b = times(
        dt,
        sum_b,
        Ghost(1000int),
        Ghost(
            1000int * 9000 * 65535 * 65535 * 65535 + 20000 * 65535 * 65535 * 65535 + 200 * 65535 * 20
                * 65535 * 65535,
        ),
    );
    let delta_b = div_round(num_b, den);
    assert(delta_b * den == den * delta_b) by (nonlinear_arith);
    let next_b = to_u16(b1 + delta_b);
    (next_a, next_b)
}

/// The stencil sum of one channel about the cell `(x, y)`.
fn stencil(
    cells: &Vec<u16>,
    width: i32,
    height: i32,
    kernel: &Kernel,
    x: i32,
    y: i32,
    channel: usize,
) -> (lap: i128)
    requires
        valid_size(width as int, height as int),
        cells.len() == 2 * width * height,
        kernel.valid(),
        0 <= x < width,
        0 <= y < height,
        channel <= 1,
    ensures
        lap == laplacian(
            cells@,
            width as int,
            height as int,
            *kernel,
            x as int,
            y as int,
            channel as int,
        ),
        -9000 * UNIT <= lap <= 9000 * UNIT,
{
    let nw = cells[cell_xy_to_index(x - 1, y - 1, width, height) + channel] as i128;
    let ne = cells[cell_xy_to_index(x + 1, y - 1, width, height) + channel] as i128;
    let sw = cells[cell_xy_to_index(x - 1, y + 1, width, height) + channel] as i128;
    let se = cells[cell_xy_to_index(x + 1, y + 1, width, height) + channel] as i128;
    let n = cells[cell_xy_to_index(x, y - 1, width, height) + channel] as i128;
    let w = cells[cell_xy_to_index(x - 1, y, width, height) + channel] as i128;
    let e = cells[cell_xy_to_index(x + 1, y, width, height) + channel] as i128;
    let s = cells[cell_xy_to_index(x, y + 1, width, height) + channel] as i128;
    let c = cells[cell_xy_to_index(x, y, width, height) + channel] as i128;
    let corners = times(kernel.corner as i128, nw + ne + sw + se, Ghost(1000int), Ghost(4int * 65535));
    let edges = times(kernel.edge as i128, n + w + e + s, Ghost(1000int), Ghost(4int * 65535));
    let centre = times(kernel.centre as i128, c, Ghost(1000int), Ghost(65535int));
    corners + edges + centre
}

/// One pass from one buffer into another: every cell of `next` is reckoned
/// from `cells`, which is only read.
pub fn simulation_pass(
    cells: &Vec<u16>,
    next: &mut Vec<u16>,
    width: i32,
    height: i32,
    params: &Params,
)
    requires
        valid_size(width as int, height as int),
        params.valid(),
        cells.len() == 2 * width * height,
        old(next).len() == cells.len(),
    ensures
        final(next)@ == pass_cells(cells@, width as int, height as int, *params),
{
    let ghost w = width as int;
    let ghost h = height as int;
    let ghost source = cells@;
    let ghost p = *params;
    let mut x: i32 = 0;
    let mut y: i32 = 0;
    let mut j: usize = 0;
    assert(2 * w * h == 2 * (w * h)) by (nonlinear_arith);
    assert(0 * w == 0) by (nonlinear_arith);
    while y < height
        invariant
            valid_size(w, h),
            p.valid(),
            w == width,
            h == height,
            source == cells@,
            p == *params,
            source.len() == 2 * (w * h),
            cells.len() == 2 * width * height,
            0 <= x < w,
            0 <= y <= h,
            y == h ==> x == 0,
            j == x + y * w,
            j <= w * h,
            next@.len() == 2 * (w * h),
            forall|i: int|
                0 <= i < 2 * j ==> #[trigger] next@[i] == pass_value(source, w, h, p, i) as u16,
        decreases w * h - j,
    {
        proof {
            lemma_cell_in_grid(x as int, y as int, w, h);
            lemma_wrap_turn(x as int, w);
            lemma_wrap_turn(y as int, h);
            assert(index_of(x as int, y as int, w, h) == 2 * j);
        }
        let lap_a = stencil(cells, width, height, &params.kernel, x, y, 0);
        let lap_b = stencil(cells, width, height, &params.kernel, x, y, 1);
        let a = cells[2 * j];
        let b = cells[2 * j + 1];
        let reacted = react(params, a, b, lap_a, lap_b);
        let ghost before = next@;
        next[2 * j] = reacted.0;
        next[2 * j + 1] = reacted.1;
        proof {
            assert forall|i: int| 0 <= i < 2 * (j + 1) implies #[trigger] next@[i] == pass_value(
                source,
                w,
                h,
                p,
                i,
            ) as u16 by {
                if i < 2 * j {
                    assert(before[i] == pass_value(source, w, h, p, i) as u16);
                } else {
                    assert(i / 2 == j);
                }
            }
            assert((y + 1) * w == y * w + w) by (nonlinear_arith);
        }
        j += 1;
        x += 1;
        if x == width {
            x = 0;
            y += 1;
        }
    }
    proof {
        assert(h * w == w * h) by (nonlinear_arith);
        assert(next@ =~= pass_cells(source, w, h, p));
    }
}

/// What a [`ReactionDiffusion`] holds: the size of the screen in pixels and
/// of the grid in cells, the buffer that is read, the parameters, the cursor
/// position at the last stamp (or the sentinel `(-1, -1)`), and the number of
/// the preset in use.
pub struct GridView {
    pub screen: (int, int),
    pub width: int,
    pub height: int,
    pub cells: Seq<u16>,
    pub params: Params,
    pub last_mouse_position: (int, int),
    pub preset: nat,
}

/// The number of feed and kill presets.
pub const PRESET_COUNT: usize = 10;

/// The dense grid with its two buffers.
pub struct ReactionDiffusion {
    screen: (i32, i32),
    width: i32,
    height: i32,
    input: Vec<u16>,
    output: Vec<u16>,
    params: Params,
    last_mouse_position: (i32, i32),
    current_feed_kill_pair_i: usize,
}

impl View for ReactionDiffusion {
    type V = GridView;

    closed spec fn view(&self) -> GridView {
        GridView {
            screen: (self.screen.0 as int, self.screen.1 as int),
            width: self.width as int,
            height: self.height as int,
            cells: self.input@,
            params: self.params,
            last_mouse_position: (
                self.last_mouse_position.0 as int,
                self.last_mouse_position.1 as int,
            ),
            preset: self.current_feed_kill_pair_i as nat,
        }
    }
}

impl GridView {
    /// Whether the grid has the size that goes with the screen, the size is
    /// valid, the buffer holds two values per cell, the parameters are valid
    /// and the preset exists.
    pub open spec fn valid(self) -> bool {
        &&& self.width == simulation_side(self.screen.0)
        &&& self.height == simulation_side(self.screen.1)
        &&& valid_size(self.width, self.height)
        &&& self.cells.len() == 2 * self.width * self.height
        &&& self.params.valid()
        &&& self.preset < PRESET_COUNT
    }
}

/// The side of the grid for a screen side of `pixels`: two grid cells for
/// every three pixels, rounded to the nearest.
pub open spec fn simulation_side(pixels: int) -> int {
    round_div(2 * pixels, 3)
}

/// Only a screen side of at least one pixel gives a grid side of at least
/// one cell.
pub proof fn lemma_side_positive(pixels: int)
    requires
        simulation_side(pixels) > 0,
    ensures
        pixels > 0,
{
    assert(simulation_side(pixels) == (4 * pixels + 3) / 6);
    lemma_fundamental_div_mod(4 * pixels + 3, 6);
}

/// The side of the grid for a screen side of `pixels`.
pub fn simulation_size(pixels: i32) -> (cells: i32)
    ensures
        cells == simulation_side(pixels as int),
{
    let q = div_round(2 * (pixels as i128), 3);
    q as i32
}

/// Whether `width * height * 2` can be counted within `i32`, for a grid that
/// has cells at all.
fn size_is_valid(width: i32, height: i32) -> (valid: bool)
    ensures
        valid == valid_size(width as int, height as int),
{
    if width <= 0 || height <= 0 {
        return false;
    }
    assert((width as int) * (height as int) * 2 == 2 * (width as int) * (height as int))
        by (nonlinear_arith);
    assert(0 < (width as int) * (height as int) <= 0x7fff_ffff * 0x7fff_ffff) by (nonlinear_arith)
        requires
            0 < width <= 0x7fff_ffff,
            0 < height <= 0x7fff_ffff,
    ;
    let cells = (width as i64) * (height as i64) * 2;
    cells <= i32::MAX as i64
}

/// The radius of the brush, in cells.
pub const BRUSH_RADIUS: i64 = 3;

/// Whether the cell `(x, y)` lies under the brush when it is centred on
/// `(cx, cy)`: within the radius, as the crow flies.
pub open spec fn in_brush(x: int, y: int, cx: int, cy: int) -> bool {
    (x - cx) * (x - cx) + (y - cy) * (y - cy) <= BRUSH_RADIUS * BRUSH_RADIUS
}

/// The buffer after one stamp of the brush centred on the cell `(cx, cy)`: B
/// is 1 under the brush, and everything else is as before. The brush does not
/// wrap: what falls beyond the grid is lost.
pub open spec fn painted(cells: Seq<u16>, width: int, cx: int, cy: int) -> Seq<u16> {
    Seq::new(
        cells.len(),
        |i: int|
            if i % 2 == 1 && in_brush((i / 2) % width, (i / 2) / width, cx, cy) {
                FULL
            } else {
                cells[i]
            },
    )
}

/// The cell under the screen point `p`. The top row of the screen is the
/// last row of the grid.
pub open spec fn screen_to_cell(p: (int, int), screen: (int, int), width: int, height: int) -> (
    int,
    int,
) {
    ((p.0 * width) / screen.0, height - 1 - (p.1 * height) / screen.1)
}

/// The square of the distance between two points.
pub open spec fn distance_squared(a: (int, int), b: (int, int)) -> int {
    (b.0 - a.0) * (b.0 - a.0) + (b.1 - a.1) * (b.1 - a.1)
}

/// The number of stamps on the way from `from` to `to`: their distance in
/// pixels, rounded to the nearest integer, and at least 1.
pub open spec fn stamps(from: (int, int), to: (int, int)) -> int {
    if distance_squared(from, to) == 0 {
        1
    } else {
        choose|r: int| is_rounded_sqrt(r, distance_squared(from, to))
    }
}

/// The screen point of stamp `i` of `n` on the way from `from` to `to`.
pub open spec fn stamp_point(from: (int, int), to: (int, int), n: int, i: int) -> (int, int) {
    (lerp(from.0, to.0, i, n), lerp(from.1, to.1, i, n))
}

/// The buffer after the first `i` stamps of the stroke from `from` to `to`.
/// Stamp `i` of `n` lies `i / n` of the way along, so the last one lies on
/// `to`; `from` itself is where the stroke before this one ended.
pub open spec fn stroked(
    cells: Seq<u16>,
    screen: (int, int),
    width: int,
    height: int,
    from: (int, int),
    to: (int, int),
    i: nat,
) -> Seq<u16>
    decreases i,
{
    if i == 0 {
        cells
    } else {
        let c = screen_to_cell(
            stamp_point(from, to, stamps(from, to), i as int),
            screen,
            width,
            height,
        );
        painted(stroked(cells, screen, width, height, from, to, (i - 1) as nat), width, c.0, c.1)
    }
}

/// Whether the brush is down and has something to draw this frame: the left
/// button went down, or it is held and the cursor moved.
pub open spec fn draws(input: InputView) -> bool {
    let held = is_pressed(input.buttons, Button::Left);
    (held && !is_pressed(input.last_buttons, Button::Left)) || (held && input.delta() != (
        0int,
        0int,
    ))
}

/// The grid after the pointer has been dealt with: a stroke from where the
/// brush last stamped (or from the cursor, if the brush was up) to the
/// cursor, if the brush draws; else the brush is up.
pub open spec fn after_pointer(g: GridView, input: InputView) -> GridView {
    if draws(input) {
        let from = if g.last_mouse_position == (-1int, -1int) {
            input.mouse_position
        } else {
            g.last_mouse_position
        };
        GridView {
            cells: stroked(
                g.cells,
                g.screen,
                g.width,
                g.height,
                from,
                input.mouse_position,
                stamps(from, input.mouse_position) as nat,
            ),
            last_mouse_position: input.mouse_position,
            ..g
        }
    } else {
        GridView { last_mouse_position: (-1, -1), ..g }
    }
}

/// Whether the cell `(cell_x, cell_y)` comes before `(x, y)`, row by row.
spec fn passed(cell_x: int, cell_y: int, y: int, x: int) -> bool {
    cell_y < y || (cell_y == y && cell_x < x)
}

/// Whether B in cell `i / 2` has its stamp when the cells before `(x, y)` are
/// done.
spec fn stamped(i: int, width: int, cx: int, cy: int, y: int, x: int) -> bool {
    &&& i % 2 == 1
    &&& in_brush((i / 2) % width, (i / 2) / width, cx, cy)
    &&& passed((i / 2) % width, (i / 2) / width, y, x)
}

/// Whether `cells` is `before` with the stamp as far as `(x, y)`.
spec fn painted_to(
    cells: Seq<u16>,
    before: Seq<u16>,
    width: int,
    cx: int,
    cy: int,
    y: int,
    x: int,
) -> bool {
    &&& cells.len() == before.len()
    &&& forall|i: int|
        0 <= i < cells.len() ==> #[trigger] cells[i] == if stamped(i, width, cx, cy, y, x) {
            FULL
        } else {
            before[i]
        }
}

/// What lies under the brush lies within its radius along each axis.
proof fn lemma_brush_reach(x: int, y: int, cx: int, cy: int)
    requires
        in_brush(x, y, cx, cy),
    ensures
        cx - BRUSH_RADIUS <= x <= cx + BRUSH_RADIUS,
        cy - BRUSH_RADIUS <= y <= cy + BRUSH_RADIUS,
{
    let dx = x - cx;
    let dy = y - cy;
    assert(dx * dx >= 0 && dy * dy >= 0) by (nonlinear_arith);
    if dx > 3 || dx < -3 {
        assert(dx * dx >= 16) by (nonlinear_arith)
            requires
                dx > 3 || dx < -3,
        ;
    }
    if dy > 3 || dy < -3 {
        assert(dy * dy >= 16) by (nonlinear_arith)
            requires
                dy > 3 || dy < -3,
        ;
    }
}

/// Place `i` of a buffer belongs to a cell of the grid, and is that cell's
/// only place with its parity.
proof fn lemma_place(i: int, width: int, height: int)
    requires
        valid_size(width, height),
        0 <= i < 2 * (width * height),
    ensures
        0 <= (i / 2) % width < width,
        0 <= (i / 2) / width < height,
        i == 2 * ((i / 2) % width + ((i / 2) / width) * width) + i % 2,
{
    let j = i / 2;
    lemma_fundamental_div_mod(j, width);
    vstd::arithmetic::div_mod::lemma_mod_bound(j, width);
    let q = j / width;
    assert(width * q == q * width) by (nonlinear_arith);
    if q >= height {
        assert(q * width >= height * width) by (nonlinear_arith)
            requires
                q >= height,
                width > 0,
        ;
        assert(height * width == width * height) by (nonlinear_arith);
    }
    if q < 0 {
        assert(q * width <= -width) by (nonlinear_arith)
            requires
                q <= -1,
                width > 0,
        ;
    }
}

/// Moving on over cells that the brush does not touch keeps the stamp as it
/// is.
proof fn lemma_painted_to_skip(
    cells: Seq<u16>,
    before: Seq<u16>,
    width: int,
    height: int,
    cx: int,
    cy: int,
    y1: int,
    x1: int,
    y2: int,
    x2: int,
)
    requires
        valid_size(width, height),
        cells.len() == 2 * (width * height),
        painted_to(cells, before, width, cx, cy, y1, x1),
        forall|x: int, y: int|
            0 <= x < width && 0 <= y < height && cx - BRUSH_RADIUS <= x <= cx + BRUSH_RADIUS && cy
                - BRUSH_RADIUS <= y <= cy + BRUSH_RADIUS ==> #[trigger] passed(x, y, y1, x1)
                == passed(x, y, y2, x2),
    ensures
        painted_to(cells, before, width, cx, cy, y2, x2),
{
    assert forall|i: int| 0 <= i < cells.len() implies #[trigger] cells[i] == if stamped(
        i,
        width,
        cx,
        cy,
        y2,
        x2,
    ) {
        FULL
    } else {
        before[i]
    } by {
        lemma_place(i, width, height);
        if in_brush((i / 2) % width, (i / 2) / width, cx, cy) {
            lemma_brush_reach((i / 2) % width, (i / 2) / width, cx, cy);
        }
        assert(stamped(i, width, cx, cy, y1, x1) == stamped(i, width, cx, cy, y2, x2));
    }
}

/// Dealing with the cell `(x, y)` moves the stamp on by one cell.
proof fn lemma_painted_to_next(
    cells: Seq<u16>,
    before: Seq<u16>,
    width: int,
    height: int,
    cx: int,
    cy: int,
    y: int,
    x: int,
)
    requires
        valid_size(width, height),
        cells.len() == 2 * (width * height),
        0 <= x < width,
        0 <= y < height,
        painted_to(cells, before, width, cx, cy, y, x),
    ensures
        in_brush(x, y, cx, cy) ==> painted_to(
            cells.update(2 * (x + y * width) + 1, FULL),
            before,
            width,
            cx,
            cy,
            y,
            x + 1,
        ),
        !in_brush(x, y, cx, cy) ==> painted_to(cells, before, width, cx, cy, y, x + 1),
{
    lemma_cell_in_grid(x, y, width, height);
    let i0 = 2 * (x + y * width) + 1;
    let after = if in_brush(x, y, cx, cy) {
        cells.update(i0, FULL)
    } else {
        cells
    };
    assert forall|i: int| 0 <= i < after.len() implies #[trigger] after[i] == if stamped(
        i,
        width,
        cx,
        cy,
        y,
        x + 1,
    ) {
        FULL
    } else {
        before[i]
    } by {
        lemma_place(i, width, height);
        assert(cells[i] == if stamped(i, width, cx, cy, y, x) {
            FULL
        } else {
            before[i]
        });
        if i == i0 {
            assert((i / 2) == x + y * width);
        } else if i % 2 == 1 && (i / 2) / width == y && (i / 2) % width == x {
            assert(false);
        }
    }
}

/// The feed and kill rates of preset `i`, in thousandths.
pub open spec fn preset_pair(i: int) -> (u32, u32) {
    if i == 0 {
        (55u32, 62u32)
    } else if i == 1 {
        (30u32, 62u32)
    } else if i == 2 {
        (25u32, 60u32)
    } else if i == 3 {
        (78u32, 61u32)
    } else if i == 4 {
        (39u32, 58u32)
    } else if i == 5 {
        (26u32, 51u32)
    } else if i == 6 {
        (14u32, 54u32)
    } else if i == 7 {
        (18u32, 51u32)
    } else if i == 8 {
        (14u32, 45u32)
    } else {
        (62u32, 61u32)
    }
}

/// The feed and kill rates of preset `i`.
pub fn preset(i: usize) -> (pair: (u32, u32))
    requires
        i < PRESET_COUNT,
    ensures
        pair == preset_pair(i as int),
        pair.0 <= MAX_RATE,
        pair.1 <= MAX_RATE,
{
    match i {
        0 => (55, 62),
        1 => (30, 62),
        2 => (25, 60),
        3 => (78, 61),
        4 => (39, 58),
        5 => (26, 51),
        6 => (14, 54),
        7 => (18, 51),
        8 => (14, 45),
        _ => (62, 61),
    }
}

/// The preset that the draw `r` among the presets other than `current`
/// stands for: the draws below `current` stand for themselves, the others
/// for the preset one above.
pub open spec fn other_preset(current: nat, r: nat) -> nat {
    if r >= current {
        r + 1
    } else {
        r
    }
}

/// The preset that the draw `r` stands for when `current` is in use. It is
/// never `current`.
pub fn pick_preset(current: usize, r: usize) -> (picked: usize)
    requires
        current < PRESET_COUNT,
        r < PRESET_COUNT - 1,
    ensures
        picked == other_preset(current as nat, r as nat),
        picked != current,
        picked < PRESET_COUNT,
{
    if r >= current {
        r + 1
    } else {
        r
    }
}

/// Draws a number below `n` with `rand::thread_rng().gen_range(0..n)`. All
/// that is claimed of the draw is that it lies in the range, which must not
/// be empty.
#[verifier::external_body]
fn random_below(n: usize) -> (r: usize)
    requires
        n > 0,
    ensures
        r < n,
{
    rand::thread_rng().gen_range(0..n)
}

/// The grid with preset `i` in use.
pub open spec fn with_preset(g: GridView, i: nat) -> GridView {
    GridView {
        params: Params {
            feed: preset_pair(i as int).0,
            kill: preset_pair(i as int).1,
            ..g.params
        },
        preset: i,
        ..g
    }
}

/// The grid with the sliders taken over: a slider that has moved sets its
/// rate, unless it stands above the largest rate.
pub open spec fn with_sliders(g: GridView, ui: UiView) -> GridView {
    GridView {
        params: Params {
            feed: if ui.feed_slider_value != ui.last_feed_slider_value && ui.feed_slider_value
                <= MAX_RATE {
                ui.feed_slider_value
            } else {
                g.params.feed
            },
            kill: if ui.kill_slider_value != ui.last_kill_slider_value && ui.kill_slider_value
                <= MAX_RATE {
                ui.kill_slider_value
            } else {
                g.params.kill
            },
            ..g.params
        },
        ..g
    }
}

/// The grid cleared: A at 1 and B at 0 in every cell.
pub open spec fn cleared(g: GridView) -> GridView {
    GridView {
        cells: Seq::new(
            g.cells.len(),
            |i: int|
                if i % 2 == 0 {
                    FULL
                } else {
                    0u16
                },
        ),
        ..g
    }
}

/// The grid after one step.
pub open spec fn stepped(g: GridView) -> GridView {
    GridView {
        cells: passes(g.cells, g.width, g.height, g.params, g.params.iterations as nat),
        ..g
    }
}

/// The grid after one frame in which the draw among the presets is `r`: the
/// clear button clears it, the random preset button takes the preset that
/// `r` stands for, the sliders set their rates, the pointer draws, and the
/// grid takes one step.
pub open spec fn updated(g: GridView, ui: UiView, input: InputView, r: nat) -> GridView {
    let g1 = if ui.clear_button {
        cleared(g)
    } else {
        g
    };
    let g2 = if ui.random_preset_button {
        with_preset(g1, other_preset(g1.preset, r))
    } else {
        g1
    };
    stepped(after_pointer(with_sliders(g2, ui), input))
}

/// The coordinate on an axis of `old_len` cells that the middle of cell `x`
/// on an axis of `new_len` cells falls on.
pub open spec fn sample(x: int, new_len: int, old_len: int) -> int {
    ((2 * x + 1) * old_len) / (2 * new_len)
}

/// The buffer of a grid of `new_width` by `new_height` cells, each cell
/// taken from the cell of the old grid that its middle falls on.
pub open spec fn resampled(
    cells: Seq<u16>,
    old_width: int,
    old_height: int,
    new_width: int,
    new_height: int,
) -> Seq<u16> {
    Seq::new(
        (2 * new_width * new_height) as nat,
        |i: int|
            cells[2 * (sample((i / 2) % new_width, new_width, old_width) + sample(
                (i / 2) / new_width,
                new_height,
                old_height,
            ) * old_width) + i % 2],
    )
}

/// The coordinate on the old axis that cell `x` of the new axis is taken
/// from.
fn sample_index(x: i32, new_len: i32, old_len: i32) -> (s: i32)
    requires
        0 <= x < new_len,
        0 < old_len,
    ensures
        s == sample(x as int, new_len as int, old_len as int),
        0 <= s < old_len,
{
    assert(0 <= (2 * x + 1) * old_len < (2 * new_len) * old_len <= 0x1_0000_0000 * 0x8000_0000)
        by (nonlinear_arith)
        requires
            0 <= x < new_len <= 0x8000_0000,
            0 < old_len <= 0x8000_0000,
    ;
    let n: i128 = (2 * (x as i128) + 1) * (old_len as i128);
    let q = div_floor(n, 2 * (new_len as i128));
    assert(q < old_len) by (nonlinear_arith)
        requires
            q * (2 * new_len) <= n,
            n < (2 * new_len) * old_len,
            new_len > 0,
    ;
    q as i32
}

impl ReactionDiffusion {
    /// Whether the grid is as its methods keep it: its view valid and the
    /// second buffer as long as the first.
    pub closed spec fn wf(&self) -> bool {
        &&& self@.valid()
        &&& self.output@.len() == self.input@.len()
    }

    /// A fresh grid for a screen of `screen` pixels: two cells for every
    /// three pixels along each side, A at 1, B seeded in the middle. Refused
    /// if the grid would have no cells or too many, or if the parameters are
    /// at fault.
    pub fn new(screen: (i32, i32), params: Params) -> (made: Result<Self, ConfigError>)
        ensures
            made matches Ok(grid) ==> grid.wf() && grid@ == (GridView {
                screen: (screen.0 as int, screen.1 as int),
                width: simulation_side(screen.0 as int),
                height: simulation_side(screen.1 as int),
                cells: initial_cells(
                    simulation_side(screen.0 as int),
                    simulation_side(screen.1 as int),
                ),
                params,
                last_mouse_position: (-1, -1),
                preset: 0,
            }),
            made matches Err(e) ==> e == if !valid_size(
                simulation_side(screen.0 as int),
                simulation_side(screen.1 as int),
            ) {
                ConfigError::Size
            } else {
                params.fault().unwrap()
            },
            made is Ok <==> valid_size(
                simulation_side(screen.0 as int),
                simulation_side(screen.1 as int),
            ) && params.valid(),
    {
        let width = simulation_size(screen.0);
        let height = simulation_size(screen.1);
        if !size_is_valid(width, height) {
            return Err(ConfigError::Size);
        }
        match params.check() {
            Err(e) => {
                return Err(e);
            },
            Ok(()) => {},
        }
        assert(2 * (width as int) * (height as int) == 2 * ((width as int) * (height as int)))
            by (nonlinear_arith);
        assert((width as int) * (height as int) * 2 == 2 * ((width as int) * (height as int)))
            by (nonlinear_arith);
        let len: usize = (width as usize) * (height as usize) * 2;
        let mut input: Vec<u16> = vec![0u16; len];
        let output: Vec<u16> = vec![0u16; len];
        init_cells(&mut input, width, height);
        Ok(
            Self {
                screen,
                width,
                height,
                input,
                output,
                params,
                last_mouse_position: (-1, -1),
                current_feed_kill_pair_i: 0,
            },
        )
    }

    pub fn width(&self) -> (width: i32)
        ensures
            width == self@.width,
    {
        self.width
    }

    pub fn height(&self) -> (height: i32)
        ensures
            height == self@.height,
    {
        self.height
    }

    pub fn params(&self) -> (params: Params)
        ensures
            params == self@.params,
    {
        self.params
    }

    /// The buffer that is read: two values per cell, row by row.
    pub fn cells(&self) -> (cells: &Vec<u16>)
        ensures
            cells@ == self@.cells,
    {
        &self.input
    }

    /// The A and B values of the cell `(x, y)`, both axes wrapping.
    pub fn get(&self, x: i32, y: i32) -> (values: (u16, u16))
        requires
            self.wf(),
        ensures
            values.0 == value_at(self@.cells, self@.width, self@.height, x as int, y as int, 0),
            values.1 == value_at(self@.cells, self@.width, self@.height, x as int, y as int, 1),
    {
        let i = cell_xy_to_index(x, y, self.width, self.height);
        (self.input[i], self.input[i + 1])
    }

    /// Stamps the brush once, centred on the cell `(cx, cy)`.
    pub fn paint(&mut self, cx: i64, cy: i64)
        requires
            old(self).wf(),
        ensures
            final(self).wf(),
            final(self)@ == (GridView {
                cells: painted(old(self)@.cells, old(self)@.width, cx as int, cy as int),
                ..old(self)@
            }),
    {
        let ghost w = self.width as int;
        let ghost h = self.height as int;
        let ghost before = self.input@;
        let width = self.width as i64;
        let height = self.height as i64;
        let r = BRUSH_RADIUS;
        proof {
            assert(2 * w * h == 2 * (w * h)) by (nonlinear_arith);
        }
        if cx < -r || cx >= width + r || cy < -r || cy >= height + r {
            proof {
                assert forall|i: int| 0 <= i < before.len() implies before[i] == #[trigger] painted(
                    before,
                    w,
                    cx as int,
                    cy as int,
                )[i] by {
                    lemma_place(i, w, h);
                    if in_brush((i / 2) % w, (i / 2) / w, cx as int, cy as int) {
                        lemma_brush_reach((i / 2) % w, (i / 2) / w, cx as int, cy as int);
                    }
                }
                assert(before =~= painted(before, w, cx as int, cy as int));
            }
            return ;
        }
        let x_lo = if cx - r < 0 {
            0
        } else {
            cx - r
        };
        let x_hi = if cx + r + 1 > width {
            width
        } else {
            cx + r + 1
        };
        let y_lo = if cy - r < 0 {
            0
        } else {
            cy - r
        };
        let y_hi = if cy + r + 1 > height {
            height
        } else {
            cy + r + 1
        };
        let mut y = y_lo;
        proof {
            assert(painted_to(before, before, w, cx as int, cy as int, 0, 0)) by {
                assert forall|i: int| 0 <= i < before.len() implies !stamped(
                    i,
                    w,
                    cx as int,
                    cy as int,
                    0,
                    0,
                ) by {
                    lemma_place(i, w, h);
                }
            }
            lemma_painted_to_skip(
                before,
                before,
                w,
                h,
                cx as int,
                cy as int,
                0,
                0,
                y_lo as int,
                x_lo as int,
            );
        }
        while y < y_hi
            invariant
                self.wf(),
                self@ == (GridView { cells: self.input@, ..old(self)@ }),
                before == old(self)@.cells,
                w == self.width,
                h == self.height,
                width == w,
                height == h,
                r == BRUSH_RADIUS,
                self.input@.len() == 2 * (w * h),
                0 <= x_lo <= x_hi <= w,
                x_lo == if cx - r < 0 {
                    0
                } else {
                    cx - r
                },
                x_hi == if cx + r + 1 > w {
                    w
                } else {
                    cx + r + 1
                },
                y_hi == if cy + r + 1 > h {
                    h
                } else {
                    cy + r + 1
                },
                0 <= y_lo <= y <= y_hi <= h,
                y_lo == if cy - r < 0 {
                    0
                } else {
                    cy - r
                },
                painted_to(self.input@, before, w, cx as int, cy as int, y as int, x_lo as int),
            decreases y_hi - y,
        {
            let mut x = x_lo;
            while x < x_hi
                invariant
                    self.wf(),
                    self@ == (GridView { cells: self.input@, ..old(self)@ }),
                    w == self.width,
                    h == self.height,
                    width == w,
                    r == BRUSH_RADIUS,
                    self.input@.len() == 2 * (w * h),
                    0 <= x_lo <= x <= x_hi <= w,
                    cx - r <= x_lo,
                    x_hi <= cx + r + 1,
                    0 <= y < h,
                    cy - r <= y <= cy + r,
                    painted_to(self.input@, before, w, cx as int, cy as int, y as int, x as int),
                decreases x_hi - x,
            {
                let dx = x - cx;
                let dy = y - cy;
                proof {
                    assert(0 <= dx * dx <= 9 && 0 <= dy * dy <= 9) by (nonlinear_arith)
                        requires
                            -3 <= dx <= 3,
                            -3 <= dy <= 3,
                    ;
                    lemma_cell_in_grid(x as int, y as int, w, h);
                    lemma_painted_to_next(
                        self.input@,
                        before,
                        w,
                        h,
                        cx as int,
                        cy as int,
                        y as int,
                        x as int,
                    );
                }
                if dx * dx + dy * dy <= r * r {
                    let i = ((x + y * width) * 2 + 1) as usize;
                    self.input[i] = FULL;
                }
                x += 1;
            }
            proof {
                lemma_painted_to_skip(
                    self.input@,
                    before,
                    w,
                    h,
                    cx as int,
                    cy as int,
                    y as int,
                    x_hi as int,
                    y + 1,
                    x_lo as int,
                );
            }
            y += 1;
        }
        proof {
            lemma_painted_to_skip(
                self.input@,
                before,
                w,
                h,
                cx as int,
                cy as int,
                y_hi as int,
                x_lo as int,
                h,
                0,
            );
            assert forall|i: int| 0 <= i < before.len() implies self.input@[i] == #[trigger] painted(
                before,
                w,
                cx as int,
                cy as int,
            )[i] by {
                lemma_place(i, w, h);
                assert(self.input@[i] == if stamped(i, w, cx as int, cy as int, h, 0) {
                    FULL
                } else {
                    before[i]
                });
            }
            assert(self.input@ =~= painted(before, w, cx as int, cy as int));
        }
    }

    /// The cell under the screen point `p`.
    pub fn cell_under(&self, p: (i32, i32)) -> (c: (i64, i64))
        requires
            self.wf(),
        ensures
            (c.0 as int, c.1 as int) == screen_to_cell(
                (p.0 as int, p.1 as int),
                self@.screen,
                self@.width,
                self@.height,
            ),
    {
        assert(-0x8000_0000 * 0x8000_0000 <= p.0 * self.width <= 0x8000_0000 * 0x8000_0000)
            by (nonlinear_arith)
            requires
                -0x8000_0000 <= p.0 <= 0x8000_0000,
                0 <= self.width <= 0x8000_0000,
        ;
        assert(-0x8000_0000 * 0x8000_0000 <= p.1 * self.height <= 0x8000_0000 * 0x8000_0000)
            by (nonlinear_arith)
            requires
                -0x8000_0000 <= p.1 <= 0x8000_0000,
                0 <= self.height <= 0x8000_0000,
        ;
        proof {
            lemma_side_positive(self.screen.0 as int);
            lemma_side_positive(self.screen.1 as int);
        }
        let gx = div_floor(p.0 as i128 * self.width as i128, self.screen.0 as i128);
        let gy = div_floor(p.1 as i128 * self.height as i128, self.screen.1 as i128);
        (gx as i64, (self.height as i128 - 1 - gy) as i64)
    }

    /// The number of stamps on the way from `from` to `to`.
    pub fn stamp_count(from: (i32, i32), to: (i32, i32)) -> (n: u64)
        ensures
            n == stamps((from.0 as int, from.1 as int), (to.0 as int, to.1 as int)),
            1 <= n <= 0x2_0000_0000,
    {
        let dx: i128 = to.0 as i128 - from.0 as i128;
        let dy: i128 = to.1 as i128 - from.1 as i128;
        assert(0 <= dx * dx <= 0x1_0000_0000 * 0x1_0000_0000) by (nonlinear_arith)
            requires
                -0x1_0000_0000 <= dx <= 0x1_0000_0000,
        ;
        assert(0 <= dy * dy <= 0x1_0000_0000 * 0x1_0000_0000) by (nonlinear_arith)
            requires
                -0x1_0000_0000 <= dy <= 0x1_0000_0000,
        ;
        let d2: u128 = (dx * dx + dy * dy) as u128;
        let r = sqrt_round(d2);
        proof {
            let a = (from.0 as int, from.1 as int);
            let b = (to.0 as int, to.1 as int);
            assert(d2 == distance_squared(a, b));
            if d2 == 0 && r != 0 {
                assert((2 * r - 1) * (2 * r - 1) > 0) by (nonlinear_arith)
                    requires
                        r >= 1,
                ;
            }
            if d2 != 0 {
                if r == 0 {
                    assert((2 * (r as int) + 1) * (2 * (r as int) + 1) == 1) by (nonlinear_arith)
                        requires
                            r == 0,
                    ;
                }
                assert(r != 0);
                assert(is_rounded_sqrt(r as int, distance_squared(a, b)));
                let chosen = stamps(a, b);
                assert(is_rounded_sqrt(chosen, distance_squared(a, b)));
                lemma_rounded_sqrt_unique(r as int, chosen, distance_squared(a, b));
            }
        }
        if r == 0 {
            1
        } else {
            r
        }
    }

    /// Draws the stroke from the screen point `from` to the screen point
    /// `to`: one stamp for every pixel of the way, at least one, the last of
    /// them on `to`.
    pub fn stroke(&mut self, from: (i32, i32), to: (i32, i32))
        requires
            old(self).wf(),
        ensures
            final(self).wf(),
            final(self)@ == (GridView {
                cells: stroked(
                    old(self)@.cells,
                    old(self)@.screen,
                    old(self)@.width,
                    old(self)@.height,
                    (from.0 as int, from.1 as int),
                    (to.0 as int, to.1 as int),
                    stamps((from.0 as int, from.1 as int), (to.0 as int, to.1 as int)) as nat,
                ),
                ..old(self)@
            }),
    {
        let ghost a = (from.0 as int, from.1 as int);
        let ghost b = (to.0 as int, to.1 as int);
        let n = Self::stamp_count(from, to);
        let mut i: u64 = 0;
        while i < n
            invariant
                self.wf(),
                a == (from.0 as int, from.1 as int),
                b == (to.0 as int, to.1 as int),
                n == stamps(a, b),
                i <= n <= 0x2_0000_0000,
                self@ == (GridView {
                    cells: stroked(
                        old(self)@.cells,
                        old(self)@.screen,
                        old(self)@.width,
                        old(self)@.height,
                        a,
                        b,
                        i as nat,
                    ),
                    ..old(self)@
                }),
            decreases n - i,
        {
            i += 1;
            let p = (lerp_round(from.0, to.0, i, n), lerp_round(from.1, to.1, i, n));
            let c = self.cell_under(p);
            self.paint(c.0, c.1);
        }
    }

    /// Deals with the pointer: draws a stroke to the cursor if the brush
    /// draws this frame, and lifts the brush if it does not.
    pub fn paint_from_input(&mut self, input: &Input)
        requires
            old(self).wf(),
        ensures
            final(self).wf(),
            final(self)@ == after_pointer(old(self)@, input@),
    {
        if input.get_button_down(Button::Left) || (input.get_button(Button::Left)
            && input.mouse_moved()) {
            let mouse_position = input.mouse_position();
            if self.last_mouse_position.0 == -1 && self.last_mouse_position.1 == -1 {
                self.last_mouse_position = mouse_position;
            }
            let from = self.last_mouse_position;
            self.stroke(from, mouse_position);
            self.last_mouse_position = mouse_position;
        } else {
            self.last_mouse_position = (-1, -1);
        }
    }

    /// The number of the preset in use.
    pub fn preset_index(&self) -> (i: usize)
        ensures
            i == self@.preset,
    {
        self.current_feed_kill_pair_i
    }

    /// Takes the feed and kill rates of preset `i`.
    pub fn use_preset(&mut self, i: usize)
        requires
            old(self).wf(),
            i < PRESET_COUNT,
        ensures
            final(self).wf(),
            final(self)@ == with_preset(old(self)@, i as nat),
    {
        let pair = preset(i);
        self.params.feed = pair.0;
        self.params.kill = pair.1;
        self.current_feed_kill_pair_i = i;
    }

    /// Takes a preset other than the one in use, drawn at random.
    pub fn random_preset(&mut self)
        requires
            old(self).wf(),
        ensures
            final(self).wf(),
            exists|r: nat|
                r < PRESET_COUNT - 1 && final(self)@ == with_preset(
                    old(self)@,
                    #[trigger] other_preset(old(self)@.preset, r),
                ),
    {
        let r = random_below(PRESET_COUNT - 1);
        let picked = pick_preset(self.current_feed_kill_pair_i, r);
        self.use_preset(picked);
        assert(self@ == with_preset(old(self)@, other_preset(old(self)@.preset, r as nat)));
    }

    /// Sets the feed rate, in thousandths. A rate above the largest is
    /// refused and changes nothing.
    pub fn set_feed(&mut self, feed: u32) -> (set: Result<(), ConfigError>)
        requires
            old(self).wf(),
        ensures
            final(self).wf(),
            set == if feed <= MAX_RATE {
                Ok::<(), ConfigError>(())
            } else {
                Err(ConfigError::Feed)
            },
            final(self)@ == if feed <= MAX_RATE {
                GridView { params: Params { feed, ..old(self)@.params }, ..old(self)@ }
            } else {
                old(self)@
            },
    {
        if feed > MAX_RATE {
            return Err(ConfigError::Feed);
        }
        self.params.feed = feed;
        Ok(())
    }

    /// Sets the kill rate, in thousandths. A rate above the largest is
    /// refused and changes nothing.
    pub fn set_kill(&mut self, kill: u32) -> (set: Result<(), ConfigError>)
        requires
            old(self).wf(),
        ensures
            final(self).wf(),
            set == if kill <= MAX_RATE {
                Ok::<(), ConfigError>(())
            } else {
                Err(ConfigError::Kill)
            },
            final(self)@ == if kill <= MAX_RATE {
                GridView { params: Params { kill, ..old(self)@.params }, ..old(self)@ }
            } else {
                old(self)@
            },
    {
        if kill > MAX_RATE {
            return Err(ConfigError::Kill);
        }
        self.params.kill = kill;
        Ok(())
    }

    /// One frame of the simulation, with `r` as the draw among the presets:
    /// see [`updated`].
    pub fn update(&mut self, ui: &ReactionDiffusionUI, input: &Input, r: usize)
        requires
            old(self).wf(),
            r < PRESET_COUNT - 1,
        ensures
            final(self).wf(),
            final(self)@ == updated(old(self)@, ui@, input@, r as nat),
    {
        if ui.clear_button() {
            self.clear();
        }
        if ui.random_preset_button() {
            let picked = pick_preset(self.current_feed_kill_pair_i, r);
            self.use_preset(picked);
        }
        if ui.feed_slider_value_changed() {
            let _ = self.set_feed(ui.feed_slider_value());
        }
        if ui.kill_slider_value_changed() {
            let _ = self.set_kill(ui.kill_slider_value());
        }
        self.paint_from_input(input);
        self.step();
    }

    /// One frame of the simulation. If the random preset button was clicked,
    /// the preset is drawn at random among those not in use.
    pub fn on_update(&mut self, ui: &ReactionDiffusionUI, input: &Input)
        requires
            old(self).wf(),
        ensures
            final(self).wf(),
            exists|r: nat|
                r < PRESET_COUNT - 1 && final(self)@ == #[trigger] updated(
                    old(self)@,
                    ui@,
                    input@,
                    r,
                ),
    {
        let r = if ui.random_preset_button() {
            random_below(PRESET_COUNT - 1)
        } else {
            0
        };
        self.update(ui, input, r);
        assert(self@ == updated(old(self)@, ui@, input@, r as nat));
    }

    /// Takes over a new screen size: the grid gets the size that goes with
    /// it, and every cell of the new grid is taken from the cell of the old
    /// one that its middle falls on. A screen whose grid would have no cells
    /// or too many is refused and changes nothing.
    pub fn on_resize(&mut self, screen: (i32, i32)) -> (resized: Result<(), ConfigError>)
        requires
            old(self).wf(),
        ensures
            final(self).wf(),
            resized == if valid_size(
                simulation_side(screen.0 as int),
                simulation_side(screen.1 as int),
            ) {
                Ok::<(), ConfigError>(())
            } else {
                Err(ConfigError::Size)
            },
            final(self)@ == if valid_size(
                simulation_side(screen.0 as int),
                simulation_side(screen.1 as int),
            ) {
                GridView {
                    screen: (screen.0 as int, screen.1 as int),
                    width: simulation_side(screen.0 as int),
                    height: simulation_side(screen.1 as int),
                    cells: resampled(
                        old(self)@.cells,
                        old(self)@.width,
                        old(self)@.height,
                        simulation_side(screen.0 as int),
                        simulation_side(screen.1 as int),
                    ),
                    ..old(self)@
                }
            } else {
                old(self)@
            },
    {
        let width = simulation_size(screen.0);
        let height = simulation_size(screen.1);
        if !size_is_valid(width, height) {
            return Err(ConfigError::Size);
        }
        let ghost w = width as int;
        let ghost h = height as int;
        let ghost ow = self.width as int;
        let ghost oh = self.height as int;
        let ghost source = self.input@;
        proof {
            assert(2 * w * h == 2 * (w * h)) by (nonlinear_arith);
            assert(w * h * 2 == 2 * (w * h)) by (nonlinear_arith);
            assert(2 * ow * oh == 2 * (ow * oh)) by (nonlinear_arith);
            assert(0 * w == 0) by (nonlinear_arith);
        }
        let len: usize = (width as usize) * (height as usize) * 2;
        let mut cells: Vec<u16> = Vec::new();
        let mut x: i32 = 0;
        let mut y: i32 = 0;
        let mut j: usize = 0;
        while y < height
            invariant
                valid_size(w, h),
                valid_size(ow, oh),
                w == width,
                h == height,
                ow == self.width,
                oh == self.height,
                source == self.input@,
                source.len() == 2 * (ow * oh),
                self@ == old(self)@,
                self.wf(),
                0 <= x < w,
                0 <= y <= h,
                y == h ==> x == 0,
                j == x + y * w,
                j <= w * h,
                cells@.len() == 2 * j,
                forall|i: int|
                    0 <= i < 2 * j ==> #[trigger] cells@[i] == resampled(source, ow, oh, w, h)[i],
            decreases w * h - j,
        {
            proof {
                lemma_cell_in_grid(x as int, y as int, w, h);
            }
            let sx = sample_index(x, width, self.width);
            let sy = sample_index(y, height, self.height);
            proof {
                lemma_cell_in_grid(sx as int, sy as int, ow, oh);
            }
            let i = ((sx + sy * self.width) * 2) as usize;
            let a = self.input[i];
            let b = self.input[i + 1];
            let ghost before = cells@;
            cells.push(a);
            cells.push(b);
            proof {
                assert forall|k: int| 0 <= k < 2 * (j + 1) implies #[trigger] cells@[k]
                    == resampled(source, ow, oh, w, h)[k] by {
                    if k < 2 * j {
                        assert(before[k] == resampled(source, ow, oh, w, h)[k]);
                    } else {
                        assert(k / 2 == j);
                    }
                }
                assert((y + 1) * w == y * w + w) by (nonlinear_arith);
            }
            j += 1;
            x += 1;
            if x == width {
                x = 0;
                y += 1;
            }
        }
        proof {
            assert(h * w == w * h) by (nonlinear_arith);
            assert(cells@ =~= resampled(source, ow, oh, w, h));
        }
        self.output = vec![0u16; len];
        self.input = cells;
        self.width = width;
        self.height = height;
        self.screen = screen;
        Ok(())
    }

    /// One pass: every cell of the second buffer is reckoned from the first
    /// buffer, then the two change places.
    pub fn pass(&mut self)
        requires
            old(self).wf(),
        ensures
            final(self).wf(),
            final(self)@ == (GridView {
                cells: pass_cells(
                    old(self)@.cells,
                    old(self)@.width,
                    old(self)@.height,
                    old(self)@.params,
                ),
                ..old(self)@
            }),
    {
        simulation_pass(&self.input, &mut self.output, self.width, self.height, &self.params);
        std::mem::swap(&mut self.input, &mut self.output);
    }

    /// One step: as many passes as the parameters ask for.
    pub fn step(&mut self)
        requires
            old(self).wf(),
        ensures
            final(self).wf(),
            final(self)@ == (GridView {
                cells: passes(
                    old(self)@.cells,
                    old(self)@.width,
                    old(self)@.height,
                    old(self)@.params,
                    old(self)@.params.iterations as nat,
                ),
                ..old(self)@
            }),
    {
        let iterations = self.params.iterations;
        let mut done: u32 = 0;
        while done < iterations
            invariant
                self.wf(),
                done <= iterations,
                iterations == old(self)@.params.iterations,
                self@ == (GridView {
                    cells: passes(
                        old(self)@.cells,
                        old(self)@.width,
                        old(self)@.height,
                        old(self)@.params,
                        done as nat,
                    ),
                    ..old(self)@
                }),
            decreases iterations - done,
        {
            self.pass();
            done += 1;
        }
    }

    /// Clears the grid: A at 1 and B at 0 in every cell.
    pub fn clear(&mut self)
        requires
            old(self).wf(),
        ensures
            final(self).wf(),
            final(self)@ == (GridView {
                cells: Seq::new(
                    old(self)@.cells.len(),
                    |i: int|
                        if i % 2 == 0 {
                            FULL
                        } else {
                            0u16
                        },
                ),
                ..old(self)@
            }),
    {
        let n = self.input.len();
        let ghost w = self.width as int;
        let ghost h = self.height as int;
        assert(2 * w * h == 2 * (w * h)) by (nonlinear_arith);
        let mut i: usize = 0;
        while i < n
            invariant
                self.wf(),
                n == self.input@.len(),
                n == 2 * (w * h),
                i % 2 == 0,
                i <= n,
                self@ == (GridView { cells: self.input@, ..old(self)@ }),
                forall|k: int|
                    0 <= k < i ==> #[trigger] self.input@[k] == if k % 2 == 0 {
                        FULL
                    } else {
                        0u16
                    },
            decreases n - i,
        {
            self.input[i] = FULL;
            self.input[i + 1] = 0;
            i += 2;
        }
        assert(self.input@ =~= Seq::new(
            old(self)@.cells.len(),
            |i: int|
                if i % 2 == 0 {
                    FULL
                } else {
                    0u16
                },
        ));
    }
}

} // verus!
