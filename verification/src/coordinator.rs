//! The work coordinator's bookkeeping: the tile grid, the list of render
//! jobs, the order in which a job visits its pixels, and where each pixel
//! lands in the frame buffer.
use vstd::prelude::*;
use crate::cli::RenderStrategy;

verus! {

/// A pixel position. `y` counts upward from the bottom image row.
#[derive(Clone, Copy, Debug, PartialEq, Eq, Structural)]
pub struct Pixel {
    pub x: u32,
    pub y: u32,
}

/// One unit of work: the half-open pixel rectangle from `bottom_left`
/// (inclusive) to `top_right` (exclusive), rendered with
/// `samples_per_pixel` samples at each pixel.
#[derive(Clone, Copy, Debug, PartialEq, Eq, Structural)]
pub struct RenderJob {
    pub top_right: Pixel,
    pub bottom_left: Pixel,
    pub samples_per_pixel: u32,
}

/// Why no plan can be made.
#[derive(Clone, Copy, Debug, PartialEq, Eq, Structural)]
pub enum PlanError {
    /// A tiled strategy was asked for with tiles of edge zero.
    ZeroTileSize,
    /// An averaging strategy was asked for with no workers to share the samples.
    NoWorkers,
}

/// The jobs of one render, in dispatch order, with the figures they were
/// derived from.
#[derive(Debug)]
pub struct RenderPlan {
    pub jobs: Vec<RenderJob>,
    pub horizontal_tiles: u32,
    pub vertical_tiles: u32,
    /// How many jobs render each tile; every contribution is divided by this.
    pub jobs_per_tile: u32,
    pub samples_per_job: u32,
}

/// The least number of pieces of length `piece` that cover `extent`.
pub open spec fn ceil_div(extent: int, piece: int) -> int
    recommends
        piece > 0,
{
    if extent % piece == 0 {
        extent / piece
    } else {
        extent / piece + 1
    }
}

pub open spec fn is_tiled(strategy: RenderStrategy) -> bool {
    strategy != RenderStrategy::ProgressiveAverage
}

pub open spec fn is_averaging(strategy: RenderStrategy) -> bool {
    strategy != RenderStrategy::TileFull
}

/// Number of tiles along an axis of `extent` pixels.
pub open spec fn grid_extent(strategy: RenderStrategy, extent: int, tile_size: int) -> int {
    if is_tiled(strategy) {
        ceil_div(extent, tile_size)
    } else {
        1
    }
}

/// Number of jobs that render each tile.
pub open spec fn fan_out(strategy: RenderStrategy, workers: int) -> int {
    if is_averaging(strategy) {
        workers
    } else {
        1
    }
}

/// Samples that one job spends on each of its pixels.
pub open spec fn job_samples(strategy: RenderStrategy, samples: int, workers: int) -> int {
    if is_averaging(strategy) {
        ceil_div(samples, workers)
    } else {
        samples
    }
}

pub open spec fn min_int(a: int, b: int) -> int {
    if a <= b {
        a
    } else {
        b
    }
}

/// The job for the tile in column `i` and row `j` of the grid (row 0 is the
/// bottom one). Under the progressive strategy the only tile is the image.
pub open spec fn tile_job(
    strategy: RenderStrategy,
    width: u32,
    height: u32,
    tile_size: u32,
    i: int,
    j: int,
    samples: u32,
) -> RenderJob {
    if is_tiled(strategy) {
        RenderJob {
            top_right: Pixel {
                x: min_int((i + 1) * tile_size, width as int) as u32,
                y: min_int((j + 1) * tile_size, height as int) as u32,
            },
            bottom_left: Pixel { x: (i * tile_size) as u32, y: (j * tile_size) as u32 },
            samples_per_pixel: samples,
        }
    } else {
        RenderJob {
            top_right: Pixel { x: width, y: height },
            bottom_left: Pixel { x: 0, y: 0 },
            samples_per_pixel: samples,
        }
    }
}

/// Place in the dispatch order of copy `c` of the tile in column `i`, row
/// `j`: rows from the top one down, columns left to right, copies together.
pub open spec fn job_position(columns: int, rows: int, copies: int, i: int, j: int, c: int) -> int {
    ((rows - 1 - j) * columns + i) * copies + c
}

impl RenderJob {
    /// Whether the pixel `(x, y)` lies in this job's rectangle.
    pub open spec fn covers(&self, x: int, y: int) -> bool {
        self.bottom_left.x <= x < self.top_right.x && self.bottom_left.y <= y < self.top_right.y
    }

    /// Number of scanlines the job publishes.
    pub open spec fn spec_row_count(&self) -> int {
        if self.top_right.y >= self.bottom_left.y {
            self.top_right.y - self.bottom_left.y
        } else {
            0
        }
    }

    /// Number of pixels in each scanline.
    pub open spec fn spec_row_len(&self) -> int {
        if self.top_right.x >= self.bottom_left.x {
            self.top_right.x - self.bottom_left.x
        } else {
            0
        }
    }

    /// The pixels of the `k`-th scanline: the top row of the rectangle comes
    /// first, and within a row the pixels run left to right.
    pub open spec fn spec_scanline(&self, k: int) -> Seq<Pixel> {
        Seq::new(
            self.spec_row_len() as nat,
            |n: int| Pixel { x: (self.bottom_left.x + n) as u32, y: (self.top_right.y - 1 - k) as u32 },
        )
    }

    pub fn row_count(&self) -> (r: u32)
        ensures
            r == self.spec_row_count(),
    {
        if self.top_right.y >= self.bottom_left.y {
            self.top_right.y - self.bottom_left.y
        } else {
            0
        }
    }

    /// The pixels of the `k`-th scanline this job publishes, in order.
    pub fn scanline(&self, k: u32) -> (r: Vec<Pixel>)
        requires
            k < self.spec_row_count(),
        ensures
            r@ == self.spec_scanline(k as int),
            forall|n: int| 0 <= n < r@.len() ==> self.covers(#[trigger] r@[n].x as int, r@[n].y as int),
    {
        let y: u32 = self.top_right.y - 1 - k;
        let mut row: Vec<Pixel> = Vec::new();
        let mut x: u32 = self.bottom_left.x;
        while x < self.top_right.x
            invariant
                self.bottom_left.x <= x,
                x <= self.top_right.x || x == self.bottom_left.x,
                y == self.top_right.y - 1 - k,
                row@.len() == x - self.bottom_left.x,
                forall|n: int| 0 <= n < row@.len() ==> #[trigger] row@[n] == (Pixel {
                    x: (self.bottom_left.x + n) as u32,
                    y: y,
                }),
            decreases self.top_right.x - x,
        {
            row.push(Pixel { x, y });
            x = x + 1;
        }
        assert(row@ =~= self.spec_scanline(k as int));
        row
    }
}

/// Total of the samples that the jobs in `jobs` spend on pixel `(x, y)`.
pub open spec fn samples_at(jobs: Seq<RenderJob>, x: int, y: int) -> int
    decreases jobs.len(),
{
    if jobs.len() == 0 {
        0
    } else {
        samples_at(jobs.drop_last(), x, y) + if jobs.last().covers(x, y) {
            jobs.last().samples_per_pixel as int
        } else {
            0
        }
    }
}

/// Number of jobs in `jobs` that cover pixel `(x, y)`: how many
/// contributions the pixel receives.
pub open spec fn jobs_at(jobs: Seq<RenderJob>, x: int, y: int) -> int
    decreases jobs.len(),
{
    if jobs.len() == 0 {
        0
    } else {
        jobs_at(jobs.drop_last(), x, y) + if jobs.last().covers(x, y) {
            1int
        } else {
            0int
        }
    }
}

/// The error, if any, that stands in the way of a plan.
pub open spec fn plan_error(strategy: RenderStrategy, tile_size: u32, workers: u32) -> Option<
    PlanError,
> {
    if is_tiled(strategy) && tile_size == 0 {
        Some(PlanError::ZeroTileSize)
    } else if is_averaging(strategy) && workers == 0 {
        Some(PlanError::NoWorkers)
    } else {
        None
    }
}

impl RenderPlan {
    /// Whether this is the plan for the given image and settings: the grid,
    /// the fan-out, the per-job sample count, and every job in its place.
    pub open spec fn is_plan_for(
        &self,
        strategy: RenderStrategy,
        width: u32,
        height: u32,
        tile_size: u32,
        samples: u32,
        workers: u32,
    ) -> bool {
        &&& self.horizontal_tiles == grid_extent(strategy, width as int, tile_size as int)
        &&& self.vertical_tiles == grid_extent(strategy, height as int, tile_size as int)
        &&& self.jobs_per_tile == fan_out(strategy, workers as int)
        &&& self.samples_per_job == job_samples(strategy, samples as int, workers as int)
        &&& self.jobs@.len() == self.horizontal_tiles * self.vertical_tiles * self.jobs_per_tile
        &&& forall|i: int, j: int, c: int|
            0 <= i < self.horizontal_tiles && 0 <= j < self.vertical_tiles && 0 <= c
                < self.jobs_per_tile ==> {
                let k = #[trigger] job_position(
                    self.horizontal_tiles as int,
                    self.vertical_tiles as int,
                    self.jobs_per_tile as int,
                    i,
                    j,
                    c,
                );
                0 <= k < self.jobs@.len() && self.jobs@[k] == tile_job(
                    strategy,
                    width,
                    height,
                    tile_size,
                    i,
                    j,
                    self.samples_per_job,
                )
            }
    }
}


/// Index of the tile that holds coordinate `x`.
pub open spec fn tile_index(strategy: RenderStrategy, x: int, tile_size: int) -> int {
    if is_tiled(strategy) {
        x / tile_size
    } else {
        0
    }
}

proof fn lemma_ceil_div(extent: int, piece: int)
    requires
        extent >= 0,
        piece > 0,
    ensures
        0 <= ceil_div(extent, piece) <= extent,
        ceil_div(extent, piece) * piece >= extent,
        (ceil_div(extent, piece) - 1) * piece < extent || extent == 0,
{
    let q = extent / piece;
    let m = extent % piece;
    assert(extent == piece * q + m && 0 <= m < piece) by (nonlinear_arith)
        requires
            q == extent / piece,
            m == extent % piece,
            piece > 0,
    ;
    assert(0 <= q <= extent) by (nonlinear_arith)
        requires
            extent == piece * q + m,
            0 <= m < piece,
            extent >= 0,
    ;
    assert(m != 0 ==> q + 1 <= extent) by (nonlinear_arith)
        requires
            extent == piece * q + m,
            0 <= m < piece,
            0 <= q,
    ;
    let n = ceil_div(extent, piece);
    assert(n * piece >= extent && ((n - 1) * piece < extent || extent == 0)) by (nonlinear_arith)
        requires
            extent == piece * q + m,
            0 <= m < piece,
            n == (if m == 0 { q } else { q + 1 }),
    ;
}

/// Every coordinate inside the extent falls in one of the tiles.
proof fn lemma_tile_index_range(strategy: RenderStrategy, extent: int, tile_size: int, x: int)
    requires
        is_tiled(strategy) ==> tile_size > 0,
        0 <= x < extent,
    ensures
        0 <= tile_index(strategy, x, tile_size) < grid_extent(strategy, extent, tile_size),
{
    if is_tiled(strategy) {
        let n = ceil_div(extent, tile_size);
        let q = x / tile_size;
        lemma_ceil_div(extent, tile_size);
        lemma_tile_of(x, tile_size, q);
        assert(q < n) by (nonlinear_arith)
            requires
                q * tile_size <= x,
                x < extent,
                n * tile_size >= extent,
                tile_size > 0,
        ;
    }
}

/// The origin of every tile of the grid lies inside the extent.
proof fn lemma_tile_origin(extent: int, piece: int, i: int)
    requires
        extent >= 0,
        piece > 0,
        0 <= i < ceil_div(extent, piece),
    ensures
        0 <= i * piece < extent,
{
    let n = ceil_div(extent, piece);
    lemma_ceil_div(extent, piece);
    assert(0 <= i * piece <= (n - 1) * piece) by (nonlinear_arith)
        requires
            0 <= i <= n - 1,
            piece > 0,
    ;
}

proof fn lemma_tile_of(x: int, piece: int, i: int)
    requires
        x >= 0,
        piece > 0,
    ensures
        (i * piece <= x < (i + 1) * piece) <==> x / piece == i,
        x / piece >= 0,
{
    let q = x / piece;
    let m = x % piece;
    assert(x == piece * q + m && 0 <= m < piece) by (nonlinear_arith)
        requires
            q == x / piece,
            m == x % piece,
            piece > 0,
    ;
    assert(q >= 0) by (nonlinear_arith)
        requires
            x == piece * q + m,
            0 <= m < piece,
            x >= 0,
    ;
    assert((i * piece <= x < (i + 1) * piece) ==> q == i) by (nonlinear_arith)
        requires
            x == piece * q + m,
            0 <= m < piece,
    ;
    assert(q == i ==> (i * piece <= x < (i + 1) * piece)) by (nonlinear_arith)
        requires
            x == piece * q + m,
            0 <= m < piece,
    ;
}

proof fn lemma_digits(hi: int, lo: int, hi2: int, lo2: int, base: int, n: int)
    requires
        0 <= lo < base,
        0 <= lo2 < base,
        0 <= hi < n,
        0 <= hi2,
    ensures
        0 <= hi * base + lo < n * base,
        hi * base + lo == hi2 * base + lo2 ==> hi == hi2 && lo == lo2,
        hi2 < hi ==> hi2 * base + lo2 < hi * base + lo,
{
    assert(0 <= hi * base + lo < n * base) by (nonlinear_arith)
        requires
            0 <= lo < base,
            0 <= hi <= n - 1,
    ;
    assert(hi * base + lo == hi2 * base + lo2 ==> hi == hi2) by (nonlinear_arith)
        requires
            0 <= lo < base,
            0 <= lo2 < base,
    ;
    assert(hi2 < hi ==> hi2 * base + lo2 < hi * base + lo) by (nonlinear_arith)
        requires
            0 <= lo < base,
            0 <= lo2 < base,
    ;
}

/// Positions in the dispatch order are in range and name their tile and
/// copy uniquely.
pub proof fn lemma_job_position(
    columns: int,
    rows: int,
    copies: int,
    i: int,
    j: int,
    c: int,
    i2: int,
    j2: int,
    c2: int,
)
    requires
        0 <= i < columns,
        0 <= j < rows,
        0 <= c < copies,
        0 <= i2 < columns,
        0 <= j2 < rows,
        0 <= c2 < copies,
    ensures
        0 <= job_position(columns, rows, copies, i, j, c) < columns * rows * copies,
        job_position(columns, rows, copies, i, j, c) == job_position(columns, rows, copies, i2, j2, c2)
            ==> i == i2 && j == j2 && c == c2,
{
    let a = (rows - 1 - j) * columns + i;
    let a2 = (rows - 1 - j2) * columns + i2;
    lemma_digits(rows - 1 - j, i, rows - 1 - j2, i2, columns, rows);
    assert(rows * columns == columns * rows) by (nonlinear_arith);
    lemma_digits(a, c, a2, c2, copies, columns * rows);
}

/// Every place of the dispatch order belongs to some tile and copy.
pub proof fn lemma_job_position_onto(columns: int, rows: int, copies: int, k: int)
    requires
        0 <= columns,
        0 <= rows,
        0 <= copies,
        0 <= k < columns * rows * copies,
    ensures
        exists|i: int, j: int, c: int|
            0 <= i < columns && 0 <= j < rows && 0 <= c < copies && #[trigger] job_position(
                columns,
                rows,
                copies,
                i,
                j,
                c,
            ) == k,
{
    assert(copies > 0 && columns > 0 && rows > 0) by (nonlinear_arith)
        requires
            0 <= columns,
            0 <= rows,
            0 <= copies,
            0 < columns * rows * copies,
    ;
    let c = k % copies;
    let a = k / copies;
    assert(k == copies * a + c && 0 <= c < copies) by (nonlinear_arith)
        requires
            c == k % copies,
            a == k / copies,
            copies > 0,
    ;
    assert(0 <= a < columns * rows) by (nonlinear_arith)
        requires
            k == copies * a + c,
            0 <= c < copies,
            0 <= k < (columns * rows) * copies,
    ;
    let i = a % columns;
    let r = a / columns;
    assert(a == columns * r + i && 0 <= i < columns) by (nonlinear_arith)
        requires
            i == a % columns,
            r == a / columns,
            columns > 0,
    ;
    assert(0 <= r < rows) by (nonlinear_arith)
        requires
            a == columns * r + i,
            0 <= i < columns,
            0 <= a < columns * rows,
    ;
    let j = rows - 1 - r;
    assert(job_position(columns, rows, copies, i, j, c) == k) by (nonlinear_arith)
        requires
            job_position(columns, rows, copies, i, j, c) == ((rows - 1 - j) * columns + i) * copies
                + c,
            j == rows - 1 - r,
            a == columns * r + i,
            k == copies * a + c,
    ;
}

proof fn lemma_jobs_at_push(jobs: Seq<RenderJob>, job: RenderJob, x: int, y: int)
    ensures
        jobs_at(jobs.push(job), x, y) == jobs_at(jobs, x, y) + if job.covers(x, y) {
            1int
        } else {
            0int
        },
{
    assert(jobs.push(job).drop_last() =~= jobs);
}

/// Where every job spends the same number of samples per pixel, a pixel's
/// samples are that number for each job that covers it.
pub proof fn lemma_samples_from_jobs(jobs: Seq<RenderJob>, x: int, y: int, per_job: u32)
    requires
        forall|k: int| 0 <= k < jobs.len() ==> (#[trigger] jobs[k]).samples_per_pixel == per_job,
    ensures
        samples_at(jobs, x, y) == jobs_at(jobs, x, y) * per_job,
    decreases jobs.len(),
{
    if jobs.len() > 0 {
        lemma_samples_from_jobs(jobs.drop_last(), x, y, per_job);
        let n = jobs_at(jobs.drop_last(), x, y);
        assert((n + 1) * per_job == n * per_job + per_job) by (nonlinear_arith);
    } else {
        assert(0 * per_job == 0) by (nonlinear_arith);
    }
}

/// A tile's job covers exactly the pixels whose tile indices are the tile's.
proof fn lemma_tile_covers(
    strategy: RenderStrategy,
    width: u32,
    height: u32,
    tile_size: u32,
    i: int,
    j: int,
    samples: u32,
    x: int,
    y: int,
)
    requires
        is_tiled(strategy) ==> tile_size > 0,
        0 <= i < grid_extent(strategy, width as int, tile_size as int),
        0 <= j < grid_extent(strategy, height as int, tile_size as int),
        0 <= x < width,
        0 <= y < height,
    ensures
        tile_job(strategy, width, height, tile_size, i, j, samples).covers(x, y) <==> (tile_index(
            strategy,
            x,
            tile_size as int,
        ) == i && tile_index(strategy, y, tile_size as int) == j),
{
    if is_tiled(strategy) {
        let t = tile_size as int;
        lemma_tile_origin(width as int, t, i);
        lemma_tile_origin(height as int, t, j);
        lemma_tile_of(x, t, i);
        lemma_tile_of(y, t, j);
    }
}

/// Copies of the tile of pixel `(x, y)` that were dispatched before the
/// loops reached tile row `r` (counted from the top), column `i`, copy `c`.
spec fn copies_dispatched(
    strategy: RenderStrategy,
    tile_size: int,
    rows: int,
    copies: int,
    r: int,
    i: int,
    c: int,
    x: int,
    y: int,
) -> int {
    let ti = tile_index(strategy, x, tile_size);
    let tr = rows - 1 - tile_index(strategy, y, tile_size);
    if tr < r || (tr == r && ti < i) {
        copies
    } else if tr == r && ti == i {
        c
    } else {
        0
    }
}

fn ceil_div_u32(extent: u32, piece: u32) -> (n: u32)
    requires
        piece > 0,
    ensures
        n == ceil_div(extent as int, piece as int),
{
    proof {
        lemma_ceil_div(extent as int, piece as int);
    }
    if extent % piece == 0 {
        extent / piece
    } else {
        extent / piece + 1
    }
}

fn make_tile_job(
    strategy: RenderStrategy,
    width: u32,
    height: u32,
    tile_size: u32,
    i: u32,
    j: u32,
    samples: u32,
) -> (job: RenderJob)
    requires
        is_tiled(strategy) ==> tile_size > 0,
        i < grid_extent(strategy, width as int, tile_size as int),
        j < grid_extent(strategy, height as int, tile_size as int),
    ensures
        job == tile_job(strategy, width, height, tile_size, i as int, j as int, samples),
{
    match strategy {
        RenderStrategy::ProgressiveAverage => RenderJob {
            top_right: Pixel { x: width, y: height },
            bottom_left: Pixel { x: 0, y: 0 },
            samples_per_pixel: samples,
        },
        _ => {
            proof {
                lemma_tile_origin(width as int, tile_size as int, i as int);
                lemma_tile_origin(height as int, tile_size as int, j as int);
                assert((i + 1) * tile_size == i * tile_size + tile_size) by (nonlinear_arith);
                assert((j + 1) * tile_size == j * tile_size + tile_size) by (nonlinear_arith);
            }
            let x0: u32 = i * tile_size;
            let y0: u32 = j * tile_size;
            let x1: u32 = if width - x0 < tile_size {
                width
            } else {
                x0 + tile_size
            };
            let y1: u32 = if height - y0 < tile_size {
                height
            } else {
                y0 + tile_size
            };
            RenderJob {
                top_right: Pixel { x: x1, y: y1 },
                bottom_left: Pixel { x: x0, y: y0 },
                samples_per_pixel: samples,
            }
        },
    }
}

/// Whether `jobs` is the dispatch order up to, but not including, copy `c`
/// of the tile in column `i` of tile row `r`, rows counted from the top.
spec fn dispatched(
    jobs: Seq<RenderJob>,
    strategy: RenderStrategy,
    width: u32,
    height: u32,
    tile_size: u32,
    per_job: u32,
    columns: int,
    rows: int,
    copies: int,
    r: int,
    i: int,
    c: int,
) -> bool {
    &&& jobs.len() == (r * columns + i) * copies + c
    &&& forall|k: int| 0 <= k < jobs.len() ==> (#[trigger] jobs[k]).samples_per_pixel == per_job
    &&& forall|i2: int, j2: int, c2: int|
        0 <= i2 < columns && 0 <= j2 < rows && 0 <= c2 < copies && #[trigger] job_position(
            columns,
            rows,
            copies,
            i2,
            j2,
            c2,
        ) < jobs.len() ==> jobs[job_position(columns, rows, copies, i2, j2, c2)] == tile_job(
            strategy,
            width,
            height,
            tile_size,
            i2,
            j2,
            per_job,
        )
    &&& forall|x: int, y: int|
        0 <= x < width && 0 <= y < height ==> #[trigger] jobs_at(jobs, x, y) == copies_dispatched(
            strategy,
            tile_size as int,
            rows,
            copies,
            r,
            i,
            c,
            x,
            y,
        )
}

/// Whether the grid figures are those of the image and the strategy.
spec fn grid_of(
    strategy: RenderStrategy,
    width: u32,
    height: u32,
    tile_size: u32,
    columns: int,
    rows: int,
) -> bool {
    &&& is_tiled(strategy) ==> tile_size > 0
    &&& columns == grid_extent(strategy, width as int, tile_size as int)
    &&& rows == grid_extent(strategy, height as int, tile_size as int)
}

proof fn lemma_dispatched_start(
    strategy: RenderStrategy,
    width: u32,
    height: u32,
    tile_size: u32,
    per_job: u32,
    columns: int,
    rows: int,
    copies: int,
)
    requires
        grid_of(strategy, width, height, tile_size, columns, rows),
    ensures
        dispatched(
            Seq::<RenderJob>::empty(),
            strategy,
            width,
            height,
            tile_size,
            per_job,
            columns,
            rows,
            copies,
            0,
            0,
            0,
        ),
{
    assert((0 * columns + 0) * copies + 0 == 0) by (nonlinear_arith);
    assert forall|x: int, y: int| 0 <= x < width && 0 <= y < height implies #[trigger] jobs_at(
        Seq::<RenderJob>::empty(),
        x,
        y,
    ) == copies_dispatched(strategy, tile_size as int, rows, copies, 0, 0, 0, x, y) by {
        lemma_tile_index_range(strategy, width as int, tile_size as int, x);
        lemma_tile_index_range(strategy, height as int, tile_size as int, y);
    }
}

proof fn lemma_dispatched_push(
    jobs: Seq<RenderJob>,
    strategy: RenderStrategy,
    width: u32,
    height: u32,
    tile_size: u32,
    per_job: u32,
    columns: int,
    rows: int,
    copies: int,
    r: int,
    i: int,
    c: int,
)
    requires
        grid_of(strategy, width, height, tile_size, columns, rows),
        0 <= r < rows,
        0 <= i < columns,
        0 <= c < copies,
        dispatched(jobs, strategy, width, height, tile_size, per_job, columns, rows, copies, r, i, c),
    ensures
        dispatched(
            jobs.push(tile_job(strategy, width, height, tile_size, i, rows - 1 - r, per_job)),
            strategy,
            width,
            height,
            tile_size,
            per_job,
            columns,
            rows,
            copies,
            r,
            i,
            c + 1,
        ),
{
    let j = rows - 1 - r;
    let job = tile_job(strategy, width, height, tile_size, i, j, per_job);
    let after = jobs.push(job);
    assert(jobs.len() == job_position(columns, rows, copies, i, j, c));
    assert forall|i2: int, j2: int, c2: int|
        0 <= i2 < columns && 0 <= j2 < rows && 0 <= c2 < copies && #[trigger] job_position(
            columns,
            rows,
            copies,
            i2,
            j2,
            c2,
        ) < after.len() implies after[job_position(columns, rows, copies, i2, j2, c2)] == tile_job(
        strategy,
        width,
        height,
        tile_size,
        i2,
        j2,
        per_job,
    ) by {
        lemma_job_position(columns, rows, copies, i, j, c, i2, j2, c2);
    }
    assert forall|x: int, y: int| 0 <= x < width && 0 <= y < height implies #[trigger] jobs_at(
        after,
        x,
        y,
    ) == copies_dispatched(strategy, tile_size as int, rows, copies, r, i, c + 1, x, y) by {
        lemma_jobs_at_push(jobs, job, x, y);
        lemma_tile_covers(strategy, width, height, tile_size, i, j, per_job, x, y);
    }
}

proof fn lemma_dispatched_next_tile(
    jobs: Seq<RenderJob>,
    strategy: RenderStrategy,
    width: u32,
    height: u32,
    tile_size: u32,
    per_job: u32,
    columns: int,
    rows: int,
    copies: int,
    r: int,
    i: int,
)
    requires
        dispatched(
            jobs,
            strategy,
            width,
            height,
            tile_size,
            per_job,
            columns,
            rows,
            copies,
            r,
            i,
            copies,
        ),
    ensures
        dispatched(
            jobs,
            strategy,
            width,
            height,
            tile_size,
            per_job,
            columns,
            rows,
            copies,
            r,
            i + 1,
            0,
        ),
{
    assert((r * columns + (i + 1)) * copies + 0 == (r * columns + i) * copies + copies)
        by (nonlinear_arith);
}

proof fn lemma_dispatched_next_row(
    jobs: Seq<RenderJob>,
    strategy: RenderStrategy,
    width: u32,
    height: u32,
    tile_size: u32,
    per_job: u32,
    columns: int,
    rows: int,
    copies: int,
    r: int,
)
    requires
        grid_of(strategy, width, height, tile_size, columns, rows),
        dispatched(
            jobs,
            strategy,
            width,
            height,
            tile_size,
            per_job,
            columns,
            rows,
            copies,
            r,
            columns,
            0,
        ),
    ensures
        dispatched(
            jobs,
            strategy,
            width,
            height,
            tile_size,
            per_job,
            columns,
            rows,
            copies,
            r + 1,
            0,
            0,
        ),
{
    assert(((r + 1) * columns + 0) * copies + 0 == (r * columns + columns) * copies + 0)
        by (nonlinear_arith);
    assert forall|x: int, y: int| 0 <= x < width && 0 <= y < height implies #[trigger] jobs_at(
        jobs,
        x,
        y,
    ) == copies_dispatched(strategy, tile_size as int, rows, copies, r + 1, 0, 0, x, y) by {
        lemma_tile_index_range(strategy, width as int, tile_size as int, x);
        lemma_tile_index_range(strategy, height as int, tile_size as int, y);
    }
}

/// Once the last tile row is through, every job is in its place and every
/// pixel is covered by one job per copy.
proof fn lemma_dispatched_all(
    jobs: Seq<RenderJob>,
    strategy: RenderStrategy,
    width: u32,
    height: u32,
    tile_size: u32,
    per_job: u32,
    columns: int,
    rows: int,
    copies: int,
)
    requires
        grid_of(strategy, width, height, tile_size, columns, rows),
        dispatched(
            jobs,
            strategy,
            width,
            height,
            tile_size,
            per_job,
            columns,
            rows,
            copies,
            rows,
            0,
            0,
        ),
    ensures
        jobs.len() == columns * rows * copies,
        forall|i: int, j: int, c: int|
            0 <= i < columns && 0 <= j < rows && 0 <= c < copies ==> {
                let k = #[trigger] job_position(columns, rows, copies, i, j, c);
                0 <= k < jobs.len() && jobs[k] == tile_job(
                    strategy,
                    width,
                    height,
                    tile_size,
                    i,
                    j,
                    per_job,
                )
            },
        forall|x: int, y: int|
            0 <= x < width && 0 <= y < height ==> #[trigger] jobs_at(jobs, x, y) == copies,
        forall|x: int, y: int|
            0 <= x < width && 0 <= y < height ==> #[trigger] samples_at(jobs, x, y) == copies
                * per_job,
{
    assert((rows * columns + 0) * copies + 0 == columns * rows * copies) by (nonlinear_arith);
    assert forall|i: int, j: int, c: int|
        0 <= i < columns && 0 <= j < rows && 0 <= c < copies implies {
        let k = #[trigger] job_position(columns, rows, copies, i, j, c);
        0 <= k < jobs.len() && jobs[k] == tile_job(
            strategy,
            width,
            height,
            tile_size,
            i,
            j,
            per_job,
        )
    } by {
        lemma_job_position(columns, rows, copies, i, j, c, i, j, c);
    }
    assert forall|x: int, y: int| 0 <= x < width && 0 <= y < height implies #[trigger] jobs_at(
        jobs,
        x,
        y,
    ) == copies by {
        lemma_tile_index_range(strategy, height as int, tile_size as int, y);
    }
    assert forall|x: int, y: int| 0 <= x < width && 0 <= y < height implies #[trigger] samples_at(
        jobs,
        x,
        y,
    ) == copies * per_job by {
        lemma_samples_from_jobs(jobs, x, y, per_job);
    }
}

/// What planning owes for the given image and settings: the error that
/// stands in the way, or else the plan with every job in its place, every
/// pixel of the image covered by exactly `jobs_per_tile` jobs, and
/// `jobs_per_tile * samples_per_job` samples spent on it.
pub open spec fn plan_outcome(
    r: Result<RenderPlan, PlanError>,
    strategy: RenderStrategy,
    width: u32,
    height: u32,
    tile_size: u32,
    samples: u32,
    workers: u32,
) -> bool {
    match r {
        Ok(plan) => {
            &&& plan_error(strategy, tile_size, workers).is_none()
            &&& plan.is_plan_for(strategy, width, height, tile_size, samples, workers)
            &&& forall|x: int, y: int|
                0 <= x < width && 0 <= y < height ==> #[trigger] jobs_at(plan.jobs@, x, y)
                    == plan.jobs_per_tile
            &&& forall|x: int, y: int|
                0 <= x < width && 0 <= y < height ==> #[trigger] samples_at(plan.jobs@, x, y)
                    == plan.jobs_per_tile * plan.samples_per_job
        },
        Err(e) => plan_error(strategy, tile_size, workers) == Some(e),
    }
}

/// Cuts the image into render jobs.
///
/// Fails exactly when a tiled strategy meets a tile size of zero or an
/// averaging strategy meets zero workers. Otherwise the plan holds one job
/// per tile and copy, each in its place of the dispatch order; every pixel
/// of the image is covered by exactly `jobs_per_tile` jobs, which together
/// spend `jobs_per_tile * samples_per_job` samples on it.
pub fn plan_render(
    strategy: RenderStrategy,
    width: u32,
    height: u32,
    tile_size: u32,
    samples: u32,
    workers: u32,
) -> (r: Result<RenderPlan, PlanError>)
    ensures
        plan_outcome(r, strategy, width, height, tile_size, samples, workers),
{
    let tiled: bool = match strategy {
        RenderStrategy::ProgressiveAverage => false,
        _ => true,
    };
    let averaging: bool = match strategy {
        RenderStrategy::TileFull => false,
        _ => true,
    };
    if tiled && tile_size == 0 {
        return Err(PlanError::ZeroTileSize);
    }
    if averaging && workers == 0 {
        return Err(PlanError::NoWorkers);
    }
    let columns: u32 = if tiled {
        ceil_div_u32(width, tile_size)
    } else {
        1
    };
    let rows: u32 = if tiled {
        ceil_div_u32(height, tile_size)
    } else {
        1
    };
    let copies: u32 = if averaging {
        workers
    } else {
        1
    };
    let per_job: u32 = if averaging {
        ceil_div_u32(samples, workers)
    } else {
        samples
    };
    let mut jobs: Vec<RenderJob> = Vec::new();
    proof {
        lemma_dispatched_start(
            strategy,
            width,
            height,
            tile_size,
            per_job,
            columns as int,
            rows as int,
            copies as int,
        );
    }
    let mut r: u32 = 0;
    while r < rows
        invariant
            r <= rows,
            grid_of(strategy, width, height, tile_size, columns as int, rows as int),
            dispatched(
                jobs@,
                strategy,
                width,
                height,
                tile_size,
                per_job,
                columns as int,
                rows as int,
                copies as int,
                r as int,
                0,
                0,
            ),
        decreases rows - r,
    {
        let j: u32 = rows - 1 - r;
        let mut i: u32 = 0;
        while i < columns
            invariant
                r < rows,
                j == rows - 1 - r,
                i <= columns,
                grid_of(strategy, width, height, tile_size, columns as int, rows as int),
                dispatched(
                    jobs@,
                    strategy,
                    width,
                    height,
                    tile_size,
                    per_job,
                    columns as int,
                    rows as int,
                    copies as int,
                    r as int,
                    i as int,
                    0,
                ),
            decreases columns - i,
        {
            let job = make_tile_job(strategy, width, height, tile_size, i, j, per_job);
            let mut c: u32 = 0;
            while c < copies
                invariant
                    r < rows,
                    j == rows - 1 - r,
                    i < columns,
                    c <= copies,
                    grid_of(strategy, width, height, tile_size, columns as int, rows as int),
                    job == tile_job(strategy, width, height, tile_size, i as int, j as int, per_job),
                    dispatched(
                        jobs@,
                        strategy,
                        width,
                        height,
                        tile_size,
                        per_job,
                        columns as int,
                        rows as int,
                        copies as int,
                        r as int,
                        i as int,
                        c as int,
                    ),
                decreases copies - c,
            {
                proof {
                    lemma_dispatched_push(
                        jobs@,
                        strategy,
                        width,
                        height,
                        tile_size,
                        per_job,
                        columns as int,
                        rows as int,
                        copies as int,
                        r as int,
                        i as int,
                        c as int,
                    );
                }
                jobs.push(job);
                c = c + 1;
            }
            proof {
                lemma_dispatched_next_tile(
                    jobs@,
                    strategy,
                    width,
                    height,
                    tile_size,
                    per_job,
                    columns as int,
                    rows as int,
                    copies as int,
                    r as int,
                    i as int,
                );
            }
            i = i + 1;
        }
        proof {
            lemma_dispatched_next_row(
                jobs@,
                strategy,
                width,
                height,
                tile_size,
                per_job,
                columns as int,
                rows as int,
                copies as int,
                r as int,
            );
        }
        r = r + 1;
    }
    proof {
        lemma_dispatched_all(
            jobs@,
            strategy,
            width,
            height,
            tile_size,
            per_job,
            columns as int,
            rows as int,
            copies as int,
        );
    }
    Ok(
        RenderPlan {
            jobs,
            horizontal_tiles: columns,
            vertical_tiles: rows,
            jobs_per_tile: copies,
            samples_per_job: per_job,
        },
    )
}

/// Asks `num_cpus::get` for the number of logical processors that this
/// process may use. Its documentation promises at least one; nothing else
/// is claimed of the value.
#[verifier::external_body]
fn logical_cpus() -> (n: usize)
    ensures
        n >= 1,
{
    num_cpus::get()
}

/// The number of workers to start on this machine: one for each logical
/// processor.
pub fn worker_count() -> (workers: u32)
    ensures
        workers >= 1,
{
    workers_for(logical_cpus())
}

/// The worker count for `cpus` logical processors: as many, up to the
/// greatest count that fits.
pub open spec fn spec_workers_for(cpus: usize) -> u32 {
    if cpus > u32::MAX {
        u32::MAX
    } else {
        cpus as u32
    }
}

/// One worker for each of `cpus` logical processors.
pub fn workers_for(cpus: usize) -> (workers: u32)
    ensures
        workers == spec_workers_for(cpus),
{
    if cpus > u32::MAX as usize {
        u32::MAX
    } else {
        cpus as u32
    }
}

/// Cuts the image into render jobs for as many workers as this machine has
/// logical processors, and says how many those are. However many they are,
/// planning fails only for a tiled strategy with a tile size of zero.
pub fn plan_render_here(
    strategy: RenderStrategy,
    width: u32,
    height: u32,
    tile_size: u32,
    samples: u32,
) -> (r: (u32, Result<RenderPlan, PlanError>))
    ensures
        r.0 >= 1,
        plan_outcome(r.1, strategy, width, height, tile_size, samples, r.0),
        r.1 is Err <==> is_tiled(strategy) && tile_size == 0,
{
    let workers = worker_count();
    (workers, plan_render(strategy, width, height, tile_size, samples, workers))
}

/// Every pixel receives at least the samples asked for, and no more than
/// `workers - 1` beyond them; without averaging it receives exactly those.
pub proof fn lemma_samples_meet_request(strategy: RenderStrategy, samples: u32, workers: u32)
    requires
        is_averaging(strategy) ==> workers > 0,
    ensures
        samples <= fan_out(strategy, workers as int) * job_samples(
            strategy,
            samples as int,
            workers as int,
        ) <= samples + fan_out(strategy, workers as int) - 1,
{
    if is_averaging(strategy) {
        let n = workers as int;
        let q = ceil_div(samples as int, n);
        lemma_ceil_div(samples as int, n);
        assert(n * q == q * n && (q - 1) * n == q * n - n && (q == 0 ==> q * n == 0))
            by (nonlinear_arith);
    }
}

/// With a single worker every strategy dispatches one job per tile at the
/// full sample count, as the sequential renderer does.
pub proof fn lemma_single_worker(strategy: RenderStrategy, samples: u32)
    ensures
        fan_out(strategy, 1) == 1,
        job_samples(strategy, samples as int, 1) == samples,
{
}

/// A tile's rectangle is well formed and lies inside the image; the tiles
/// of a tiled strategy are never empty.
pub proof fn lemma_tile_job_in_image(
    strategy: RenderStrategy,
    width: u32,
    height: u32,
    tile_size: u32,
    i: int,
    j: int,
    samples: u32,
)
    requires
        is_tiled(strategy) ==> tile_size > 0,
        0 <= i < grid_extent(strategy, width as int, tile_size as int),
        0 <= j < grid_extent(strategy, height as int, tile_size as int),
    ensures
        ({
            let job = tile_job(strategy, width, height, tile_size, i, j, samples);
            &&& job.bottom_left.x <= job.top_right.x <= width
            &&& job.bottom_left.y <= job.top_right.y <= height
            &&& is_tiled(strategy) ==> job.bottom_left.x < job.top_right.x && job.bottom_left.y
                < job.top_right.y
        }),
{
    if is_tiled(strategy) {
        let t = tile_size as int;
        lemma_tile_origin(width as int, t, i);
        lemma_tile_origin(height as int, t, j);
        assert((i + 1) * t == i * t + t) by (nonlinear_arith);
        assert((j + 1) * t == j * t + t) by (nonlinear_arith);
    }
}

/// Every job of a plan is some tile's job, so its rectangle lies inside
/// the image.
pub proof fn lemma_plan_jobs_in_image(
    plan: RenderPlan,
    strategy: RenderStrategy,
    width: u32,
    height: u32,
    tile_size: u32,
    samples: u32,
    workers: u32,
    k: int,
)
    requires
        plan_error(strategy, tile_size, workers).is_none(),
        plan.is_plan_for(strategy, width, height, tile_size, samples, workers),
        0 <= k < plan.jobs@.len(),
    ensures
        plan.jobs@[k].bottom_left.x <= plan.jobs@[k].top_right.x <= width,
        plan.jobs@[k].bottom_left.y <= plan.jobs@[k].top_right.y <= height,
        plan.jobs@[k].samples_per_pixel == plan.samples_per_job,
{
    let columns = plan.horizontal_tiles as int;
    let rows = plan.vertical_tiles as int;
    let copies = plan.jobs_per_tile as int;
    lemma_job_position_onto(columns, rows, copies, k);
    let (i, j, c) = choose|i: int, j: int, c: int|
        0 <= i < columns && 0 <= j < rows && 0 <= c < copies && #[trigger] job_position(
            columns,
            rows,
            copies,
            i,
            j,
            c,
        ) == k;
    lemma_tile_job_in_image(strategy, width, height, tile_size, i, j, plan.samples_per_job);
}

/// The pixels of a scanline of a job inside the image lie inside the image.
pub proof fn lemma_scanline_in_image(job: RenderJob, width: u32, height: u32, k: int)
    requires
        job.top_right.x <= width,
        job.top_right.y <= height,
        0 <= k < job.spec_row_count(),
    ensures
        in_image(width, height, job.spec_scanline(k)),
{
}

/// Place of pixel `(x, y)` in the frame buffer, which stores the top image
/// row first.
pub open spec fn spec_framebuffer_index(width: int, height: int, x: int, y: int) -> int {
    (height - 1 - y) * width + x
}

/// Frame-buffer places are in range, and two pixels share one only if they
/// are the same pixel.
pub proof fn lemma_framebuffer_index(width: int, height: int, x: int, y: int, x2: int, y2: int)
    requires
        0 <= x < width,
        0 <= y < height,
        0 <= x2 < width,
        0 <= y2 < height,
    ensures
        0 <= spec_framebuffer_index(width, height, x, y) < width * height,
        spec_framebuffer_index(width, height, x, y) == spec_framebuffer_index(width, height, x2, y2)
            ==> x == x2 && y == y2,
{
    lemma_digits(height - 1 - y, x, height - 1 - y2, x2, width, height);
    assert(height * width == width * height) by (nonlinear_arith);
}

/// A job that spans the whole image publishes its pixels in frame-buffer
/// order: the `n`-th pixel of its `k`-th scanline belongs at `k * width + n`.
pub proof fn lemma_scan_order(job: RenderJob, width: u32, height: u32, k: int, n: int)
    requires
        job.bottom_left == (Pixel { x: 0, y: 0 }),
        job.top_right == (Pixel { x: width, y: height }),
        0 <= k < height,
        0 <= n < width,
    ensures
        spec_framebuffer_index(
            width as int,
            height as int,
            job.spec_scanline(k)[n].x as int,
            job.spec_scanline(k)[n].y as int,
        ) == k * width + n,
{
}

/// Where the contribution for pixel `p` is added in a frame buffer of
/// `width * height` entries.
pub fn framebuffer_index(width: u32, height: u32, p: Pixel) -> (index: u64)
    requires
        p.x < width,
        p.y < height,
    ensures
        index == spec_framebuffer_index(width as int, height as int, p.x as int, p.y as int),
        index < width * height,
{
    proof {
        lemma_framebuffer_index(
            width as int,
            height as int,
            p.x as int,
            p.y as int,
            p.x as int,
            p.y as int,
        );
        assert(width * height <= 0xffff_ffff * 0xffff_ffff) by (nonlinear_arith)
            requires
                0 <= width <= 0xffff_ffff,
                0 <= height <= 0xffff_ffff,
        ;
        assert(0 <= (height - 1 - p.y) * width) by (nonlinear_arith)
            requires
                p.y < height,
                0 <= width,
        ;
    }
    let row: u64 = (height - 1 - p.y) as u64;
    row * (width as u64) + (p.x as u64)
}

/// The one job of the sequential renderer: the whole image at the full
/// sample count.
pub fn sequential_job(width: u32, height: u32, samples: u32) -> (job: RenderJob)
    ensures
        job == tile_job(RenderStrategy::ProgressiveAverage, width, height, 0, 0, 0, samples),
        job.bottom_left == (Pixel { x: 0, y: 0 }),
        job.top_right == (Pixel { x: width, y: height }),
        job.samples_per_pixel == samples,
{
    RenderJob {
        top_right: Pixel { x: width, y: height },
        bottom_left: Pixel { x: 0, y: 0 },
        samples_per_pixel: samples,
    }
}

/// The worker that job number `job` of the dispatch order is handed to:
/// jobs are dealt out to the workers in turn.
pub fn worker_for_job(job: usize, workers: usize) -> (w: usize)
    requires
        workers > 0,
    ensures
        w == job % workers,
        w < workers,
{
    job % workers
}

/// What a worker's result channel held when the coordinator looked.
#[derive(Debug)]
pub enum WorkerEvent {
    /// Nothing was waiting.
    Idle,
    /// A finished scanline: the pixels whose colours were sent.
    Scanline(Vec<Pixel>),
    /// The worker has rendered all of its jobs.
    Done,
}

/// What the coordinator does in answer to an event.
#[derive(Debug)]
pub enum CoordinatorAction {
    /// Look at the next worker.
    Continue,
    /// Add each colour of the scanline, divided by the fan-out, to the frame
    /// buffer at these places, in the order of the scanline's pixels.
    Accumulate(Vec<u64>),
    /// Every worker is done: stop polling and join the workers.
    Finish,
}

/// The coordinator's view of a render in progress.
#[derive(Debug)]
pub struct Coordinator {
    pub width: u32,
    pub height: u32,
    pub workers: usize,
    pub completed: usize,
}

/// The frame-buffer places of the pixels of a scanline.
pub open spec fn scanline_places(width: u32, height: u32, pixels: Seq<Pixel>) -> Seq<u64> {
    Seq::new(
        pixels.len(),
        |n: int|
            spec_framebuffer_index(
                width as int,
                height as int,
                pixels[n].x as int,
                pixels[n].y as int,
            ) as u64,
    )
}

/// Whether every pixel lies inside the `width * height` image.
pub open spec fn in_image(width: u32, height: u32, pixels: Seq<Pixel>) -> bool {
    forall|n: int| 0 <= n < pixels.len() ==> (#[trigger] pixels[n]).x < width && pixels[n].y < height
}

impl Coordinator {
    pub open spec fn wf(&self) -> bool {
        self.completed <= self.workers
    }

    /// Whether all workers have reported that they are done.
    pub open spec fn spec_finished(&self) -> bool {
        self.completed == self.workers
    }

    pub fn new(width: u32, height: u32, workers: usize) -> (c: Coordinator)
        ensures
            c.wf(),
            c == (Coordinator { width, height, workers, completed: 0 }),
    {
        Coordinator { width, height, workers, completed: 0 }
    }

    pub fn finished(&self) -> (b: bool)
        ensures
            b == self.spec_finished(),
    {
        self.completed == self.workers
    }

    /// Takes one event from a worker and says what to do about it.
    ///
    /// A scanline leaves the state as it is and yields the places of its
    /// pixels; a `Done` counts one more finished worker and yields `Finish`
    /// when it was the last; an idle channel changes nothing.
    pub fn step(&mut self, event: WorkerEvent) -> (action: CoordinatorAction)
        requires
            old(self).wf(),
            event matches WorkerEvent::Scanline(pixels) ==> in_image(
                old(self).width,
                old(self).height,
                pixels@,
            ),
            event is Done ==> !old(self).spec_finished(),
        ensures
            final(self).wf(),
            final(self).width == old(self).width,
            final(self).height == old(self).height,
            final(self).workers == old(self).workers,
            final(self).completed == old(self).completed + (if event is Done {
                1int
            } else {
                0int
            }),
            match event {
                WorkerEvent::Idle => action is Continue,
                WorkerEvent::Scanline(pixels) => action matches CoordinatorAction::Accumulate(places)
                    && places@ == scanline_places(old(self).width, old(self).height, pixels@),
                WorkerEvent::Done => if final(self).spec_finished() {
                    action is Finish
                } else {
                    action is Continue
                },
            },
    {
        match event {
            WorkerEvent::Idle => CoordinatorAction::Continue,
            WorkerEvent::Scanline(pixels) => {
                let mut places: Vec<u64> = Vec::new();
                let mut n: usize = 0;
                while n < pixels.len()
                    invariant
                        n <= pixels@.len(),
                        in_image(self.width, self.height, pixels@),
                        places@.len() == n,
                        forall|m: int|
                            0 <= m < n ==> #[trigger] places@[m] == spec_framebuffer_index(
                                self.width as int,
                                self.height as int,
                                pixels@[m].x as int,
                                pixels@[m].y as int,
                            ),
                    decreases pixels@.len() - n,
                {
                    let place = framebuffer_index(self.width, self.height, pixels[n]);
                    places.push(place);
                    n = n + 1;
                }
                assert(places@ =~= scanline_places(self.width, self.height, pixels@));
                CoordinatorAction::Accumulate(places)
            },
            WorkerEvent::Done => {
                self.completed = self.completed + 1;
                if self.completed == self.workers {
                    CoordinatorAction::Finish
                } else {
                    CoordinatorAction::Continue
                }
            },
        }
    }
}

} // verus!
