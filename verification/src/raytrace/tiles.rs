//! Cutting a picture into tiles and filling a tile.
use vstd::prelude::*;
use vstd::arithmetic::mul::*;

verus! {

/// The length of the sides of a tile that does not touch the right or lower edge.
pub const TILE: u32 = 80;

/// A picture to render, or one tile of it. `S` is the type of the scene.
#[derive(Debug, Clone)]
pub struct RenderJob<S> {
    pub width: u32,
    pub height: u32,
    pub samples: u32,
    pub max_depth: u32,
    /// Left edge, upper edge, width and height of the tile.
    pub tile: Option<(u32, u32, u32, u32)>,
    pub scene: S,
}

/// What a worker needs to render one tile.
#[derive(Debug, Clone)]
pub struct TileJob<S> {
    pub width: u32,
    pub height: u32,
    pub samples: u32,
    pub max_depth: u32,
    pub tile_x: u32,
    pub tile_y: u32,
    pub tile_w: u32,
    pub tile_h: u32,
    pub scene: S,
}

/// How many tiles lie along a side.
pub open spec fn tiles_along(side: u32) -> int {
    (side + TILE - 1) / TILE as int
}

/// How far the tile that starts at `at` reaches along a side.
pub open spec fn tile_reach(side: u32, at: int) -> u32 {
    if side - at < TILE {
        (side - at) as u32
    } else {
        TILE
    }
}

/// The tile number `j` of the row of tiles number `i`.
pub open spec fn tile_at(width: u32, height: u32, i: int, j: int) -> (u32, u32, u32, u32) {
    (
        (j * TILE) as u32,
        (i * TILE) as u32,
        tile_reach(width, j * TILE),
        tile_reach(height, i * TILE),
    )
}

/// `part` is the job for the tile `rect` of the picture of `job`.
pub open spec fn is_tile_of<S: Clone>(
    job: RenderJob<S>,
    rect: (u32, u32, u32, u32),
    part: RenderJob<S>,
) -> bool {
    &&& part.width == job.width
    &&& part.height == job.height
    &&& part.samples == job.samples
    &&& part.max_depth == job.max_depth
    &&& part.tile == Some(rect)
    &&& cloned::<S>(job.scene, part.scene)
}

/// Where in the list of tiles the tile number `j` of row `i` stands.
pub open spec fn place(width: u32, i: int, j: int) -> int {
    i * tiles_along(width) + j
}

/// The tile number `j` of row `i` is in its place.
pub open spec fn placed<S: Clone>(
    job: RenderJob<S>,
    tiles: Seq<RenderJob<S>>,
    i: int,
    j: int,
) -> bool {
    let at = place(job.width, i, j);
    0 <= at < tiles.len() && is_tile_of(job, tile_at(job.width, job.height, i, j), tiles[at])
}

/// Cuts the picture into tiles, row by row.
pub fn chunker<S: Clone>(job: &RenderJob<S>) -> (r: Vec<RenderJob<S>>)
    ensures
        r@.len() == tiles_along(job.height) * tiles_along(job.width),
        forall|i: int, j: int|
            0 <= i < tiles_along(job.height) && 0 <= j < tiles_along(job.width)
                ==> #[trigger] placed(*job, r@, i, j),
{
    let ghost rows = tiles_along(job.height);
    let ghost cols = tiles_along(job.width);
    let ghost mut i: int = 0;
    let mut tiles: Vec<RenderJob<S>> = Vec::new();
    let mut y: u32 = 0;
    while y < job.height
        invariant
            cols == tiles_along(job.width),
            rows == tiles_along(job.height),
            0 <= i <= rows,
            y <= job.height,
            y < job.height ==> y == i * TILE,
            y == job.height ==> i == rows,
            tiles@.len() == i * cols,
            forall|a: int, b: int|
                0 <= a < i && 0 <= b < cols ==> #[trigger] placed(*job, tiles@, a, b),
        decreases job.height - y,
    {
        let th: u32 = if job.height - y < TILE {
            job.height - y
        } else {
            TILE
        };
        let ghost mut j: int = 0;
        let mut x: u32 = 0;
        while x < job.width
            invariant
                cols == tiles_along(job.width),
                rows == tiles_along(job.height),
                0 <= i < rows,
                y < job.height,
                y == i * TILE,
                th == tile_reach(job.height, y as int),
                0 <= j <= cols,
                x <= job.width,
                x < job.width ==> x == j * TILE,
                x == job.width ==> j == cols,
                tiles@.len() == i * cols + j,
                forall|a: int, b: int|
                    0 <= a < i && 0 <= b < cols ==> #[trigger] placed(*job, tiles@, a, b),
                forall|b: int| 0 <= b < j ==> #[trigger] placed(*job, tiles@, i, b),
            decreases job.width - x,
        {
            let tw: u32 = if job.width - x < TILE {
                job.width - x
            } else {
                TILE
            };
            let ghost had = tiles@;
            tiles.push(
                RenderJob {
                    width: job.width,
                    height: job.height,
                    samples: job.samples,
                    max_depth: job.max_depth,
                    tile: Some((x, y, tw, th)),
                    scene: job.scene.clone(),
                },
            );
            proof {
                assert forall|a: int, b: int| #[trigger]
                    placed(*job, had, a, b) implies placed(*job, tiles@, a, b) by {}
                assert forall|a: int, b: int|
                    0 <= a < i && 0 <= b < cols implies #[trigger] placed(*job, tiles@, a, b) by {
                    assert(placed(*job, had, a, b));
                }
                assert(placed(*job, tiles@, i, j));
                assert forall|b: int| 0 <= b < j + 1 implies #[trigger] placed(
                    *job,
                    tiles@,
                    i,
                    b,
                ) by {
                    if b < j {
                        assert(placed(*job, had, i, b));
                    }
                }
                j = j + 1;
            }
            x = x + tw;
        }
        proof {
            assert((i + 1) * cols == i * cols + cols) by {
                lemma_mul_is_distributive_add_other_way(cols, i, 1);
            }
            i = i + 1;
        }
        y = y + th;
    }
    tiles
}

/// The tile's edges hold the pixel.
pub open spec fn tile_holds(rect: (u32, u32, u32, u32), px: int, py: int) -> bool {
    rect.0 <= px < rect.0 + rect.2 && rect.1 <= py < rect.1 + rect.3
}

/// Each pixel of the picture lies in one tile and in no other.
pub proof fn each_pixel_lies_in_one_tile(width: u32, height: u32, px: int, py: int)
    requires
        0 <= px < width,
        0 <= py < height,
    ensures
        0 <= py / (TILE as int) < tiles_along(height),
        0 <= px / (TILE as int) < tiles_along(width),
        forall|i: int, j: int|
            0 <= i < tiles_along(height) && 0 <= j < tiles_along(width) ==> (tile_holds(
                #[trigger] tile_at(width, height, i, j),
                px,
                py,
            ) <==> (i == py / TILE as int && j == px / TILE as int)),
{
}

/// Each tile has a pixel, and lies in the picture.
pub proof fn tiles_lie_in_the_picture(width: u32, height: u32, i: int, j: int)
    requires
        0 <= i < tiles_along(height),
        0 <= j < tiles_along(width),
    ensures
        ({
            let (x, y, w, h) = tile_at(width, height, i, j);
            0 < w <= TILE && 0 < h <= TILE && x + w <= width && y + h <= height
        }),
{
}

/// The job for a worker that a tile's job comes to. The tile has to be set.
pub fn tile_job<S: Clone>(chunk: &RenderJob<S>) -> (r: TileJob<S>)
    requires
        chunk.tile is Some,
    ensures
        r.width == chunk.width,
        r.height == chunk.height,
        r.samples == chunk.samples,
        r.max_depth == chunk.max_depth,
        chunk.tile == Some((r.tile_x, r.tile_y, r.tile_w, r.tile_h)),
        cloned::<S>(chunk.scene, r.scene),
{
    let (x, y, w, h) = chunk.tile.unwrap();
    TileJob {
        width: chunk.width,
        height: chunk.height,
        samples: chunk.samples,
        max_depth: chunk.max_depth,
        tile_x: x,
        tile_y: y,
        tile_w: w,
        tile_h: h,
        scene: chunk.scene.clone(),
    }
}

/// `bytes` are the first `n` pixels of the tile, row by row: red, green and blue as `shade`
/// gives them for the pixel of the picture, and full opacity.
pub open spec fn shaded<S, F: Fn(u32, u32) -> (u8, u8, u8)>(
    job: TileJob<S>,
    shade: F,
    bytes: Seq<u8>,
    n: int,
) -> bool {
    &&& bytes.len() == 4 * n
    &&& forall|k: int| 0 <= k < n ==> #[trigger] pixel_shaded(job, shade, bytes, k)
}

/// The pixel number `k` of the tile is as `shade` gives it.
pub open spec fn pixel_shaded<S, F: Fn(u32, u32) -> (u8, u8, u8)>(
    job: TileJob<S>,
    shade: F,
    bytes: Seq<u8>,
    k: int,
) -> bool {
    &&& call_ensures(
        shade,
        (
            (job.tile_x + k % job.tile_w as int) as u32,
            (job.tile_y + k / job.tile_w as int) as u32,
        ),
        (bytes[4 * k], bytes[4 * k + 1], bytes[4 * k + 2]),
    )
    &&& bytes[4 * k + 3] == 255
}

/// Renders a tile: row by row, four bytes a pixel. `shade` gives the colour of a pixel of the
/// picture.
pub fn render_tile_impl<S, F: Fn(u32, u32) -> (u8, u8, u8)>(job: &TileJob<S>, shade: F) -> (r: Vec<
    u8,
>)
    requires
        job.tile_w * job.tile_h * 4 <= u32::MAX,
        job.tile_h > 0 ==> job.tile_x + job.tile_w <= u32::MAX + 1,
        job.tile_y + job.tile_h <= u32::MAX + 1,
        forall|px: u32, py: u32| call_requires(shade, (px, py)),
    ensures
        shaded(*job, shade, r@, job.tile_w * job.tile_h),
{
    let mut out: Vec<u8> = Vec::new();
    let mut j: u32 = 0;
    while j < job.tile_h
        invariant
            j <= job.tile_h,
            job.tile_w * job.tile_h * 4 <= u32::MAX,
            job.tile_h > 0 ==> job.tile_x + job.tile_w <= u32::MAX + 1,
            job.tile_y + job.tile_h <= u32::MAX + 1,
            forall|px: u32, py: u32| call_requires(shade, (px, py)),
            shaded(*job, shade, out@, j * job.tile_w),
        decreases job.tile_h - j,
    {
        let py: u32 = job.tile_y + j;
        let mut i: u32 = 0;
        while i < job.tile_w
            invariant
                j < job.tile_h,
                i <= job.tile_w,
                py == job.tile_y + j,
                job.tile_x + job.tile_w <= u32::MAX + 1,
                forall|px: u32, py: u32| call_requires(shade, (px, py)),
                shaded(*job, shade, out@, j * job.tile_w + i),
            decreases job.tile_w - i,
        {
            let px: u32 = job.tile_x + i;
            let (red, green, blue) = shade(px, py);
            let ghost had = out@;
            let ghost k = j * job.tile_w + i;
            out.push(red);
            out.push(green);
            out.push(blue);
            out.push(255);
            proof {
                let w = job.tile_w as int;
                assert(k / w == j && k % w == i) by {
                    vstd::arithmetic::div_mod::lemma_fundamental_div_mod_converse(
                        k,
                        w,
                        j as int,
                        i as int,
                    );
                }
                assert forall|m: int| 0 <= m < k + 1 implies #[trigger] pixel_shaded(
                    *job,
                    shade,
                    out@,
                    m,
                ) by {
                    if m < k {
                        assert(pixel_shaded(*job, shade, had, m));
                    }
                }
            }
            i = i + 1;
        }
        assert((j + 1) * job.tile_w == j * job.tile_w + job.tile_w) by {
            lemma_mul_is_distributive_add_other_way(job.tile_w as int, j as int, 1);
        }
        j = j + 1;
    }
    assert(job.tile_h * job.tile_w == job.tile_w * job.tile_h) by {
        lemma_mul_is_commutative(job.tile_h as int, job.tile_w as int);
    }
    out
}

/// `shade` gives one colour for each pixel, each time.
pub open spec fn one_colour_per_pixel<F: Fn(u32, u32) -> (u8, u8, u8)>(shade: F) -> bool {
    forall|px: u32, py: u32, a: (u8, u8, u8), b: (u8, u8, u8)| #[trigger]
        call_ensures(shade, (px, py), a) && #[trigger] call_ensures(shade, (px, py), b) ==> a == b
}

/// Where the pixel at (`px`, `py`) starts in the bytes of a tile that holds it.
pub open spec fn pixel_offset<S>(job: TileJob<S>, px: u32, py: u32) -> int {
    4 * ((py - job.tile_y) * job.tile_w + (px - job.tile_x))
}

/// The tile holds the pixel.
pub open spec fn job_holds<S>(job: TileJob<S>, px: u32, py: u32) -> bool {
    tile_holds((job.tile_x, job.tile_y, job.tile_w, job.tile_h), px as int, py as int)
}

/// A rendered tile has the colour of each of its pixels at the pixel's offset.
proof fn lemma_pixel_at_offset<S, F: Fn(u32, u32) -> (u8, u8, u8)>(
    job: TileJob<S>,
    shade: F,
    bytes: Seq<u8>,
    px: u32,
    py: u32,
)
    requires
        shaded(job, shade, bytes, job.tile_w * job.tile_h),
        job_holds(job, px, py),
    ensures
        ({
            let o = pixel_offset(job, px, py);
            &&& 0 <= o
            &&& o + 3 < bytes.len()
            &&& call_ensures(shade, (px, py), (bytes[o], bytes[o + 1], bytes[o + 2]))
            &&& bytes[o + 3] == 255
        }),
{
    let w = job.tile_w as int;
    let row = py - job.tile_y;
    let col = px - job.tile_x;
    let k = row * w + col;
    assert(0 <= k < w * job.tile_h) by (nonlinear_arith)
        requires
            0 <= row < job.tile_h,
            0 <= col < w,
            k == row * w + col,
    ;
    vstd::arithmetic::div_mod::lemma_fundamental_div_mod_converse(k, w, row, col);
    assert(pixel_shaded(job, shade, bytes, k));
}

/// The picture does not depend on how it is cut into tiles: two rendered tiles of one picture
/// agree on every pixel that both hold, as long as the shading gives one colour per pixel. A
/// tile has four bytes a pixel, and its pixels are opaque.
pub proof fn pixels_do_not_depend_on_the_cut<S, F: Fn(u32, u32) -> (u8, u8, u8)>(
    a: TileJob<S>,
    b: TileJob<S>,
    shade: F,
    a_bytes: Seq<u8>,
    b_bytes: Seq<u8>,
    px: u32,
    py: u32,
)
    requires
        one_colour_per_pixel(shade),
        shaded(a, shade, a_bytes, a.tile_w * a.tile_h),
        shaded(b, shade, b_bytes, b.tile_w * b.tile_h),
        job_holds(a, px, py),
        job_holds(b, px, py),
    ensures
        a_bytes.len() == 4 * (a.tile_w * a.tile_h),
        a_bytes[pixel_offset(a, px, py) + 3] == 255,
        forall|c: int|
            0 <= c < 4 ==> #[trigger] a_bytes[pixel_offset(a, px, py) + c]
                == b_bytes[pixel_offset(b, px, py) + c],
{
    lemma_pixel_at_offset(a, shade, a_bytes, px, py);
    lemma_pixel_at_offset(b, shade, b_bytes, px, py);
    let (i, j) = (pixel_offset(a, px, py), pixel_offset(b, px, py));
    let x = (a_bytes[i], a_bytes[i + 1], a_bytes[i + 2]);
    let y = (b_bytes[j], b_bytes[j + 1], b_bytes[j + 2]);
    assert(x == y);
    assert forall|c: int| 0 <= c < 4 implies #[trigger] a_bytes[i + c] == b_bytes[j + c] by {
        assert(c == 0 || c == 1 || c == 2 || c == 3);
    }
}

/// A rendered tile holds its pixels row by row, four bytes each: at the place of each pixel stands
/// the colour that the shading gives for it, and full opacity.
pub proof fn rendered_pixels_are_shaded<S, F: Fn(u32, u32) -> (u8, u8, u8)>(
    job: TileJob<S>,
    shade: F,
    bytes: Seq<u8>,
    px: u32,
    py: u32,
)
    requires
        shaded(job, shade, bytes, job.tile_w * job.tile_h),
        job.tile_x <= px < job.tile_x + job.tile_w,
        job.tile_y <= py < job.tile_y + job.tile_h,
    ensures
        bytes.len() == 4 * (job.tile_w * job.tile_h),
        ({
            let o = 4 * ((py - job.tile_y) * job.tile_w + (px - job.tile_x));
            &&& 0 <= o < bytes.len() - 3
            &&& call_ensures(shade, (px, py), (bytes[o], bytes[o + 1], bytes[o + 2]))
            &&& bytes[o + 3] == 255
        }),
{
    lemma_pixel_at_offset(job, shade, bytes, px, py);
}

/// Tiles are eighty pixels wide and high, but for those at the right and lower edge, which reach
/// to the edge. They stand side by side, and there are no more than are needed.
pub proof fn tiles_are_eighty_wide_and_high(width: u32, height: u32, i: int, j: int)
    requires
        0 <= i < tiles_along(height),
        0 <= j < tiles_along(width),
    ensures
        80 * (tiles_along(width) - 1) < width <= 80 * tiles_along(width),
        80 * (tiles_along(height) - 1) < height <= 80 * tiles_along(height),
        tiles_along(0) == 0,
        ({
            let (x, y, w, h) = tile_at(width, height, i, j);
            &&& x == 80 * j
            &&& y == 80 * i
            &&& 80 * (j + 1) <= width ==> w == 80
            &&& 80 * (j + 1) > width ==> w == width - 80 * j
            &&& 80 * (i + 1) <= height ==> h == 80
            &&& 80 * (i + 1) > height ==> h == height - 80 * i
        }),
        place(width, 0, 0) == 0,
        place(width, i, j + 1) == place(width, i, j) + 1,
        place(width, i + 1, 0) == place(width, i, tiles_along(width) - 1) + 1,
{
    lemma_mul_is_distributive_add_other_way(tiles_along(width), i, 1);
    assert(0 * tiles_along(width) == 0) by (nonlinear_arith);
}

/// The job of a tile is the job of its picture, with the tile set.
pub proof fn tiles_keep_everything_else<S: Clone>(
    job: RenderJob<S>,
    rect: (u32, u32, u32, u32),
    part: RenderJob<S>,
)
    requires
        is_tile_of(job, rect, part),
    ensures
        part.width == job.width && part.height == job.height,
        part.samples == job.samples && part.max_depth == job.max_depth,
        part.tile == Some(rect),
        cloned::<S>(job.scene, part.scene),
{
}

} // verus!
