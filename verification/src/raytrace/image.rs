//! Putting a picture together from its tiles.
use vstd::prelude::*;
use vstd::arithmetic::mul::*;
use crate::json::{member_number, node_of, number_under, parse_node};
use crate::raytrace::tiles::{each_pixel_lies_in_one_tile, place, tile_at, tile_holds, tiles_along, TILE};
use crate::video::{low_bits_or_zero, to_u32};

verus! {

/// A rendered tile: where it belongs and its pixels, row by row, four bytes each.
#[derive(Debug, Clone)]
pub struct Tile {
    pub x: u32,
    pub y: u32,
    pub w: u32,
    pub h: u32,
    pub rgba: Vec<u8>,
}

/// The tile that a result makes. Its metadata, a JSON text, say where it belongs; what they do
/// not say is zero.
pub fn decode_result(rgba: Vec<u8>, meta: &str) -> (r: Tile)
    ensures
        r.x == low_bits_or_zero(number_under(node_of(meta@), "x"@)),
        r.y == low_bits_or_zero(number_under(node_of(meta@), "y"@)),
        r.w == low_bits_or_zero(number_under(node_of(meta@), "w"@)),
        r.h == low_bits_or_zero(number_under(node_of(meta@), "h"@)),
        r.rgba == rgba,
{
    let node = parse_node(meta);
    Tile {
        x: to_u32(member_number(&node, "x")),
        y: to_u32(member_number(&node, "y")),
        w: to_u32(member_number(&node, "w")),
        h: to_u32(member_number(&node, "h")),
        rgba,
    }
}

/// Where in the bytes of a tile the pixel starts that belongs at (`px`, `py`).
pub open spec fn source(t: Tile, px: int, py: int) -> int {
    4 * ((py - t.y) * t.w + (px - t.x))
}

/// The tile has the pixel at (`px`, `py`).
pub open spec fn has_pixel(t: Tile, px: int, py: int) -> bool {
    &&& t.x <= px < t.x + t.w
    &&& t.y <= py < t.y + t.h
    &&& source(t, px, py) + 3 < t.rgba@.len()
}

/// All the pixels of the tile belong into a picture of this size. The offsets of its pixels fit
/// into 32 bits.
pub open spec fn tile_fits(t: Tile, width: u32, height: u32) -> bool {
    &&& (t.w * t.h - 1) * 4 <= u32::MAX
    &&& forall|px: int, py: int| #[trigger] has_pixel(t, px, py) ==> px < width && py < height
}

/// One of the four channels of a pixel in a picture of this width.
pub open spec fn channel(picture: Seq<u8>, width: u32, px: int, py: int, c: int) -> u8 {
    picture[4 * (py * width + px) + c]
}

/// A channel of a pixel after the first `n` tiles were painted one over the other. Where no
/// tile has a pixel, all its channels are zero.
pub open spec fn painted(tiles: Seq<Tile>, n: int, px: int, py: int, c: int) -> u8
    decreases n,
{
    if n <= 0 {
        0
    } else if has_pixel(tiles[n - 1], px, py) {
        tiles[n - 1].rgba@[source(tiles[n - 1], px, py) + c]
    } else {
        painted(tiles, n - 1, px, py, c)
    }
}

proof fn lemma_pixel_in_picture(width: u32, height: u32, px: int, py: int)
    requires
        0 <= px < width,
        0 <= py < height,
    ensures
        0 <= py * width + px < width * height,
{
    assert(0 <= py * width) by (nonlinear_arith)
        requires
            0 <= py,
    ;
    assert(py * width + width <= width * height) by (nonlinear_arith)
        requires
            0 <= py < height,
    ;
}

proof fn lemma_pixels_apart(width: u32, px: int, py: int, qx: int, qy: int)
    requires
        0 <= px < width,
        0 <= qx < width,
        py * width + px == qy * width + qx,
    ensures
        px == qx,
        py == qy,
{
    let k = py * width + px;
    vstd::arithmetic::div_mod::lemma_fundamental_div_mod_converse(k, width as int, py, px);
    vstd::arithmetic::div_mod::lemma_fundamental_div_mod_converse(k, width as int, qy, qx);
}

/// Copies a pixel of a tile to its place in the picture.
fn put_pixel(
    picture: &mut Vec<u8>,
    width: u32,
    height: u32,
    px: u32,
    py: u32,
    rgba: &Vec<u8>,
    src: usize,
)
    requires
        px < width,
        py < height,
        width * height * 4 <= usize::MAX,
        old(picture)@.len() == width * height * 4,
        src + 3 < rgba@.len(),
    ensures
        final(picture)@.len() == width * height * 4,
        forall|qx: int, qy: int, c: int|
            0 <= qx < width && 0 <= qy < height && 0 <= c < 4 ==> #[trigger] channel(
                final(picture)@,
                width,
                qx,
                qy,
                c,
            ) == if qx == px && qy == py {
                rgba@[src + c]
            } else {
                channel(old(picture)@, width, qx, qy, c)
            },
{
    let ghost before = picture@;
    proof {
        lemma_pixel_in_picture(width, height, px as int, py as int);
        assert(0 <= py * width) by (nonlinear_arith);
    }
    let end: usize = rgba.len();
    assert(src + 3 < end);
    let dst: usize = (py as usize * width as usize + px as usize) * 4;
    picture.set(dst, rgba[src]);
    picture.set(dst + 1, rgba[src + 1]);
    picture.set(dst + 2, rgba[src + 2]);
    picture.set(dst + 3, rgba[src + 3]);
    proof {
        assert forall|qx: int, qy: int, c: int|
            0 <= qx < width && 0 <= qy < height && 0 <= c < 4 implies #[trigger] channel(
            picture@,
            width,
            qx,
            qy,
            c,
        ) == if qx == px && qy == py {
            rgba@[src + c]
        } else {
            channel(before, width, qx, qy, c)
        } by {
            lemma_pixel_in_picture(width, height, qx, qy);
            if qy * width + qx == py * width + px {
                lemma_pixels_apart(width, qx, qy, px as int, py as int);
            }
        }
    }
}

/// The pixel comes before the column `col` of the row `row` of the tile.
spec fn comes_before(t: Tile, row: int, col: int, px: int, py: int) -> bool {
    py - t.y < row || (py - t.y == row && px - t.x < col)
}

/// The picture after the pixels of a tile before the column `col` of the row `row` were painted
/// over `before`.
spec fn tile_painted(
    before: Seq<u8>,
    after: Seq<u8>,
    width: u32,
    height: u32,
    t: Tile,
    row: int,
    col: int,
) -> bool {
    forall|qx: int, qy: int, c: int|
        0 <= qx < width && 0 <= qy < height && 0 <= c < 4 ==> #[trigger] channel(
            after,
            width,
            qx,
            qy,
            c,
        ) == if has_pixel(t, qx, qy) && comes_before(t, row, col, qx, qy) {
            t.rgba@[source(t, qx, qy) + c]
        } else {
            channel(before, width, qx, qy, c)
        }
}

/// Paints a tile over the picture.
fn paint_tile(picture: &mut Vec<u8>, width: u32, height: u32, t: &Tile)
    requires
        width * height * 4 <= usize::MAX,
        old(picture)@.len() == width * height * 4,
        tile_fits(*t, width, height),
    ensures
        final(picture)@.len() == width * height * 4,
        forall|qx: int, qy: int, c: int|
            0 <= qx < width && 0 <= qy < height && 0 <= c < 4 ==> #[trigger] channel(
                final(picture)@,
                width,
                qx,
                qy,
                c,
            ) == if has_pixel(*t, qx, qy) {
                t.rgba@[source(*t, qx, qy) + c]
            } else {
                channel(old(picture)@, width, qx, qy, c)
            },
{
    let ghost before = picture@;
    let mut row: u32 = 0;
    while row < t.h
        invariant
            row <= t.h,
            width * height * 4 <= usize::MAX,
            picture@.len() == width * height * 4,
            tile_fits(*t, width, height),
            tile_painted(before, picture@, width, height, *t, row as int, 0),
        decreases t.h - row,
    {
        let mut col: u32 = 0;
        while col < t.w
            invariant
                row < t.h,
                col <= t.w,
                width * height * 4 <= usize::MAX,
                picture@.len() == width * height * 4,
                tile_fits(*t, width, height),
                tile_painted(before, picture@, width, height, *t, row as int, col as int),
            decreases t.w - col,
        {
            let ghost px = t.x + col;
            let ghost py = t.y + row;
            proof {
                lemma_pixel_in_picture(t.w, t.h, col as int, row as int);
                assert(0 <= row * t.w) by (nonlinear_arith);
                assert(source(*t, px, py) == 4 * (row * t.w + col));
            }
            let src: usize = ((row * t.w + col) * 4) as usize;
            let ghost had = picture@;
            if src < t.rgba.len() && t.rgba.len() - src > 3 {
                assert(has_pixel(*t, px, py));
                put_pixel(picture, width, height, t.x + col, t.y + row, &t.rgba, src);
            }
            proof {
                assert forall|qx: int, qy: int, c: int|
                    0 <= qx < width && 0 <= qy < height && 0 <= c < 4 implies #[trigger] channel(
                    picture@,
                    width,
                    qx,
                    qy,
                    c,
                ) == if has_pixel(*t, qx, qy) && comes_before(
                    *t,
                    row as int,
                    col + 1,
                    qx,
                    qy,
                ) {
                    t.rgba@[source(*t, qx, qy) + c]
                } else {
                    channel(before, width, qx, qy, c)
                } by {
                    assert(channel(had, width, qx, qy, c) == channel(had, width, qx, qy, c));
                }
            }
            col = col + 1;
        }
        assert(tile_painted(before, picture@, width, height, *t, row + 1, 0));
        row = row + 1;
    }
}

/// How many pixels the tile has the bytes of.
spec fn pixel_count(t: Tile) -> int {
    let n = t.rgba@.len() as int / 4;
    if n < t.w * t.h {
        n
    } else {
        t.w * t.h
    }
}

/// The pixel number `k` of a tile lies in the column `k % w` of the row `k / w`.
proof fn lemma_nth_pixel(t: Tile, k: int)
    requires
        0 <= k < pixel_count(t),
    ensures
        0 < t.w,
        0 <= k / (t.w as int) < t.h,
        0 <= k % (t.w as int) < t.w,
        has_pixel(t, t.x + k % (t.w as int), t.y + k / (t.w as int)),
{
    let w = t.w as int;
    let h = t.h as int;
    assert(w > 0) by (nonlinear_arith)
        requires
            0 <= k < w * h,
            0 <= w,
            0 <= h,
    ;
    vstd::arithmetic::div_mod::lemma_fundamental_div_mod(k, w);
    vstd::arithmetic::div_mod::lemma_mod_bound(k, w);
    let row = k / w;
    let col = k % w;
    assert(0 <= row < h) by (nonlinear_arith)
        requires
            0 <= k < w * h,
            k == w * row + col,
            0 <= col < w,
    ;
    assert(row * w == w * row) by (nonlinear_arith);
}

/// Whether all the pixels of the tile belong into a picture of this size.
pub fn fits(t: &Tile, width: u32, height: u32) -> (r: bool)
    ensures
        r == tile_fits(*t, width, height),
{
    let ghost w = t.w as int;
    let ghost h = t.h as int;
    assert(0 <= w * h <= 0xffff_ffff * 0xffff_ffff) by (nonlinear_arith)
        requires
            0 <= w <= 0xffff_ffff,
            0 <= h <= 0xffff_ffff,
    ;
    let area: u64 = t.w as u64 * t.h as u64;
    if area > 0x4000_0000 {
        return false;
    }
    let have: u64 = (t.rgba.len() / 4) as u64;
    let count: u64 = if have < area {
        have
    } else {
        area
    };
    assert(count == pixel_count(*t));
    if count == 0 {
        assert forall|px: int, py: int| !#[trigger] has_pixel(*t, px, py) by {
            if has_pixel(*t, px, py) {
                lemma_pixel_in_picture(t.w, t.h, px - t.x, py - t.y);
            }
        }
        return true;
    }
    proof {
        lemma_nth_pixel(*t, count - 1);
    }
    let last_col: u64 = if count < t.w as u64 {
        count - 1
    } else {
        (t.w - 1) as u64
    };
    let last_row: u64 = (count - 1) / t.w as u64;
    let r: bool = t.x as u64 + last_col < width as u64 && t.y as u64 + last_row < height as u64;
    proof {
        lemma_nth_pixel(*t, last_col as int);
        vstd::arithmetic::div_mod::lemma_small_mod(last_col as nat, t.w as nat);
        if r {
            assert forall|px: int, py: int| #[trigger] has_pixel(*t, px, py) implies px < width
                && py < height by {
                let row = py - t.y;
                let col = px - t.x;
                lemma_pixel_in_picture(t.w, t.h, col, row);
                let k = row * w + col;
                assert(k < count);
                assert(0 <= row * w) by (nonlinear_arith)
                    requires
                        0 <= row,
                        0 <= w,
                ;
                assert(row * w == w * row) by (nonlinear_arith);
                assert(row <= (count - 1) / w) by {
                    vstd::arithmetic::div_mod::lemma_fundamental_div_mod_converse(k, w, row, col);
                    vstd::arithmetic::div_mod::lemma_div_is_ordered(k, count - 1, w);
                }
            }
        } else {
            assert(has_pixel(*t, t.x + last_col % t.w as u64, t.y + last_col / t.w as u64));
        }
    }
    r
}

/// Puts a picture together: its tiles are painted one over the other.
pub fn assemble(width: u32, height: u32, tiles: &Vec<Tile>) -> (r: Vec<u8>)
    requires
        width * height * 4 <= usize::MAX,
        forall|i: int| 0 <= i < tiles@.len() ==> tile_fits(#[trigger] tiles@[i], width, height),
    ensures
        r@.len() == width * height * 4,
        forall|px: int, py: int, c: int|
            0 <= px < width && 0 <= py < height && 0 <= c < 4 ==> #[trigger] channel(
                r@,
                width,
                px,
                py,
                c,
            ) == painted(tiles@, tiles@.len() as int, px, py, c),
{
    assert(0 <= width * height) by (nonlinear_arith);
    assert(width * height <= 0xffff_ffff * 0xffff_ffff) by (nonlinear_arith);
    let bytes: usize = (width as u64 * height as u64 * 4) as usize;
    let mut picture: Vec<u8> = Vec::new();
    let mut k: usize = 0;
    while k < bytes
        invariant
            k <= bytes,
            picture@.len() == k,
            forall|i: int| 0 <= i < k ==> #[trigger] picture@[i] == 0,
        decreases bytes - k,
    {
        picture.push(0);
        k = k + 1;
    }
    proof {
        assert forall|px: int, py: int, c: int|
            0 <= px < width && 0 <= py < height && 0 <= c < 4 implies #[trigger] channel(
            picture@,
            width,
            px,
            py,
            c,
        ) == painted(tiles@, 0, px, py, c) by {
            lemma_pixel_in_picture(width, height, px, py);
        }
    }
    let mut i: usize = 0;
    while i < tiles.len()
        invariant
            i <= tiles@.len(),
            width * height * 4 <= usize::MAX,
            picture@.len() == width * height * 4,
            forall|i: int| 0 <= i < tiles@.len() ==> tile_fits(#[trigger] tiles@[i], width, height),
            forall|px: int, py: int, c: int|
                0 <= px < width && 0 <= py < height && 0 <= c < 4 ==> #[trigger] channel(
                    picture@,
                    width,
                    px,
                    py,
                    c,
                ) == painted(tiles@, i as int, px, py, c),
        decreases tiles@.len() - i,
    {
        let ghost had = picture@;
        paint_tile(&mut picture, width, height, &tiles[i]);
        proof {
            assert forall|px: int, py: int, c: int|
                0 <= px < width && 0 <= py < height && 0 <= c < 4 implies #[trigger] channel(
                picture@,
                width,
                px,
                py,
                c,
            ) == painted(tiles@, i + 1, px, py, c) by {
                assert(channel(had, width, px, py, c) == painted(tiles@, i as int, px, py, c));
            }
        }
        i = i + 1;
    }
    picture
}

proof fn lemma_one_tile_decides(tiles: Seq<Tile>, n: int, at: int, px: int, py: int, c: int)
    requires
        0 <= at < n <= tiles.len(),
        forall|k: int| 0 <= k < n ==> (has_pixel(#[trigger] tiles[k], px, py) <==> k == at),
    ensures
        painted(tiles, n, px, py, c) == tiles[at].rgba@[source(tiles[at], px, py) + c],
    decreases n,
{
    if at < n - 1 {
        assert(!has_pixel(tiles[n - 1], px, py));
        lemma_one_tile_decides(tiles, n - 1, at, px, py, c);
    } else {
        assert(has_pixel(tiles[at], px, py));
    }
}

/// The tile stands where a tile of the picture belongs and has all its pixels.
pub open spec fn is_whole(t: Tile, rect: (u32, u32, u32, u32)) -> bool {
    &&& (t.x, t.y, t.w, t.h) == rect
    &&& t.rgba@.len() == 4 * (t.w * t.h)
}

/// A whole tile has just the pixels between its edges.
proof fn lemma_whole_tile(t: Tile, rect: (u32, u32, u32, u32), px: int, py: int)
    requires
        is_whole(t, rect),
    ensures
        has_pixel(t, px, py) <==> tile_holds(rect, px, py),
{
    if tile_holds(rect, px, py) {
        lemma_pixel_in_picture(t.w, t.h, px - t.x, py - t.y);
    }
}

/// A picture whose tiles all came back whole, in the order in which they were cut, has each pixel
/// from the one tile that it lies in.
pub proof fn whole_tiles_make_the_picture(
    width: u32,
    height: u32,
    tiles: Seq<Tile>,
    px: int,
    py: int,
    c: int,
)
    requires
        tiles.len() == tiles_along(height) * tiles_along(width),
        forall|k: int|
            0 <= k < tiles.len() ==> is_whole(
                #[trigger] tiles[k],
                tile_at(width, height, k / tiles_along(width), k % tiles_along(width)),
            ),
        0 <= px < width,
        0 <= py < height,
        0 <= c < 4,
    ensures
        ({
            let at = place(width, py / (TILE as int), px / (TILE as int));
            &&& 0 <= at < tiles.len()
            &&& painted(tiles, tiles.len() as int, px, py, c) == tiles[at].rgba@[source(
                tiles[at],
                px,
                py,
            ) + c]
        }),
{
    let rows = tiles_along(height);
    let cols = tiles_along(width);
    let i = py / (TILE as int);
    let j = px / (TILE as int);
    let at = place(width, i, j);
    each_pixel_lies_in_one_tile(width, height, px, py);
    assert(0 <= i * cols && i * cols + cols <= rows * cols) by (nonlinear_arith)
        requires
            0 <= i < rows,
            0 < cols,
    ;
    assert forall|k: int| 0 <= k < tiles.len() implies (has_pixel(#[trigger] tiles[k], px, py)
        <==> k == at) by {
        let a = k / cols;
        let b = k % cols;
        assert(k == cols * a + b && 0 <= b < cols) by {
            vstd::arithmetic::div_mod::lemma_fundamental_div_mod(k, cols);
            vstd::arithmetic::div_mod::lemma_mod_bound(k, cols);
        }
        assert(0 <= a < rows) by (nonlinear_arith)
            requires
                0 <= k < rows * cols,
                k == cols * a + b,
                0 <= b < cols,
        ;
        lemma_whole_tile(tiles[k], tile_at(width, height, a, b), px, py);
        assert(cols * a == a * cols) by (nonlinear_arith);
        if k == at {
            vstd::arithmetic::div_mod::lemma_fundamental_div_mod_converse(k, cols, i, j);
        }
    }
    lemma_one_tile_decides(tiles, tiles.len() as int, at, px, py, c);
}

proof fn lemma_painted_prefix(tiles: Seq<Tile>, t: Tile, n: int, px: int, py: int, c: int)
    requires
        0 <= n <= tiles.len(),
    ensures
        painted(tiles.push(t), n, px, py, c) == painted(tiles, n, px, py, c),
    decreases n,
{
    if n > 0 {
        assert(tiles.push(t)[n - 1] == tiles[n - 1]);
        lemma_painted_prefix(tiles, t, n - 1, px, py, c);
    }
}

/// Each tile is painted over those before it: where its edges hold the pixel and its bytes reach
/// that far, the pixel is the tile's, else it is as it was. At first every byte is zero.
pub proof fn tiles_are_painted_over_each_other(
    tiles: Seq<Tile>,
    t: Tile,
    px: int,
    py: int,
    c: int,
)
    ensures
        painted(Seq::<Tile>::empty(), 0, px, py, c) == 0,
        ({
            let o = 4 * ((py - t.y) * t.w + (px - t.x));
            painted(tiles.push(t), tiles.len() as int + 1, px, py, c) == if t.x <= px < t.x + t.w
                && t.y <= py < t.y + t.h && o + 4 <= t.rgba@.len() {
                t.rgba@[o + c]
            } else {
                painted(tiles, tiles.len() as int, px, py, c)
            }
        }),
{
    lemma_painted_prefix(tiles, t, tiles.len() as int, px, py, c);
}

/// A picture is stored row by row, four bytes a pixel.
pub proof fn pictures_are_stored_row_by_row(picture: Seq<u8>, width: u32, k: int, c: int)
    requires
        width > 0,
        0 <= k,
    ensures
        channel(picture, width, k % width as int, k / width as int, c) == picture[4 * k + c],
{
    vstd::arithmetic::div_mod::lemma_fundamental_div_mod(k, width as int);
    lemma_mul_is_commutative(width as int, k / width as int);
}

/// A tile that has all its bytes belongs into a picture just where its edges do.
pub proof fn whole_tiles_fit_by_their_edges(t: Tile, width: u32, height: u32)
    requires
        t.rgba@.len() == 4 * (t.w * t.h),
        4 * (t.w * t.h) <= u32::MAX,
        t.w > 0,
        t.h > 0,
    ensures
        tile_fits(t, width, height) <==> t.x + t.w <= width && t.y + t.h <= height,
{
    let (px, py) = (t.x + t.w - 1, t.y + t.h - 1);
    lemma_pixel_in_picture(t.w, t.h, t.w - 1, t.h - 1);
    assert(has_pixel(t, px, py));
}

} // verus!
