//! Calls on frames, tiles, pictures and the numbers behind them.
use vstd::prelude::*;
use crate::json::{node_of, number_under};
use crate::parse::unsigned_value;
use crate::raytrace::image::{assemble, decode_result, fits, has_pixel, painted, pictures_are_stored_row_by_row, tiles_are_painted_over_each_other, whole_tiles_fit_by_their_edges, Tile};
use crate::raytrace::rng::{bits_grow_in_equal_steps, pixel_seed, seeds_take_up_sample_and_pixel, steps_are_linear, steps_take_three_turns, Rng};
use crate::raytrace::tiles::{render_tile_impl, rendered_pixels_are_shaded, tile_job, tiles_are_eighty_wide_and_high, tiles_along, RenderJob, TileJob};
use crate::video::{first_frame, frame_index, frame_numbers_stand_last, low_bits_or_zero, names_have_six_digits, numbers_are_counted_around, output_name, probed_size, result_index, six_digits, to_u32, video_size, VideoJob};
use crate::worker::frames::{bytes_of_no_pixel_stay, grayscale_frame_rgba, pixels_take_their_luma};

verus! {

/// A frame keeps its length. Each whole pixel takes the weighted mean of its colours, in whole
/// steps, for all three of them, and keeps its opacity.
pub proof fn frames_turn_gray_pixel_by_pixel(input: Vec<u8>, r: Vec<u8>, start: int)
    requires
        call_ensures(grayscale_frame_rgba, (input,), r),
        0 <= start,
        start % 4 == 0,
        start + 3 < input@.len(),
    ensures
        r@.len() == input@.len(),
        1000 * r@[start] <= 299 * input@[start] + 587 * input@[start + 1] + 114 * input@[start + 2]
            < 1000 * (r@[start] + 1),
        r@[start + 1] == r@[start],
        r@[start + 2] == r@[start],
        r@[start + 3] == input@[start + 3],
{
    pixels_take_their_luma(input@, start, r@);
}

/// What makes no whole pixel at the end of a frame stays.
pub proof fn the_rest_of_a_frame_stays(input: Vec<u8>, r: Vec<u8>, k: int)
    requires
        call_ensures(grayscale_frame_rgba, (input,), r),
        input@.len() - input@.len() % 4 <= k < input@.len(),
    ensures
        r@.len() == input@.len(),
        r@[k] == input@[k],
{
    bytes_of_no_pixel_stay(input@, k);
}

/// A video is cut into as many chunks as it has frames, each with a copy of its frame and otherwise
/// the same.
pub proof fn videos_are_cut_frame_by_frame<P: Clone>(
    job: VideoJob<P>,
    r: Vec<VideoJob<P>>,
    i: int,
)
    requires
        call_ensures(crate::video::chunker::<P>, (&job,), r),
    ensures
        r@.len() == job.frame_paths@.len(),
        0 <= i < r@.len() ==> {
            let part = r@[i];
            &&& part.input_path@ == job.input_path@
            &&& part.temp_dir@ == job.temp_dir@
            &&& part.width == job.width
            &&& part.height == job.height
            &&& part.fps == job.fps
            &&& part.frame_paths@.len() == 1
            &&& cloned::<P>(job.frame_paths@[i], part.frame_paths@[0])
        },
{
}

/// The number of a frame is what stands behind the last underscore of its name; zero where that is
/// no number that fits into 32 bits, or where there is no name.
pub proof fn names_tell_their_number(
    stem: &str,
    head: Seq<char>,
    tail: Seq<char>,
    r: u32,
    none: u32,
)
    requires
        call_ensures(frame_index, (Some(stem),), r),
        call_ensures(frame_index, (None::<&str>,), none),
        stem@ == tail || stem@ == head + seq!['_'] + tail,
        forall|i: int| 0 <= i < tail.len() ==> #[trigger] tail[i] != '_',
    ensures
        none == 0,
        match unsigned_value(tail) {
            Some(n) => if n <= 0xffff_ffff {
                r == n
            } else {
                r == 0
            },
            None => r == 0,
        },
{
    frame_numbers_stand_last(head, tail);
}

/// The name of a processed frame holds its number in six digits or more, between `bw_` and `.png`.
pub proof fn processed_frames_are_named_by_number(index: u32, r: String, digits: Seq<char>)
    requires
        call_ensures(output_name, (index,), r),
        digits == r@.subrange(3, r@.len() - 4),
    ensures
        r@.take(3) == "bw_"@,
        r@.skip(r@.len() - 4) == ".png"@,
        digits.len() >= 6,
        digits.len() > 6 ==> digits[0] != '0',
        unsigned_value(digits) == Some(index as nat),
{
    names_have_six_digits(index);
    reveal_strlit("bw_");
    reveal_strlit(".png");
    assert(r@.take(3) =~= "bw_"@);
    assert(digits =~= six_digits(index));
    assert(r@.skip(r@.len() - 4) =~= ".png"@);
}

/// A number that fits into 32 bits stays; others are counted around, and none is zero. The number
/// of a processed frame stands under `frame_index`.
pub proof fn frame_numbers_are_read_back(n: u64, meta: &str, a: u32, b: u32)
    requires
        call_ensures(to_u32, (Some(n),), a),
        call_ensures(result_index, (meta,), b),
        number_under(node_of(meta@), "frame_index"@) == Some(n),
    ensures
        a == n % 0x1_0000_0000,
        b == a,
{
    numbers_are_counted_around(n);
}

/// Metadata that name no frame, or give it no number, name the frame zero.
pub proof fn unnamed_frames_are_zero(meta: &str, b: u32)
    requires
        call_ensures(result_index, (meta,), b),
        number_under(node_of(meta@), "frame_index"@) is None,
    ensures
        b == 0,
{
}

/// The size of a video is read from its report.
pub proof fn reports_tell_the_size(report: Vec<u8>, r: Option<(u32, u32)>)
    requires
        call_ensures(video_size, (report,), r),
    ensures
        r == probed_size(report@),
{
}

/// The first frame is the first of those with the smallest number.
pub proof fn the_smallest_number_comes_first(indices: Vec<u32>, r: Option<usize>, i: int)
    requires
        call_ensures(first_frame, (&indices,), r),
        0 <= i < indices@.len(),
    ensures
        r matches Some(k) && k < indices@.len() && indices@[k as int] <= indices@[i] && (i < k
            ==> indices@[k as int] < indices@[i]),
{
}

/// A picture is cut into tiles of eighty by eighty, row by row; those at the right and the lower edge
/// reach to the edge. Each keeps everything else of its picture's job.
pub proof fn pictures_are_cut_into_tiles<S: Clone>(
    job: RenderJob<S>,
    r: Vec<RenderJob<S>>,
    i: int,
    j: int,
)
    requires
        call_ensures(crate::raytrace::tiles::chunker::<S>, (&job,), r),
        0 <= i,
        80 * i < job.height,
        0 <= j,
        80 * j < job.width,
    ensures
        ({
            let cols = (job.width + 79) / 80;
            let rows = (job.height + 79) / 80;
            let part = r@[i * cols + j];
            &&& r@.len() == rows * cols
            &&& 0 <= i * cols + j < r@.len()
            &&& part.tile == Some(
                (
                    (80 * j) as u32,
                    (80 * i) as u32,
                    if 80 * (j + 1) <= job.width {
                        80u32
                    } else {
                        (job.width - 80 * j) as u32
                    },
                    if 80 * (i + 1) <= job.height {
                        80u32
                    } else {
                        (job.height - 80 * i) as u32
                    },
                ),
            )
            &&& part.width == job.width
            &&& part.height == job.height
            &&& part.samples == job.samples
            &&& part.max_depth == job.max_depth
            &&& cloned::<S>(job.scene, part.scene)
        }),
{
    assert(tiles_along(job.width) == (job.width + 79) / 80);
    assert(tiles_along(job.height) == (job.height + 79) / 80);
    tiles_are_eighty_wide_and_high(job.width, job.height, i, j);
    assert(crate::raytrace::tiles::placed(job, r@, i, j));
}

/// A worker gets the tile of its job and everything else of it.
pub proof fn tile_jobs_keep_everything<S: Clone>(chunk: RenderJob<S>, r: TileJob<S>)
    requires
        call_ensures(tile_job::<S>, (&chunk,), r),
    ensures
        chunk.tile == Some((r.tile_x, r.tile_y, r.tile_w, r.tile_h)),
        r.width == chunk.width && r.height == chunk.height,
        r.samples == chunk.samples && r.max_depth == chunk.max_depth,
        cloned::<S>(chunk.scene, r.scene),
{
}

/// A rendered tile has the shading's colour of each of its pixels at the pixel's place.
pub proof fn tiles_are_rendered_pixel_by_pixel<S, F: Fn(u32, u32) -> (u8, u8, u8)>(
    job: TileJob<S>,
    shade: F,
    r: Vec<u8>,
    px: u32,
    py: u32,
)
    requires
        call_ensures(render_tile_impl::<S, F>, (&job, shade), r),
        job.tile_x <= px < job.tile_x + job.tile_w,
        job.tile_y <= py < job.tile_y + job.tile_h,
    ensures
        r@.len() == 4 * (job.tile_w * job.tile_h),
        ({
            let o = 4 * ((py - job.tile_y) * job.tile_w + (px - job.tile_x));
            &&& 0 <= o < r@.len() - 3
            &&& call_ensures(shade, (px, py), (r@[o], r@[o + 1], r@[o + 2]))
            &&& r@[o + 3] == 255
        }),
{
    rendered_pixels_are_shaded(job, shade, r@, px, py);
}

/// A result becomes a tile with its bytes, where its metadata say.
pub proof fn results_become_tiles(rgba: Vec<u8>, meta: &str, r: Tile)
    requires
        call_ensures(decode_result, (rgba, meta), r),
    ensures
        r.rgba == rgba,
        r.x == low_bits_or_zero(number_under(node_of(meta@), "x"@)),
        r.y == low_bits_or_zero(number_under(node_of(meta@), "y"@)),
        r.w == low_bits_or_zero(number_under(node_of(meta@), "w"@)),
        r.h == low_bits_or_zero(number_under(node_of(meta@), "h"@)),
{
}

/// A tile that has all its bytes fits just where its edges do.
pub proof fn whole_tiles_fit(t: Tile, width: u32, height: u32, r: bool)
    requires
        call_ensures(fits, (&t, width, height), r),
        t.rgba@.len() == 4 * (t.w * t.h),
        4 * (t.w * t.h) <= u32::MAX,
        t.w > 0,
        t.h > 0,
    ensures
        r <==> t.x + t.w <= width && t.y + t.h <= height,
{
    whole_tiles_fit_by_their_edges(t, width, height);
}

/// The pixel `dx` to the right of and `dy` below the tile's first is one that the tile has the bytes
/// of, and lies outside the picture.
pub open spec fn sticks_out(t: Tile, width: u32, height: u32, dx: int, dy: int) -> bool {
    &&& 0 <= dx < t.w
    &&& 0 <= dy < t.h
    &&& 4 * (dy * t.w + dx) + 4 <= t.rgba@.len()
    &&& t.x + dx >= width || t.y + dy >= height
}

/// A tile fits just where none of its pixels lies outside the picture and its last pixel is not out
/// of reach of 32 bits.
pub proof fn tiles_fit_by_their_pixels(t: Tile, width: u32, height: u32, r: bool)
    requires
        call_ensures(fits, (&t, width, height), r),
    ensures
        r <==> 4 * (t.w * t.h) <= u32::MAX + 4 && forall|dx: int, dy: int|
            !#[trigger] sticks_out(t, width, height, dx, dy),
{
    if r {
        assert forall|dx: int, dy: int| !#[trigger] sticks_out(t, width, height, dx, dy) by {
            assert(!has_pixel(t, t.x + dx, t.y + dy) || (t.x + dx < width && t.y + dy < height));
        }
    } else if 4 * (t.w * t.h) <= u32::MAX + 4 {
        let (px, py) = choose|px: int, py: int| #[trigger]
            has_pixel(t, px, py) && !(px < width && py < height);
        assert(sticks_out(t, width, height, px - t.x, py - t.y));
    }
}

/// A picture without tiles is all zero. One tile more is painted over the picture: each pixel that it
/// has the bytes of is the tile's, and each other is as it was.
pub proof fn pictures_take_one_tile_more(
    width: u32,
    height: u32,
    some: Vec<Tile>,
    more: Vec<Tile>,
    t: Tile,
    a: Vec<u8>,
    b: Vec<u8>,
    k: int,
    c: int,
)
    requires
        call_ensures(assemble, (width, height, &some), a),
        call_ensures(assemble, (width, height, &more), b),
        more@ == some@.push(t),
        0 <= k < width * height,
        0 <= c < 4,
    ensures
        a@.len() == 4 * (width * height),
        b@.len() == 4 * (width * height),
        some@.len() == 0 ==> a@[4 * k + c] == 0,
        ({
            let (px, py) = (k % width as int, k / width as int);
            let o = 4 * ((py - t.y) * t.w + (px - t.x));
            b@[4 * k + c] == if t.x <= px < t.x + t.w && t.y <= py < t.y + t.h && o + 4
                <= t.rgba@.len() {
                t.rgba@[o + c]
            } else {
                a@[4 * k + c]
            }
        }),
{
    let w = width as int;
    let h = height as int;
    assert(w > 0) by (nonlinear_arith)
        requires
            0 <= k < w * h,
            0 <= w,
            0 <= h,
    ;
    vstd::arithmetic::div_mod::lemma_fundamental_div_mod(k, w);
    vstd::arithmetic::div_mod::lemma_mod_bound(k, w);
    let (px, py) = (k % w, k / w);
    assert(0 <= py < h) by (nonlinear_arith)
        requires
            0 <= k < w * h,
            k == w * py + px,
            0 <= px < w,
    ;
    pictures_are_stored_row_by_row(a@, width, k, c);
    pictures_are_stored_row_by_row(b@, width, k, c);
    tiles_are_painted_over_each_other(some@, t, px, py, c);
    assert(width * height * 4 == 4 * (width * height)) by (nonlinear_arith);
    if some@.len() == 0 {
        assert(painted(some@, 0, px, py, c) == 0);
    }
}

/// Seeds take up the sample's number and, further up, the pixel's coordinates, bit by bit.
pub proof fn seeds_are_made_of_sample_and_pixel(
    px: u32,
    py: u32,
    sample: u32,
    r: u64,
    origin: u64,
)
    requires
        call_ensures(pixel_seed, (px, py, sample), r),
        call_ensures(pixel_seed, (0u32, 0u32, 0u32), origin),
    ensures
        origin == 0x9E3779B9,
        r == origin ^ (sample as u64) ^ ((py as u64) << 20) ^ ((px as u64) << 40),
{
    seeds_take_up_sample_and_pixel(px, py, sample);
    let (a, b, c) = (px as u64, py as u64, sample as u64);
    assert((a << 40) ^ (b << 20) ^ c ^ 0x9E3779B9u64 == 0x9E3779B9u64 ^ c ^ (b << 20) ^ (a << 40))
        by (bit_vector);
}

/// Random bits depend on the state alone; a step treats each bit of it by itself, and the bits given
/// out grow with the state after the step in equal steps.
pub proof fn random_bits_follow_from_the_state(
    x: &mut Rng,
    y: &mut Rng,
    z: &mut Rng,
    a: u64,
    b: u64,
    c: u64,
)
    requires
        call_ensures(Rng::next_u64, (x,), a),
        call_ensures(Rng::next_u64, (y,), b),
        call_ensures(Rng::next_u64, (z,), c),
        old(z)@ == old(x)@ ^ old(y)@,
    ensures
        final(z)@ == final(x)@ ^ final(y)@,
        final(y)@ == final(x)@ + 1 ==> b == (a + 0x2545F4914F6CDD1D) % 0x1_0000_0000_0000_0000,
        final(x)@ == final(y)@ ==> a == b,
{
    steps_are_linear(old(x)@, old(y)@);
    if final(y)@ == final(x)@ + 1 {
        bits_grow_in_equal_steps(final(x)@);
    }
}

/// A generator begins with its seed where that is odd, else with the number behind it. A step takes
/// three turns, in each of which the state is combined bit by bit with a part of itself.
pub proof fn generators_begin_and_step_so(seed: u64, fresh: Rng, x: &mut Rng, r: u64)
    requires
        call_ensures(Rng::new, (seed,), fresh),
        call_ensures(Rng::next_u64, (x,), r),
    ensures
        fresh@ == if seed % 2 == 1 {
            seed as int
        } else {
            seed + 1
        },
        exists|a: u64, b: u64| #[trigger]
            (a ^ old(x)@) == old(x)@ / 4096 && #[trigger] (b ^ a) == (a * 33_554_432)
                % 0x1_0000_0000_0000_0000 && final(x)@ ^ b == b / 134_217_728,
{
    assert(seed % 2 == 1 ==> seed | 1 == seed) by (bit_vector);
    assert(seed % 2 == 0 ==> seed | 1 == seed + 1) by (bit_vector);
    steps_take_three_turns(old(x)@);
}

/// A draw of 24 bits takes the same step and gives the highest 24 of the bits.
pub proof fn draws_are_the_highest_bits(x: &mut Rng, y: &mut Rng, a: u64, b: u32)
    requires
        call_ensures(Rng::next_u64, (x,), a),
        call_ensures(Rng::next_24_bits, (y,), b),
        old(x)@ == old(y)@,
    ensures
        final(x)@ == final(y)@,
        b == a / 0x100_0000_0000,
{
    assert(a >> 40 == a / 0x100_0000_0000) by (bit_vector);
}

} // verus!
