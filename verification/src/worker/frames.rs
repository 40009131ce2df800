//! Video frames in shades of gray.
use vstd::prelude::*;

verus! {

/// The luma of a colour.
pub open spec fn gray(r: u8, g: u8, b: u8) -> u8 {
    ((299 * r + 587 * g + 114 * b) / 1000) as u8
}

/// The luma of a colour.
fn luma(r: u8, g: u8, b: u8) -> (l: u8)
    ensures
        l == gray(r, g, b),
{
    ((299 * r as u32 + 587 * g as u32 + 114 * b as u32) / 1000) as u8
}

/// A frame of RGBA bytes in shades of gray: each colour byte of a whole pixel is the luma of the
/// pixel. The alpha bytes stay, and so do bytes at the end that make no whole pixel.
pub open spec fn gray_frame(input: Seq<u8>) -> Seq<u8> {
    Seq::new(
        input.len(),
        |i: int|
            if i % 4 != 3 && i - i % 4 + 3 < input.len() {
                gray(input[i - i % 4], input[i - i % 4 + 1], input[i - i % 4 + 2])
            } else {
                input[i]
            },
    )
}

/// Turns a frame of RGBA bytes gray.
pub fn grayscale_frame_rgba(input: Vec<u8>) -> (r: Vec<u8>)
    ensures
        r@ == gray_frame(input@),
{
    let ghost before = input@;
    let ghost goal = gray_frame(input@);
    let mut frame: Vec<u8> = input;
    let len: usize = frame.len();
    let mut i: usize = 0;
    proof {
        assert forall|p: int| 0 <= p && p % 4 == 0 && p + 3 < len implies #[trigger] is_gray_pixel(
            before,
            goal,
            p,
        ) by {
            lemma_gray_pixel(before, p);
        }
    }
    while len - i > 3
        invariant
            len == frame@.len(),
            len == before.len(),
            forall|p: int|
                0 <= p && p % 4 == 0 && p + 3 < len ==> #[trigger] is_gray_pixel(before, goal, p),
            i <= len,
            i % 4 == 0,
            forall|k: int| 0 <= k < i ==> #[trigger] frame@[k] == goal[k],
            forall|k: int| i <= k < len ==> #[trigger] frame@[k] == before[k],
        decreases len - i,
    {
        assert(is_gray_pixel(before, goal, i as int));
        let ghost had = frame@;
        let l: u8 = luma(frame[i], frame[i + 1], frame[i + 2]);
        frame.set(i, l);
        frame.set(i + 1, l);
        frame.set(i + 2, l);
        assert(frame@ == had.update(i as int, l).update(i + 1, l).update(i + 2, l));
        i = i + 4;
    }
    assert(frame@ =~= goal);
    frame
}

/// The four bytes from `start` on are a pixel of `input`, turned gray.
spec fn is_gray_pixel(input: Seq<u8>, output: Seq<u8>, start: int) -> bool {
    let l = gray(input[start], input[start + 1], input[start + 2]);
    &&& output[start] == l
    &&& output[start + 1] == l
    &&& output[start + 2] == l
    &&& output[start + 3] == input[start + 3]
}

/// Each whole pixel of a gray frame is gray.
proof fn lemma_gray_pixel(input: Seq<u8>, start: int)
    requires
        0 <= start,
        start % 4 == 0,
        start + 3 < input.len(),
    ensures
        is_gray_pixel(input, gray_frame(input), start),
{
    assert((start + 1) % 4 == 1 && (start + 2) % 4 == 2 && (start + 3) % 4 == 3);
}

/// A frame that was turned gray is gray: turning it gray once more changes nothing.
pub proof fn gray_frame_stays(input: Seq<u8>)
    ensures
        gray_frame(gray_frame(input)) == gray_frame(input),
{
    let once = gray_frame(input);
    assert forall|i: int| 0 <= i < input.len() implies gray_frame(once)[i] == once[i] by {
        if i % 4 != 3 && i - i % 4 + 3 < input.len() {
            lemma_gray_pixel(input, i - i % 4);
        }
    }
    assert(gray_frame(once) =~= once);
}

/// The luma of a colour is the weighted mean of red, green and blue, in whole steps: a thousand
/// times it is at most 299 times the red, 587 times the green and 114 times the blue together, and
/// a thousand more is above that.
pub proof fn luma_is_the_weighted_mean(r: u8, g: u8, b: u8)
    ensures
        1000 * gray(r, g, b) <= 299 * r + 587 * g + 114 * b < 1000 * (gray(r, g, b) + 1),
{
}

/// All three colours of a whole pixel take its luma, and its opacity stays.
pub proof fn pixels_take_their_luma(input: Seq<u8>, start: int, out: Seq<u8>)
    requires
        0 <= start,
        start % 4 == 0,
        start + 3 < input.len(),
        out == gray_frame(input),
    ensures
        out.len() == input.len(),
        1000 * out[start] <= 299 * input[start] + 587 * input[start + 1] + 114 * input[start + 2]
            < 1000 * (out[start] + 1),
        out[start + 1] == out[start],
        out[start + 2] == out[start],
        out[start + 3] == input[start + 3],
{
    lemma_gray_pixel(input, start);
    luma_is_the_weighted_mean(input[start], input[start + 1], input[start + 2]);
}

/// Bytes at the end that make no whole pixel stay.
pub proof fn bytes_of_no_pixel_stay(input: Seq<u8>, k: int)
    requires
        input.len() - input.len() % 4 <= k < input.len(),
    ensures
        gray_frame(input)[k] == input[k],
{
}

} // verus!
