//! Video frames: one chunk each, numbered by their file names.
use vstd::prelude::*;
use vstd::utf8::*;
use crate::json::{items_in, member, member_in, member_number, member_of, node_of, number_under, parse_node, JsonNode, NodeView};
use crate::parse::{all_digits, char_seqs, digits_value, leading_zeros_make_no_difference, numerals_read_back, padded_numerals_read_back, parse_unsigned, split, split_parts, text_without_separators_is_one_part, unsigned_value};
use crate::text::{chars_of, copy_str, decimal, lemma_decimal_shape, numerals_begin_with_no_zero, push_decimal, string_from_utf8};

verus! {

/// A video cut into frames. `P` is the type of the paths of their files.
#[derive(Debug, Clone)]
pub struct VideoJob<P> {
    pub input_path: String,
    pub temp_dir: String,
    pub width: u32,
    pub height: u32,
    pub fps: u32,
    pub frame_paths: Vec<P>,
}

/// `part` is `job` with a copy of the frame `frame` alone.
pub open spec fn is_single_frame<P: Clone>(job: VideoJob<P>, frame: P, part: VideoJob<P>) -> bool {
    &&& part.input_path@ == job.input_path@
    &&& part.temp_dir@ == job.temp_dir@
    &&& part.width == job.width
    &&& part.height == job.height
    &&& part.fps == job.fps
    &&& part.frame_paths@.len() == 1
    &&& cloned::<P>(frame, part.frame_paths@[0])
}

/// One frame per chunk.
pub fn chunker<P: Clone>(job: &VideoJob<P>) -> (r: Vec<VideoJob<P>>)
    ensures
        r@.len() == job.frame_paths@.len(),
        forall|i: int|
            0 <= i < r@.len() ==> is_single_frame(*job, job.frame_paths@[i], #[trigger] r@[i]),
{
    let mut r: Vec<VideoJob<P>> = Vec::new();
    let mut i: usize = 0;
    while i < job.frame_paths.len()
        invariant
            i <= job.frame_paths@.len(),
            r@.len() == i,
            forall|k: int|
                0 <= k < i ==> is_single_frame(*job, job.frame_paths@[k], #[trigger] r@[k]),
        decreases job.frame_paths@.len() - i,
    {
        let mut frames: Vec<P> = Vec::new();
        frames.push(job.frame_paths[i].clone());
        r.push(
            VideoJob {
                input_path: job.input_path.clone(),
                temp_dir: job.temp_dir.clone(),
                width: job.width,
                height: job.height,
                fps: job.fps,
                frame_paths: frames,
            },
        );
        i = i + 1;
    }
    r
}

/// The number in a frame's file name: what stands behind its last underscore; zero where that
/// is no number.
pub open spec fn frame_number(stem: Seq<char>) -> u32 {
    match unsigned_value(split_parts(stem, '_').last()) {
        Some(n) => if n <= u32::MAX {
            n as u32
        } else {
            0
        },
        None => 0,
    }
}

/// The number of a frame, by its file name without the extension; zero where there is no such
/// name.
pub fn frame_index(stem: Option<&str>) -> (r: u32)
    ensures
        r == match stem {
            Some(s) => frame_number(s@),
            None => 0,
        },
{
    let s = match stem {
        Some(s) => s,
        None => return 0,
    };
    let parts = split(s, '_');
    let last: usize = parts.len() - 1;
    assert(char_seqs(parts@).last() == parts@[last as int]@);
    match parse_unsigned(&parts[last], u32::MAX as u64) {
        Some(n) => n as u32,
        None => 0,
    }
}

/// The decimal numeral of `n` with zeros before it, at least six digits long.
pub open spec fn six_digits(n: u32) -> Seq<char> {
    let digits = decimal(n as nat);
    if digits.len() < 6 {
        Seq::new((6 - digits.len()) as nat, |i: int| '0') + digits
    } else {
        digits
    }
}

/// The file name of the processed frame number `index`.
pub fn output_name(index: u32) -> (r: String)
    ensures
        r@ == "bw_"@ + six_digits(index) + ".png"@,
{
    let mut digits = copy_str("");
    proof {
        reveal_strlit("");
    }
    push_decimal(&mut digits, index as u64);
    assert(digits@ =~= decimal(index as nat));
    let mut r = copy_str("bw_");
    let ghost head = r@;
    let mut have: usize = chars_of(digits.as_str()).len();
    let ghost n = have as int;
    assert(r@ =~= head + Seq::new(0, |i: int| '0'));
    while have < 6
        invariant
            n <= have,
            n <= 6 ==> have <= 6,
            n > 6 ==> have == n,
            r@ == head + Seq::new((have - n) as nat, |i: int| '0'),
        decreases 6 - have,
    {
        r.push('0');
        have = have + 1;
        assert(r@ =~= head + Seq::new((have - n) as nat, |i: int| '0'));
    }
    r.append(digits.as_str());
    r.append(".png");
    assert(r@ =~= head + six_digits(index) + ".png"@);
    r
}

/// The low 32 bits of a number.
pub open spec fn low_bits(n: u64) -> u32 {
    (n % 0x1_0000_0000) as u32
}

/// The low 32 bits of a number, zero for none.
pub open spec fn low_bits_or_zero(n: Option<u64>) -> u32 {
    match n {
        Some(n) => low_bits(n),
        None => 0,
    }
}

/// The low 32 bits of a number, zero for none.
pub fn to_u32(n: Option<u64>) -> (r: u32)
    ensures
        r == low_bits_or_zero(n),
{
    match n {
        Some(n) => (n % 0x1_0000_0000) as u32,
        None => 0,
    }
}

/// The number of the frame that a result's metadata names, a JSON text; zero where it names
/// none.
pub fn result_index(meta: &str) -> (r: u32)
    ensures
        r == low_bits_or_zero(number_under(node_of(meta@), "frame_index"@)),
{
    let node = parse_node(meta);
    to_u32(member_number(&node, "frame_index"))
}

/// The first of the streams that a probe's report lists.
pub open spec fn first_stream(node: Option<NodeView>) -> Option<NodeView> {
    match member_in(node, "streams"@) {
        Some(streams) => match items_in(node_of(streams)) {
            Some(items) => if items.len() > 0 {
                node_of(items[0])
            } else {
                None
            },
            None => None,
        },
        None => None,
    }
}

/// The size of the video that a probe's report tells; zero for a side that it does not tell.
/// Nothing where the report is no JSON text.
pub open spec fn probed_size(report: Seq<u8>) -> Option<(u32, u32)> {
    if !valid_utf8(report) {
        None
    } else {
        match node_of(decode_utf8(report)) {
            None => None,
            Some(node) => Some(
                (
                    low_bits_or_zero(number_under(first_stream(Some(node)), "width"@)),
                    low_bits_or_zero(number_under(first_stream(Some(node)), "height"@)),
                ),
            ),
        }
    }
}

/// Reads the size of a video from a probe's report.
pub fn video_size(report: Vec<u8>) -> (r: Option<(u32, u32)>)
    ensures
        r == probed_size(report@),
{
    let text = match string_from_utf8(report) {
        Some(text) => text,
        None => return None,
    };
    let node = parse_node(text.as_str());
    if node.is_none() {
        return None;
    }
    let stream: Option<JsonNode> = match member(&node, "streams") {
        Some(streams) => match parse_node(streams.as_str()) {
            Some(JsonNode::Items(items)) => if items.len() > 0 {
                parse_node(items[0].as_str())
            } else {
                None
            },
            _ => None,
        },
        None => None,
    };
    Some((to_u32(member_number(&stream, "width")), to_u32(member_number(&stream, "height"))))
}

/// Where the frame with the smallest number stands, the first of them if there are several.
pub fn first_frame(indices: &Vec<u32>) -> (r: Option<usize>)
    ensures
        match r {
            Some(k) => k < indices@.len() && (forall|i: int|
                0 <= i < indices@.len() ==> indices@[k as int] <= #[trigger] indices@[i]) && (
            forall|i: int| 0 <= i < k ==> indices@[k as int] < #[trigger] indices@[i]),
            None => indices@.len() == 0,
        },
{
    if indices.len() == 0 {
        return None;
    }
    let mut k: usize = 0;
    let mut i: usize = 1;
    while i < indices.len()
        invariant
            k < i <= indices@.len(),
            forall|j: int| 0 <= j < i ==> indices@[k as int] <= #[trigger] indices@[j],
            forall|j: int| 0 <= j < k ==> indices@[k as int] < #[trigger] indices@[j],
        decreases indices@.len() - i,
    {
        if indices[i] < indices[k] {
            k = i;
        }
        i = i + 1;
    }
    Some(k)
}

proof fn lemma_last_part(head: Seq<char>, sep: char, tail: Seq<char>)
    requires
        forall|i: int| 0 <= i < tail.len() ==> #[trigger] tail[i] != sep,
    ensures
        split_parts(head + seq![sep] + tail, sep).last() == tail,
        split_parts(head + seq![sep] + tail, sep).len() > 0,
    decreases tail.len(),
{
    let s = head + seq![sep] + tail;
    if tail.len() == 0 {
        assert(s.drop_last() =~= head);
        assert(s.last() == sep);
        assert(split_parts(s, sep).last() =~= tail);
    } else {
        let rest = tail.drop_last();
        assert(s.drop_last() =~= head + seq![sep] + rest);
        assert(s.last() == tail.last());
        assert(tail[tail.len() - 1] != sep);
        assert forall|i: int| 0 <= i < rest.len() implies #[trigger] rest[i] != sep by {
            assert(rest[i] == tail[i]);
        }
        lemma_last_part(head, sep, rest);
        assert(split_parts(s, sep).last() =~= rest.push(tail.last()));
    }
}

proof fn lemma_leading_zeros(k: nat, s: Seq<char>)
    ensures
        digits_value(Seq::new(k, |i: int| '0') + s) == digits_value(s),
{
    leading_zeros_make_no_difference(k, s);
}

/// The number in a frame's file name is the one that it was given, whatever stands before its
/// last underscore.
pub proof fn frame_numbers_read_back(head: Seq<char>, n: u32)
    ensures
        frame_number(head + seq!['_'] + six_digits(n)) == n,
{
    let digits = decimal(n as nat);
    let tail = six_digits(n);
    lemma_decimal_shape(n as nat);
    numerals_read_back(n as nat);
    assert(digits[0] >= '0');
    assert(all_digits(digits));
    assert forall|i: int| 0 <= i < tail.len() implies '0' <= #[trigger] tail[i] <= '9' by {
        if digits.len() < 6 {
            let k = 6 - digits.len();
            if i >= k {
                assert(tail[i] == digits[i - k]);
            } else {
                assert(tail[i] == '0');
            }
        }
    }
    assert(digits_value(tail) == n) by {
        if digits.len() < 6 {
            lemma_leading_zeros((6 - digits.len()) as nat, digits);
        }
    }
    assert forall|i: int| 0 <= i < tail.len() implies #[trigger] tail[i] != '_' by {
        assert('0' <= tail[i] <= '9');
    }
    lemma_last_part(head, '_', tail);
    assert(tail[0] != '+') by {
        assert('0' <= tail[0]);
    }
}

/// The number of a frame stands behind the last underscore of its name, or is the whole name where
/// there is none; what is no number, or too large a one, counts as zero.
pub proof fn frame_numbers_stand_last(head: Seq<char>, tail: Seq<char>)
    requires
        forall|i: int| 0 <= i < tail.len() ==> #[trigger] tail[i] != '_',
    ensures
        frame_number(head + seq!['_'] + tail) == frame_number(tail),
        match unsigned_value(tail) {
            Some(n) => if n <= 0xffff_ffff {
                frame_number(tail) == n
            } else {
                frame_number(tail) == 0
            },
            None => frame_number(tail) == 0,
        },
        unsigned_value(tail) matches Some(n) ==> n > 0xffff_ffff ==> frame_number(tail) == 0,
{
    lemma_last_part(head, '_', tail);
    text_without_separators_is_one_part(tail, '_');
    assert(split_parts(tail, '_').last() == tail);
}

/// The digits in a frame's file name stand for its number. There are six of them, or more where the
/// number takes more; then the first is not zero.
pub proof fn names_have_six_digits(n: u32)
    ensures
        six_digits(n).len() >= 6,
        unsigned_value(six_digits(n)) == Some(n as nat),
        six_digits(n).len() > 6 ==> six_digits(n) == decimal(n as nat),
        six_digits(n).len() > 6 ==> six_digits(n)[0] != '0',
{
    let digits = decimal(n as nat);
    if digits.len() < 6 {
        padded_numerals_read_back((6 - digits.len()) as nat, n as nat);
    } else {
        numerals_read_back(n as nat);
        lemma_decimal_shape(n as nat);
        if n > 0 {
            numerals_begin_with_no_zero(n as nat);
        }
    }
}

/// A number that fits into 32 bits stays; others are counted around.
pub proof fn numbers_are_counted_around(n: u64)
    ensures
        n < 0x1_0000_0000 ==> low_bits_or_zero(Some(n)) == n,
        n + 0x1_0000_0000 <= u64::MAX ==> low_bits_or_zero(Some((n + 0x1_0000_0000) as u64))
            == low_bits_or_zero(Some(n)),
        low_bits_or_zero(None) == 0,
{
}

/// The size of a video is that of the first stream of its report; a side that is not told is zero.
pub proof fn size_is_that_of_the_first_stream(
    report: Seq<u8>,
    members: Seq<(Seq<char>, Seq<char>)>,
    streams: Seq<char>,
    items: Seq<Seq<char>>,
    key: Seq<char>,
)
    requires
        valid_utf8(report),
        node_of(decode_utf8(report)) == Some(NodeView::Members(members)),
        member_of(members, "streams"@) == Some(streams),
        node_of(streams) == Some(NodeView::Items(items)),
    ensures
        items.len() == 0 ==> probed_size(report) == Some((0u32, 0u32)),
        items.len() > 0 ==> probed_size(report) == Some(
            (
                low_bits_or_zero(number_under(node_of(items[0]), "width"@)),
                low_bits_or_zero(number_under(node_of(items[0]), "height"@)),
            ),
        ),
{
}

/// A report that is no JSON text tells no size; one that lists no streams tells zero for both sides.
pub proof fn reports_without_streams_tell_nothing(report: Seq<u8>)
    ensures
        !valid_utf8(report) ==> probed_size(report) is None,
        valid_utf8(report) && node_of(decode_utf8(report)) is None ==> probed_size(report) is None,
        valid_utf8(report) && node_of(decode_utf8(report)) is Some && member_in(
            node_of(decode_utf8(report)),
            "streams"@,
        ) is None ==> probed_size(report) == Some((0u32, 0u32)),
{
}

/// A chunk of a video is the video with a copy of one frame, and otherwise the same.
pub proof fn frames_keep_everything_else<P: Clone>(job: VideoJob<P>, frame: P, part: VideoJob<P>)
    requires
        is_single_frame(job, frame, part),
    ensures
        part.input_path@ == job.input_path@ && part.temp_dir@ == job.temp_dir@,
        part.width == job.width && part.height == job.height && part.fps == job.fps,
        part.frame_paths@.len() == 1 && cloned::<P>(frame, part.frame_paths@[0]),
{
}

} // verus!
