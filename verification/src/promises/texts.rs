//! Calls on texts and bytes: what is appended, found, cut apart and read.
use vstd::prelude::*;
use crate::json::{last_member_counts, member, member_number, member_of, member_text, members_are_read_by_kind, node_of, text_view, JsonNode, NodeView};
use crate::parse::{char_seqs, is_white, separators_part_the_text, split, split_parts, text_without_separators_is_one_part, unsigned_value, white};
use crate::protocol::bytes::{copy_range, lowest_byte_comes_first, push_bytes, push_section, push_u16, push_u32, sections_announce_their_length};
use crate::text::{chars_of, contained_text_stands_between, contains, copy_str, hex_digits_have_the_value, hex_value, push_decimal, push_hex_byte, same_text, starting_text_stands_first, starts_with, string_of};

verus! {

/// A character is white space just where its number is one of these.
pub proof fn white_space_has_these_numbers(c: char, r: bool)
    requires
        call_ensures(white, (c,), r),
    ensures
        r == is_white(c),
        r <==> seq![
            0x9int,
            0xA,
            0xB,
            0xC,
            0xD,
            0x20,
            0x85,
            0xA0,
            0x1680,
            0x2000,
            0x2001,
            0x2002,
            0x2003,
            0x2004,
            0x2005,
            0x2006,
            0x2007,
            0x2008,
            0x2009,
            0x200A,
            0x2028,
            0x2029,
            0x202F,
            0x205F,
            0x3000,
        ].contains(c as int),
{
    let all = seq![
        0x9int,
        0xA,
        0xB,
        0xC,
        0xD,
        0x20,
        0x85,
        0xA0,
        0x1680,
        0x2000,
        0x2001,
        0x2002,
        0x2003,
        0x2004,
        0x2005,
        0x2006,
        0x2007,
        0x2008,
        0x2009,
        0x200A,
        0x2028,
        0x2029,
        0x202F,
        0x205F,
        0x3000,
    ];
    let n = c as int;
    if is_white(c) {
        let k = if n <= 0xD {
            n - 9
        } else if n == 0x20 {
            5
        } else if n == 0x85 {
            6
        } else if n == 0xA0 {
            7
        } else if n == 0x1680 {
            8
        } else if n <= 0x200A {
            n - 0x2000 + 9
        } else if n == 0x2028 {
            20
        } else if n == 0x2029 {
            21
        } else if n == 0x202F {
            22
        } else if n == 0x205F {
            23
        } else {
            24
        };
        assert(all[k] == n);
    }
}

/// The parts of a text are what stands between its separators: a separator ends one part and begins
/// the next, and a text without any is one part.
pub proof fn texts_are_cut_at_separators(
    s: &str,
    sep: char,
    a: Seq<char>,
    b: Seq<char>,
    r: Vec<Vec<char>>,
)
    requires
        call_ensures(split, (s, sep), r),
        forall|i: int| 0 <= i < a.len() ==> #[trigger] a[i] != sep,
    ensures
        s@ == a ==> r@.len() == 1 && r@[0]@ == a,
        s@ == a + seq![sep] + b ==> r@.len() > 1 && r@[0]@ == a && char_seqs(r@).skip(1)
            == split_parts(b, sep),
{
    text_without_separators_is_one_part(a, sep);
    let parts = char_seqs(r@);
    if s@ == a {
        assert(parts.len() == 1);
        assert(parts[0] == a);
    }
    if s@ == a + seq![sep] + b {
        separators_part_the_text(a, sep, b);
        crate::parse::separators_leave_a_part(b, sep);
        assert(parts[0] == a);
        assert(parts.skip(1) =~= split_parts(b, sep));
    }
}

/// A numeral is appended that stands for the number and begins with a zero only for zero.
pub proof fn numerals_are_appended(out: &mut String, n: u64)
    requires
        call_ensures(push_decimal, (out, n), ()),
    ensures
        final(out)@.len() > old(out)@.len(),
        final(out)@.take(old(out)@.len() as int) == old(out)@,
        unsigned_value(final(out)@.skip(old(out)@.len() as int)) == Some(n as nat),
        n > 0 ==> final(out)@[old(out)@.len() as int] != '0',
        n == 0 ==> final(out)@.len() == old(out)@.len() + 1,
        forall|i: int|
            old(out)@.len() <= i < final(out)@.len() ==> '0' <= #[trigger] final(out)@[i] <= '9',
{
    let k = old(out)@.len() as int;
    let numeral = crate::text::decimal(n as nat);
    crate::text::lemma_decimal_shape(n as nat);
    if n > 0 {
        crate::text::numerals_begin_with_no_zero(n as nat);
        assert(final(out)@[k] == numeral[0]);
    }
    crate::parse::padded_numerals_read_back(0, n as nat);
    assert(Seq::new(0, |i: int| '0') + numeral =~= numeral);
    assert(final(out)@.take(k) =~= old(out)@);
    assert(final(out)@.skip(k) =~= numeral);
    assert forall|i: int| k <= i < final(out)@.len() implies '0' <= #[trigger] final(out)@[i]
        <= '9' by {
        assert(final(out)@[i] == numeral[i - k]);
    }
}

/// A byte is appended as two hexadecimal digits with its value.
pub proof fn hexadecimal_digits_are_appended(out: &mut String, b: u8)
    requires
        call_ensures(push_hex_byte, (out, b), ()),
    ensures
        final(out)@.len() == old(out)@.len() + 2,
        final(out)@.take(old(out)@.len() as int) == old(out)@,
        16 * hex_value(final(out)@[old(out)@.len() as int]) + hex_value(
            final(out)@[(old(out)@.len() + 1) as int],
        ) == b,
{
    hex_digits_have_the_value(b);
    assert(final(out)@.take(old(out)@.len() as int) =~= old(out)@);
}

/// Copies of a text hold its characters, in whatever form.
pub proof fn copies_hold_the_same(s: &str, a: String, b: Vec<char>, c: String)
    requires
        call_ensures(copy_str, (s,), a),
        call_ensures(chars_of, (s,), b),
        call_ensures(string_of, (&b,), c),
    ensures
        a@ == s@,
        b@ == s@,
        c@ == s@,
{
}

/// A text is found in another where something may stand before and behind it, at its start where
/// something may stand behind it, and is the same where nothing does.
pub proof fn texts_are_found_in_texts(s: &str, t: &str, inside: bool, first: bool, same: bool)
    requires
        call_ensures(contains, (s, t), inside),
        call_ensures(starts_with, (s, t), first),
        call_ensures(same_text, (s, t), same),
    ensures
        inside <==> exists|a: Seq<char>, b: Seq<char>| #[trigger] (a + t@ + b) == s@,
        first <==> exists|rest: Seq<char>| #[trigger] (t@ + rest) == s@,
        same <==> t@ == s@,
{
    contained_text_stands_between(s@, t@);
    starting_text_stands_first(s@, t@);
}

/// Numbers are appended lowest byte first, bytes as they are, and a section behind its length.
pub proof fn bytes_are_appended(
    a: &mut Vec<u8>,
    b: &mut Vec<u8>,
    c: &mut Vec<u8>,
    d: &mut Vec<u8>,
    v: u16,
    w: u32,
    bytes: &[u8],
)
    requires
        call_ensures(push_u16, (a, v), ()),
        call_ensures(push_u32, (b, w), ()),
        call_ensures(push_bytes, (c, bytes), ()),
        call_ensures(push_section, (d, bytes), ()),
        bytes@.len() < 0x1_0000_0000,
    ensures
        exists|x: Seq<u8>| #[trigger]
            (old(a)@ + x) == final(a)@ && x.len() == 2 && x[0] + 256 * x[1] == v,
        exists|x: Seq<u8>| #[trigger]
            (old(b)@ + x) == final(b)@ && x.len() == 4 && x[0] + 256 * (x[1] + 256 * (x[2] + 256
                * x[3])) == w,
        final(c)@ == old(c)@ + bytes@,
        exists|x: Seq<u8>| #[trigger]
            (old(d)@ + x) == final(d)@ && x.len() == 4 + bytes@.len() && x[0] + 256 * (x[1] + 256
                * (x[2] + 256 * x[3])) == bytes@.len() && x.skip(4) == bytes@,
{
    lowest_byte_comes_first(v, w);
    sections_announce_their_length(bytes@);
}

/// A range of bytes is copied as it is.
pub proof fn ranges_are_copied(buf: &[u8], from: usize, to: usize, r: Vec<u8>, i: int)
    requires
        from <= to <= buf@.len(),
        call_ensures(copy_range, (buf, from, to), r),
    ensures
        r@.len() == to - from,
        0 <= i < r@.len() ==> r@[i] == buf@[from + i],
{
}

/// The last member under a key counts, and its text is read as the JSON that it is. Other kinds of
/// text have no members.
pub proof fn the_last_member_under_a_key_counts(
    node: Option<JsonNode>,
    key: &str,
    members: Seq<(Seq<char>, Seq<char>)>,
    last: (Seq<char>, Seq<char>),
    a: Option<String>,
    b: Option<String>,
    c: Option<u64>,
)
    requires
        call_ensures(member, (&node, key), a),
        call_ensures(member_text, (&node, key), b),
        call_ensures(member_number, (&node, key), c),
    ensures
        !(node matches Some(JsonNode::Members(_))) ==> a is None && b is None && c is None,
        node matches Some(n) ==> n@ == NodeView::Members(members.push(last)) ==> {
            &&& last.0 == key@ ==> (a matches Some(text) && text@ == last.1)
            &&& last.0 != key@ ==> text_view(a) == member_of(members, key@)
        },
        node matches Some(n) ==> n@ == NodeView::Members(Seq::empty()) ==> a is None,
        a matches Some(text) ==> match node_of(text@) {
            Some(NodeView::Text(s)) => (b matches Some(t) && t@ == s) && c is None,
            Some(NodeView::Number(n)) => b is None && c == n,
            _ => b is None && c is None,
        },
        a is None ==> b is None && c is None,
{
    if let Some(n) = node {
        if let NodeView::Members(all) = n@ {
            members_are_read_by_kind(all, key@);
        }
        if last.0 != key@ {
            last_member_counts(members, last.0, last.1, key@);
        } else {
            let other = key@.push('x');
            assert(other.len() != key@.len());
            last_member_counts(members, last.0, last.1, other);
        }
    }
}

} // verus!
