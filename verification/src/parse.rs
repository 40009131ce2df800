//! Lists and numbers in plain text.
use vstd::prelude::*;
use crate::text::{chars_of, decimal, lemma_decimal_shape};

verus! {

/// A character with the Unicode property White_Space.
pub open spec fn is_white(c: char) -> bool {
    ||| '\u{9}' <= c <= '\u{d}'
    ||| c == '\u{20}'
    ||| c == '\u{85}'
    ||| c == '\u{a0}'
    ||| c == '\u{1680}'
    ||| '\u{2000}' <= c <= '\u{200a}'
    ||| c == '\u{2028}'
    ||| c == '\u{2029}'
    ||| c == '\u{202f}'
    ||| c == '\u{205f}'
    ||| c == '\u{3000}'
}

/// Whether the character is white space.
pub fn white(c: char) -> (r: bool)
    ensures
        r == is_white(c),
{
    ('\u{9}' <= c && c <= '\u{d}') || c == '\u{20}' || c == '\u{85}' || c == '\u{a0}' || c
        == '\u{1680}' || ('\u{2000}' <= c && c <= '\u{200a}') || c == '\u{2028}' || c == '\u{2029}'
        || c == '\u{202f}' || c == '\u{205f}' || c == '\u{3000}'
}

/// `s` without the white space at its start.
pub open spec fn trim_start(s: Seq<char>) -> Seq<char>
    decreases s.len(),
{
    if s.len() > 0 && is_white(s[0]) {
        trim_start(s.drop_first())
    } else {
        s
    }
}

/// `s` without the white space at its end.
pub open spec fn trim_end(s: Seq<char>) -> Seq<char>
    decreases s.len(),
{
    if s.len() > 0 && is_white(s.last()) {
        trim_end(s.drop_last())
    } else {
        s
    }
}

/// `s` without the white space at its ends.
pub open spec fn trimmed(s: Seq<char>) -> Seq<char> {
    trim_end(trim_start(s))
}

/// The parts of `s` between separators. There is one more than there are separators.
pub open spec fn split_parts(s: Seq<char>, sep: char) -> Seq<Seq<char>>
    decreases s.len(),
{
    if s.len() == 0 {
        seq![Seq::empty()]
    } else {
        let before = split_parts(s.drop_last(), sep);
        if s.last() == sep {
            before.push(Seq::empty())
        } else {
            before.drop_last().push(before.last().push(s.last()))
        }
    }
}

/// The views of character vectors.
pub open spec fn char_seqs(v: Seq<Vec<char>>) -> Seq<Seq<char>> {
    Seq::new(v.len(), |i: int| v[i]@)
}

/// The parts of `s` between separators.
pub fn split(s: &str, sep: char) -> (r: Vec<Vec<char>>)
    ensures
        char_seqs(r@) == split_parts(s@, sep),
        r@.len() >= 1,
{
    let chars = chars_of(s);
    let mut r: Vec<Vec<char>> = Vec::new();
    let mut part: Vec<char> = Vec::new();
    let mut i: usize = 0;
    assert(char_seqs(r@).push(part@) =~= split_parts(chars@.take(0), sep));
    while i < chars.len()
        invariant
            i <= chars@.len(),
            char_seqs(r@).push(part@) == split_parts(chars@.take(i as int), sep),
        decreases chars@.len() - i,
    {
        let ghost more = chars@.take(i + 1);
        let ghost before = split_parts(chars@.take(i as int), sep);
        let ghost had = r@;
        assert(more.drop_last() =~= chars@.take(i as int));
        assert(more.last() == chars@[i as int]);
        assert(before.drop_last() =~= char_seqs(had));
        assert(before.last() == part@);
        if chars[i] == sep {
            let ghost done = part@;
            r.push(part);
            part = Vec::new();
            assert(char_seqs(r@) =~= char_seqs(had).push(done));
            assert(part@ =~= Seq::<char>::empty());
        } else {
            part.push(chars[i]);
        }
        assert(char_seqs(r@).push(part@) =~= split_parts(more, sep));
        i = i + 1;
    }
    assert(chars@.take(i as int) =~= chars@);
    let ghost had = r@;
    let ghost last = part@;
    r.push(part);
    assert(char_seqs(r@) =~= char_seqs(had).push(last));
    r
}

proof fn lemma_trim_start_skip(s: Seq<char>, k: int)
    requires
        0 <= k <= s.len(),
        forall|i: int| 0 <= i < k ==> is_white(#[trigger] s[i]),
    ensures
        trim_start(s) == trim_start(s.skip(k)),
    decreases k,
{
    if k > 0 {
        let rest = s.drop_first();
        assert forall|i: int| 0 <= i < k - 1 implies is_white(#[trigger] rest[i]) by {
            assert(rest[i] == s[i + 1]);
        }
        lemma_trim_start_skip(rest, k - 1);
        assert(rest.skip(k - 1) =~= s.skip(k));
        assert(is_white(s[0]));
    } else {
        assert(s.skip(0) =~= s);
    }
}

proof fn lemma_trim_end_drop(s: Seq<char>, k: int)
    requires
        0 <= k <= s.len(),
        forall|i: int| k <= i < s.len() ==> is_white(#[trigger] s[i]),
    ensures
        trim_end(s) == trim_end(s.take(k)),
    decreases s.len() - k,
{
    if k < s.len() {
        let rest = s.drop_last();
        assert(is_white(s[s.len() - 1]));
        assert forall|i: int| k <= i < rest.len() implies is_white(#[trigger] rest[i]) by {
            assert(rest[i] == s[i]);
        }
        lemma_trim_end_drop(rest, k);
        assert(rest.take(k) =~= s.take(k));
    } else {
        assert(s.take(k) =~= s);
    }
}

/// The characters without the white space at their ends.
pub fn trim(s: &Vec<char>) -> (r: Vec<char>)
    ensures
        r@ == trimmed(s@),
{
    let mut a: usize = 0;
    while a < s.len() && white(s[a])
        invariant
            a <= s@.len(),
            forall|i: int| 0 <= i < a ==> is_white(#[trigger] s@[i]),
        ensures
            a <= s@.len(),
            forall|i: int| 0 <= i < a ==> is_white(#[trigger] s@[i]),
            a < s@.len() ==> !is_white(s@[a as int]),
        decreases s@.len() - a,
    {
        a = a + 1;
    }
    let mut b: usize = s.len();
    while b > a && white(s[b - 1])
        invariant
            a <= b <= s@.len(),
            forall|i: int| b <= i < s@.len() ==> is_white(#[trigger] s@[i]),
        ensures
            a <= b <= s@.len(),
            forall|i: int| b <= i < s@.len() ==> is_white(#[trigger] s@[i]),
            b > a ==> !is_white(s@[b - 1]),
        decreases b,
    {
        b = b - 1;
    }
    let mut r: Vec<char> = Vec::new();
    let mut i: usize = a;
    while i < b
        invariant
            a <= i <= b <= s@.len(),
            r@ == s@.subrange(a as int, i as int),
        decreases b - i,
    {
        r.push(s[i]);
        i = i + 1;
        assert(r@ =~= s@.subrange(a as int, i as int));
    }
    proof {
        let tail = s@.skip(a as int);
        lemma_trim_start_skip(s@, a as int);
        assert(trim_start(tail) == tail) by {
            if tail.len() > 0 {
                assert(tail[0] == s@[a as int]);
            }
        }
        assert forall|k: int| b - a <= k < tail.len() implies is_white(#[trigger] tail[k]) by {
            assert(tail[k] == s@[a + k]);
        }
        lemma_trim_end_drop(tail, b - a);
        let body = tail.take(b - a);
        assert(trim_end(body) == body) by {
            if body.len() > 0 {
                assert(body.last() == s@[b - 1]);
            }
        }
        assert(r@ =~= body);
    }
    r
}

/// Nothing but decimal digits.
pub open spec fn all_digits(s: Seq<char>) -> bool {
    forall|i: int| 0 <= i < s.len() ==> '0' <= #[trigger] s[i] <= '9'
}

/// The number that decimal digits stand for.
pub open spec fn digits_value(s: Seq<char>) -> nat
    decreases s.len(),
{
    if s.len() == 0 {
        0
    } else {
        digits_value(s.drop_last()) * 10 + (s.last() as nat - '0' as nat) as nat
    }
}

/// The number that a text of digits stands for. A plus sign may stand before it; nothing else
/// may.
pub open spec fn unsigned_value(s: Seq<char>) -> Option<nat> {
    let digits = if s.len() > 0 && s[0] == '+' {
        s.drop_first()
    } else {
        s
    };
    if digits.len() > 0 && all_digits(digits) {
        Some(digits_value(digits))
    } else {
        None
    }
}

proof fn lemma_value_grows(s: Seq<char>, k: int)
    requires
        0 <= k <= s.len(),
        all_digits(s),
    ensures
        digits_value(s.take(k)) <= digits_value(s),
    decreases s.len() - k,
{
    if k < s.len() {
        let rest = s.drop_last();
        assert forall|i: int| 0 <= i < rest.len() implies '0' <= #[trigger] rest[i] <= '9' by {
            assert(rest[i] == s[i]);
        }
        lemma_value_grows(rest, k);
        assert(rest.take(k) =~= s.take(k));
        assert('0' <= s[s.len() - 1]);
    } else {
        assert(s.take(k) =~= s);
    }
}

/// Reads a number of at most `max`.
pub fn parse_unsigned(s: &Vec<char>, max: u64) -> (r: Option<u64>)
    ensures
        match unsigned_value(s@) {
            Some(n) => if n <= max {
                r == Some(n as u64)
            } else {
                r is None
            },
            None => r is None,
        },
{
    let start: usize = if s.len() > 0 && s[0] == '+' {
        1
    } else {
        0
    };
    let ghost digits = s@.skip(start as int);
    assert(start == 0 ==> digits =~= s@);
    assert(start == 1 ==> digits =~= s@.drop_first());
    if s.len() == start {
        return None;
    }
    let mut n: u64 = 0;
    let mut i: usize = start;
    while i < s.len()
        invariant
            start <= i <= s@.len(),
            start < s@.len(),
            digits == s@.skip(start as int),
            forall|k: int| 0 <= k < i - start ==> '0' <= #[trigger] digits[k] <= '9',
            n == digits_value(digits.take(i - start)),
            n <= max,
            unsigned_value(s@) == if all_digits(digits) {
                Some(digits_value(digits))
            } else {
                None
            },
        decreases s@.len() - i,
    {
        let c = s[i];
        let ghost k = i - start;
        assert(digits[k] == c);
        if c < '0' || c > '9' {
            assert(!all_digits(digits));
            return None;
        }
        let d: u64 = (c as u32 - '0' as u32) as u64;
        proof {
            let more = digits.take(k + 1);
            assert(more.drop_last() =~= digits.take(k));
            assert(more.last() == c);
            assert(digits_value(more) == n * 10 + d);
            if all_digits(digits) {
                lemma_value_grows(digits, k + 1);
            }
        }
        if n > max / 10 || d > max - n * 10 {
            return None;
        }
        n = n * 10 + d;
        i = i + 1;
    }
    assert(digits.take(i - start) =~= digits);
    Some(n)
}

proof fn lemma_decimal_value(n: nat)
    ensures
        all_digits(decimal(n)),
        digits_value(decimal(n)) == n,
    decreases n,
{
    lemma_decimal_shape(n);
    reveal_with_fuel(digits_value, 2);
    if n >= 10 {
        lemma_decimal_value(n / 10);
        assert(decimal(n).drop_last() =~= decimal(n / 10));
    }
}

/// A numeral stands for the number that it was written for.
pub proof fn numerals_read_back(n: nat)
    ensures
        unsigned_value(decimal(n)) == Some(n),
{
    lemma_decimal_shape(n);
    lemma_decimal_value(n);
    assert('0' <= decimal(n)[0]);
}

/// The numbers in a list with commas between them and white space around them, where each is
/// one and fits.
pub open spec fn number_parts(parts: Seq<Seq<char>>, max: nat) -> Option<Seq<nat>>
    decreases parts.len(),
{
    if parts.len() == 0 {
        Some(Seq::empty())
    } else {
        match (number_parts(parts.drop_last(), max), unsigned_value(trimmed(parts.last()))) {
            (Some(before), Some(n)) => if n <= max {
                Some(before.push(n))
            } else {
                None
            },
            _ => None,
        }
    }
}

proof fn lemma_number_parts_fail(parts: Seq<Seq<char>>, max: nat, k: int)
    requires
        0 <= k <= parts.len(),
        number_parts(parts.take(k), max) is None,
    ensures
        number_parts(parts, max) is None,
    decreases parts.len() - k,
{
    if k < parts.len() {
        assert(parts.drop_last().take(k) =~= parts.take(k));
        lemma_number_parts_fail(parts.drop_last(), max, k);
    } else {
        assert(parts.take(k) =~= parts);
    }
}

/// Reads a list of numbers with commas between them. Nothing, where one of them is no number.
pub fn parse_counts(list: &str) -> (r: Option<Vec<usize>>)
    ensures
        match number_parts(split_parts(list@, ','), usize::MAX as nat) {
            Some(all) => r matches Some(v) && v@.map_values(|n: usize| n as nat) == all,
            None => r is None,
        },
{
    let parts = split(list, ',');
    let ghost all = char_seqs(parts@);
    let mut r: Vec<usize> = Vec::new();
    let mut i: usize = 0;
    assert(r@.map_values(|n: usize| n as nat) =~= Seq::<nat>::empty());
    while i < parts.len()
        invariant
            i <= parts@.len(),
            all == char_seqs(parts@),
            all == split_parts(list@, ','),
            number_parts(all.take(i as int), usize::MAX as nat) == Some(
                r@.map_values(|n: usize| n as nat),
            ),
        decreases parts@.len() - i,
    {
        let ghost more = all.take(i + 1);
        let ghost had = r@;
        assert(more.drop_last() =~= all.take(i as int));
        assert(more.last() == parts@[i as int]@);
        let part = trim(&parts[i]);
        match parse_unsigned(&part, usize::MAX as u64) {
            Some(n) => {
                r.push(n as usize);
                assert(r@.map_values(|n: usize| n as nat) =~= had.map_values(
                    |n: usize| n as nat,
                ).push(n as nat));
            },
            None => {
                proof {
                    lemma_number_parts_fail(all, usize::MAX as nat, i + 1);
                }
                return None;
            },
        }
        i = i + 1;
    }
    assert(all.take(i as int) =~= all);
    Some(r)
}

/// White space around a text is cut off, and nothing else is: what is left starts and ends with
/// another character, or is nothing.
pub proof fn trimming_leaves_the_body(pre: Seq<char>, body: Seq<char>, post: Seq<char>)
    requires
        forall|i: int| 0 <= i < pre.len() ==> is_white(#[trigger] pre[i]),
        forall|i: int| 0 <= i < post.len() ==> is_white(#[trigger] post[i]),
        body.len() > 0 ==> !is_white(body[0]) && !is_white(body.last()),
    ensures
        trimmed(pre + body + post) == body,
{
    let s = pre + body + post;
    if body.len() > 0 {
        lemma_trim_start_skip(s, pre.len() as int);
        assert(s.skip(pre.len() as int) =~= body + post);
        assert((body + post)[0] == body[0]);
        assert forall|i: int| body.len() <= i < (body + post).len() implies is_white(
            #[trigger] (body + post)[i],
        ) by {
            assert((body + post)[i] == post[i - body.len()]);
        }
        lemma_trim_end_drop(body + post, body.len() as int);
        assert((body + post).take(body.len() as int) =~= body);
    } else {
        assert forall|i: int| 0 <= i < s.len() implies is_white(#[trigger] s[i]) by {
            if i < pre.len() {
                assert(s[i] == pre[i]);
            } else {
                assert(s[i] == post[i - pre.len()]);
            }
        }
        lemma_trim_start_skip(s, s.len() as int);
        assert(s.skip(s.len() as int) =~= body);
    }
}

/// However a text is split, there is a part.
pub proof fn separators_leave_a_part(s: Seq<char>, sep: char)
    ensures
        split_parts(s, sep).len() >= 1,
    decreases s.len(),
{
    if s.len() > 0 {
        separators_leave_a_part(s.drop_last(), sep);
    }
}

/// A separator ends one part and begins the next, wherever it stands.
pub proof fn separators_part_the_text(a: Seq<char>, sep: char, b: Seq<char>)
    ensures
        split_parts(a + seq![sep] + b, sep) == split_parts(a, sep) + split_parts(b, sep),
    decreases b.len(),
{
    let s = a + seq![sep] + b;
    let left = split_parts(a, sep);
    if b.len() == 0 {
        assert(s.drop_last() =~= a);
        assert(s.last() == sep);
        assert(split_parts(s, sep) =~= left + split_parts(b, sep));
    } else {
        let rest = b.drop_last();
        assert(s.drop_last() =~= a + seq![sep] + rest);
        assert(s.last() == b.last());
        separators_part_the_text(a, sep, rest);
        separators_leave_a_part(rest, sep);
        let before = left + split_parts(rest, sep);
        assert(before.last() == split_parts(rest, sep).last());
        assert(before.drop_last() =~= left + split_parts(rest, sep).drop_last());
        assert(split_parts(s, sep) =~= left + split_parts(b, sep));
    }
}

/// A text without separators is one part.
pub proof fn text_without_separators_is_one_part(s: Seq<char>, sep: char)
    requires
        forall|i: int| 0 <= i < s.len() ==> #[trigger] s[i] != sep,
    ensures
        split_parts(s, sep) == seq![s],
    decreases s.len(),
{
    if s.len() > 0 {
        let rest = s.drop_last();
        assert forall|i: int| 0 <= i < rest.len() implies #[trigger] rest[i] != sep by {
            assert(rest[i] == s[i]);
        }
        text_without_separators_is_one_part(rest, sep);
        assert(s[s.len() - 1] != sep);
        assert(rest.push(s.last()) =~= s);
        assert(split_parts(s, sep) =~= seq![s]);
    } else {
        assert(s =~= Seq::<char>::empty());
        assert(split_parts(s, sep) =~= seq![s]);
    }
}

/// Zeros before a number make no difference to it.
pub proof fn leading_zeros_make_no_difference(k: nat, s: Seq<char>)
    ensures
        digits_value(Seq::new(k, |i: int| '0') + s) == digits_value(s),
    decreases s.len(), k,
{
    let all = Seq::new(k, |i: int| '0') + s;
    if s.len() > 0 {
        assert(all.drop_last() =~= Seq::new(k, |i: int| '0') + s.drop_last());
        assert(all.last() == s.last());
        leading_zeros_make_no_difference(k, s.drop_last());
    } else if k > 0 {
        let fewer = (k - 1) as nat;
        assert(all.drop_last() =~= Seq::new(fewer, |i: int| '0') + s);
        leading_zeros_make_no_difference(fewer, s);
    } else {
        assert(all =~= s);
    }
}

/// A numeral stands for its number, with zeros before it and with a plus sign before those.
pub proof fn padded_numerals_read_back(k: nat, n: nat)
    ensures
        unsigned_value(Seq::new(k, |i: int| '0') + decimal(n)) == Some(n),
        unsigned_value(seq!['+'] + (Seq::new(k, |i: int| '0') + decimal(n))) == Some(n),
{
    let s = Seq::new(k, |i: int| '0') + decimal(n);
    lemma_decimal_shape(n);
    lemma_decimal_value(n);
    leading_zeros_make_no_difference(k, decimal(n));
    assert forall|i: int| 0 <= i < s.len() implies '0' <= #[trigger] s[i] <= '9' by {
        if i >= k {
            assert(s[i] == decimal(n)[i - k]);
        }
    }
    assert('0' <= s[0]);
    assert((seq!['+'] + s).drop_first() =~= s);
}

/// A text that stands for a number has a digit and nothing but digits, but for a plus sign at its
/// start; every such text stands for one.
pub proof fn numbers_are_made_of_digits(s: Seq<char>)
    ensures
        unsigned_value(s) is Some <==> {
            let from = if s.len() > 0 && s[0] == '+' {
                1int
            } else {
                0int
            };
            s.len() > from && forall|i: int| from <= i < s.len() ==> '0' <= #[trigger] s[i] <= '9'
        },
{
    let from = if s.len() > 0 && s[0] == '+' {
        1int
    } else {
        0int
    };
    let digits = s.skip(from);
    assert(from == 0 ==> digits =~= s);
    assert(from == 1 ==> digits =~= s.drop_first());
    if forall|i: int| from <= i < s.len() ==> '0' <= #[trigger] s[i] <= '9' {
        assert forall|i: int| 0 <= i < digits.len() implies '0' <= #[trigger] digits[i] <= '9' by {
            assert('0' <= s[i + from] <= '9');
        }
    }
    if all_digits(digits) {
        assert forall|i: int| from <= i < s.len() implies '0' <= #[trigger] s[i] <= '9' by {
            assert('0' <= digits[i - from] <= '9');
        }
    }
}

/// A list of numbers is read one by one: each part, without the white space around it, is the
/// number in its place and is not too large; where one part is no such number there is no list.
pub proof fn numbers_are_read_one_by_one(parts: Seq<Seq<char>>, max: nat)
    ensures
        match number_parts(parts, max) {
            Some(all) => all.len() == parts.len() && forall|i: int|
                0 <= i < parts.len() ==> unsigned_value(trimmed(#[trigger] parts[i])) == Some(all[i])
                    && all[i] <= max,
            None => exists|i: int|
                0 <= i < parts.len() && match unsigned_value(trimmed(#[trigger] parts[i])) {
                    Some(n) => n > max,
                    None => true,
                },
        },
    decreases parts.len(),
{
    if parts.len() > 0 {
        let rest = parts.drop_last();
        numbers_are_read_one_by_one(rest, max);
        assert(parts[parts.len() - 1] == parts.last());
        match number_parts(rest, max) {
            Some(before) => {
                if number_parts(parts, max) is Some {
                    let all = number_parts(parts, max)->Some_0;
                    assert forall|i: int| 0 <= i < parts.len() implies unsigned_value(
                        trimmed(#[trigger] parts[i]),
                    ) == Some(all[i]) && all[i] <= max by {
                        if i < rest.len() {
                            assert(rest[i] == parts[i]);
                        }
                    }
                }
            },
            None => {
                let i = choose|i: int|
                    0 <= i < rest.len() && match unsigned_value(trimmed(#[trigger] rest[i])) {
                        Some(n) => n > max,
                        None => true,
                    };
                assert(parts[i] == rest[i]);
            },
        }
    }
}

} // verus!
