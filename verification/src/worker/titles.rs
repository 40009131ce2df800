//! Page titles: from addresses to fetch to the titles in what was fetched.
use vstd::prelude::*;
use vstd::string::*;
use vstd::utf8::*;
use crate::crawl::found;
use crate::json::{array_text, comma_joined, quote, quoted};
use crate::parse::{trim, trimmed};
use crate::text::{
    chars_of, contains, contains_text, copy_str, stands_at, string_from_utf8, string_of,
};
use crate::workers::texts;

verus! {

/// The strings in a JSON array of strings as `serde_json` reads it; nothing for another text.
pub uninterp spec fn strings_of(text: Seq<char>) -> Option<Seq<Seq<char>>>;

/// `serde_json::from_str` reads a text as a vector of strings or refuses it, by the text alone.
/// Which texts it takes is not stated.
#[verifier::external_body]
pub(crate) fn read_string_array(text: &str) -> (r: Option<Vec<String>>)
    ensures
        match (r, strings_of(text@)) {
            (Some(v), Some(all)) => texts(v@) == all,
            (None, None) => true,
            _ => false,
        },
{
    serde_json::from_str::<Vec<String>>(text).ok()
}

/// The addresses in the input of a task.
pub open spec fn urls_in(bytes: Seq<u8>) -> Option<Seq<Seq<char>>> {
    if valid_utf8(bytes) {
        strings_of(decode_utf8(bytes))
    } else {
        None
    }
}

/// Reads the addresses in the input of a task. Nothing, where it is no JSON array of strings.
pub fn decode_urls(bytes: Vec<u8>) -> (r: Option<Vec<String>>)
    ensures
        match (r, urls_in(bytes@)) {
            (Some(v), Some(all)) => texts(v@) == all,
            (None, None) => true,
            _ => false,
        },
{
    match string_from_utf8(bytes) {
        Some(text) => read_string_array(text.as_str()),
        None => None,
    }
}

/// A byte that stands for itself in a query.
pub open spec fn is_unreserved(b: u8) -> bool {
    ||| 65 <= b <= 90
    ||| 97 <= b <= 122
    ||| 48 <= b <= 57
    ||| b == 45
    ||| b == 95
    ||| b == 46
    ||| b == 126
}

/// The upper-case hexadecimal digit of `d`, one of 0 to 15.
pub open spec fn upper_hex(d: u8) -> char {
    if d < 10 {
        (48 + d) as char
    } else {
        (55 + d) as char
    }
}

/// A byte in a query: itself, or a percent sign and its two hexadecimal digits.
pub open spec fn query_byte(b: u8) -> Seq<char> {
    if is_unreserved(b) {
        seq![b as char]
    } else {
        seq!['%', upper_hex(b / 16), upper_hex((b % 16) as u8)]
    }
}

/// Bytes in a query, one after the other.
pub open spec fn query_text(bytes: Seq<u8>) -> Seq<char>
    decreases bytes.len(),
{
    if bytes.len() == 0 {
        Seq::empty()
    } else {
        query_text(bytes.drop_last()) + query_byte(bytes.last())
    }
}

fn push_hex_digit(out: &mut String, d: u8)
    requires
        d < 16,
    ensures
        final(out)@ == old(out)@.push(upper_hex(d)),
{
    if d < 10 {
        out.push((48 + d) as char);
    } else {
        out.push((55 + d) as char);
    }
}

/// A text as part of a query.
pub fn url_encode(s: &str) -> (r: String)
    ensures
        r@ == query_text(encode_utf8(s@)),
{
    let bytes = s.as_bytes();
    let mut r = copy_str("");
    proof {
        reveal_strlit("");
    }
    assert(r@ =~= query_text(bytes@.take(0)));
    let mut i: usize = 0;
    while i < bytes.len()
        invariant
            i <= bytes@.len(),
            r@ == query_text(bytes@.take(i as int)),
        decreases bytes@.len() - i,
    {
        let ghost more = bytes@.take(i + 1);
        let ghost had = r@;
        assert(more.drop_last() =~= bytes@.take(i as int));
        assert(more.last() == bytes@[i as int]);
        let b: u8 = bytes[i];
        if (65 <= b && b <= 90) || (97 <= b && b <= 122) || (48 <= b && b <= 57) || b == 45
            || b == 95 || b == 46 || b == 126 {
            r.push(b as char);
        } else {
            r.push('%');
            push_hex_digit(&mut r, b / 16);
            push_hex_digit(&mut r, b % 16);
        }
        assert(r@ =~= had + query_byte(b));
        i = i + 1;
    }
    assert(bytes@.take(i as int) =~= bytes@);
    r
}

/// The address under which the proxy fetches `url`.
pub fn proxy_url(url: &str) -> (r: String)
    ensures
        r@ == "http://localhost:3001/proxy?url="@ + query_text(encode_utf8(url@)),
{
    let mut r = copy_str("http://localhost:3001/proxy?url=");
    r.append(url_encode(url).as_str());
    r
}

/// Where `needle` first stands in `hay` from position `from` on.
pub open spec fn first_at(hay: Seq<char>, needle: Seq<char>, from: int) -> Option<int>
    decreases hay.len() + 1 - from,
{
    if from < 0 || from + needle.len() > hay.len() {
        None
    } else if hay.subrange(from, from + needle.len()) == needle {
        Some(from)
    } else {
        first_at(hay, needle, from + 1)
    }
}

/// Where `needle` first stands in `hay` from position `from` on.
fn find(hay: &Vec<char>, needle: &str, from: usize) -> (r: Option<usize>)
    requires
        from <= hay@.len(),
        needle@.len() > 0,
    ensures
        match (r, first_at(hay@, needle@, from as int)) {
            (Some(i), Some(k)) => i == k && from <= i && i + needle@.len() <= hay.len(),
            (None, None) => true,
            _ => false,
        },
{
    let wanted = chars_of(needle);
    let n: usize = wanted.len();
    let end: usize = hay.len();
    let mut i: usize = from;
    while end - i >= n
        invariant
            end == hay@.len(),
            from <= i <= end,
            wanted@ == needle@,
            n == wanted@.len(),
            n > 0,
            first_at(hay@, needle@, from as int) == first_at(hay@, needle@, i as int),
        decreases end - i,
    {
        if stands_at(hay, i, &wanted) {
            return Some(i);
        }
        i = i + 1;
    }
    None
}

/// A character in lower case, as far as it is an ASCII letter.
pub open spec fn lower_char(c: char) -> char {
    if 'A' <= c <= 'Z' {
        ((c as u32 + 32) as u8) as char
    } else {
        c
    }
}

/// A text in lower case, as far as it is made of ASCII letters. Every character keeps its place.
pub open spec fn lower_text(s: Seq<char>) -> Seq<char> {
    s.map_values(|c: char| lower_char(c))
}

fn lower(s: &Vec<char>) -> (r: Vec<char>)
    ensures
        r@ == lower_text(s@),
{
    let mut r: Vec<char> = Vec::new();
    let mut i: usize = 0;
    while i < s.len()
        invariant
            i <= s@.len(),
            r@ == lower_text(s@).take(i as int),
        decreases s@.len() - i,
    {
        let c: char = s[i];
        if 'A' <= c && c <= 'Z' {
            let code: u32 = c as u32 + 32;
            r.push((code as u8) as char);
        } else {
            r.push(c);
        }
        i = i + 1;
        assert(r@ =~= lower_text(s@).take(i as int));
    }
    assert(lower_text(s@).take(i as int) =~= lower_text(s@));
    r
}

/// `s` with `to` in place of each `from`, from left to right.
pub open spec fn replaced(s: Seq<char>, from: Seq<char>, to: Seq<char>) -> Seq<char>
    decreases s.len(),
{
    if from.len() == 0 || s.len() < from.len() {
        s
    } else if s.subrange(0, from.len() as int) == from {
        to + replaced(s.skip(from.len() as int), from, to)
    } else {
        seq![s[0]] + replaced(s.drop_first(), from, to)
    }
}

fn replace(s: &Vec<char>, from: &str, to: &str) -> (r: Vec<char>)
    requires
        from@.len() > 0,
    ensures
        r@ == replaced(s@, from@, to@),
{
    let old_text = chars_of(from);
    let new_text = chars_of(to);
    let n: usize = old_text.len();
    let end: usize = s.len();
    let mut r: Vec<char> = Vec::new();
    let mut i: usize = 0;
    assert(s@.skip(0) =~= s@);
    assert(r@ + replaced(s@, from@, to@) =~= replaced(s@, from@, to@));
    while i < end && end - i >= n
        invariant
            end == s@.len(),
            n == from@.len(),
            n > 0,
            old_text@ == from@,
            new_text@ == to@,
            i <= end,
            r@ + replaced(s@.skip(i as int), from@, to@) == replaced(s@, from@, to@),
        decreases end - i,
    {
        let ghost rest = s@.skip(i as int);
        let ghost had = r@;
        assert(rest.subrange(0, n as int) =~= s@.subrange(i as int, i + n));
        if stands_at(s, i, &old_text) {
            let mut k: usize = 0;
            assert(had + to@.take(0) =~= had);
            while k < new_text.len()
                invariant
                    k <= new_text@.len(),
                    new_text@ == to@,
                    r@ == had + to@.take(k as int),
                decreases new_text@.len() - k,
            {
                r.push(new_text[k]);
                k = k + 1;
                assert(r@ =~= had + to@.take(k as int));
            }
            assert(to@.take(k as int) =~= to@);
            i = i + n;
            proof {
                assert(rest.skip(n as int) =~= s@.skip(i as int));
                let tail = replaced(s@.skip(i as int), from@, to@);
                assert(had + (to@ + tail) =~= (had + to@) + tail);
            }
        } else {
            r.push(s[i]);
            i = i + 1;
            proof {
                assert(rest.drop_first() =~= s@.skip(i as int));
                let tail = replaced(s@.skip(i as int), from@, to@);
                assert(had + (seq![rest[0]] + tail) =~= r@ + tail);
            }
        }
    }
    let ghost had = r@;
    let ghost start = i as int;
    assert(had + s@.skip(start).take(0) =~= had);
    while i < end
        invariant
            end == s@.len(),
            0 <= start <= i <= end,
            r@ == had + s@.skip(start).take(i - start),
        decreases end - i,
    {
        r.push(s[i]);
        i = i + 1;
        assert(r@ =~= had + s@.skip(start).take(i - start));
    }
    assert(s@.skip(start).take(end - start) =~= s@.skip(start));
    r
}

/// A text without the entities that stand for single characters.
pub open spec fn plain_text(s: Seq<char>) -> Seq<char> {
    let s = replaced(s, "&amp;"@, "&"@);
    let s = replaced(s, "&lt;"@, "<"@);
    let s = replaced(s, "&gt;"@, ">"@);
    let s = replaced(s, "&quot;"@, "\""@);
    let s = replaced(s, "&#39;"@, "'"@);
    replaced(s, "&nbsp;"@, " "@)
}

fn decode_entities(s: &Vec<char>) -> (r: Vec<char>)
    ensures
        r@ == plain_text(s@),
{
    proof {
        reveal_strlit("&amp;");
        reveal_strlit("&lt;");
        reveal_strlit("&gt;");
        reveal_strlit("&quot;");
        reveal_strlit("&#39;");
        reveal_strlit("&nbsp;");
    }
    let s = replace(s, "&amp;", "&");
    let s = replace(&s, "&lt;", "<");
    let s = replace(&s, "&gt;", ">");
    let s = replace(&s, "&quot;", "\"");
    let s = replace(&s, "&#39;", "'");
    replace(&s, "&nbsp;", " ")
}

/// What stands in the first title element. The case of the opening tag does not matter.
pub open spec fn title_element(html: Seq<char>) -> Option<Seq<char>> {
    match first_at(lower_text(html), "<title>"@, 0) {
        Some(tag) => {
            let start = tag + "<title>"@.len();
            match first_at(html, "</title>"@, start) {
                Some(end) => Some(html.subrange(start, end)),
                None => None,
            }
        },
        None => None,
    }
}

/// The content of the first tag with the property `og:title`.
pub open spec fn og_title(html: Seq<char>) -> Option<Seq<char>> {
    match first_at(lower_text(html), "property=\"og:title\""@, 0) {
        Some(property) => match first_at(html, "content=\""@, property) {
            Some(content) => {
                let start = content + "content=\""@.len();
                match first_at(html, "\""@, start) {
                    Some(end) => Some(html.subrange(start, end)),
                    None => None,
                }
            },
            None => None,
        },
        None => None,
    }
}

/// The title of a page.
pub open spec fn title_of(html: Seq<char>) -> Seq<char> {
    match title_element(html) {
        Some(title) => plain_text(trimmed(title)),
        None => match og_title(html) {
            Some(title) => trimmed(title),
            None => "NO TITLE FOUND"@,
        },
    }
}

/// The characters from `from` up to `to`.
fn slice(s: &Vec<char>, from: usize, to: usize) -> (r: Vec<char>)
    requires
        from <= to <= s@.len(),
    ensures
        r@ == s@.subrange(from as int, to as int),
{
    let mut r: Vec<char> = Vec::new();
    let mut i: usize = from;
    while i < to
        invariant
            from <= i <= to <= s@.len(),
            r@ == s@.subrange(from as int, i as int),
        decreases to - i,
    {
        r.push(s[i]);
        i = i + 1;
        assert(r@ =~= s@.subrange(from as int, i as int));
    }
    r
}

/// The title of a page: that of its title element, without white space around it and without
/// entities; else that of its `og:title` property; else a fixed text.
pub fn extract_title_from_html(html: &str) -> (r: String)
    ensures
        r@ == title_of(html@),
{
    proof {
        reveal_strlit("<title>");
        reveal_strlit("</title>");
        reveal_strlit("property=\"og:title\"");
        reveal_strlit("content=\"");
        reveal_strlit("\"");
    }
    let page = chars_of(html);
    let low = lower(&page);
    if let Some(tag) = find(&low, "<title>", 0) {
        let start: usize = tag + 7;
        if let Some(end) = find(&page, "</title>", start) {
            return string_of(&decode_entities(&trim(&slice(&page, start, end))));
        }
    }
    if let Some(property) = find(&low, "property=\"og:title\"", 0) {
        if let Some(content) = find(&page, "content=\"", property) {
            let start: usize = content + 9;
            if let Some(end) = find(&page, "\"", start) {
                return string_of(&trim(&slice(&page, start, end)));
            }
        }
    }
    copy_str("NO TITLE FOUND")
}

/// Why a fetch failed, as far as the message tells.
pub fn fetch_error(message: &str) -> (r: String)
    ensures
        r@ == if contains_text(message@, "Failed to fetch"@) || contains_text(message@, "CORS"@) {
            "CORS blocked: Browser security prevents fetching this URL. Consider using a CORS proxy or server-side fetching."@
        } else {
            "Fetch failed: "@ + message@
        },
{
    if contains(message, "Failed to fetch") || contains(message, "CORS") {
        copy_str(
            "CORS blocked: Browser security prevents fetching this URL. Consider using a CORS proxy or server-side fetching.",
        )
    } else {
        let mut r = copy_str("Fetch failed: ");
        r.append(message);
        r
    }
}

/// What is reported for an address: the title of the page, or why it could not be fetched.
pub open spec fn reported_title(fetched: Result<Seq<char>, Seq<char>>) -> Seq<char> {
    match fetched {
        Ok(html) => title_of(html),
        Err(why) => "ERROR: "@ + why,
    }
}

/// What is reported for an address.
pub fn title_or_error(fetched: Result<String, String>) -> (r: String)
    ensures
        r@ == reported_title(
            match fetched {
                Ok(html) => Ok(html@),
                Err(why) => Err(why@),
            },
        ),
{
    match fetched {
        Ok(html) => extract_title_from_html(html.as_str()),
        Err(why) => {
            let mut r = copy_str("ERROR: ");
            r.append(why.as_str());
            r
        },
    }
}

/// An address and its title as a JSON object.
pub open spec fn result_text(url: Seq<char>, title: Seq<char>) -> Seq<char> {
    "{\"url\":"@ + quoted(url) + ",\"title\":"@ + quoted(title) + "}"@
}

/// The results as JSON objects.
pub open spec fn result_texts(results: Seq<(String, String)>) -> Seq<Seq<char>> {
    Seq::new(results.len(), |i: int| result_text(results[i].0@, results[i].1@))
}

/// The results, addresses with their titles, as a JSON array.
pub fn titles_json(results: &Vec<(String, String)>) -> (r: String)
    ensures
        r@ == array_text(result_texts(results@)),
{
    let ghost all = result_texts(results@);
    let mut r = copy_str("[");
    let ghost head = r@;
    assert(head + comma_joined(all.take(0)) =~= head);
    let mut i: usize = 0;
    while i < results.len()
        invariant
            i <= results@.len(),
            all == result_texts(results@),
            r@ == head + comma_joined(all.take(i as int)),
        decreases results@.len() - i,
    {
        let ghost more = all.take(i + 1);
        let ghost had = r@;
        assert(more.drop_last() =~= all.take(i as int));
        assert(more.last() == all[i as int]);
        if i > 0 {
            r.append(",");
        }
        r.append("{\"url\":");
        r.append(quote(results[i].0.as_str()).as_str());
        r.append(",\"title\":");
        r.append(quote(results[i].1.as_str()).as_str());
        r.append("}");
        proof {
            if i == 0 {
                assert(comma_joined(all.take(0)) =~= Seq::<char>::empty());
                assert(more[0] == all[0]);
            }
            assert(r@ =~= head + comma_joined(more));
        }
        i = i + 1;
    }
    assert(all.take(i as int) =~= all);
    r.append("]");
    r
}

/// A character that needs no encoding in a query, or the percent sign.
pub open spec fn is_query_char(c: char) -> bool {
    ||| 'A' <= c <= 'Z'
    ||| 'a' <= c <= 'z'
    ||| '0' <= c <= '9'
    ||| c == '-'
    ||| c == '_'
    ||| c == '.'
    ||| c == '~'
    ||| c == '%'
}

proof fn lemma_query_chars(bytes: Seq<u8>)
    ensures
        forall|i: int|
            0 <= i < query_text(bytes).len() ==> is_query_char(#[trigger] query_text(bytes)[i]),
    decreases bytes.len(),
{
    if bytes.len() > 0 {
        let front = query_text(bytes.drop_last());
        let b = bytes.last();
        let back = query_byte(b);
        lemma_query_chars(bytes.drop_last());
        assert(forall|i: int| 0 <= i < back.len() ==> is_query_char(#[trigger] back[i]));
        assert forall|i: int| 0 <= i < query_text(bytes).len() implies is_query_char(
            #[trigger] query_text(bytes)[i],
        ) by {
            assert(query_text(bytes) == front + back);
            if i < front.len() {
                assert(query_text(bytes)[i] == front[i]);
            } else {
                assert(query_text(bytes)[i] == back[i - front.len()]);
            }
        }
    }
}

/// An encoded text holds nothing but unreserved characters and percent signs.
pub proof fn encoded_text_is_safe(s: Seq<char>)
    ensures
        forall|i: int|
            0 <= i < query_text(encode_utf8(s)).len() ==> is_query_char(
                #[trigger] query_text(encode_utf8(s))[i],
            ),
{
    lemma_query_chars(encode_utf8(s));
}

/// The text of the first byte comes first.
proof fn lemma_query_first(bytes: Seq<u8>)
    requires
        bytes.len() > 0,
    ensures
        query_text(bytes) == query_byte(bytes[0]) + query_text(bytes.drop_first()),
    decreases bytes.len(),
{
    let front = bytes.drop_last();
    if front.len() == 0 {
        assert(query_text(front) =~= Seq::<char>::empty());
        assert(bytes.drop_first() =~= Seq::<u8>::empty());
        assert(query_text(bytes.drop_first()) =~= Seq::<char>::empty());
        assert(query_text(bytes) =~= query_byte(bytes[0]));
    } else {
        lemma_query_first(front);
        assert(bytes.drop_first().drop_last() =~= front.drop_first());
        assert(bytes.drop_first().last() == bytes.last());
        assert(query_text(bytes) =~= query_byte(bytes[0]) + query_text(bytes.drop_first()));
    }
}

proof fn lemma_upper_hex_apart(a: u8, b: u8)
    requires
        a < 16,
        b < 16,
        upper_hex(a) == upper_hex(b),
    ensures
        a == b,
{
}

/// Different bytes have different texts.
#[verifier::spinoff_prover]
proof fn lemma_query_bytes_apart(a: u8, b: u8, x: Seq<char>, y: Seq<char>)
    requires
        query_byte(a) + x == query_byte(b) + y,
    ensures
        a == b,
        x == y,
{
    let s = query_byte(a) + x;
    assert(s[0] == query_byte(a)[0] && s[0] == query_byte(b)[0]);
    if !is_unreserved(a) && !is_unreserved(b) {
        assert(s[1] == query_byte(a)[1] && s[1] == query_byte(b)[1]);
        assert(s[2] == query_byte(a)[2] && s[2] == query_byte(b)[2]);
        lemma_upper_hex_apart(a / 16, b / 16);
        lemma_upper_hex_apart((a % 16) as u8, (b % 16) as u8);
    } else if is_unreserved(a) {
        assert(s[0] == a as char);
    } else {
        assert(s[0] == b as char);
    }
    assert(a == b);
    let n = query_byte(a).len() as int;
    assert(x =~= s.skip(n));
    assert(y =~= s.skip(n));
}

proof fn lemma_query_apart(a: Seq<u8>, b: Seq<u8>)
    requires
        query_text(a) == query_text(b),
    ensures
        a == b,
    decreases a.len(),
{
    if a.len() > 0 {
        lemma_query_first(a);
        assert(query_text(a).len() > 0);
    }
    if b.len() > 0 {
        lemma_query_first(b);
        assert(query_text(b).len() > 0);
    }
    if a.len() > 0 && b.len() > 0 {
        lemma_query_bytes_apart(
            a[0],
            b[0],
            query_text(a.drop_first()),
            query_text(b.drop_first()),
        );
        lemma_query_apart(a.drop_first(), b.drop_first());
        assert(a =~= seq![a[0]] + a.drop_first());
        assert(b =~= seq![b[0]] + b.drop_first());
    } else {
        assert(a =~= b);
    }
}

/// Two texts with the same encoding are the same, so nothing is lost in a query.
pub proof fn encoded_texts_are_apart(s: Seq<char>, t: Seq<char>)
    requires
        query_text(encode_utf8(s)) == query_text(encode_utf8(t)),
    ensures
        s == t,
{
    lemma_query_apart(encode_utf8(s), encode_utf8(t));
    encode_utf8_decode_utf8(s);
    encode_utf8_decode_utf8(t);
}

/// What is reported for an address that could not be fetched, or for a page without a title, is
/// no title to the crawl.
pub proof fn failed_fetches_are_no_titles(why: Seq<char>)
    ensures
        !found(reported_title(Err(why))),
        !found("NO TITLE FOUND"@),
{
    reveal_strlit("ERROR:");
    reveal_strlit("ERROR: ");
    let text = "ERROR: "@ + why;
    assert(text.subrange(0, 6) =~= "ERROR:"@);
}

/// A text stands at its first place from `from` on: it stands there and nowhere before; where it
/// has no place it stands nowhere.
pub proof fn first_place_is_first(hay: Seq<char>, needle: Seq<char>, from: int)
    requires
        0 <= from,
    ensures
        match first_at(hay, needle, from) {
            Some(i) => {
                &&& from <= i
                &&& i + needle.len() <= hay.len()
                &&& hay.subrange(i, i + needle.len()) == needle
                &&& forall|j: int|
                    from <= j < i ==> #[trigger] hay.subrange(j, j + needle.len()) != needle
            },
            None => forall|j: int|
                from <= j <= hay.len() - needle.len() ==> #[trigger] hay.subrange(
                    j,
                    j + needle.len(),
                ) != needle,
        },
    decreases hay.len() + 1 - from,
{
    if from + needle.len() <= hay.len() && hay.subrange(from, from + needle.len()) != needle {
        first_place_is_first(hay, needle, from + 1);
    }
}

/// The two characters are the same, but that the first may be the capital of the second.
pub open spec fn same_but_case(a: char, b: char) -> bool {
    a == b || ('A' <= a <= 'Z' && a as int + 32 == b as int)
}

/// `tag` stands at `i`, in capital or in small letters.
pub open spec fn tag_at(html: Seq<char>, tag: Seq<char>, i: int) -> bool {
    &&& 0 <= i
    &&& i + tag.len() <= html.len()
    &&& forall|k: int| 0 <= k < tag.len() ==> same_but_case(#[trigger] html[i + k], tag[k])
}

/// `text` stands at `i`.
pub open spec fn text_at(html: Seq<char>, text: Seq<char>, i: int) -> bool {
    &&& 0 <= i
    &&& i + text.len() <= html.len()
    &&& forall|k: int| 0 <= k < text.len() ==> #[trigger] html[i + k] == text[k]
}

proof fn lemma_text_at(html: Seq<char>, text: Seq<char>, i: int)
    requires
        0 <= i,
        i + text.len() <= html.len(),
    ensures
        text_at(html, text, i) <==> html.subrange(i, i + text.len()) == text,
{
    let here = html.subrange(i, i + text.len());
    if text_at(html, text, i) {
        assert forall|k: int| 0 <= k < text.len() implies here[k] == text[k] by {
            assert(html[i + k] == text[k]);
        }
        assert(here =~= text);
    }
    if here == text {
        assert forall|k: int| 0 <= k < text.len() implies #[trigger] html[i + k] == text[k] by {
            assert(here[k] == html[i + k]);
        }
    }
}

proof fn lemma_tag_at(html: Seq<char>, tag: Seq<char>, i: int)
    requires
        0 <= i,
        i + tag.len() <= html.len(),
        forall|k: int| 0 <= k < tag.len() ==> !('A' <= #[trigger] tag[k] <= 'Z'),
    ensures
        tag_at(html, tag, i) <==> lower_text(html).subrange(i, i + tag.len()) == tag,
{
    let here = lower_text(html).subrange(i, i + tag.len());
    if tag_at(html, tag, i) {
        assert forall|k: int| 0 <= k < tag.len() implies here[k] == tag[k] by {
            assert(same_but_case(html[i + k], tag[k]));
            assert(here[k] == lower_char(html[i + k]));
        }
        assert(here =~= tag);
    }
    if here == tag {
        assert forall|k: int| 0 <= k < tag.len() implies same_but_case(
            #[trigger] html[i + k],
            tag[k],
        ) by {
            assert(here[k] == lower_char(html[i + k]));
            assert(!('A' <= tag[k] <= 'Z'));
        }
    }
}

/// Where a tag first stands in the small letters of a page is where it first stands in the page,
/// capital or small.
proof fn lemma_first_tag(html: Seq<char>, tag: Seq<char>)
    requires
        forall|k: int| 0 <= k < tag.len() ==> !('A' <= #[trigger] tag[k] <= 'Z'),
    ensures
        match first_at(lower_text(html), tag, 0) {
            Some(i) => tag_at(html, tag, i) && forall|j: int| 0 <= j < i ==> !tag_at(html, tag, j),
            None => forall|j: int| !tag_at(html, tag, j),
        },
{
    let low = lower_text(html);
    first_place_is_first(low, tag, 0);
    assert forall|j: int| 0 <= j <= html.len() - tag.len() implies (tag_at(html, tag, j)
        <==> #[trigger] low.subrange(j, j + tag.len()) == tag) by {
        lemma_tag_at(html, tag, j);
    }
    match first_at(low, tag, 0) {
        Some(i) => {
            assert(low.subrange(i, i + tag.len()) == tag);
            assert forall|j: int| 0 <= j < i implies !tag_at(html, tag, j) by {
                assert(low.subrange(j, j + tag.len()) != tag);
            }
        },
        None => {
            assert forall|j: int| !tag_at(html, tag, j) by {
                if tag_at(html, tag, j) {
                    assert(low.subrange(j, j + tag.len()) == tag);
                }
            }
        },
    }
}

/// Where a text first stands in a page from `from` on.
proof fn lemma_first_text(html: Seq<char>, text: Seq<char>, from: int)
    requires
        0 <= from,
    ensures
        match first_at(html, text, from) {
            Some(i) => from <= i && text_at(html, text, i) && forall|j: int|
                from <= j < i ==> !text_at(html, text, j),
            None => forall|j: int| from <= j ==> !text_at(html, text, j),
        },
{
    first_place_is_first(html, text, from);
    assert forall|j: int| 0 <= j <= html.len() - text.len() implies (text_at(html, text, j)
        <==> #[trigger] html.subrange(j, j + text.len()) == text) by {
        lemma_text_at(html, text, j);
    }
    match first_at(html, text, from) {
        Some(i) => {
            assert(html.subrange(i, i + text.len()) == text);
            assert forall|j: int| from <= j < i implies !text_at(html, text, j) by {
                assert(html.subrange(j, j + text.len()) != text);
            }
        },
        None => {
            assert forall|j: int| from <= j implies !text_at(html, text, j) by {
                if text_at(html, text, j) {
                    assert(html.subrange(j, j + text.len()) == text);
                }
            }
        },
    }
}

/// Where a page has an opening title tag, in any case, and a closing one behind it, its title is
/// the text between the first opening tag and the closing tag that follows it first, without white
/// space around it and with its entities decoded. Whatever else the page holds makes no difference.
pub proof fn title_element_comes_first(html: Seq<char>, i: int, j: int)
    requires
        tag_at(html, "<title>"@, i),
        forall|k: int| 0 <= k < i ==> !tag_at(html, "<title>"@, k),
        i + 7 <= j,
        text_at(html, "</title>"@, j),
        forall|k: int| i + 7 <= k < j ==> !text_at(html, "</title>"@, k),
    ensures
        title_of(html) == plain_text(trimmed(html.subrange(i + 7, j))),
{
    reveal_strlit("<title>");
    lemma_first_tag(html, "<title>"@);
    lemma_first_text(html, "</title>"@, i + 7);
}

/// A page has a title element: an opening tag, in any case, and a closing tag behind it.
pub open spec fn has_title_element(html: Seq<char>) -> bool {
    exists|i: int, j: int|
        i + 7 <= j && #[trigger] tag_at(html, "<title>"@, i) && #[trigger] text_at(
            html,
            "</title>"@,
            j,
        )
}

proof fn lemma_no_title_element(html: Seq<char>)
    requires
        !has_title_element(html),
    ensures
        title_element(html) is None,
{
    reveal_strlit("<title>");
    lemma_first_tag(html, "<title>"@);
    if let Some(i) = first_at(lower_text(html), "<title>"@, 0) {
        lemma_first_text(html, "</title>"@, i + 7);
    }
}

/// The title of a page without a title element is the content of its first `og:title` property,
/// without white space around it: what stands between `content="` behind the property and the next
/// quote.
pub proof fn og_title_is_the_fallback(html: Seq<char>, m: int, c: int, e: int)
    requires
        !has_title_element(html),
        tag_at(html, "property=\"og:title\""@, m),
        forall|k: int| 0 <= k < m ==> !tag_at(html, "property=\"og:title\""@, k),
        m <= c,
        text_at(html, "content=\""@, c),
        forall|k: int| m <= k < c ==> !text_at(html, "content=\""@, k),
        c + 9 <= e < html.len(),
        html[e] == '"',
        forall|k: int| c + 9 <= k < e ==> html[k] != '"',
    ensures
        title_of(html) == trimmed(html.subrange(c + 9, e)),
{
    reveal_strlit("property=\"og:title\"");
    reveal_strlit("content=\"");
    reveal_strlit("\"");
    lemma_no_title_element(html);
    lemma_first_tag(html, "property=\"og:title\""@);
    lemma_first_text(html, "content=\""@, m);
    lemma_first_text(html, "\""@, c + 9);
    assert(text_at(html, "\""@, e)) by {
        assert(html[e + 0int] == '"');
    }
    let q = first_at(html, "\""@, c + 9)->Some_0;
    assert(html[q + 0int] == "\""@[0]);
}

/// A page with neither is without a title.
pub proof fn pages_without_either_have_no_title(html: Seq<char>)
    requires
        !has_title_element(html),
        forall|m: int, c: int, e: int|
            !(m <= c && c + 9 <= e < html.len() && #[trigger] tag_at(
                html,
                "property=\"og:title\""@,
                m,
            ) && #[trigger] text_at(html, "content=\""@, c) && #[trigger] html[e] == '"'),
    ensures
        title_of(html) == "NO TITLE FOUND"@,
{
    reveal_strlit("property=\"og:title\"");
    reveal_strlit("content=\"");
    reveal_strlit("\"");
    lemma_no_title_element(html);
    lemma_first_tag(html, "property=\"og:title\""@);
    if let Some(m) = first_at(lower_text(html), "property=\"og:title\""@, 0) {
        lemma_first_text(html, "content=\""@, m);
        if let Some(c) = first_at(html, "content=\""@, m) {
            lemma_first_text(html, "\""@, c + 9);
            if let Some(e) = first_at(html, "\""@, c + 9) {
                assert(html[e + 0int] == "\""@[0]);
                assert(html[e] == '"');
            }
        }
    }
}

/// Nothing that begins as `from` does begins at `k`.
spec fn passes(p: Seq<char>, from: Seq<char>, k: int) -> bool {
    p[k] == from[0] ==> k + 1 < p.len() && p[k + 1] != from[1]
}

/// Characters at which nothing to be replaced begins stay.
proof fn lemma_replaced_skips(p: Seq<char>, s: Seq<char>, from: Seq<char>, to: Seq<char>)
    requires
        from.len() >= 2,
        forall|k: int| 0 <= k < p.len() ==> #[trigger] passes(p, from, k),
    ensures
        replaced(p + s, from, to) == p + replaced(s, from, to),
    decreases p.len(),
{
    if p.len() == 0 {
        assert(p + s =~= s);
        assert(p + replaced(s, from, to) =~= replaced(s, from, to));
    } else {
        let all = p + s;
        let rest = p.drop_first();
        assert forall|k: int| 0 <= k < rest.len() implies #[trigger] passes(rest, from, k) by {
            assert(passes(p, from, k + 1));
        }
        lemma_replaced_skips(rest, s, from, to);
        assert(all.drop_first() =~= rest + s);
        if all.len() >= from.len() {
            let here = all.subrange(0, from.len() as int);
            if here == from {
                assert(here[0] == p[0] && here[1] == all[1]);
                assert(passes(p, from, 0));
            }
            assert(replaced(all, from, to) =~= p + replaced(s, from, to));
        } else {
            lemma_short_stays(s, from, to);
            lemma_short_stays(all, from, to);
        }
    }
}

proof fn lemma_short_stays(s: Seq<char>, from: Seq<char>, to: Seq<char>)
    requires
        s.len() < from.len(),
    ensures
        replaced(s, from, to) == s,
{
}

proof fn lemma_replaced_first(s: Seq<char>, from: Seq<char>, to: Seq<char>)
    requires
        from.len() > 0,
    ensures
        replaced(from + s, from, to) == to + replaced(s, from, to),
{
    assert((from + s).subrange(0, from.len() as int) =~= from);
    assert((from + s).skip(from.len() as int) =~= s);
}

/// The entities of a text are decoded one by one: with a text before it that holds no ampersand,
/// an entity becomes its character, and what follows is decoded likewise.
pub proof fn entities_become_their_characters(x: Seq<char>, y: Seq<char>)
    requires
        forall|k: int| 0 <= k < x.len() ==> #[trigger] x[k] != '&',
    ensures
        plain_text(x + "&lt;"@ + y) == x + seq!['<'] + plain_text(y),
        plain_text(x + "&gt;"@ + y) == x + seq!['>'] + plain_text(y),
        plain_text(x + "&quot;"@ + y) == x + seq!['"'] + plain_text(y),
        plain_text(x + "&#39;"@ + y) == x + seq!['\''] + plain_text(y),
        plain_text(x + "&nbsp;"@ + y) == x + seq![' '] + plain_text(y),
{
    lemma_names();
    assert("&lt;"@ =~= seq!['&'] + seq!['l', 't'] + seq![';']);
    assert("&gt;"@ =~= seq!['&'] + seq!['g', 't'] + seq![';']);
    assert("&quot;"@ =~= seq!['&'] + seq!['q', 'u', 'o', 't'] + seq![';']);
    assert("&#39;"@ =~= seq!['&'] + seq!['#', '3', '9'] + seq![';']);
    assert("&nbsp;"@ =~= seq!['&'] + seq!['n', 'b', 's', 'p'] + seq![';']);
    assert("&lt;"@[1] == 'l' && "&gt;"@[1] == 'g' && "&quot;"@[1] == 'q' && "&#39;"@[1] == '#'
        && "&nbsp;"@[1] == 'n' && "&amp;"@[1] == 'a');
    words_are_decoded_or_stay(x, seq!['l', 't'], y);
    words_are_decoded_or_stay(x, seq!['g', 't'], y);
    words_are_decoded_or_stay(x, seq!['q', 'u', 'o', 't'], y);
    words_are_decoded_or_stay(x, seq!['#', '3', '9'], y);
    words_are_decoded_or_stay(x, seq!['n', 'b', 's', 'p'], y);
}

/// A text without a semicolon holds no entity, and stays.
proof fn lemma_no_semicolon(s: Seq<char>, from: Seq<char>, to: Seq<char>)
    requires
        forall|k: int| 0 <= k < s.len() ==> #[trigger] s[k] != ';',
        from.len() > 0,
        from.last() == ';',
    ensures
        replaced(s, from, to) == s,
    decreases s.len(),
{
    if s.len() >= from.len() {
        let here = s.subrange(0, from.len() as int);
        assert(here.last() == s[from.len() - 1]);
        let rest = s.drop_first();
        assert forall|k: int| 0 <= k < rest.len() implies #[trigger] rest[k] != ';' by {
            assert(rest[k] == s[k + 1]);
        }
        lemma_no_semicolon(rest, from, to);
        assert(seq![s[0]] + rest =~= s);
    }
}

/// A text without an ampersand holds no entity, and stays.
proof fn lemma_no_ampersand(s: Seq<char>, from: Seq<char>, to: Seq<char>)
    requires
        forall|k: int| 0 <= k < s.len() ==> #[trigger] s[k] != '&',
        from.len() >= 2,
        from[0] == '&',
    ensures
        replaced(s, from, to) == s,
{
    lemma_replaced_skips(s, Seq::empty(), from, to);
    assert(s + Seq::<char>::empty() =~= s);
}

/// A text without an ampersand, or without a semicolon, stays as it is. An escaped ampersand
/// becomes one.
pub proof fn other_characters_stay(s: Seq<char>, x: Seq<char>, y: Seq<char>)
    requires
        (forall|k: int| 0 <= k < s.len() ==> #[trigger] s[k] != '&') || (forall|k: int|
            0 <= k < s.len() ==> #[trigger] s[k] != ';'),
        forall|k: int| 0 <= k < x.len() ==> #[trigger] x[k] != '&' && x[k] != ';',
        forall|k: int| 0 <= k < y.len() ==> #[trigger] y[k] != ';',
    ensures
        plain_text(s) == s,
        plain_text(x + "&amp;"@ + y) == x + seq!['&'] + y,
{
    reveal_strlit("&amp;");
    reveal_strlit("&lt;");
    reveal_strlit("&gt;");
    reveal_strlit("&quot;");
    reveal_strlit("&#39;");
    reveal_strlit("&nbsp;");
    reveal_strlit("&");
    assert("&"@ =~= seq!['&']);
    if forall|k: int| 0 <= k < s.len() ==> #[trigger] s[k] != '&' {
        lemma_no_ampersand(s, "&amp;"@, "&"@);
        lemma_no_ampersand(s, "&lt;"@, "<"@);
        lemma_no_ampersand(s, "&gt;"@, ">"@);
        lemma_no_ampersand(s, "&quot;"@, "\""@);
        lemma_no_ampersand(s, "&#39;"@, "'"@);
        lemma_no_ampersand(s, "&nbsp;"@, " "@);
    } else {
        lemma_no_semicolon(s, "&amp;"@, "&"@);
        lemma_no_semicolon(s, "&lt;"@, "<"@);
        lemma_no_semicolon(s, "&gt;"@, ">"@);
        lemma_no_semicolon(s, "&quot;"@, "\""@);
        lemma_no_semicolon(s, "&#39;"@, "'"@);
        lemma_no_semicolon(s, "&nbsp;"@, " "@);
    }
    let whole = x + "&amp;"@ + y;
    let t = x + seq!['&'] + y;
    assert(whole =~= x + ("&amp;"@ + y));
    lemma_replaced_skips(x, "&amp;"@ + y, "&amp;"@, "&"@);
    lemma_replaced_first(y, "&amp;"@, "&"@);
    lemma_no_semicolon(y, "&amp;"@, "&"@);
    assert(replaced(whole, "&amp;"@, "&"@) =~= t);
    assert forall|k: int| 0 <= k < t.len() implies #[trigger] t[k] != ';' by {
        if k < x.len() {
            assert(t[k] == x[k]);
        } else if k > x.len() {
            assert(t[k] == y[k - x.len() - 1]);
        }
    }
    lemma_no_semicolon(t, "&lt;"@, "<"@);
    lemma_no_semicolon(t, "&gt;"@, ">"@);
    lemma_no_semicolon(t, "&quot;"@, "\""@);
    lemma_no_semicolon(t, "&#39;"@, "'"@);
    lemma_no_semicolon(t, "&nbsp;"@, " "@);
}

/// A word from an ampersand on, at which nothing to be replaced begins, stays.
proof fn lemma_word_stays(
    x: Seq<char>,
    w: Seq<char>,
    s: Seq<char>,
    from: Seq<char>,
    to: Seq<char>,
)
    requires
        forall|k: int| 0 <= k < x.len() ==> #[trigger] x[k] != '&',
        w.len() >= 1,
        forall|k: int| 1 <= k < w.len() ==> #[trigger] w[k] != '&',
        from.len() >= 2,
        from[0] == '&',
        w.len() + s.len() >= from.len() ==> (w + s).subrange(0, from.len() as int) != from,
    ensures
        replaced(x + w + s, from, to) == x + w + replaced(s, from, to),
{
    let all = w + s;
    let rest = w.drop_first();
    assert forall|k: int| 0 <= k < rest.len() implies #[trigger] passes(rest, from, k) by {
        assert(rest[k] == w[k + 1]);
    }
    lemma_replaced_skips(rest, s, from, to);
    assert(all.drop_first() =~= rest + s);
    if all.len() >= from.len() {
        assert(seq![all[0]] + (rest + replaced(s, from, to)) =~= w + replaced(s, from, to));
    } else {
        lemma_short_stays(s, from, to);
        lemma_short_stays(all, from, to);
    }
    assert forall|k: int| 0 <= k < x.len() implies #[trigger] passes(x, from, k) by {
        assert(x[k] != '&');
    }
    lemma_replaced_skips(x, all, from, to);
    assert(x + w + s =~= x + all);
    assert(x + (w + replaced(s, from, to)) =~= x + w + replaced(s, from, to));
}

/// A word from an ampersand to a semicolon stays where it is not the one to be replaced.
proof fn lemma_other_word(
    x: Seq<char>,
    u: Seq<char>,
    y: Seq<char>,
    from: Seq<char>,
    to: Seq<char>,
)
    requires
        forall|k: int| 0 <= k < x.len() ==> #[trigger] x[k] != '&',
        u.len() >= 2,
        u.last() == ';',
        forall|k: int| 1 <= k < u.len() - 1 ==> #[trigger] u[k] != '&' && u[k] != ';',
        from.len() >= 2,
        from[0] == '&',
        from.last() == ';',
        forall|k: int| 1 <= k < from.len() - 1 ==> #[trigger] from[k] != ';',
        u[0] == '&',
        u != from,
    ensures
        replaced(x + u + y, from, to) == x + u + replaced(y, from, to),
{
    let all = u + y;
    if all.len() >= from.len() {
        let here = all.subrange(0, from.len() as int);
        if here == from {
            assert(here[u.len() - 1] == ';' || from.len() < u.len());
            if from.len() < u.len() {
                assert(here[from.len() - 1] == u[from.len() - 1]);
                assert(u[from.len() - 1] == ';');
            } else if from.len() > u.len() {
                assert(from[u.len() - 1] == ';');
            } else {
                assert(u =~= from);
            }
        }
    }
    lemma_word_stays(x, u, y, from, to);
}

/// A character that stands in no entity behind its ampersand.
spec fn breaks(c: char) -> bool {
    c == '&' || c == '<' || c == '>' || c == '"' || c == '\'' || c == ' '
}

/// A word from an ampersand on stays where it is broken off before a semicolon.
proof fn lemma_broken_word(
    x: Seq<char>,
    w: Seq<char>,
    z: Seq<char>,
    from: Seq<char>,
    to: Seq<char>,
)
    requires
        forall|k: int| 0 <= k < x.len() ==> #[trigger] x[k] != '&',
        w.len() >= 1,
        forall|k: int| 0 <= k < w.len() ==> #[trigger] w[k] != ';',
        forall|k: int| 1 <= k < w.len() ==> #[trigger] w[k] != '&',
        z.len() > 0 ==> breaks(z[0]),
        from.len() >= 2,
        from[0] == '&',
        from.last() == ';',
        forall|k: int| 1 <= k < from.len() ==> !breaks(#[trigger] from[k]),
        to.len() == 1,
        breaks(to[0]),
    ensures
        replaced(x + w + z, from, to) == x + w + replaced(z, from, to),
        replaced(z, from, to).len() > 0 ==> breaks(replaced(z, from, to)[0]),
{
    let all = w + z;
    if all.len() >= from.len() {
        let here = all.subrange(0, from.len() as int);
        if here == from {
            if from.len() <= w.len() {
                assert(here[from.len() - 1] == w[from.len() - 1]);
            } else {
                assert(here[w.len() as int] == z[0]);
            }
        }
    }
    lemma_word_stays(x, w, z, from, to);
}

/// A word that begins with an ampersand, ends with a semicolon and holds neither in between becomes
/// the character that it stands for, or stays where it stands for none; what follows is decoded
/// likewise. The ampersand may itself be escaped.
pub proof fn words_are_decoded_or_stay(x: Seq<char>, t: Seq<char>, y: Seq<char>)
    requires
        forall|k: int| 0 <= k < x.len() ==> #[trigger] x[k] != '&',
        forall|k: int| 0 <= k < t.len() ==> #[trigger] t[k] != '&' && t[k] != ';',
    ensures
        ({
            let u = seq!['&'] + t + seq![';'];
            let c = if u == "&lt;"@ {
                seq!['<']
            } else if u == "&gt;"@ {
                seq!['>']
            } else if u == "&quot;"@ {
                seq!['"']
            } else if u == "&#39;"@ {
                seq!['\'']
            } else if u == "&nbsp;"@ {
                seq![' ']
            } else {
                u
            };
            &&& plain_text(x + "&amp;"@ + (t + seq![';'] + y)) == x + c + plain_text(y)
            &&& u != "&amp;"@ ==> plain_text(x + u + y) == x + c + plain_text(y)
        }),
{
    lemma_names();
    let u = seq!['&'] + t + seq![';'];
    let rest = t + seq![';'];
    let (amp, one) = ("&amp;"@, "&"@);
    let y1 = replaced(y, amp, one);
    lemma_later_entities(x, u, y1);
    let s = t + seq![';'] + y;
    assert(x + amp + s =~= x + (amp + s));
    lemma_replaced_skips_plain(x, amp + s, amp, one);
    lemma_replaced_first(s, amp, one);
    lemma_replaced_skips_plain(rest, y, amp, one);
    assert(s =~= rest + y);
    assert(replaced(x + amp + s, amp, one) =~= x + u + y1);
    if u != amp {
        lemma_other_word(x, u, y, amp, one);
    }
}

/// An ampersand that is followed by another, or by the end, before any semicolon, stays, and so does
/// what stands between the two. The ampersand may itself be escaped.
pub proof fn broken_words_stay(x: Seq<char>, t: Seq<char>, z: Seq<char>)
    requires
        forall|k: int| 0 <= k < x.len() ==> #[trigger] x[k] != '&',
        forall|k: int| 0 <= k < t.len() ==> #[trigger] t[k] != '&' && t[k] != ';',
        z.len() > 0 ==> z[0] == '&',
    ensures
        plain_text(x + (seq!['&'] + t) + z) == x + (seq!['&'] + t) + plain_text(z),
        plain_text(x + "&amp;"@ + (t + z)) == x + (seq!['&'] + t) + plain_text(z),
{
    lemma_names();
    let w = seq!['&'] + t;
    let (amp, one) = ("&amp;"@, "&"@);
    let z1 = replaced(z, amp, one);
    let z2 = replaced(z1, "&lt;"@, "<"@);
    let z3 = replaced(z2, "&gt;"@, ">"@);
    let z4 = replaced(z3, "&quot;"@, "\""@);
    let z5 = replaced(z4, "&#39;"@, "'"@);
    lemma_broken_word(x, w, z, amp, one);
    lemma_broken_word(x, w, z1, "&lt;"@, "<"@);
    lemma_broken_word(x, w, z2, "&gt;"@, ">"@);
    lemma_broken_word(x, w, z3, "&quot;"@, "\""@);
    lemma_broken_word(x, w, z4, "&#39;"@, "'"@);
    lemma_broken_word(x, w, z5, "&nbsp;"@, " "@);
    let s = t + z;
    assert(x + amp + s =~= x + (amp + s));
    lemma_replaced_skips_plain(x, amp + s, amp, one);
    lemma_replaced_first(s, amp, one);
    lemma_replaced_skips_plain(t, z, amp, one);
    assert(replaced(x + amp + s, amp, one) =~= x + w + z1);
}

/// What the entities and their characters are made of.
proof fn lemma_names()
    ensures
        "&amp;"@ == seq!['&', 'a', 'm', 'p', ';'],
        "&lt;"@ == seq!['&', 'l', 't', ';'],
        "&gt;"@ == seq!['&', 'g', 't', ';'],
        "&quot;"@ == seq!['&', 'q', 'u', 'o', 't', ';'],
        "&#39;"@ == seq!['&', '#', '3', '9', ';'],
        "&nbsp;"@ == seq!['&', 'n', 'b', 's', 'p', ';'],
        "&"@ == seq!['&'],
        "<"@ == seq!['<'],
        ">"@ == seq!['>'],
        "\""@ == seq!['"'],
        "'"@ == seq!['\''],
        " "@ == seq![' '],
{
    reveal_strlit("&amp;");
    reveal_strlit("&lt;");
    reveal_strlit("&gt;");
    reveal_strlit("&quot;");
    reveal_strlit("&#39;");
    reveal_strlit("&nbsp;");
    reveal_strlit("&");
    reveal_strlit("<");
    reveal_strlit(">");
    reveal_strlit("\"");
    reveal_strlit("'");
    reveal_strlit(" ");
    assert("&amp;"@ =~= seq!['&', 'a', 'm', 'p', ';']);
    assert("&lt;"@ =~= seq!['&', 'l', 't', ';']);
    assert("&gt;"@ =~= seq!['&', 'g', 't', ';']);
    assert("&quot;"@ =~= seq!['&', 'q', 'u', 'o', 't', ';']);
    assert("&#39;"@ =~= seq!['&', '#', '3', '9', ';']);
    assert("&nbsp;"@ =~= seq!['&', 'n', 'b', 's', 'p', ';']);
    assert("&"@ =~= seq!['&']);
    assert("<"@ =~= seq!['<']);
    assert(">"@ =~= seq!['>']);
    assert("\""@ =~= seq!['"']);
    assert("'"@ =~= seq!['\'']);
    assert(" "@ =~= seq![' ']);
}

/// Text without an ampersand is passed.
proof fn lemma_replaced_skips_plain(p: Seq<char>, s: Seq<char>, from: Seq<char>, to: Seq<char>)
    requires
        forall|k: int| 0 <= k < p.len() ==> #[trigger] p[k] != '&',
        from.len() >= 2,
        from[0] == '&',
    ensures
        replaced(p + s, from, to) == p + replaced(s, from, to),
{
    assert forall|k: int| 0 <= k < p.len() implies #[trigger] passes(p, from, k) by {
        assert(p[k] != '&');
    }
    lemma_replaced_skips(p, s, from, to);
}

/// One of the entities but the escaped ampersand, replaced or left alone.
proof fn lemma_one_step(
    x: Seq<char>,
    u: Seq<char>,
    y: Seq<char>,
    from: Seq<char>,
    to: Seq<char>,
)
    requires
        forall|k: int| 0 <= k < x.len() ==> #[trigger] x[k] != '&',
        u.len() >= 2,
        u[0] == '&',
        u.last() == ';',
        forall|k: int| 1 <= k < u.len() - 1 ==> #[trigger] u[k] != '&' && u[k] != ';',
        from.len() >= 2,
        from[0] == '&',
        from.last() == ';',
        forall|k: int| 1 <= k < from.len() - 1 ==> #[trigger] from[k] != ';',
    ensures
        replaced(x + u + y, from, to) == x + (if u == from {
            to
        } else {
            u
        }) + replaced(y, from, to),
{
    if u == from {
        lemma_replaced_skips_plain(x, u + y, from, to);
        lemma_replaced_first(y, from, to);
        assert(x + u + y =~= x + (u + y));
        assert(x + (to + replaced(y, from, to)) =~= x + to + replaced(y, from, to));
    } else {
        lemma_other_word(x, u, y, from, to);
    }
}

/// The entities but the escaped ampersand, replaced one after the other.
#[verifier::spinoff_prover]
proof fn lemma_later_entities(x: Seq<char>, u: Seq<char>, y1: Seq<char>)
    requires
        forall|k: int| 0 <= k < x.len() ==> #[trigger] x[k] != '&',
        u.len() >= 2,
        u[0] == '&',
        u.last() == ';',
        forall|k: int| 1 <= k < u.len() - 1 ==> #[trigger] u[k] != '&' && u[k] != ';',
    ensures
        ({
            let c = if u == "&lt;"@ {
                seq!['<']
            } else if u == "&gt;"@ {
                seq!['>']
            } else if u == "&quot;"@ {
                seq!['"']
            } else if u == "&#39;"@ {
                seq!['\'']
            } else if u == "&nbsp;"@ {
                seq![' ']
            } else {
                u
            };
            later_entities(x + u + y1) == x + c + later_entities(y1)
        }),
{
    lemma_names();
    let y2 = replaced(y1, "&lt;"@, "<"@);
    let y3 = replaced(y2, "&gt;"@, ">"@);
    let y4 = replaced(y3, "&quot;"@, "\""@);
    let y5 = replaced(y4, "&#39;"@, "'"@);
    let u2 = if u == "&lt;"@ {
        "<"@
    } else {
        u
    };
    let u3 = if u2 == "&gt;"@ {
        ">"@
    } else {
        u2
    };
    let u4 = if u3 == "&quot;"@ {
        "\""@
    } else {
        u3
    };
    let u5 = if u4 == "&#39;"@ {
        "'"@
    } else {
        u4
    };
    lemma_word_or_character(x, u, y1, "&lt;"@, "<"@);
    lemma_word_or_character(x, u2, y2, "&gt;"@, ">"@);
    lemma_word_or_character(x, u3, y3, "&quot;"@, "\""@);
    lemma_word_or_character(x, u4, y4, "&#39;"@, "'"@);
    lemma_word_or_character(x, u5, y5, "&nbsp;"@, " "@);
}

/// A word, or a character that is no ampersand, when an entity is replaced.
proof fn lemma_word_or_character(
    x: Seq<char>,
    u: Seq<char>,
    y: Seq<char>,
    from: Seq<char>,
    to: Seq<char>,
)
    requires
        forall|k: int| 0 <= k < x.len() ==> #[trigger] x[k] != '&',
        (u.len() == 1 && u[0] != '&') || (u.len() >= 2 && u[0] == '&' && u.last() == ';' && forall|
            k: int,
        |
            1 <= k < u.len() - 1 ==> #[trigger] u[k] != '&' && u[k] != ';'),
        from.len() >= 2,
        from[0] == '&',
        from.last() == ';',
        forall|k: int| 1 <= k < from.len() - 1 ==> #[trigger] from[k] != ';',
    ensures
        replaced(x + u + y, from, to) == x + (if u == from {
            to
        } else {
            u
        }) + replaced(y, from, to),
{
    if u.len() == 1 {
        let p = x + u;
        assert forall|k: int| 0 <= k < p.len() implies #[trigger] p[k] != '&' by {
            if k < x.len() {
                assert(p[k] == x[k]);
            }
        }
        lemma_replaced_skips_plain(p, y, from, to);
    } else {
        lemma_one_step(x, u, y, from, to);
    }
}

/// A text in which the entities but the escaped ampersand are replaced.
spec fn later_entities(s: Seq<char>) -> Seq<char> {
    let s = replaced(s, "&lt;"@, "<"@);
    let s = replaced(s, "&gt;"@, ">"@);
    let s = replaced(s, "&quot;"@, "\""@);
    let s = replaced(s, "&#39;"@, "'"@);
    replaced(s, "&nbsp;"@, " "@)
}

/// The value of a hexadecimal digit, upper case.
pub open spec fn upper_hex_value(c: char) -> int {
    if '0' <= c <= '9' {
        c as int - 48
    } else {
        c as int - 55
    }
}

/// The bytes of a text are encoded one after the other. A letter, a digit, and each of `-_.~` stay;
/// every other byte becomes a percent sign and two hexadecimal digits of its value, in capitals.
pub proof fn bytes_are_encoded_one_by_one(a: Seq<u8>, b: Seq<u8>, byte: u8)
    ensures
        query_text(Seq::<u8>::empty()).len() == 0,
        query_text(a + b) == query_text(a) + query_text(b),
        ({
            let c = byte as char;
            let t = query_text(seq![byte]);
            if ('A' <= c <= 'Z') || ('a' <= c <= 'z') || ('0' <= c <= '9') || c == '-' || c == '_'
                || c == '.' || c == '~' {
                t == seq![c]
            } else {
                &&& t.len() == 3
                &&& t[0] == '%'
                &&& ('0' <= t[1] <= '9') || ('A' <= t[1] <= 'F')
                &&& ('0' <= t[2] <= '9') || ('A' <= t[2] <= 'F')
                &&& 16 * upper_hex_value(t[1]) + upper_hex_value(t[2]) == byte
            }
        }),
    decreases b.len(),
{
    reveal_with_fuel(query_text, 2);
    if b.len() == 0 {
        assert(a + b =~= a);
        assert(query_text(a) + query_text(b) =~= query_text(a));
    } else {
        assert((a + b).drop_last() =~= a + b.drop_last());
        assert((a + b).last() == b.last());
        bytes_are_encoded_one_by_one(a, b.drop_last(), byte);
        assert(query_text(a + b) =~= query_text(a) + query_text(b));
    }
    assert(seq![byte].drop_last() =~= Seq::<u8>::empty());
    assert(query_text(seq![byte]) =~= query_byte(byte));
}

/// A result is a JSON object with an address and a title, and nothing else.
pub proof fn results_are_objects_of_two(url: Seq<char>, title: Seq<char>)
    ensures
        result_text(url, title) == "{"@ + comma_joined(
            seq!["\"url\":"@ + quoted(url), "\"title\":"@ + quoted(title)],
        ) + "}"@,
{
    reveal_with_fuel(comma_joined, 3);
    reveal_strlit("{\"url\":");
    reveal_strlit("{");
    reveal_strlit("\"url\":");
    reveal_strlit(",\"title\":");
    reveal_strlit(",");
    reveal_strlit("\"title\":");
    let two = seq!["\"url\":"@ + quoted(url), "\"title\":"@ + quoted(title)];
    assert(two.drop_last() =~= seq![two[0]]);
    assert("{\"url\":"@ =~= "{"@ + "\"url\":"@);
    assert(",\"title\":"@ =~= ","@ + "\"title\":"@);
    assert(result_text(url, title) =~= "{"@ + comma_joined(two) + "}"@);
}

/// What is reported for a page is its title; for one that could not be fetched, why, behind
/// `ERROR: `.
pub proof fn reports_give_title_or_reason(html: Seq<char>, why: Seq<char>)
    ensures
        reported_title(Ok(html)) == title_of(html),
        reported_title(Err(why)).len() == 7 + why.len(),
        reported_title(Err(why)).skip(7) == why,
        reported_title(Err(why)).take(7) == seq!['E', 'R', 'R', 'O', 'R', ':', ' '],
{
    reveal_strlit("ERROR: ");
    assert(reported_title(Err(why)).skip(7) =~= why);
    assert(reported_title(Err(why)).take(7) =~= seq!['E', 'R', 'R', 'O', 'R', ':', ' ']);
}

} // verus!
