//! Calls that crawl: lists of addresses, pages, titles and reports.
use vstd::prelude::*;
use vstd::utf8::*;
use crate::crawl::{batches_hold_five, chunker, encode_urls, line_lists_its_text, lines_are_listed_in_order, parse_url_list, reducer, report, report_has_a_line_for_each, results_stay_in_order, CrawlJob, CrawlResult};
use crate::json::{comma_joined, quoted};
use crate::parse::{is_white, trimmed};
use crate::text::contains_text;
use crate::worker::titles::{bytes_are_encoded_one_by_one, decode_urls, extract_title_from_html, fetch_error, has_title_element, og_title_is_the_fallback, pages_without_either_have_no_title, plain_text, proxy_url, query_text, results_are_objects_of_two, strings_of, tag_at, text_at, title_element_comes_first, title_or_error, titles_json, url_encode};
use crate::workers::texts;

verus! {

/// A list of addresses is read line by line: two lists with a line break between them give what
/// the first gives, then what the second does.
pub proof fn lists_are_read_line_by_line(
    x: &str,
    y: &str,
    both: &str,
    a: Vec<String>,
    b: Vec<String>,
    c: Vec<String>,
)
    requires
        call_ensures(parse_url_list, (x,), a),
        call_ensures(parse_url_list, (y,), b),
        call_ensures(parse_url_list, (both,), c),
        both@ == x@ + seq!['\n'] + y@,
    ensures
        texts(c@) == texts(a@) + texts(b@),
{
    lines_are_listed_in_order(x@, y@);
}

/// A line gives the address that stands between the white space around it, whatever it is; a line
/// of white space gives none.
pub proof fn a_line_gives_its_address(
    line: &str,
    pre: Seq<char>,
    body: Seq<char>,
    post: Seq<char>,
    r: Vec<String>,
)
    requires
        call_ensures(parse_url_list, (line,), r),
        line@ == pre + body + post,
        forall|i: int| 0 <= i < pre.len() ==> is_white(#[trigger] pre[i]) && pre[i] != '\n',
        forall|i: int| 0 <= i < post.len() ==> is_white(#[trigger] post[i]) && post[i] != '\n',
        forall|i: int| 0 <= i < body.len() ==> #[trigger] body[i] != '\n',
        body.len() > 0 ==> !is_white(body[0]) && !is_white(body.last()),
    ensures
        body.len() > 0 ==> r@.len() == 1 && r@[0]@ == body,
        body.len() == 0 ==> r@.len() == 0,
{
    line_lists_its_text(pre, body, post);
    assert(texts(r@).len() == r@.len());
    if body.len() > 0 {
        assert(texts(r@)[0] == body);
    }
}

/// The addresses go in batches of five, in order, and only the last batch may hold fewer.
pub proof fn batches_hold_five_in_order(job: CrawlJob, r: Vec<CrawlJob>, k: int, j: int)
    requires
        call_ensures(chunker, (&job,), r),
        0 <= k < r@.len(),
    ensures
        5 * (r@.len() - 1) < job.urls@.len() <= 5 * r@.len(),
        k < r@.len() - 1 ==> r@[k].urls@.len() == 5,
        k == r@.len() - 1 ==> r@[k].urls@.len() == job.urls@.len() - 5 * k,
        0 <= j < r@[k].urls@.len() ==> r@[k].urls@[j]@ == job.urls@[5 * k + j]@,
{
    let all = texts(job.urls@);
    batches_hold_five(all, k, j);
    assert(texts(r@[k].urls@).len() == r@[k].urls@.len());
    if 0 <= j < r@[k].urls@.len() {
        assert(texts(r@[k].urls@)[j] == all[5 * k + j]);
    }
}

/// No addresses make no batch, and some make one.
pub proof fn some_addresses_make_a_batch(job: CrawlJob, r: Vec<CrawlJob>)
    requires
        call_ensures(chunker, (&job,), r),
    ensures
        r@.len() == 0 <==> job.urls@.len() == 0,
{
}

/// A worker reads the addresses of its batch as they were sent.
pub proof fn workers_read_their_batch(chunk: CrawlJob, bytes: Vec<u8>, r: Option<Vec<String>>)
    requires
        call_ensures(encode_urls, (&chunk,), bytes),
        call_ensures(decode_urls, (bytes,), r),
    ensures
        r matches Some(urls) && texts(urls@) == texts(chunk.urls@),
{
}

/// Whatever text a worker gets, it reads the addresses that stand in it as a JSON array of strings,
/// all of them, and none where the text is no such array.
pub proof fn addresses_are_read_from_their_text(
    text: Seq<char>,
    bytes: Vec<u8>,
    r: Option<Vec<String>>,
)
    requires
        call_ensures(decode_urls, (bytes,), r),
        bytes@ == encode_utf8(text),
    ensures
        match strings_of(text) {
            Some(all) => r matches Some(urls) && texts(urls@) == all,
            None => r is None,
        },
{
    encode_utf8_valid_utf8(text);
    encode_utf8_decode_utf8(text);
}

/// What is no UTF-8 text holds no addresses.
pub proof fn broken_text_holds_no_addresses(bytes: Vec<u8>, r: Option<Vec<String>>)
    requires
        call_ensures(decode_urls, (bytes,), r),
        !valid_utf8(bytes@),
    ensures
        r is None,
{
}

/// The results of one batch more come behind those of the others; of it, those stay whose title
/// neither begins with `ERROR:` nor is `NO TITLE FOUND`.
pub proof fn batches_are_put_together_in_order(
    some: Vec<Vec<CrawlResult>>,
    last: Vec<CrawlResult>,
    all: Vec<Vec<CrawlResult>>,
    only: Vec<Vec<CrawlResult>>,
    a: Vec<CrawlResult>,
    b: Vec<CrawlResult>,
    c: Vec<CrawlResult>,
)
    requires
        call_ensures(reducer, (some,), a),
        call_ensures(reducer, (only,), b),
        call_ensures(reducer, (all,), c),
        only@ == seq![last],
        all@ == some@.push(last),
    ensures
        c@ == a@ + b@,
{
    let none = Seq::<Vec<CrawlResult>>::empty();
    let r = arbitrary::<CrawlResult>();
    let before = crate::crawl::flattened(some@);
    results_stay_in_order(before, last@, r, some@, last);
    results_stay_in_order(before, last@, r, none, last);
    assert(none.push(last) =~= seq![last]);
    assert(crate::crawl::flattened(none) + last@ =~= last@);
}

/// Of the results of a batch each is looked at by itself: one more at the end stays just where its
/// title neither begins with `ERROR:` nor is `NO TITLE FOUND`.
pub proof fn results_with_a_title_stay(
    some: Vec<CrawlResult>,
    more: Vec<CrawlResult>,
    result: CrawlResult,
    x: Vec<Vec<CrawlResult>>,
    y: Vec<Vec<CrawlResult>>,
    a: Vec<CrawlResult>,
    b: Vec<CrawlResult>,
)
    requires
        call_ensures(reducer, (x,), a),
        call_ensures(reducer, (y,), b),
        x@ == seq![some],
        y@ == seq![more],
        more@ == some@.push(result),
    ensures
        ({
            let t = result.title@;
            let error = t.len() >= 6 && t[0] == 'E' && t[1] == 'R' && t[2] == 'R' && t[3] == 'O'
                && t[4] == 'R' && t[5] == ':';
            let none = t == seq![
                'N',
                'O',
                ' ',
                'T',
                'I',
                'T',
                'L',
                'E',
                ' ',
                'F',
                'O',
                'U',
                'N',
                'D',
            ];
            b@ == if error || none {
                a@
            } else {
                a@.push(result)
            }
        }),
{
    let none = Seq::<Vec<CrawlResult>>::empty();
    results_stay_in_order(some@, seq![result], result, none, some);
    results_stay_in_order(some@, seq![result], result, none, more);
    assert(none.push(some) =~= seq![some]);
    assert(none.push(more) =~= seq![more]);
    assert(crate::crawl::flattened(none) + some@ =~= some@);
    assert(crate::crawl::flattened(none) + more@ =~= more@);
    assert(some@ + seq![result] =~= more@);
    assert(a@ + seq![result] =~= a@.push(result));
    assert(a@ + Seq::<CrawlResult>::empty() =~= a@);
}

/// No results give none.
pub proof fn no_results_give_none(x: Vec<Vec<CrawlResult>>, some: Vec<CrawlResult>, r: Vec<CrawlResult>)
    requires
        call_ensures(reducer, (x,), r),
        x@.len() == 0 || (x@ == seq![some] && some@.len() == 0),
    ensures
        r@.len() == 0,
{
    if x@.len() > 0 {
        let none = Seq::<Vec<CrawlResult>>::empty();
        results_stay_in_order(some@, some@, arbitrary::<CrawlResult>(), none, some);
        assert(none.push(some) =~= seq![some]);
        assert(crate::crawl::flattened(none) + some@ =~= some@);
    }
}

/// The report gets a line for each result, in order: its address, a tab and its title.
pub proof fn reports_get_a_line_for_each(
    some: Vec<CrawlResult>,
    more: Vec<CrawlResult>,
    result: CrawlResult,
    a: String,
    b: String,
)
    requires
        call_ensures(report, (&some,), a),
        call_ensures(report, (&more,), b),
        more@ == some@.push(result),
    ensures
        some@.len() == 0 ==> a@.len() == 0 && b@ == result.url@ + seq!['\t'] + result.title@,
        some@.len() > 0 ==> b@ == a@ + seq!['\n'] + (result.url@ + seq!['\t'] + result.title@),
{
    report_has_a_line_for_each(some@, result);
    if some@.len() == 0 {
        assert(some@.push(result) =~= seq![result]);
        assert(some@ =~= Seq::<CrawlResult>::empty());
    }
}

/// The title of a page with a title element is the text of the first one, without white space
/// around it and with its entities decoded, whatever else the page holds.
pub proof fn a_title_element_gives_the_title(html: &str, r: String, i: int, j: int)
    requires
        call_ensures(extract_title_from_html, (html,), r),
        tag_at(html@, "<title>"@, i),
        forall|k: int| 0 <= k < i ==> !tag_at(html@, "<title>"@, k),
        i + 7 <= j,
        text_at(html@, "</title>"@, j),
        forall|k: int| i + 7 <= k < j ==> !text_at(html@, "</title>"@, k),
    ensures
        r@ == plain_text(trimmed(html@.subrange(i + 7, j))),
{
    title_element_comes_first(html@, i, j);
}

/// The title of a page without one is the content of its first `og:title` property.
pub proof fn an_og_property_gives_the_title(html: &str, r: String, m: int, c: int, e: int)
    requires
        call_ensures(extract_title_from_html, (html,), r),
        !has_title_element(html@),
        tag_at(html@, "property=\"og:title\""@, m),
        forall|k: int| 0 <= k < m ==> !tag_at(html@, "property=\"og:title\""@, k),
        m <= c,
        text_at(html@, "content=\""@, c),
        forall|k: int| m <= k < c ==> !text_at(html@, "content=\""@, k),
        c + 9 <= e < html@.len(),
        html@[e] == '"',
        forall|k: int| c + 9 <= k < e ==> html@[k] != '"',
    ensures
        r@ == trimmed(html@.subrange(c + 9, e)),
{
    og_title_is_the_fallback(html@, m, c, e);
}

/// A page with neither is said to have no title.
pub proof fn a_page_with_neither_has_none(html: &str, r: String)
    requires
        call_ensures(extract_title_from_html, (html,), r),
        !has_title_element(html@),
        forall|m: int, c: int, e: int|
            !(m <= c && c + 9 <= e < html@.len() && #[trigger] tag_at(
                html@,
                "property=\"og:title\""@,
                m,
            ) && #[trigger] text_at(html@, "content=\""@, c) && #[trigger] html@[e] == '"'),
    ensures
        r@ == "NO TITLE FOUND"@,
{
    pages_without_either_have_no_title(html@);
}

/// What is reported of a page that was fetched is its title; of one that was not, why.
pub proof fn pages_are_reported_by_title_or_reason(
    html: String,
    page: &str,
    why: String,
    title: String,
    a: String,
    b: String,
)
    requires
        page@ == html@,
        call_ensures(extract_title_from_html, (page,), title),
        call_ensures(title_or_error, (Ok::<String, String>(html),), a),
        call_ensures(title_or_error, (Err::<String, String>(why),), b),
    ensures
        a@ == title@,
        b@ == seq!['E', 'R', 'R', 'O', 'R', ':', ' '] + why@,
{
    crate::worker::titles::reports_give_title_or_reason(html@, why@);
    let t = crate::worker::titles::reported_title(Err(why@));
    assert(t =~= t.take(7) + t.skip(7));
}

/// A fetch that failed is taken to have been blocked just where the message says that it failed to
/// fetch or speaks of CORS; else the message is passed on.
pub proof fn failed_fetches_say_why(message: &str, r: String)
    requires
        call_ensures(fetch_error, (message,), r),
    ensures
        contains_text(message@, "Failed to fetch"@) || contains_text(message@, "CORS"@)
            ==> r@
            == "CORS blocked: Browser security prevents fetching this URL. Consider using a CORS proxy or server-side fetching."@,
        !contains_text(message@, "Failed to fetch"@) && !contains_text(message@, "CORS"@) ==> r@
            == "Fetch failed: "@ + message@,
{
}

/// The bytes of a text are encoded one after the other, and the address for the proxy ends with
/// them.
pub proof fn texts_are_encoded_byte_by_byte(s: &str, r: String, proxied: String, k: int)
    requires
        call_ensures(url_encode, (s,), r),
        call_ensures(proxy_url, (s,), proxied),
        0 <= k < encode_utf8(s@).len(),
    ensures
        ({
            let b = encode_utf8(s@);
            &&& r@ == query_text(b.take(k)) + query_text(seq![b[k]]) + query_text(b.skip(k + 1))
            &&& proxied@ == "http://localhost:3001/proxy?url="@ + r@
        }),
{
    let b = encode_utf8(s@);
    bytes_are_encoded_one_by_one(b.take(k), seq![b[k]], 0);
    bytes_are_encoded_one_by_one(b.take(k) + seq![b[k]], b.skip(k + 1), 0);
    assert(b.take(k) + seq![b[k]] + b.skip(k + 1) =~= b);
}

/// Nothing is encoded as nothing, and an address for the proxy ends with what is encoded.
pub proof fn addresses_go_to_the_proxy(s: &str, r: String, proxied: String)
    requires
        call_ensures(url_encode, (s,), r),
        call_ensures(proxy_url, (s,), proxied),
    ensures
        encode_utf8(s@).len() == 0 ==> r@.len() == 0,
        proxied@ == "http://localhost:3001/proxy?url="@ + r@,
{
    let b = encode_utf8(s@);
    bytes_are_encoded_one_by_one(b, b, 0);
    if b.len() == 0 {
        assert(b =~= Seq::<u8>::empty());
    }
}

/// The results are a JSON array with one object for each, in order, of its address and its title.
pub proof fn titles_are_listed_in_order(
    some: Vec<(String, String)>,
    more: Vec<(String, String)>,
    result: (String, String),
    a: String,
    b: String,
)
    requires
        call_ensures(titles_json, (&some,), a),
        call_ensures(titles_json, (&more,), b),
        more@ == some@.push(result),
    ensures
        ({
            let object = "{"@ + comma_joined(
                seq!["\"url\":"@ + quoted(result.0@), "\"title\":"@ + quoted(result.1@)],
            ) + "}"@;
            &&& some@.len() == 0 ==> a@ == "[]"@ && b@ == "["@ + object + "]"@
            &&& some@.len() > 0 ==> a@.len() > 0 && a@.last() == ']' && b@ == a@.drop_last()
                + ","@ + object + "]"@
        }),
{
    results_are_objects_of_two(result.0@, result.1@);
    reveal_strlit("[]");
    reveal_strlit("[");
    reveal_strlit("]");
    reveal_strlit(",");
    let x = crate::worker::titles::result_texts(some@);
    let y = crate::worker::titles::result_texts(more@);
    assert(y.drop_last() =~= x);
    if some@.len() == 0 {
        assert(a@ =~= "[]"@);
    } else {
        assert(a@.drop_last() =~= "["@ + comma_joined(x));
        assert(b@ =~= a@.drop_last() + ","@ + y.last() + "]"@);
    }
}

} // verus!
