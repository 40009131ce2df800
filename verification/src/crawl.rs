//! A crawl for page titles: lists of addresses in, titles out.
use vstd::prelude::*;
use vstd::utf8::*;
use crate::json::string_array;
use crate::parse::{
    char_seqs, is_white, separators_part_the_text, split, split_parts,
    text_without_separators_is_one_part, trim, trimmed, trimming_leaves_the_body,
};
use crate::protocol::bytes::copy_range;
use crate::text::{copy_str, same_text, starts_with, starts_with_text, string_of};
use crate::worker::titles::{strings_of, urls_in};
use crate::workers::texts;

verus! {

/// How many addresses a chunk holds at most.
pub const BATCH_SIZE: usize = 5;

/// Addresses to look at.
#[derive(Debug, Clone)]
pub struct CrawlJob {
    pub urls: Vec<String>,
}

/// The title found under an address.
#[derive(Debug, Clone)]
pub struct CrawlResult {
    pub url: String,
    pub title: String,
}

/// The `k`-th batch of the addresses.
pub open spec fn batch(urls: Seq<Seq<char>>, k: int) -> Seq<Seq<char>> {
    let start = k * BATCH_SIZE;
    let end = start + BATCH_SIZE;
    urls.subrange(
        start,
        if end < urls.len() {
            end
        } else {
            urls.len() as int
        },
    )
}

/// How many batches the addresses make.
pub open spec fn batch_count(n: nat) -> nat {
    (n + BATCH_SIZE as nat - 1) as nat / BATCH_SIZE as nat
}

/// Splits the addresses into batches.
pub fn chunker(job: &CrawlJob) -> (r: Vec<CrawlJob>)
    ensures
        r@.len() == batch_count(job.urls@.len()),
        forall|k: int|
            0 <= k < r@.len() ==> texts((#[trigger] r@[k]).urls@) == batch(texts(job.urls@), k),
{
    let mut r: Vec<CrawlJob> = Vec::new();
    let total: usize = job.urls.len();
    let ghost all = texts(job.urls@);
    let mut start: usize = 0;
    while start < total
        invariant
            total == job.urls@.len(),
            all == texts(job.urls@),
            start <= total,
            start < total ==> start == r@.len() * BATCH_SIZE,
            start == total ==> r@.len() == batch_count(total as nat),
            start < total ==> r@.len() < batch_count(total as nat),
            forall|k: int| 0 <= k < r@.len() ==> texts((#[trigger] r@[k]).urls@) == batch(all, k),
        decreases total - start,
    {
        let end: usize = if total - start < BATCH_SIZE {
            total
        } else {
            start + BATCH_SIZE
        };
        let mut urls: Vec<String> = Vec::new();
        let mut i: usize = start;
        while i < end
            invariant
                start <= i <= end <= total,
                total == job.urls@.len(),
                all == texts(job.urls@),
                texts(urls@) == all.subrange(start as int, i as int),
            decreases end - i,
        {
            let ghost had = urls@;
            urls.push(job.urls[i].clone());
            assert(texts(urls@) =~= texts(had).push(all[i as int]));
            i = i + 1;
            assert(texts(urls@) =~= all.subrange(start as int, i as int));
        }
        r.push(CrawlJob { urls });
        start = end;
    }
    r
}

/// `serde_json::to_string` on a vector of strings writes them as a JSON array, each as it writes
/// a string, with nothing but commas between them. It never fails, and `serde_json::from_str`
/// reads the strings back.
#[verifier::external_body]
pub(crate) fn write_string_array(items: &Vec<String>) -> (r: String)
    ensures
        r@ == string_array(texts(items@)),
        strings_of(r@) == Some(texts(items@)),
{
    serde_json::to_string(items).unwrap()
}

/// The input bytes of a chunk: its addresses as a JSON array. The worker reads the addresses
/// back from them.
pub fn encode_urls(chunk: &CrawlJob) -> (r: Vec<u8>)
    ensures
        r@ == encode_utf8(string_array(texts(chunk.urls@))),
        urls_in(r@) == Some(texts(chunk.urls@)),
{
    let text = write_string_array(&chunk.urls);
    let bytes = text.as_str().as_bytes();
    proof {
        encode_utf8_valid_utf8(text@);
        encode_utf8_decode_utf8(text@);
    }
    let r = copy_range(bytes, 0, bytes.len());
    assert(r@ =~= bytes@);
    r
}

/// The worker found a title.
pub open spec fn found(title: Seq<char>) -> bool {
    !starts_with_text(title, "ERROR:"@) && title != "NO TITLE FOUND"@
}

/// The results with a title, in order.
pub open spec fn with_title(results: Seq<CrawlResult>) -> Seq<CrawlResult>
    decreases results.len(),
{
    if results.len() == 0 {
        Seq::empty()
    } else {
        let before = with_title(results.drop_last());
        if found(results.last().title@) {
            before.push(results.last())
        } else {
            before
        }
    }
}

/// The results of all batches one after the other.
pub open spec fn flattened(batches: Seq<Vec<CrawlResult>>) -> Seq<CrawlResult>
    decreases batches.len(),
{
    if batches.len() == 0 {
        Seq::empty()
    } else {
        flattened(batches.drop_last()) + batches.last()@
    }
}

proof fn lemma_with_title_concat(a: Seq<CrawlResult>, b: Seq<CrawlResult>)
    ensures
        with_title(a + b) == with_title(a) + with_title(b),
    decreases b.len(),
{
    if b.len() == 0 {
        assert(a + b =~= a);
        assert(with_title(a) + with_title(b) =~= with_title(a));
    } else {
        assert((a + b).drop_last() =~= a + b.drop_last());
        assert((a + b).last() == b.last());
        lemma_with_title_concat(a, b.drop_last());
        assert(with_title(a + b) =~= with_title(a) + with_title(b));
    }
}

/// Puts the results of all batches together and drops those without a title.
pub fn reducer(batches: Vec<Vec<CrawlResult>>) -> (r: Vec<CrawlResult>)
    ensures
        r@ == with_title(flattened(batches@)),
{
    let ghost all = batches@;
    let mut r: Vec<CrawlResult> = Vec::new();
    for results in it: batches
        invariant
            it.seq() == all,
            r@ == with_title(flattened(all.take(it.index() as int))),
    {
        let ghost n = it.index() as int;
        let ghost before = r@;
        let ghost these = results@;
        proof {
            let more = all.take(n + 1);
            assert(more.drop_last() =~= all.take(n));
            assert(more.last() == results);
            lemma_with_title_concat(flattened(all.take(n)), these);
            assert(these.take(0) =~= Seq::<CrawlResult>::empty());
            assert(before + with_title(these.take(0)) =~= before);
        }
        for result in inner: results
            invariant
                inner.seq() == these,
                r@ == before + with_title(these.take(inner.index() as int)),
        {
            let ghost k = inner.index() as int;
            let ghost had = r@;
            proof {
                let more = these.take(k + 1);
                assert(more.drop_last() =~= these.take(k));
                assert(more.last() == result);
            }
            if !starts_with(result.title.as_str(), "ERROR:") && !same_text(
                result.title.as_str(),
                "NO TITLE FOUND",
            ) {
                r.push(result);
            }
            assert(r@ =~= before + with_title(these.take(k + 1)));
        }
        assert(these.take(these.len() as int) =~= these);
    }
    assert(all.take(all.len() as int) =~= all);
    r
}

/// The addresses in a text: one a line, without white space around it; empty lines do not
/// count.
pub open spec fn listed(lines: Seq<Seq<char>>) -> Seq<Seq<char>>
    decreases lines.len(),
{
    if lines.len() == 0 {
        Seq::empty()
    } else {
        let before = listed(lines.drop_last());
        if trimmed(lines.last()).len() > 0 {
            before.push(trimmed(lines.last()))
        } else {
            before
        }
    }
}

/// Reads a list of addresses.
pub fn parse_url_list(content: &str) -> (r: Vec<String>)
    ensures
        texts(r@) == listed(split_parts(content@, '\n')),
{
    let lines = split(content, '\n');
    let ghost all = char_seqs(lines@);
    let mut r: Vec<String> = Vec::new();
    let mut i: usize = 0;
    while i < lines.len()
        invariant
            i <= lines@.len(),
            all == char_seqs(lines@),
            texts(r@) == listed(all.take(i as int)),
        decreases lines@.len() - i,
    {
        let ghost more = all.take(i + 1);
        let ghost had = r@;
        assert(more.drop_last() =~= all.take(i as int));
        assert(more.last() == lines@[i as int]@);
        let line = trim(&lines[i]);
        if line.len() > 0 {
            r.push(string_of(&line));
            assert(texts(r@) =~= texts(had).push(line@));
        }
        i = i + 1;
    }
    assert(all.take(i as int) =~= all);
    r
}

/// The line that reports a result.
pub open spec fn result_line(result: CrawlResult) -> Seq<char> {
    result.url@ + "\t"@ + result.title@
}

/// The lines that report results, with line breaks between them.
pub open spec fn report_text(results: Seq<CrawlResult>) -> Seq<char>
    decreases results.len(),
{
    if results.len() == 0 {
        Seq::empty()
    } else if results.len() == 1 {
        result_line(results[0])
    } else {
        report_text(results.drop_last()) + "\n"@ + result_line(results.last())
    }
}

/// Reports results, one a line.
pub fn report(results: &Vec<CrawlResult>) -> (r: String)
    ensures
        r@ == report_text(results@),
{
    let mut r = copy_str("");
    proof {
        reveal_strlit("");
    }
    assert(r@ =~= report_text(results@.take(0)));
    let mut i: usize = 0;
    while i < results.len()
        invariant
            i <= results@.len(),
            r@ == report_text(results@.take(i as int)),
        decreases results@.len() - i,
    {
        let ghost more = results@.take(i + 1);
        assert(more.drop_last() =~= results@.take(i as int));
        assert(more.last() == results@[i as int]);
        if i > 0 {
            r.append("\n");
        }
        r.append(results[i].url.as_str());
        r.append("\t");
        r.append(results[i].title.as_str());
        proof {
            if i == 0 {
                assert(more[0] == results@[0]);
                assert(report_text(results@.take(0)) =~= Seq::<char>::empty());
            }
            assert(r@ =~= report_text(more));
        }
        i = i + 1;
    }
    assert(results@.take(i as int) =~= results@);
    r
}

/// The first `k` batches one after the other.
pub open spec fn joined_batches(urls: Seq<Seq<char>>, k: nat) -> Seq<Seq<char>>
    decreases k,
{
    if k == 0 {
        Seq::empty()
    } else {
        joined_batches(urls, (k - 1) as nat) + batch(urls, k - 1)
    }
}

proof fn lemma_joined_prefix(urls: Seq<Seq<char>>, k: nat)
    requires
        k <= batch_count(urls.len()),
    ensures
        joined_batches(urls, k) == urls.take(
            if k * BATCH_SIZE < urls.len() {
                k * BATCH_SIZE
            } else {
                urls.len() as int
            },
        ),
    decreases k,
{
    if k > 0 {
        lemma_joined_prefix(urls, (k - 1) as nat);
        assert((k - 1) * BATCH_SIZE < urls.len());
        assert(joined_batches(urls, k) =~= urls.take(
            if k * BATCH_SIZE < urls.len() {
                k * BATCH_SIZE
            } else {
                urls.len() as int
            },
        ));
    } else {
        assert(joined_batches(urls, 0) =~= urls.take(0));
    }
}

/// The batches hold all addresses, each once and in their order.
pub proof fn batches_make_up_the_list(urls: Seq<Seq<char>>)
    ensures
        joined_batches(urls, batch_count(urls.len())) == urls,
        forall|k: int|
            0 <= k < batch_count(urls.len()) ==> 0 < (#[trigger] batch(urls, k)).len()
                <= BATCH_SIZE,
{
    lemma_joined_prefix(urls, batch_count(urls.len()));
    assert(urls.take(urls.len() as int) =~= urls);
}

proof fn lemma_with_title_exact(results: Seq<CrawlResult>, r: CrawlResult)
    ensures
        with_title(results).contains(r) <==> (results.contains(r) && found(r.title@)),
    decreases results.len(),
{
    if results.len() > 0 {
        let rest = results.drop_last();
        let all = with_title(results);
        let before = with_title(rest);
        lemma_with_title_exact(rest, r);
        if rest.contains(r) {
            let k = choose|k: int| 0 <= k < rest.len() && rest[k] == r;
            assert(results[k] == r);
        }
        assert(results[results.len() - 1] == results.last());
        if results.contains(r) && r != results.last() {
            let k = choose|k: int| 0 <= k < results.len() && results[k] == r;
            assert(rest[k] == r);
        }
        if found(results.last().title@) {
            assert(all[all.len() - 1] == results.last());
            if before.contains(r) {
                let k = choose|k: int| 0 <= k < before.len() && before[k] == r;
                assert(all[k] == r);
            }
            if all.contains(r) && r != results.last() {
                let k = choose|k: int| 0 <= k < all.len() && all[k] == r;
                assert(before[k] == r);
            }
        }
    }
}

/// Just the results with a title stay.
pub proof fn only_titles_stay(results: Seq<CrawlResult>)
    ensures
        forall|r: CrawlResult| #[trigger]
            with_title(results).contains(r) <==> (results.contains(r) && found(r.title@)),
{
    assert forall|r: CrawlResult| #[trigger]
        with_title(results).contains(r) <==> (results.contains(r) && found(r.title@)) by {
        lemma_with_title_exact(results, r);
    }
}

proof fn lemma_listed_concat(a: Seq<Seq<char>>, b: Seq<Seq<char>>)
    ensures
        listed(a + b) == listed(a) + listed(b),
    decreases b.len(),
{
    if b.len() == 0 {
        assert(a + b =~= a);
        assert(listed(a) + listed(b) =~= listed(a));
    } else {
        assert((a + b).drop_last() =~= a + b.drop_last());
        assert((a + b).last() == b.last());
        lemma_listed_concat(a, b.drop_last());
        assert(listed(a + b) =~= listed(a) + listed(b));
    }
}

/// The lines of a text are listed in order, each by itself: what two texts with a line break
/// between them list is what the first lists, then what the second does.
pub proof fn lines_are_listed_in_order(a: Seq<char>, b: Seq<char>)
    ensures
        listed(split_parts(a + seq!['\n'] + b, '\n')) == listed(split_parts(a, '\n')) + listed(
            split_parts(b, '\n'),
        ),
{
    separators_part_the_text(a, '\n', b);
    lemma_listed_concat(split_parts(a, '\n'), split_parts(b, '\n'));
}

/// A line lists what stands between the white space around it, whatever that is; a line of white
/// space lists nothing.
pub proof fn line_lists_its_text(pre: Seq<char>, body: Seq<char>, post: Seq<char>)
    requires
        forall|i: int| 0 <= i < pre.len() ==> is_white(#[trigger] pre[i]) && pre[i] != '\n',
        forall|i: int| 0 <= i < post.len() ==> is_white(#[trigger] post[i]) && post[i] != '\n',
        forall|i: int| 0 <= i < body.len() ==> #[trigger] body[i] != '\n',
        body.len() > 0 ==> !is_white(body[0]) && !is_white(body.last()),
    ensures
        listed(split_parts(pre + body + post, '\n')) == if body.len() > 0 {
            seq![body]
        } else {
            Seq::<Seq<char>>::empty()
        },
{
    reveal_with_fuel(listed, 2);
    let line = pre + body + post;
    assert forall|i: int| 0 <= i < line.len() implies #[trigger] line[i] != '\n' by {
        if i < pre.len() {
            assert(line[i] == pre[i]);
        } else if i < pre.len() + body.len() {
            assert(line[i] == body[i - pre.len()]);
        } else {
            assert(line[i] == post[i - pre.len() - body.len()]);
        }
    }
    text_without_separators_is_one_part(line, '\n');
    trimming_leaves_the_body(pre, body, post);
    let one = seq![line];
    assert(one.drop_last() =~= Seq::<Seq<char>>::empty());
    assert(listed(one) =~= if body.len() > 0 {
        seq![body]
    } else {
        Seq::<Seq<char>>::empty()
    });
}

/// A result stays just where its title neither begins with `ERROR:` nor is `NO TITLE FOUND`.
/// Results stay in order and as often as they occur, and the batches come one after the other.
pub proof fn results_stay_in_order(
    a: Seq<CrawlResult>,
    b: Seq<CrawlResult>,
    r: CrawlResult,
    batches: Seq<Vec<CrawlResult>>,
    last: Vec<CrawlResult>,
)
    ensures
        with_title(a + b) == with_title(a) + with_title(b),
        flattened(Seq::<Vec<CrawlResult>>::empty()).len() == 0,
        flattened(batches.push(last)) == flattened(batches) + last@,
        with_title(seq![r]) == if (r.title@.len() >= 6 && r.title@[0] == 'E' && r.title@[1] == 'R'
            && r.title@[2] == 'R' && r.title@[3] == 'O' && r.title@[4] == 'R' && r.title@[5] == ':')
            || r.title@ == seq![
            'N',
            'O',
            ' ',
            'T',
            'I',
            'T',
            'L',
            'E',
            ' ',
            'F',
            'O',
            'U',
            'N',
            'D',
        ] {
            Seq::<CrawlResult>::empty()
        } else {
            seq![r]
        },
{
    reveal_with_fuel(with_title, 2);
    lemma_with_title_concat(a, b);
    assert(batches.push(last).drop_last() =~= batches);
    reveal_strlit("ERROR:");
    reveal_strlit("NO TITLE FOUND");
    let t = r.title@;
    let one = seq![r];
    assert(one.drop_last() =~= Seq::<CrawlResult>::empty());
    let bad = seq!['N', 'O', ' ', 'T', 'I', 'T', 'L', 'E', ' ', 'F', 'O', 'U', 'N', 'D'];
    assert("NO TITLE FOUND"@ =~= bad);
    if t.len() >= 6 {
        let head = t.subrange(0, 6);
        if t[0] == 'E' && t[1] == 'R' && t[2] == 'R' && t[3] == 'O' && t[4] == 'R' && t[5] == ':' {
            assert(head =~= "ERROR:"@);
        } else if head == "ERROR:"@ {
            assert(head[0] == t[0] && head[1] == t[1] && head[2] == t[2] && head[3] == t[3]
                && head[4] == t[4] && head[5] == t[5]);
        }
    }
    assert(with_title(one) =~= if found(t) {
        one
    } else {
        Seq::<CrawlResult>::empty()
    });
}

/// The batches are cut off from the front, five addresses each; only the last may hold fewer.
pub proof fn batches_hold_five(urls: Seq<Seq<char>>, k: int, j: int)
    requires
        0 <= k < batch_count(urls.len()),
    ensures
        5 * (batch_count(urls.len()) - 1) < urls.len() <= 5 * batch_count(urls.len()),
        k < batch_count(urls.len()) - 1 ==> batch(urls, k).len() == 5,
        k == batch_count(urls.len()) - 1 ==> batch(urls, k).len() == urls.len() - 5 * k,
        0 <= j < batch(urls, k).len() ==> batch(urls, k)[j] == urls[5 * k + j],
{
}

/// The report has a line for each result, in order: its address, a tab and its title, with a line
/// break between two results and none at the end.
pub proof fn report_has_a_line_for_each(results: Seq<CrawlResult>, r: CrawlResult)
    ensures
        report_text(Seq::<CrawlResult>::empty()).len() == 0,
        report_text(seq![r]) == r.url@ + seq!['\t'] + r.title@,
        results.len() > 0 ==> report_text(results.push(r)) == report_text(results) + seq!['\n']
            + report_text(seq![r]),
{
    reveal_strlit("\t");
    reveal_strlit("\n");
    assert(seq![r][0] == r);
    assert("\t"@ =~= seq!['\t']);
    assert("\n"@ =~= seq!['\n']);
    assert(results.push(r).drop_last() =~= results);
}

} // verus!
