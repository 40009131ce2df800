//! Numbers on the wire: 32-bit words as raw little-endian bytes.
use vstd::prelude::*;
use crate::protocol::bytes::{le32, lemma_le_read_back, lowest_byte_comes_first, push_u32, u32_at};

verus! {

/// The bytes of the words one after the other, the lowest byte of each first.
pub open spec fn word_bytes(words: Seq<u32>) -> Seq<u8>
    decreases words.len(),
{
    if words.len() == 0 {
        Seq::empty()
    } else {
        word_bytes(words.drop_last()) + le32(words.last())
    }
}

/// The bytes of the words.
pub fn words_to_le_bytes(words: &[u32]) -> (r: Vec<u8>)
    ensures
        r@ == word_bytes(words@),
{
    let mut r: Vec<u8> = Vec::new();
    let mut i: usize = 0;
    while i < words.len()
        invariant
            i <= words@.len(),
            r@ == word_bytes(words@.take(i as int)),
        decreases words@.len() - i,
    {
        let ghost more = words@.take(i + 1);
        assert(more.drop_last() =~= words@.take(i as int));
        assert(more.last() == words@[i as int]);
        push_u32(&mut r, words[i]);
        i = i + 1;
    }
    assert(words@.take(i as int) =~= words@);
    r
}

/// The words whose bytes these are. One to three bytes at the end that make no word are
/// dropped.
pub open spec fn words_of(bytes: Seq<u8>) -> Seq<u32> {
    Seq::new(bytes.len() / 4, |i: int| u32_at(bytes, 4 * i) as u32)
}

/// The words whose bytes these are.
pub fn le_bytes_to_words(bytes: &[u8]) -> (r: Vec<u32>)
    ensures
        r@ == words_of(bytes@),
{
    let mut r: Vec<u32> = Vec::new();
    let end: usize = bytes.len();
    let n: usize = end / 4;
    let mut i: usize = 0;
    while i < n
        invariant
            end == bytes@.len(),
            n == end / 4,
            i <= n,
            r@ == words_of(bytes@).take(i as int),
        decreases n - i,
    {
        let at: usize = 4 * i;
        let word: u32 = bytes[at] as u32 + 256 * bytes[at + 1] as u32 + 65536 * bytes[at + 2] as u32
            + 16777216 * bytes[at + 3] as u32;
        r.push(word);
        i = i + 1;
        assert(r@ =~= words_of(bytes@).take(i as int));
    }
    assert(words_of(bytes@).take(n as int) =~= words_of(bytes@));
    r
}

/// The same words come back, in order.
pub proof fn words_read_back(words: Seq<u32>)
    ensures
        word_bytes(words).len() == 4 * words.len(),
        words_of(word_bytes(words)) == words,
    decreases words.len(),
{
    let bytes = word_bytes(words);
    if words.len() > 0 {
        let rest = words.drop_last();
        let n = rest.len() as int;
        words_read_back(rest);
        let head = word_bytes(rest);
        assert(bytes.subrange(4 * n, 4 * n + 4) =~= le32(words.last()));
        lemma_le_read_back(bytes, 4 * n, 0, words.last());
        assert forall|i: int| 0 <= i < n implies #[trigger] words_of(bytes)[i] == words[i] by {
            assert(words_of(head)[i] == rest[i]);
            assert(bytes[4 * i] == head[4 * i]);
            assert(bytes[4 * i + 1] == head[4 * i + 1]);
            assert(bytes[4 * i + 2] == head[4 * i + 2]);
            assert(bytes[4 * i + 3] == head[4 * i + 3]);
        }
    }
    assert(words_of(bytes) =~= words);
}

/// Words travel one after the other, four bytes each, the lowest byte first. Up to three bytes
/// behind the last word are not read.
pub proof fn words_travel_lowest_byte_first(words: Seq<u32>, w: u32, rest: Seq<u8>)
    requires
        rest.len() < 4,
    ensures
        word_bytes(Seq::<u32>::empty()).len() == 0,
        word_bytes(words.push(w)).len() == word_bytes(words).len() + 4,
        word_bytes(words.push(w)).take(word_bytes(words).len() as int) == word_bytes(words),
        ({
            let b = word_bytes(words.push(w)).skip(word_bytes(words).len() as int);
            b[0] + 256 * (b[1] + 256 * (b[2] + 256 * b[3])) == w
        }),
        words_of(word_bytes(words) + rest) == words,
{
    let all = word_bytes(words.push(w));
    let head = word_bytes(words);
    assert(words.push(w).drop_last() =~= words);
    assert(all.take(head.len() as int) =~= head);
    assert(all.skip(head.len() as int) =~= le32(w));
    lowest_byte_comes_first(0, w);
    words_read_back(words);
    let bytes = head + rest;
    assert forall|i: int| 0 <= i < words.len() implies #[trigger] words_of(bytes)[i] == words[i] by {
        assert(words_of(head)[i] == words[i]);
        assert(bytes[4 * i] == head[4 * i]);
        assert(bytes[4 * i + 1] == head[4 * i + 1]);
        assert(bytes[4 * i + 2] == head[4 * i + 2]);
        assert(bytes[4 * i + 3] == head[4 * i + 3]);
    }
    assert(words_of(bytes) =~= words);
}

} // verus!
