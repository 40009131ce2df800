//! Little-endian integers and length-prefixed sections inside byte buffers.
use vstd::prelude::*;
use crate::text::copy_str;

verus! {

/// The two bytes of `v`, lowest first.
pub open spec fn le16(v: u16) -> Seq<u8> {
    seq![(v % 256) as u8, (v / 256) as u8]
}

/// The four bytes of `v`, lowest first.
pub open spec fn le32(v: u32) -> Seq<u8> {
    seq![
        (v % 256) as u8,
        ((v / 256) % 256) as u8,
        ((v / 65536) % 256) as u8,
        (v / 16777216) as u8,
    ]
}

/// The 16-bit number whose bytes, lowest first, start at `pos`.
pub open spec fn u16_at(buf: Seq<u8>, pos: int) -> nat {
    (buf[pos] + 256 * buf[pos + 1]) as nat
}

/// The 32-bit number whose bytes, lowest first, start at `pos`.
pub open spec fn u32_at(buf: Seq<u8>, pos: int) -> nat {
    (buf[pos] + 256 * buf[pos + 1] + 65536 * buf[pos + 2] + 16777216 * buf[pos + 3]) as nat
}

/// Reading a number back from where its bytes were written gives the number.
pub proof fn lemma_le_read_back(buf: Seq<u8>, pos: int, a: u16, b: u32)
    requires
        0 <= pos,
    ensures
        pos + 2 <= buf.len() && buf.subrange(pos, pos + 2) == le16(a) ==> u16_at(buf, pos) == a,
        pos + 4 <= buf.len() && buf.subrange(pos, pos + 4) == le32(b) ==> u32_at(buf, pos) == b,
{
    if pos + 2 <= buf.len() && buf.subrange(pos, pos + 2) == le16(a) {
        let s = buf.subrange(pos, pos + 2);
        assert(s[0] == buf[pos] && s[1] == buf[pos + 1]);
    }
    if pos + 4 <= buf.len() && buf.subrange(pos, pos + 4) == le32(b) {
        let s = buf.subrange(pos, pos + 4);
        assert(s[0] == buf[pos] && s[1] == buf[pos + 1] && s[2] == buf[pos + 2] && s[3] == buf[pos
            + 3]);
    }
}

/// Appends the two bytes of `v` to `out`.
pub fn push_u16(out: &mut Vec<u8>, v: u16)
    ensures
        final(out)@ == old(out)@ + le16(v),
{
    out.push((v % 256) as u8);
    out.push((v / 256) as u8);
}

/// Appends the four bytes of `v` to `out`.
pub fn push_u32(out: &mut Vec<u8>, v: u32)
    ensures
        final(out)@ == old(out)@ + le32(v),
{
    out.push((v % 256) as u8);
    out.push(((v / 256) % 256) as u8);
    out.push(((v / 65536) % 256) as u8);
    out.push((v / 16777216) as u8);
}

/// Appends the bytes of `s` to `out`.
pub fn push_bytes(out: &mut Vec<u8>, s: &[u8])
    ensures
        final(out)@ == old(out)@ + s@,
{
    out.extend_from_slice(s);
}

/// A copy of `buf[from..to]`.
pub fn copy_range(buf: &[u8], from: usize, to: usize) -> (r: Vec<u8>)
    requires
        from <= to <= buf@.len(),
    ensures
        r@ == buf@.subrange(from as int, to as int),
{
    let mut r: Vec<u8> = Vec::new();
    r.extend_from_slice(&buf[from..to]);
    r
}

/// Reads a 16-bit number at `*pos` and moves `*pos` behind it.
pub fn read_u16(buf: &[u8], pos: &mut usize) -> (r: Result<u16, String>)
    ensures
        match r {
            Ok(v) => {
                &&& *old(pos) + 2 <= buf@.len()
                &&& v == u16_at(buf@, *old(pos) as int)
                &&& *final(pos) == *old(pos) + 2
            },
            Err(e) => {
                &&& *old(pos) + 2 > buf@.len()
                &&& e@ == "truncated u16"@
                &&& *final(pos) == *old(pos)
            },
        },
{
    let p: usize = *pos;
    if p > buf.len() || buf.len() - p < 2 {
        return Err(copy_str("truncated u16"));
    }
    let v: u16 = buf[p] as u16 + 256 * (buf[p + 1] as u16);
    *pos = p + 2;
    Ok(v)
}

/// Reads a 32-bit number at `*pos` and moves `*pos` behind it.
pub fn read_u32(buf: &[u8], pos: &mut usize) -> (r: Result<u32, String>)
    ensures
        match r {
            Ok(v) => {
                &&& *old(pos) + 4 <= buf@.len()
                &&& v == u32_at(buf@, *old(pos) as int)
                &&& *final(pos) == *old(pos) + 4
            },
            Err(e) => {
                &&& *old(pos) + 4 > buf@.len()
                &&& e@ == "truncated u32"@
                &&& *final(pos) == *old(pos)
            },
        },
{
    let p: usize = *pos;
    if p > buf.len() || buf.len() - p < 4 {
        return Err(copy_str("truncated u32"));
    }
    let v: u32 = buf[p] as u32 + 256 * (buf[p + 1] as u32) + 65536 * (buf[p + 2] as u32) + 16777216
        * (buf[p + 3] as u32);
    *pos = p + 4;
    Ok(v)
}

/// A length-prefixed section: the 32-bit length of `body`, then `body`. A longer body than
/// that field can count is announced by the low 32 bits of its length.
pub open spec fn section(body: Seq<u8>) -> Seq<u8> {
    le32((body.len() % 0x1_0000_0000) as u32) + body
}

/// What reading the section at `pos` gives: its body and the position behind it.
pub open spec fn section_at(buf: Seq<u8>, pos: int) -> Result<(Seq<u8>, int), Seq<char>> {
    if pos + 4 > buf.len() {
        Err("truncated u32"@)
    } else if pos + 4 + u32_at(buf, pos) > buf.len() {
        Err("truncated section"@)
    } else {
        let end = pos + 4 + u32_at(buf, pos);
        Ok((buf.subrange(pos + 4, end), end))
    }
}

/// Appends a section to `out`.
pub fn push_section(out: &mut Vec<u8>, body: &[u8])
    ensures
        final(out)@ == old(out)@ + section(body@),
{
    push_u32(out, (body.len() as u64 % 0x1_0000_0000) as u32);
    push_bytes(out, body);
}

/// Reads the section at `*pos` and moves `*pos` behind it. A section whose length field is
/// whole but whose body is cut short leaves `*pos` behind the length field.
pub fn read_section(buf: &[u8], pos: &mut usize) -> (r: Result<Vec<u8>, String>)
    ensures
        match (r, section_at(buf@, *old(pos) as int)) {
            (Ok(v), Ok((body, end))) => v@ == body && *final(pos) == end,
            (Err(e), Err(text)) => {
                &&& e@ == text
                &&& *final(pos) == if *old(pos) + 4 > buf@.len() {
                    *old(pos) as int
                } else {
                    *old(pos) + 4
                }
            },
            _ => false,
        },
{
    let len: usize = match read_u32(buf, pos) {
        Ok(v) => v as usize,
        Err(e) => return Err(e),
    };
    let p: usize = *pos;
    if len > buf.len() - p {
        return Err(copy_str("truncated section"));
    }
    let out = copy_range(buf, p, p + len);
    *pos = p + len;
    Ok(out)
}

/// A section is read back whole from where it was written, whatever stands around it.
pub proof fn lemma_section_inside(before: Seq<u8>, body: Seq<u8>, rest: Seq<u8>)
    requires
        body.len() < 0x1_0000_0000,
    ensures
        section_at(before + section(body) + rest, before.len() as int) == Ok::<
            (Seq<u8>, int),
            Seq<char>,
        >((body, (before.len() + section(body).len()) as int)),
{
    let buf = before + section(body) + rest;
    let pos = before.len() as int;
    let n = body.len() as u32;
    assert(buf.subrange(pos, pos + 4) =~= le32(n));
    lemma_le_read_back(buf, pos, 0, n);
    assert(buf.subrange(pos + 4, pos + 4 + body.len()) =~= body);
}

/// A section that is cut short is refused; one that is whole does not care for what is cut off
/// behind it.
pub proof fn lemma_section_cut(buf: Seq<u8>, pos: int, k: int)
    requires
        0 <= pos,
        0 <= k <= buf.len(),
        section_at(buf, pos) is Ok,
    ensures
        section_at(buf, pos) matches Ok((body, end)) && if k < end {
            section_at(buf.take(k), pos) is Err
        } else {
            section_at(buf.take(k), pos) == section_at(buf, pos)
        },
{
    let cut = buf.take(k);
    let end = pos + 4 + u32_at(buf, pos);
    if pos + 4 <= k {
        assert(u32_at(cut, pos) == u32_at(buf, pos));
    }
    if end <= k {
        assert(cut.subrange(pos + 4, end) =~= buf.subrange(pos + 4, end));
    }
}

/// The bytes of a number have its value, the lowest byte counting once and each further one 256
/// times as much as the one before it.
pub proof fn lowest_byte_comes_first(a: u16, b: u32)
    ensures
        le16(a).len() == 2,
        le16(a)[0] + 256 * le16(a)[1] == a,
        le32(b).len() == 4,
        le32(b)[0] + 256 * (le32(b)[1] + 256 * (le32(b)[2] + 256 * le32(b)[3])) == b,
{
}

/// A section announces the length of its body in four bytes, lowest first, and then holds the body.
pub proof fn sections_announce_their_length(body: Seq<u8>)
    requires
        body.len() < 0x1_0000_0000,
    ensures
        section(body).len() == 4 + body.len(),
        section(body)[0] + 256 * (section(body)[1] + 256 * (section(body)[2] + 256 * section(
            body,
        )[3])) == body.len(),
        section(body).skip(4) == body,
{
    lowest_byte_comes_first(0, body.len() as u32);
    assert(section(body).skip(4) =~= body);
}

/// A section is read just where its four bytes of length and as many bytes as they announce are
/// there; else it is said which of the two is cut off.
pub proof fn sections_are_read_where_they_are_whole(buf: Seq<u8>, pos: int)
    requires
        0 <= pos,
    ensures
        pos + 4 > buf.len() ==> section_at(buf, pos) == Err::<(Seq<u8>, int), Seq<char>>(
            "truncated u32"@,
        ),
        pos + 4 <= buf.len() ==> {
            let n = buf[pos] + 256 * (buf[pos + 1] + 256 * (buf[pos + 2] + 256 * buf[pos + 3]));
            if pos + 4 + n <= buf.len() {
                section_at(buf, pos) == Ok::<(Seq<u8>, int), Seq<char>>(
                    (buf.subrange(pos + 4, pos + 4 + n), pos + 4 + n),
                )
            } else {
                section_at(buf, pos) == Err::<(Seq<u8>, int), Seq<char>>("truncated section"@)
            }
        },
{
}

} // verus!
