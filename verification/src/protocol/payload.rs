//! Task and result payloads: a JSON header followed by raw bytes.
//!
//! The headers travel as JSON text. Writing and parsing that text is the caller's: the encoders
//! take the text, and the decoders take the function that parses it.
use vstd::prelude::*;
use crate::protocol::bytes::{copy_range, lemma_section_cut, lemma_section_inside, push_bytes, push_section, read_section, section, section_at};
use crate::text::copy_str;

verus! {

/// Names a task and says what to run. `M` is the type of the metadata that goes along.
#[derive(Debug, Clone)]
pub struct TaskHeader<M> {
    pub job_id: String,
    pub task_id: String,
    pub chunk_index: u32,
    pub map_function: String,
    pub meta: M,
}

/// Says which task a result answers, and from whom it comes. An `error` marks the task failed.
#[derive(Debug, Clone)]
pub struct ResultHeader<M> {
    pub task_id: String,
    pub chunk_index: u32,
    pub worker_id: String,
    pub error: Option<String>,
    pub meta: M,
}

/// A decoded task payload.
pub struct TaskPayload<H> {
    pub header: H,
    pub wasm: Vec<u8>,
    pub glue: Vec<u8>,
    pub input: Vec<u8>,
}

/// The bytes of a task payload.
pub open spec fn task_payload_bytes(
    header: Seq<u8>,
    wasm: Seq<u8>,
    glue: Seq<u8>,
    input: Seq<u8>,
) -> Seq<u8> {
    section(header) + section(wasm) + section(glue) + section(input)
}

/// The bytes of a result payload.
pub open spec fn result_payload_bytes(header: Seq<u8>, body: Seq<u8>) -> Seq<u8> {
    section(header) + body
}

/// The three sections that follow the header of a task payload: wasm, glue and input.
pub open spec fn sections_after_header(buf: Seq<u8>, pos: int) -> Result<
    (Seq<u8>, Seq<u8>, Seq<u8>),
    Seq<char>,
> {
    match section_at(buf, pos) {
        Err(text) => Err(text),
        Ok((wasm, pos)) => match section_at(buf, pos) {
            Err(text) => Err(text),
            Ok((glue, pos)) => match section_at(buf, pos) {
                Err(text) => Err(text),
                Ok((input, _)) => Ok((wasm, glue, input)),
            },
        },
    }
}

/// Task payload: `[u32 header_len][header json][u32 wasm_len][wasm][u32 glue_len][glue][u32 input_len][input]`
pub fn encode_task_payload(header_json: &[u8], wasm: &[u8], glue: &[u8], input: &[u8]) -> (out: Vec<
    u8,
>)
    ensures
        out@ == task_payload_bytes(header_json@, wasm@, glue@, input@),
{
    let mut out: Vec<u8> = Vec::new();
    push_section(&mut out, header_json);
    push_section(&mut out, wasm);
    push_section(&mut out, glue);
    push_section(&mut out, input);
    out
}

/// Result payload: `[u32 header_len][header json][body bytes]`
pub fn encode_result_payload(header_json: &[u8], body: &[u8]) -> (out: Vec<u8>)
    ensures
        out@ == result_payload_bytes(header_json@, body@),
{
    let mut out: Vec<u8> = Vec::new();
    push_section(&mut out, header_json);
    push_bytes(&mut out, body);
    out
}

/// What decoding a task payload may give when its header parses to `parsed`.
pub open spec fn task_payload_given<H>(
    buf: Seq<u8>,
    pos: int,
    parsed: Result<H, String>,
    r: Result<TaskPayload<H>, String>,
) -> bool {
    match parsed {
        Err(why) => r matches Err(e) && e@ == "bad task header: "@ + why@,
        Ok(header) => match sections_after_header(buf, pos) {
            Err(text) => r matches Err(e) && e@ == text,
            Ok((wasm, glue, input)) => r matches Ok(p) && p.header == header && p.wasm@ == wasm
                && p.glue@ == glue && p.input@ == input,
        },
    }
}

/// Decoding the task payload `buf` may give `r`.
pub open spec fn task_payload_decoded<H, P: Fn(&[u8]) -> Result<H, String>>(
    buf: Seq<u8>,
    parse: P,
    r: Result<TaskPayload<H>, String>,
) -> bool {
    match section_at(buf, 0) {
        Err(text) => r matches Err(e) && e@ == text,
        Ok((header, pos)) => exists|b: &[u8], parsed: Result<H, String>|
            b@ == header && #[trigger] call_ensures(parse, (b,), parsed) && task_payload_given(
                buf,
                pos,
                parsed,
                r,
            ),
    }
}

/// Decodes a task payload. `parse` turns the bytes of its header into the header; it runs
/// before the sections behind the header are looked at.
pub fn decode_task_payload<H, P: Fn(&[u8]) -> Result<H, String>>(buf: &[u8], parse: P) -> (r: Result<
    TaskPayload<H>,
    String,
>)
    requires
        forall|b: &[u8]| call_requires(parse, (b,)),
    ensures
        task_payload_decoded(buf@, parse, r),
{
    let mut pos: usize = 0;
    let header_bytes = match read_section(buf, &mut pos) {
        Ok(v) => v,
        Err(e) => return Err(e),
    };
    let ghost after = pos as int;
    let b: &[u8] = header_bytes.as_slice();
    let parsed = parse(b);
    let ghost verdict = parsed;
    let header = match parsed {
        Ok(h) => h,
        Err(why) => {
            let mut text = copy_str("bad task header: ");
            text.append(why.as_str());
            let r: Result<TaskPayload<H>, String> = Err(text);
            assert(task_payload_given(buf@, after, verdict, r));
            return r;
        },
    };
    let wasm = match read_section(buf, &mut pos) {
        Ok(v) => v,
        Err(e) => {
            let r: Result<TaskPayload<H>, String> = Err(e);
            assert(task_payload_given(buf@, after, verdict, r));
            return r;
        },
    };
    let glue = match read_section(buf, &mut pos) {
        Ok(v) => v,
        Err(e) => {
            let r: Result<TaskPayload<H>, String> = Err(e);
            assert(task_payload_given(buf@, after, verdict, r));
            return r;
        },
    };
    let input = match read_section(buf, &mut pos) {
        Ok(v) => v,
        Err(e) => {
            let r: Result<TaskPayload<H>, String> = Err(e);
            assert(task_payload_given(buf@, after, verdict, r));
            return r;
        },
    };
    let r: Result<TaskPayload<H>, String> = Ok(TaskPayload { header, wasm, glue, input });
    assert(task_payload_given(buf@, after, verdict, r));
    r
}

/// What decoding a result payload may give when its header parses to `parsed`.
pub open spec fn result_payload_given<H>(
    buf: Seq<u8>,
    pos: int,
    parsed: Result<H, String>,
    r: Result<(H, Vec<u8>), String>,
) -> bool {
    match parsed {
        Err(why) => r matches Err(e) && e@ == "bad result header: "@ + why@,
        Ok(header) => r matches Ok((h, body)) && h == header && body@ == buf.subrange(
            pos,
            buf.len() as int,
        ),
    }
}

/// Decoding the result payload `buf` may give `r`.
pub open spec fn result_payload_decoded<H, P: Fn(&[u8]) -> Result<H, String>>(
    buf: Seq<u8>,
    parse: P,
    r: Result<(H, Vec<u8>), String>,
) -> bool {
    match section_at(buf, 0) {
        Err(text) => r matches Err(e) && e@ == text,
        Ok((header, pos)) => exists|b: &[u8], parsed: Result<H, String>|
            b@ == header && #[trigger] call_ensures(parse, (b,), parsed) && result_payload_given(
                buf,
                pos,
                parsed,
                r,
            ),
    }
}

/// Decodes a result payload. `parse` turns the bytes of its header into the header.
pub fn decode_result_payload<H, P: Fn(&[u8]) -> Result<H, String>>(buf: &[u8], parse: P) -> (r:
    Result<(H, Vec<u8>), String>)
    requires
        forall|b: &[u8]| call_requires(parse, (b,)),
    ensures
        result_payload_decoded(buf@, parse, r),
{
    let mut pos: usize = 0;
    let header_bytes = match read_section(buf, &mut pos) {
        Ok(v) => v,
        Err(e) => return Err(e),
    };
    let b: &[u8] = header_bytes.as_slice();
    let parsed = parse(b);
    let ghost verdict = parsed;
    match parsed {
        Ok(header) => {
            let r: Result<(H, Vec<u8>), String> = Ok((header, copy_range(buf, pos, buf.len())));
            assert(result_payload_given(buf@, pos as int, verdict, r));
            r
        },
        Err(why) => {
            let mut text = copy_str("bad result header: ");
            text.append(why.as_str());
            let r: Result<(H, Vec<u8>), String> = Err(text);
            assert(result_payload_given(buf@, pos as int, verdict, r));
            r
        },
    }
}

/// The sections of a task payload are read back as they were written, whatever follows them.
pub proof fn task_sections_read_back(
    header: Seq<u8>,
    wasm: Seq<u8>,
    glue: Seq<u8>,
    input: Seq<u8>,
    rest: Seq<u8>,
)
    requires
        header.len() < 0x1_0000_0000,
        wasm.len() < 0x1_0000_0000,
        glue.len() < 0x1_0000_0000,
        input.len() < 0x1_0000_0000,
    ensures
        section_at(task_payload_bytes(header, wasm, glue, input) + rest, 0) matches Ok((h, pos)) && h
            == header && sections_after_header(
            task_payload_bytes(header, wasm, glue, input) + rest,
            pos,
        ) == Ok::<(Seq<u8>, Seq<u8>, Seq<u8>), Seq<char>>((wasm, glue, input)),
{
    let buf = task_payload_bytes(header, wasm, glue, input) + rest;
    let (h, w, g, i) = (section(header), section(wasm), section(glue), section(input));
    lemma_concat(h, w, g, i, rest);
    lemma_section_inside(Seq::<u8>::empty(), header, w + g + i + rest);
    lemma_section_inside(h, wasm, g + i + rest);
    lemma_section_inside(h + w, glue, i + rest);
    lemma_section_inside(h + w + g, input, rest);
}

proof fn lemma_concat(a: Seq<u8>, b: Seq<u8>, c: Seq<u8>, d: Seq<u8>, e: Seq<u8>)
    ensures
        a + b + c + d + e == Seq::<u8>::empty() + a + (b + c + d + e),
        a + b + c + d + e == a + b + (c + d + e),
        a + b + c + d + e == (a + b) + c + (d + e),
{
    assert(a + b + c + d + e =~= Seq::<u8>::empty() + a + (b + c + d + e));
    assert(a + b + c + d + e =~= a + b + (c + d + e));
    assert(a + b + c + d + e =~= (a + b) + c + (d + e));
}

/// The header and the body of a result payload are read back as they were written.
pub proof fn result_sections_read_back(header: Seq<u8>, body: Seq<u8>)
    requires
        header.len() < 0x1_0000_0000,
    ensures
        section_at(result_payload_bytes(header, body), 0) matches Ok((h, pos)) && h == header
            && result_payload_bytes(header, body).subrange(
            pos,
            result_payload_bytes(header, body).len() as int,
        ) == body,
{
    let buf = result_payload_bytes(header, body);
    let a = 4 + header.len() as int;
    assert(buf =~= Seq::<u8>::empty() + section(header) + body);
    lemma_section_inside(Seq::<u8>::empty(), header, body);
    assert(buf.subrange(a, buf.len() as int) =~= body);
}

/// `parse` makes `header` of these bytes, and nothing else.
pub open spec fn parses_to<H, P: Fn(&[u8]) -> Result<H, String>>(
    parse: P,
    json: Seq<u8>,
    header: H,
) -> bool {
    forall|b: &[u8], parsed: Result<H, String>|
        b@ == json && #[trigger] call_ensures(parse, (b,), parsed) ==> parsed == Ok::<H, String>(
            header,
        )
}

/// Decoding an encoded task gives the task back, whatever bytes follow it, as long as its
/// header's text is parsed to the header.
pub proof fn task_round_trip<H, P: Fn(&[u8]) -> Result<H, String>>(
    json: Seq<u8>,
    wasm: Seq<u8>,
    glue: Seq<u8>,
    input: Seq<u8>,
    rest: Seq<u8>,
    parse: P,
    header: H,
    r: Result<TaskPayload<H>, String>,
)
    requires
        json.len() < 0x1_0000_0000,
        wasm.len() < 0x1_0000_0000,
        glue.len() < 0x1_0000_0000,
        input.len() < 0x1_0000_0000,
        parses_to(parse, json, header),
        task_payload_decoded(task_payload_bytes(json, wasm, glue, input) + rest, parse, r),
    ensures
        r matches Ok(p) && p.header == header && p.wasm@ == wasm && p.glue@ == glue && p.input@
            == input,
{
    task_sections_read_back(json, wasm, glue, input, rest);
}

/// A task payload that is cut short anywhere is refused, whatever becomes of its header.
pub proof fn cut_task_is_refused<H, P: Fn(&[u8]) -> Result<H, String>>(
    json: Seq<u8>,
    wasm: Seq<u8>,
    glue: Seq<u8>,
    input: Seq<u8>,
    k: int,
    parse: P,
    r: Result<TaskPayload<H>, String>,
)
    requires
        json.len() < 0x1_0000_0000,
        wasm.len() < 0x1_0000_0000,
        glue.len() < 0x1_0000_0000,
        input.len() < 0x1_0000_0000,
        0 <= k < task_payload_bytes(json, wasm, glue, input).len(),
        task_payload_decoded(task_payload_bytes(json, wasm, glue, input).take(k), parse, r),
    ensures
        r is Err,
{
    let buf = task_payload_bytes(json, wasm, glue, input);
    let none = Seq::<u8>::empty();
    assert(buf + none =~= buf);
    let (h, w, g, i) = (section(json), section(wasm), section(glue), section(input));
    lemma_concat(h, w, g, i, none);
    lemma_section_inside(none, json, w + g + i + none);
    lemma_section_inside(h, wasm, g + i + none);
    lemma_section_inside(h + w, glue, i + none);
    lemma_section_inside(h + w + g, input, none);
    lemma_section_cut(buf, 0, k);
    lemma_section_cut(buf, h.len() as int, k);
    lemma_section_cut(buf, (h + w).len() as int, k);
    lemma_section_cut(buf, (h + w + g).len() as int, k);
}

/// Decoding an encoded result gives the result back, as long as its header's text is parsed to
/// the header.
pub proof fn result_round_trip<H, P: Fn(&[u8]) -> Result<H, String>>(
    json: Seq<u8>,
    body: Seq<u8>,
    parse: P,
    header: H,
    r: Result<(H, Vec<u8>), String>,
)
    requires
        json.len() < 0x1_0000_0000,
        parses_to(parse, json, header),
        result_payload_decoded(result_payload_bytes(json, body), parse, r),
    ensures
        r matches Ok((h, b)) && h == header && b@ == body,
{
    result_sections_read_back(json, body);
}

/// A result payload that is cut short in its header is refused. Cut short in its body, it decodes
/// to the body that is left.
pub proof fn cut_result_keeps_what_is_left<H, P: Fn(&[u8]) -> Result<H, String>>(
    json: Seq<u8>,
    body: Seq<u8>,
    k: int,
    parse: P,
    header: H,
    r: Result<(H, Vec<u8>), String>,
)
    requires
        json.len() < 0x1_0000_0000,
        parses_to(parse, json, header),
        0 <= k <= result_payload_bytes(json, body).len(),
        result_payload_decoded(result_payload_bytes(json, body).take(k), parse, r),
    ensures
        if k < 4 + json.len() {
            r is Err
        } else {
            r matches Ok((h, b)) && h == header && b@ == body.take(k - 4 - json.len())
        },
{
    let buf = result_payload_bytes(json, body);
    let n = 4 + json.len() as int;
    if k < n {
        assert(buf =~= Seq::<u8>::empty() + section(json) + body);
        lemma_section_inside(Seq::<u8>::empty(), json, body);
        lemma_section_cut(buf, 0, k);
    } else {
        assert(buf.take(k) =~= result_payload_bytes(json, body.take(k - n)));
        result_round_trip(json, body.take(k - n), parse, header, r);
    }
}

} // verus!
