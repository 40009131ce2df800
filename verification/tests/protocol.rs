use wasmhive::channel::{take_message, ChannelEvent};
use wasmhive::protocol::bytes::{read_section, read_u16, read_u32};
use wasmhive::protocol::{
    decode_frame, decode_result_payload, decode_task_payload, encode_frame, encode_result_payload,
    encode_task_payload, split_into_frames, Frame, Reassembler, ResultHeader, TaskHeader,
    FRAME_RESULT, FRAME_TASK, MAX_FRAME_PAYLOAD,
};
use serde_json::Value;

fn object(members: Vec<(&str, Value)>) -> Value {
    let mut map = serde_json::Map::new();
    for (k, v) in members {
        map.insert(k.to_string(), v);
    }
    Value::Object(map)
}

fn task_header_json(h: &TaskHeader<Value>) -> Vec<u8> {
    let v = object(vec![
        ("job_id", Value::from(h.job_id.clone())),
        ("task_id", Value::from(h.task_id.clone())),
        ("chunk_index", Value::from(h.chunk_index)),
        ("map_function", Value::from(h.map_function.clone())),
        ("meta", h.meta.clone()),
    ]);
    serde_json::to_vec(&v).unwrap()
}

fn text(v: &Value, key: &str) -> Result<String, String> {
    match v.get(key).and_then(|x| x.as_str()) {
        Some(s) => Ok(s.to_string()),
        None => Err(format!("missing field `{}`", key)),
    }
}

fn parse_task_header(b: &[u8]) -> Result<TaskHeader<Value>, String> {
    let v: Value = serde_json::from_slice(b).map_err(|e| e.to_string())?;
    Ok(TaskHeader {
        job_id: text(&v, "job_id")?,
        task_id: text(&v, "task_id")?,
        chunk_index: v["chunk_index"].as_u64().unwrap() as u32,
        map_function: text(&v, "map_function")?,
        meta: v["meta"].clone(),
    })
}

fn result_header_json(h: &ResultHeader<Value>) -> Vec<u8> {
    let mut members = vec![
        ("task_id", Value::from(h.task_id.clone())),
        ("chunk_index", Value::from(h.chunk_index)),
        ("worker_id", Value::from(h.worker_id.clone())),
        ("meta", h.meta.clone()),
    ];
    if let Some(e) = &h.error {
        members.push(("error", Value::from(e.clone())));
    }
    serde_json::to_vec(&object(members)).unwrap()
}

fn parse_result_header(b: &[u8]) -> Result<ResultHeader<Value>, String> {
    let v: Value = serde_json::from_slice(b).map_err(|e| e.to_string())?;
    Ok(ResultHeader {
        task_id: text(&v, "task_id")?,
        chunk_index: v["chunk_index"].as_u64().unwrap() as u32,
        worker_id: text(&v, "worker_id")?,
        error: v.get("error").and_then(|x| x.as_str()).map(|s| s.to_string()),
        meta: v["meta"].clone(),
    })
}

#[test]
fn frame_roundtrip() {
    let f = Frame {
        ftype: FRAME_TASK,
        transfer_id: "task_1".into(),
        frame_seq: 2,
        total_frames: 5,
        payload: vec![1, 2, 3, 4],
    };
    let enc = encode_frame(&f);
    let dec = decode_frame(&enc).unwrap();
    assert_eq!(dec.ftype, FRAME_TASK);
    assert_eq!(dec.transfer_id, "task_1");
    assert_eq!(dec.frame_seq, 2);
    assert_eq!(dec.total_frames, 5);
    assert_eq!(dec.payload, vec![1, 2, 3, 4]);
}

#[test]
fn rejects_bad_magic() {
    let f = Frame {
        ftype: FRAME_RESULT,
        transfer_id: "x".into(),
        frame_seq: 0,
        total_frames: 1,
        payload: vec![],
    };
    let mut enc = encode_frame(&f);
    enc[0] = 0x00;
    assert!(decode_frame(&enc).is_err());
}

#[test]
fn split_and_reassemble_out_of_order() {
    let payload: Vec<u8> = (0..(MAX_FRAME_PAYLOAD * 2 + 100))
        .map(|i| (i % 251) as u8)
        .collect();
    let frames = split_into_frames(FRAME_RESULT, "t42", &payload);
    assert_eq!(frames.len(), 3);

    let mut re = Reassembler::new();
    // Deliver out of order: 2, 0, 1
    assert!(re.accept(decode_frame(&frames[2]).unwrap()).is_none());
    assert!(re.accept(decode_frame(&frames[0]).unwrap()).is_none());
    let (ftype, id, out) = re.accept(decode_frame(&frames[1]).unwrap()).unwrap();
    assert_eq!(ftype, FRAME_RESULT);
    assert_eq!(id, "t42");
    assert_eq!(out, payload);
}

#[test]
fn duplicate_frames_ignored() {
    let payload = vec![7u8; MAX_FRAME_PAYLOAD + 1];
    let frames = split_into_frames(FRAME_TASK, "dup", &payload);
    assert_eq!(frames.len(), 2);
    let mut re = Reassembler::new();
    assert!(re.accept(decode_frame(&frames[0]).unwrap()).is_none());
    assert!(re.accept(decode_frame(&frames[0]).unwrap()).is_none());
    let done = re.accept(decode_frame(&frames[1]).unwrap());
    assert!(done.is_some());
    assert_eq!(done.unwrap().2, payload);
}

#[test]
fn empty_payload_is_one_frame() {
    let frames = split_into_frames(FRAME_TASK, "empty", &[]);
    assert_eq!(frames.len(), 1);
    let mut re = Reassembler::new();
    let (_, _, out) = re.accept(decode_frame(&frames[0]).unwrap()).unwrap();
    assert!(out.is_empty());
}

#[test]
fn task_payload_roundtrip() {
    let header = TaskHeader {
        job_id: "job1".into(),
        task_id: "t1".into(),
        chunk_index: 3,
        map_function: "grayscale_frame_rgba".into(),
        meta: object(vec![("width", Value::from(2)), ("height", Value::from(2))]),
    };
    let enc = encode_task_payload(&task_header_json(&header), &[9, 9], &[], &[1, 2, 3]);
    let dec = decode_task_payload(&enc, parse_task_header).unwrap();
    assert_eq!(dec.header.task_id, "t1");
    assert_eq!(dec.header.chunk_index, 3);
    assert_eq!(dec.wasm, vec![9, 9]);
    assert!(dec.glue.is_empty());
    assert_eq!(dec.input, vec![1, 2, 3]);
    assert_eq!(dec.header.job_id, "job1");
    assert_eq!(dec.header.map_function, "grayscale_frame_rgba");
    assert_eq!(dec.header.meta, header.meta);
}

#[test]
fn result_payload_roundtrip() {
    let header = ResultHeader {
        task_id: "t9".into(),
        chunk_index: 0,
        worker_id: "w1".into(),
        error: Some("boom".into()),
        meta: Value::Null,
    };
    let enc = encode_result_payload(&result_header_json(&header), b"body");
    let (h, body) = decode_result_payload(&enc, parse_result_header).unwrap();
    assert_eq!(h.error.as_deref(), Some("boom"));
    assert_eq!(body, b"body");
}

#[test]
fn frame_bytes_are_laid_out_as_documented() {
    let f = Frame {
        ftype: FRAME_RESULT,
        transfer_id: "ab".into(),
        frame_seq: 0x01020304,
        total_frames: 0x05060708,
        payload: vec![9, 8],
    };
    assert_eq!(
        encode_frame(&f),
        vec![
            0xA5, 1, 2, 0, 2, 0, 0x61, 0x62, 4, 3, 2, 1, 8, 7, 6, 5, 2, 0, 0, 0, 9, 8
        ]
    );
}

#[test]
fn non_ascii_transfer_ids_survive() {
    let f = Frame {
        ftype: FRAME_TASK,
        transfer_id: "bébé🐝".into(),
        frame_seq: 0,
        total_frames: 1,
        payload: vec![1],
    };
    assert_eq!(decode_frame(&encode_frame(&f)).unwrap().transfer_id, "bébé🐝");
}

#[test]
fn every_bad_frame_has_its_report() {
    let f = Frame {
        ftype: FRAME_TASK,
        transfer_id: "id".into(),
        frame_seq: 0,
        total_frames: 1,
        payload: vec![1, 2, 3],
    };
    let good = encode_frame(&f);
    assert_eq!(decode_frame(&good[..3]).unwrap_err(), "frame too short");
    let mut bad = good.clone();
    bad[0] = 0x0F;
    assert_eq!(decode_frame(&bad).unwrap_err(), "bad magic byte 0x0f");
    let mut bad = good.clone();
    bad[1] = 7;
    assert_eq!(decode_frame(&bad).unwrap_err(), "unsupported protocol version 7");
    assert_eq!(decode_frame(&good[..5]).unwrap_err(), "truncated u16");
    assert_eq!(decode_frame(&good[..7]).unwrap_err(), "truncated transfer id");
    assert_eq!(decode_frame(&good[..10]).unwrap_err(), "truncated u32");
    assert_eq!(decode_frame(&good[..good.len() - 1]).unwrap_err(), "truncated payload");
    let mut bad = good.clone();
    bad[6] = 0xFF;
    assert_eq!(decode_frame(&bad).unwrap_err(), "transfer id is not utf8");
    // Bytes behind the frame do no harm.
    let mut long = good.clone();
    long.push(77);
    assert_eq!(decode_frame(&long).unwrap().payload, vec![1, 2, 3]);
}

#[test]
fn readers_report_what_is_cut_off() {
    let mut pos = 0;
    assert_eq!(read_u16(&[1], &mut pos).unwrap_err(), "truncated u16");
    assert_eq!(read_u16(&[1, 2], &mut pos).unwrap(), 513);
    assert_eq!(pos, 2);
    let mut pos = 0;
    assert_eq!(read_u32(&[1, 2, 3], &mut pos).unwrap_err(), "truncated u32");
    assert_eq!(read_u32(&[1, 2, 3, 4], &mut pos).unwrap(), 0x04030201);
    let mut pos = 0;
    assert_eq!(read_section(&[2, 0, 0, 0, 5], &mut pos).unwrap_err(), "truncated section");
    let mut pos = 0;
    assert_eq!(read_section(&[2, 0, 0, 0, 5, 6, 7], &mut pos).unwrap(), vec![5, 6]);
    assert_eq!(pos, 6);
}

#[test]
fn bad_headers_are_reported() {
    let enc = encode_task_payload(b"{", &[], &[], &[]);
    let why = parse_task_header(b"{").unwrap_err();
    match decode_task_payload(&enc, parse_task_header) {
        Err(e) => assert_eq!(e, format!("bad task header: {}", why)),
        Ok(_) => panic!("decoded"),
    }
    let enc = encode_result_payload(b"[]", &[1]);
    match decode_result_payload(&enc, parse_result_header) {
        Err(e) => assert_eq!(e, "bad result header: missing field `task_id`"),
        Ok(_) => panic!("decoded"),
    }
    match decode_result_payload(&[9, 0, 0, 0], parse_result_header) {
        Err(e) => assert_eq!(e, "truncated section"),
        Ok(_) => panic!("decoded"),
    }
}

#[test]
fn transfers_do_not_mix() {
    let a: Vec<u8> = vec![1; MAX_FRAME_PAYLOAD + 5];
    let b: Vec<u8> = vec![2; MAX_FRAME_PAYLOAD + 7];
    let fa = split_into_frames(FRAME_TASK, "a", &a);
    let fb = split_into_frames(FRAME_RESULT, "b", &b);
    let mut re = Reassembler::new();
    assert!(re.accept(decode_frame(&fa[0]).unwrap()).is_none());
    assert!(re.accept(decode_frame(&fb[1]).unwrap()).is_none());
    let (ta, ia, pa) = re.accept(decode_frame(&fa[1]).unwrap()).unwrap();
    assert_eq!((ta, ia, pa), (FRAME_TASK, "a".to_string(), a));
    let (tb, ib, pb) = re.accept(decode_frame(&fb[0]).unwrap()).unwrap();
    assert_eq!((tb, ib, pb), (FRAME_RESULT, "b".to_string(), b));
}

#[test]
fn inconsistent_framing_drops_the_transfer() {
    let frame = |seq: u32, total: u32| Frame {
        ftype: FRAME_TASK,
        transfer_id: "t".into(),
        frame_seq: seq,
        total_frames: total,
        payload: vec![seq as u8],
    };
    let mut re = Reassembler::new();
    assert!(re.accept(frame(0, 0)).is_none());
    assert!(re.accept(frame(2, 2)).is_none());
    assert!(re.accept(frame(0, 2)).is_none());
    assert!(re.accept(frame(0, 3)).is_none());
    // The transfer starts anew.
    assert!(re.accept(frame(1, 2)).is_none());
    assert_eq!(re.accept(frame(0, 2)).unwrap().2, vec![0, 1]);
}

#[test]
fn channel_messages_become_answers() {
    let header = ResultHeader {
        task_id: "j_4".into(),
        chunk_index: 4,
        worker_id: "w2".into(),
        error: None,
        meta: Value::from(5),
    };
    let payload = encode_result_payload(&result_header_json(&header), &[6, 7]);
    let frames = split_into_frames(FRAME_RESULT, "j_4", &payload);
    let mut re = Reassembler::default();
    assert!(matches!(
        take_message(&mut re, true, &frames[0], parse_result_header),
        ChannelEvent::Ignored
    ));
    match take_message(&mut re, false, &[1, 2], parse_result_header) {
        ChannelEvent::BadFrame(e) => assert_eq!(e, "frame too short"),
        _ => panic!("no frame"),
    }
    match take_message(&mut re, false, &frames[0], parse_result_header) {
        ChannelEvent::Answer(msg) => {
            assert_eq!(msg.task_id, "j_4");
            assert_eq!(msg.chunk_index, 4);
            assert_eq!(msg.worker_id, "w2");
            assert!(msg.error.is_none());
            assert_eq!(msg.meta, Value::from(5));
            assert_eq!(msg.bytes, vec![6, 7]);
        }
        _ => panic!("no answer"),
    }
    let task = split_into_frames(FRAME_TASK, "j_4", &payload);
    assert!(matches!(
        take_message(&mut re, false, &task[0], parse_result_header),
        ChannelEvent::NotAResult
    ));
    let bad = split_into_frames(FRAME_RESULT, "j_5", &[1]);
    match take_message(&mut re, false, &bad[0], parse_result_header) {
        ChannelEvent::BadPayload(e) => assert_eq!(e, "truncated u32"),
        _ => panic!("no bad payload"),
    }
    let long = vec![0u8; MAX_FRAME_PAYLOAD * 2];
    let frames = split_into_frames(FRAME_RESULT, "j_6", &long);
    assert!(matches!(
        take_message(&mut re, false, &frames[0], parse_result_header),
        ChannelEvent::Waiting
    ));
}

#[test]
fn a_long_result_is_answered_by_its_last_piece() {
    let header = ResultHeader {
        task_id: "j_0".into(),
        chunk_index: 0,
        worker_id: "w".into(),
        error: None,
        meta: Value::Null,
    };
    let body: Vec<u8> = (0..MAX_FRAME_PAYLOAD * 2).map(|i| (i % 7) as u8).collect();
    let payload = encode_result_payload(&result_header_json(&header), &body);
    let frames = split_into_frames(FRAME_RESULT, "j_0", &payload);
    assert_eq!(frames.len(), 3);
    let mut re = Reassembler::new();
    for k in [1, 2, 1, 2] {
        assert!(matches!(
            take_message(&mut re, false, &frames[k], parse_result_header),
            ChannelEvent::Waiting
        ));
    }
    match take_message(&mut re, false, &frames[0], parse_result_header) {
        ChannelEvent::Answer(msg) => {
            assert_eq!(msg.task_id, "j_0");
            assert_eq!(msg.bytes, body);
        }
        _ => panic!("no answer"),
    }
}

#[test]
fn a_frame_that_is_cut_off_is_refused() {
    let good = encode_frame(&Frame {
        ftype: FRAME_TASK,
        transfer_id: "bébé".into(),
        frame_seq: 1,
        total_frames: 2,
        payload: vec![1, 2, 3],
    });
    for n in 0..good.len() {
        assert!(decode_frame(&good[..n]).is_err());
    }
}

#[test]
fn a_task_that_is_cut_off_is_refused() {
    let take_all = |b: &[u8]| Ok(b.to_vec());
    let mut enc = encode_task_payload(b"{}", &[9, 9], &[8], &[1, 2, 3]);
    for n in 0..enc.len() {
        assert!(decode_task_payload::<Vec<u8>, _>(&enc[..n], take_all).is_err());
    }
    // Bytes behind the last section do no harm.
    enc.push(77);
    match decode_task_payload::<Vec<u8>, _>(&enc, take_all) {
        Ok(dec) => assert_eq!((dec.header, dec.input), (b"{}".to_vec(), vec![1, 2, 3])),
        Err(e) => panic!("{}", e),
    }
}

#[test]
fn a_result_that_is_cut_off_keeps_the_rest() {
    let take_all = |b: &[u8]| Ok(b.to_vec());
    let enc = encode_result_payload(b"{}", b"body");
    for n in 0..6 {
        assert!(decode_result_payload::<Vec<u8>, _>(&enc[..n], take_all).is_err());
    }
    for n in 6..=enc.len() {
        match decode_result_payload::<Vec<u8>, _>(&enc[..n], take_all) {
            Ok((h, body)) => assert_eq!((h, body), (b"{}".to_vec(), b"body"[..n - 6].to_vec())),
            Err(e) => panic!("{}", e),
        }
    }
}

#[test]
fn a_finished_transfer_can_be_repeated() {
    let payload = vec![5u8; MAX_FRAME_PAYLOAD + 1];
    let frames = split_into_frames(FRAME_TASK, "again", &payload);
    let mut re = Reassembler::new();
    for _ in 0..3 {
        assert!(re.accept(decode_frame(&frames[1]).unwrap()).is_none());
        assert_eq!(re.accept(decode_frame(&frames[0]).unwrap()).unwrap().2, payload);
    }
    // A transfer of one frame is never in progress.
    let single = split_into_frames(FRAME_TASK, "again", &[1]);
    assert_eq!(re.accept(decode_frame(&single[0]).unwrap()).unwrap().2, vec![1]);
    assert_eq!(re.accept(decode_frame(&single[0]).unwrap()).unwrap().2, vec![1]);
}

#[test]
fn transfers_are_found_again_whatever_ends_first() {
    let ids = ["a", "b", "c", "d", "e"];
    let payload = |k: usize| vec![k as u8; MAX_FRAME_PAYLOAD + k + 1];
    let mut re = Reassembler::new();
    for (k, id) in ids.iter().enumerate() {
        let frames = split_into_frames(FRAME_RESULT, id, &payload(k));
        assert!(re.accept(decode_frame(&frames[0]).unwrap()).is_none());
    }
    for k in [1, 4, 0, 3, 2] {
        let frames = split_into_frames(FRAME_RESULT, ids[k], &payload(k));
        let (_, id, out) = re.accept(decode_frame(&frames[1]).unwrap()).unwrap();
        assert_eq!((id.as_str(), out), (ids[k], payload(k)));
    }
}
