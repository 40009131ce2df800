use wasmhive::bench::{bytes_per_run, module_size, modes_named, over_runs, pause_after};
use wasmhive::crawl::{self, CrawlJob, CrawlResult};
use wasmhive::direct::{connected_workers, plan_tasks, plan_tasks_now, result_text, Collection};
use wasmhive::numeric::{le_bytes_to_words, words_to_le_bytes};
use wasmhive::options::ExecutionMode;
use wasmhive::parse::{parse_counts, parse_unsigned};
use wasmhive::pipeline::{
    encode_chunks, reduce_results, result_or_empty, run_distributed_impl, ComputeFunction,
};
use wasmhive::raytrace::image::{assemble, decode_result, fits, Tile};
use wasmhive::raytrace::rng::{pixel_seed, Rng};
use wasmhive::raytrace::tiles::{self, render_tile_impl, tile_job, RenderJob, TileJob};
use wasmhive::video::{
    self, first_frame, frame_index, output_name, result_index, video_size, VideoJob,
};
use wasmhive::workers::NANOS_PER_SEC;

fn strings(s: &[&str]) -> Vec<String> {
    s.iter().map(|x| x.to_string()).collect()
}

#[test]
fn floats_travel_as_little_endian_words() {
    let floats = [0.0f32, 1.5, -2.25, f32::MAX];
    let words: Vec<u32> = floats.iter().map(|f| f.to_bits()).collect();
    let bytes = words_to_le_bytes(&words);
    let expected: Vec<u8> = floats.iter().flat_map(|f| f.to_le_bytes()).collect();
    assert_eq!(bytes, expected);
    assert_eq!(le_bytes_to_words(&bytes), words);
    assert_eq!(le_bytes_to_words(&[1, 0, 0, 0, 9, 9]), vec![1]);
}

#[test]
fn chunks_without_bytes_are_dropped() {
    let chunker = |v: &Vec<u8>| v.iter().map(|b| vec![*b]).collect::<Vec<_>>();
    let encoder = |c: &Vec<u8>| {
        if c[0] % 2 == 0 {
            (vec![], c[0])
        } else {
            (c.clone(), c[0])
        }
    };
    let encoded = encode_chunks(&vec![1, 2, 3], chunker, encoder).unwrap();
    assert_eq!(encoded, vec![(vec![1], 1), (vec![3], 3)]);
    assert_eq!(
        encode_chunks(&vec![2, 4], chunker, encoder).unwrap_err(),
        "chunker produced no non-empty chunks"
    );
}

#[test]
fn results_are_reduced_in_order() {
    let results = vec![Some(("a", vec![1])), None, Some(("c", vec![3]))];
    let r = reduce_results(
        results,
        |bytes: Vec<u8>, meta: &str| format!("{}{}", meta, bytes[0]),
        |items: Vec<String>| items.join("-"),
    );
    assert_eq!(r, "a1-c3");
}

#[test]
fn local_runs_map_and_reduce() {
    let square = |v: Vec<i64>| vec![v[0] * v[0]];
    assert_eq!(square.call(vec![3]), vec![9]);
    let r = run_distributed_impl(
        square,
        vec![1i64, 2, 3],
        |v: &Vec<i64>| v.iter().map(|x| vec![*x]).collect::<Vec<_>>(),
        |parts: Vec<Vec<i64>>| vec![parts.iter().map(|p| p[0]).sum::<i64>()],
        ExecutionMode::CPU,
    );
    assert_eq!(r, vec![14]);
    assert_eq!(result_or_empty(Some(5), |v: Vec<usize>| v.len()), 5);
    assert_eq!(result_or_empty(None, |v: Vec<usize>| v.len()), 0);
}

#[test]
fn shares_cover_the_data() {
    let data: Vec<u32> = (0..10).collect();
    let workers = strings(&["a", "b", "c"]);
    let tasks = plan_tasks(&data, &workers, &vec![7, 8, 9], ExecutionMode::GPU, b"wasm!", "js");
    assert_eq!(tasks.len(), 3);
    assert_eq!(tasks[0].0, "a");
    assert_eq!(tasks[0].1.task_id, "task_7_0");
    assert_eq!(tasks[2].1.task_id, "task_9_2");
    assert_eq!(tasks[0].1.data_chunk, vec![0, 1, 2]);
    assert_eq!(tasks[1].1.data_chunk, vec![3, 4, 5]);
    assert_eq!(tasks[2].1.data_chunk, vec![6, 7, 8, 9]);
    assert_eq!(tasks[1].1.wasm_module, "d2FzbSE=");
    assert_eq!(tasks[1].1.js_glue, "js");
    assert_eq!(tasks[1].1.map_function, "gpu_map");
    // No share but the last is larger than a thousand.
    let data: Vec<u32> = (0..5000).collect();
    let tasks = plan_tasks(&data, &workers, &vec![0, 0, 0], ExecutionMode::CPU, b"", "");
    let sizes: Vec<usize> = tasks.iter().map(|t| t.1.data_chunk.len()).collect();
    assert_eq!(sizes, vec![1000, 1000, 3000]);
    // With fewer numbers than workers the last gets them all.
    let tasks = plan_tasks(&vec![1u8, 2], &workers, &vec![0, 0, 0], ExecutionMode::CPU, b"", "");
    let sizes: Vec<usize> = tasks.iter().map(|t| t.1.data_chunk.len()).collect();
    assert_eq!(sizes, vec![0, 0, 2]);
    let none: Vec<u8> = vec![];
    assert!(plan_tasks(&none, &workers, &vec![0, 0, 0], ExecutionMode::CPU, b"", "").is_empty());
}

#[test]
fn modules_travel_in_base64() {
    let text = |bytes: &[u8]| {
        plan_tasks(&vec![1u8], &strings(&["w"]), &vec![0], ExecutionMode::CPU, bytes, "")[0]
            .1
            .wasm_module
            .clone()
    };
    assert_eq!(text(b""), "");
    assert_eq!(text(b"f"), "Zg==");
    assert_eq!(text(b"fo"), "Zm8=");
    assert_eq!(text(b"foo"), "Zm9v");
    assert_eq!(text(b"foobar"), "Zm9vYmFy");
    assert_eq!(text(&[0xfb, 0xff, 0xfe]), "+//+");
    assert_eq!(text(&[0, 16, 131, 16, 81, 135]), "ABCDEFGH");
}

#[test]
fn tasks_are_named_by_the_clock() {
    let tasks =
        plan_tasks_now(&vec![1u8, 2], &strings(&["a", "b"]), ExecutionMode::CPU, b"", "");
    for (i, (_, task)) in tasks.iter().enumerate() {
        let parts: Vec<&str> = task.task_id.split('_').collect();
        assert_eq!(parts.len(), 3);
        assert_eq!(parts[0], "task");
        // The clock stands between 2020 and the year 2286.
        let millis: u64 = parts[1].parse().unwrap();
        assert!(millis > 1_577_000_000_000 && millis < 10_000_000_000_000);
        assert_eq!(parts[2], i.to_string());
    }
}

#[test]
fn only_connected_workers_get_shares() {
    assert_eq!(
        connected_workers(&vec![], &strings(&["a"])).unwrap_err(),
        "No workers available for computation"
    );
    assert_eq!(
        connected_workers(&strings(&["a"]), &strings(&["b"])).unwrap_err(),
        "No workers with data channels available for computation"
    );
    assert_eq!(
        connected_workers(&strings(&["c", "a", "b"]), &strings(&["b", "c"])).unwrap(),
        vec!["c", "b"]
    );
}

#[test]
fn every_share_has_to_be_answered() {
    let mut c: Collection<u32> = Collection::new(2, 100);
    assert!(c.waiting(100));
    c.take(&vec![1, 2]);
    assert!(c.waiting(100 + 10 * NANOS_PER_SEC - 1));
    assert!(!c.waiting(100 + 10 * NANOS_PER_SEC));
    let mut d: Collection<u32> = Collection::new(2, 0);
    d.take(&vec![3]);
    assert_eq!(
        d.finish().unwrap_err(),
        "Failed to get results from distributed workers - remote execution required"
    );
    c.take(&vec![4]);
    assert!(!c.waiting(100));
    assert_eq!(c.finish().unwrap(), vec![1, 2, 4]);
    let e: Collection<u32> = Collection::new(0, 0);
    assert!(e.finish().is_err());
    assert_eq!(result_text(Ok("x".to_string())), "x");
    assert_eq!(result_text(Err("x".to_string())), "{\"value\": 0.0}");
}

#[test]
fn addresses_go_in_batches_of_five() {
    let urls: Vec<String> = (0..12).map(|i| format!("u{}", i)).collect();
    let batches = crawl::chunker(&CrawlJob { urls: urls.clone() });
    let sizes: Vec<usize> = batches.iter().map(|b| b.urls.len()).collect();
    assert_eq!(sizes, vec![5, 5, 2]);
    let joined: Vec<String> = batches.iter().flat_map(|b| b.urls.clone()).collect();
    assert_eq!(joined, urls);
    assert!(crawl::chunker(&CrawlJob { urls: vec![] }).is_empty());
}

#[test]
fn batches_travel_as_json_arrays() {
    let chunk = CrawlJob { urls: strings(&["http://a", "b\"c"]) };
    assert_eq!(crawl::encode_urls(&chunk), br#"["http://a","b\"c"]"#.to_vec());
}

#[test]
fn results_without_a_title_are_dropped() {
    let r = |url: &str, title: &str| CrawlResult {
        url: url.to_string(),
        title: title.to_string(),
    };
    let kept = crawl::reducer(vec![
        vec![r("a", "A"), r("b", "ERROR: no"), r("c", "NO TITLE FOUND")],
        vec![],
        vec![r("d", "ERROR"), r("e", "NO TITLE FOUND.")],
    ]);
    let urls: Vec<&str> = kept.iter().map(|x| x.url.as_str()).collect();
    assert_eq!(urls, vec!["a", "d", "e"]);
    assert_eq!(crawl::report(&kept), "a\tA\nd\tERROR\ne\tNO TITLE FOUND.");
    assert_eq!(crawl::report(&vec![]), "");
}

#[test]
fn address_lists_are_read_line_by_line() {
    let content = " http://a \r\n\n\t\nhttp://b\u{3000}\nhttp://c";
    let expected: Vec<String> = content
        .lines()
        .map(|line| line.trim().to_string())
        .filter(|line| !line.is_empty())
        .collect();
    assert_eq!(crawl::parse_url_list(content), expected);
    assert_eq!(crawl::parse_url_list(content), vec!["http://a", "http://b", "http://c"]);
    assert!(crawl::parse_url_list("\n \n").is_empty());
}

#[test]
fn white_space_is_that_of_std() {
    for n in 0..0x11_0000u32 {
        if let Some(c) = char::from_u32(n) {
            assert_eq!(wasmhive::parse::white(c), c.is_whitespace());
        }
    }
}

#[test]
fn numbers_are_read_like_std_reads_them() {
    for s in ["0", "007", "+5", "4294967295", "4294967296", "", "+", "-1", "1 ", "1_0", "++1"] {
        let chars: Vec<char> = s.chars().collect();
        assert_eq!(
            parse_unsigned(&chars, u32::MAX as u64),
            s.parse::<u32>().ok().map(|n| n as u64)
        );
    }
    assert_eq!(parse_counts("1, 2,4"), Some(vec![1, 2, 4]));
    assert_eq!(parse_counts("1,,2"), None);
    assert_eq!(parse_counts("18446744073709551616"), None);
}

#[test]
fn frames_are_chunks_of_their_own() {
    let job = VideoJob {
        input_path: "in.mp4".to_string(),
        temp_dir: "/tmp/f".to_string(),
        width: 4,
        height: 2,
        fps: 30,
        frame_paths: strings(&["f1", "f2"]),
    };
    let parts = video::chunker(&job);
    assert_eq!(parts.len(), 2);
    assert_eq!(parts[1].frame_paths, vec!["f2"]);
    assert_eq!(parts[1].input_path, "in.mp4");
    assert_eq!((parts[0].width, parts[0].height, parts[0].fps), (4, 2, 30));
}

#[test]
fn frames_are_numbered_by_name() {
    assert_eq!(frame_index(Some("frame_000042")), 42);
    assert_eq!(frame_index(Some("a_b_7")), 7);
    assert_eq!(frame_index(Some("12")), 12);
    assert_eq!(frame_index(Some("frame_")), 0);
    assert_eq!(frame_index(Some("frame_4294967296")), 0);
    assert_eq!(frame_index(None), 0);
    assert_eq!(output_name(42), "bw_000042.png");
    assert_eq!(output_name(0), "bw_000000.png");
    assert_eq!(output_name(1234567), "bw_1234567.png");
    assert_eq!(result_index(r#"{"frame_index":9,"width":1}"#), 9);
    assert_eq!(result_index(r#"{"frame_index":4294967297}"#), 1);
    assert_eq!(result_index("null"), 0);
    assert_eq!(first_frame(&vec![3, 1, 2, 1]), Some(1));
    assert_eq!(first_frame(&vec![]), None);
}

#[test]
fn the_probe_tells_the_size() {
    let report = br#"{"streams":[{"width":640,"height":360},{"width":1}]}"#.to_vec();
    assert_eq!(video_size(report), Some((640, 360)));
    assert_eq!(video_size(br#"{"streams":[]}"#.to_vec()), Some((0, 0)));
    assert_eq!(video_size(br#"{"streams":[{"width":-5}]}"#.to_vec()), Some((0, 0)));
    assert_eq!(video_size(b"[]".to_vec()), Some((0, 0)));
    assert_eq!(video_size(b"oops".to_vec()), None);
    assert_eq!(video_size(vec![0xff]), None);
}

#[test]
fn random_bits_are_deterministic() {
    // The generator written out once more.
    let step = |x: u64| {
        let x = x ^ (x >> 12);
        let x = x ^ (x << 25);
        x ^ (x >> 27)
    };
    let mut a = Rng::new(42);
    let mut b = Rng::new(42);
    let mut x = 43u64;
    for _ in 0..100 {
        x = step(x);
        let r = a.next_u64();
        assert_eq!(r, x.wrapping_mul(0x2545F4914F6CDD1D));
        assert_eq!(b.next_24_bits() as u64, r >> 40);
    }
    assert_eq!(Rng::new(0).next_u64(), Rng::new(1).next_u64());
    assert_eq!(pixel_seed(0, 0, 0), 0x9E3779B9);
    assert_eq!(pixel_seed(3, 5, 7), (3 << 40) ^ (5 << 20) ^ 7 ^ 0x9E3779B9);
}

#[test]
fn tiles_cover_every_pixel_once() {
    let job = RenderJob {
        width: 170,
        height: 81,
        samples: 1,
        max_depth: 2,
        tile: None,
        scene: "scene".to_string(),
    };
    let parts = tiles::chunker(&job);
    let rects: Vec<_> = parts.iter().map(|p| p.tile.unwrap()).collect();
    assert_eq!(
        rects,
        vec![
            (0, 0, 80, 80),
            (80, 0, 80, 80),
            (160, 0, 10, 80),
            (0, 80, 80, 1),
            (80, 80, 80, 1),
            (160, 80, 10, 1),
        ]
    );
    let mut hits = vec![0; 170 * 81];
    for (x, y, w, h) in rects {
        for py in y..y + h {
            for px in x..x + w {
                hits[(py * 170 + px) as usize] += 1;
            }
        }
    }
    assert!(hits.iter().all(|n| *n == 1));
    assert_eq!(parts[5].scene, "scene");
    let t = tile_job(&parts[2]);
    assert_eq!((t.tile_x, t.tile_y, t.tile_w, t.tile_h), (160, 0, 10, 80));
    assert_eq!((t.width, t.height, t.samples, t.max_depth), (170, 81, 1, 2));
    let empty = RenderJob { width: 0, ..job };
    assert!(tiles::chunker(&empty).is_empty());
}

#[test]
fn whole_tiles_make_the_picture() {
    let job = RenderJob {
        width: 100,
        height: 90,
        samples: 1,
        max_depth: 1,
        tile: None,
        scene: (),
    };
    let shade = |px: u32, py: u32| (px as u8, py as u8, (px + py) as u8);
    let rendered: Vec<Tile> = tiles::chunker(&job)
        .iter()
        .map(|part| {
            let t = tile_job(part);
            let rgba = render_tile_impl(&t, shade);
            assert_eq!(rgba.len() as u32, t.tile_w * t.tile_h * 4);
            let meta = format!(
                r#"{{"x":{},"y":{},"w":{},"h":{}}}"#,
                t.tile_x, t.tile_y, t.tile_w, t.tile_h
            );
            decode_result(rgba, &meta)
        })
        .collect();
    let picture = assemble(100, 90, &rendered);
    assert_eq!(picture.len(), 100 * 90 * 4);
    for py in 0..90u32 {
        for px in 0..100u32 {
            let at = (py * 100 + px) as usize * 4;
            assert_eq!(
                picture[at..at + 4].to_vec(),
                vec![px as u8, py as u8, (px + py) as u8, 255]
            );
        }
    }
}

#[test]
fn missing_pixels_stay_clear_and_later_tiles_win() {
    let tile = |x: u32, rgba: Vec<u8>| Tile { x, y: 0, w: 2, h: 1, rgba };
    let a = tile(0, vec![1, 2, 3, 4, 5, 6, 7, 8]);
    let b = tile(1, vec![9, 9, 9, 9, 5]);
    let picture = assemble(3, 1, &vec![a, b]);
    assert_eq!(picture, vec![1, 2, 3, 4, 9, 9, 9, 9, 0, 0, 0, 0]);
    let t = decode_result(vec![1], r#"{"x":3,"w":"no"}"#);
    assert_eq!((t.x, t.y, t.w, t.h, t.rgba), (3, 0, 0, 0, vec![1]));
}

#[test]
fn tiles_fit_where_their_pixels_do() {
    let tile = |w: u32, h: u32, bytes: usize| Tile { x: 1, y: 2, w, h, rgba: vec![0; bytes] };
    assert!(fits(&tile(2, 2, 16), 3, 4));
    assert!(!fits(&tile(2, 2, 16), 2, 4));
    assert!(!fits(&tile(2, 2, 16), 3, 3));
    // Pixels that are not there need no place.
    assert!(fits(&tile(2, 2, 11), 3, 3));
    assert!(fits(&tile(2, 2, 7), 2, 3));
    assert!(fits(&tile(2, 2, 3), 0, 0));
    assert!(fits(&tile(0, 9, 99), 0, 0));
    assert!(!fits(&tile(u32::MAX, u32::MAX, 0), u32::MAX, u32::MAX));
}

#[test]
fn tile_renders_expected_size_and_is_deterministic() {
    let job = TileJob {
        width: 64,
        height: 36,
        samples: 4,
        max_depth: 4,
        tile_x: 16,
        tile_y: 8,
        tile_w: 8,
        tile_h: 8,
        scene: (),
    };
    let shade = |px: u32, py: u32| {
        let mut sum: u32 = 0;
        for sample in 0..job.samples {
            let mut rng = Rng::new(pixel_seed(px, py, sample));
            sum = sum.wrapping_add(rng.next_24_bits());
        }
        (sum as u8, (sum >> 8) as u8, (sum >> 16) as u8)
    };
    let a = render_tile_impl(&job, shade);
    let b = render_tile_impl(&job, shade);
    assert_eq!(a.len(), 8 * 8 * 4);
    assert_eq!(a, b);
    // The alpha channel is opaque.
    assert!(a.chunks(4).all(|px| px[3] == 255));
}

#[test]
fn a_pixel_does_not_depend_on_its_tile() {
    let tile = |x: u32, y: u32, w: u32, h: u32| {
        let job = TileJob {
            width: 64,
            height: 36,
            samples: 4,
            max_depth: 4,
            tile_x: x,
            tile_y: y,
            tile_w: w,
            tile_h: h,
            scene: (),
        };
        render_tile_impl(&job, |px: u32, py: u32| {
            let bits = Rng::new(pixel_seed(px, py, 0)).next_24_bits();
            (bits as u8, (bits >> 8) as u8, (bits >> 16) as u8)
        })
    };
    let a = tile(16, 8, 8, 8);
    let b = tile(18, 9, 5, 3);
    for y in 9..12usize {
        for x in 18..23usize {
            let in_a = ((y - 8) * 8 + (x - 16)) * 4;
            let in_b = ((y - 9) * 5 + (x - 18)) * 4;
            assert_eq!(a[in_a..in_a + 4], b[in_b..in_b + 4]);
        }
    }
}

#[test]
fn tiles_reach_the_last_coordinate() {
    let at = |x: u32, y: u32, w: u32, h: u32| TileJob {
        width: 1,
        height: 1,
        samples: 1,
        max_depth: 1,
        tile_x: x,
        tile_y: y,
        tile_w: w,
        tile_h: h,
        scene: (),
    };
    let shade = |px: u32, py: u32| ((u32::MAX - px) as u8, (u32::MAX - py) as u8, 0);
    let end = u32::MAX - 1;
    assert_eq!(
        render_tile_impl(&at(end, end, 2, 2), shade),
        vec![1, 1, 0, 255, 0, 1, 0, 255, 1, 0, 0, 255, 0, 0, 0, 255]
    );
    // A tile without rows has no pixels, wherever it is.
    assert!(render_tile_impl(&at(u32::MAX, 0, 9, 0), shade).is_empty());
}

#[test]
fn benchmarks_count_what_they_send() {
    assert_eq!(modes_named("both"), vec![ExecutionMode::CPU, ExecutionMode::GPU]);
    assert_eq!(modes_named("cpu"), vec![ExecutionMode::CPU]);
    assert_eq!(modes_named("gpu"), vec![ExecutionMode::GPU]);
    assert!(modes_named("tpu").is_empty());
    assert_eq!(module_size(&vec![None, Some(7), Some(8)]), 7);
    assert_eq!(module_size(&vec![None, None]), 100_000);
    assert_eq!(bytes_per_run(133_000, 100), Some(133_000 + 10_000 + 1_600 + 500));
    assert_eq!(bytes_per_run(0, usize::MAX / 4), None);
    assert_eq!(over_runs(100, 5), Some(500));
    assert_eq!(over_runs(usize::MAX, 2), None);
    assert!(pause_after(0, 2, 1));
    assert!(!pause_after(1, 2, 1));
    assert!(!pause_after(0, 2, 0));
}
