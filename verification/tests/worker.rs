use wasmhive::crawl::{self, CrawlJob};
use wasmhive::worker::frames::grayscale_frame_rgba;
use wasmhive::worker::titles::{
    decode_urls, extract_title_from_html, fetch_error, proxy_url, title_or_error, titles_json,
    url_encode,
};

fn strings(s: &[&str]) -> Vec<String> {
    s.iter().map(|x| x.to_string()).collect()
}

#[test]
fn frames_turn_gray() {
    let frame = vec![10, 20, 30, 7, 255, 255, 255, 0, 255, 0, 0, 1, 0, 255, 0, 2, 0, 0, 255, 3];
    let gray = vec![
        18, 18, 18, 7, 255, 255, 255, 0, 76, 76, 76, 1, 149, 149, 149, 2, 29, 29, 29, 3,
    ];
    assert_eq!(grayscale_frame_rgba(frame), gray);
    assert!(grayscale_frame_rgba(vec![]).is_empty());
}

#[test]
fn bytes_behind_the_last_pixel_stay() {
    assert_eq!(grayscale_frame_rgba(vec![10, 20, 30]), vec![10, 20, 30]);
    assert_eq!(
        grayscale_frame_rgba(vec![10, 20, 30, 7, 1, 2, 3]),
        vec![18, 18, 18, 7, 1, 2, 3]
    );
}

#[test]
fn a_gray_frame_stays_as_it_is() {
    let frame: Vec<u8> = (0..=255u8).flat_map(|g| vec![g, g, g, 255 - g]).collect();
    assert_eq!(grayscale_frame_rgba(frame.clone()), frame);
    let once = grayscale_frame_rgba((0..=250u8).collect());
    assert_eq!(grayscale_frame_rgba(once.clone()), once);
}

#[test]
fn a_worker_reads_the_addresses_of_its_batch() {
    let urls = strings(&["http://a", "b\"c\\", "bébé\n🐝", ""]);
    let bytes = crawl::encode_urls(&CrawlJob { urls: urls.clone() });
    assert_eq!(decode_urls(bytes).unwrap(), urls);
    assert!(decode_urls(crawl::encode_urls(&CrawlJob { urls: vec![] })).unwrap().is_empty());
    assert_eq!(decode_urls(b" [ \"x\\u0041\" ] ".to_vec()).unwrap(), strings(&["xA"]));
}

#[test]
fn other_inputs_hold_no_addresses() {
    assert!(decode_urls(vec![b'[', b'"', 0xff, b'"', b']']).is_none());
    assert!(decode_urls(b"".to_vec()).is_none());
    assert!(decode_urls(b"{}".to_vec()).is_none());
    assert!(decode_urls(b"[1]".to_vec()).is_none());
    assert!(decode_urls(b"[\"a\"".to_vec()).is_none());
    assert!(decode_urls(b"[\"a\"] x".to_vec()).is_none());
}

#[test]
fn arrays_of_strings_hold_nothing_but_commas_between_them() {
    let text = |urls: &[&str]| {
        String::from_utf8(crawl::encode_urls(&CrawlJob { urls: strings(urls) })).unwrap()
    };
    assert_eq!(text(&[]), "[]");
    assert_eq!(text(&["a"]), "[\"a\"]");
    assert_eq!(text(&["a", "\"", "c,d"]), "[\"a\",\"\\\"\",\"c,d\"]");
}

#[test]
fn titles_travel_as_json_objects() {
    assert_eq!(titles_json(&vec![]), "[]");
    let results = vec![
        ("http://a".to_string(), "A \"b\"".to_string()),
        ("c".to_string(), "\t".to_string()),
    ];
    let text = titles_json(&results);
    assert_eq!(
        text,
        r#"[{"url":"http://a","title":"A \"b\""},{"url":"c","title":"\t"}]"#
    );
    let read: serde_json::Value = serde_json::from_str(&text).unwrap();
    assert_eq!(read[0]["title"], "A \"b\"");
    assert_eq!(read[1]["title"], "\t");
}

#[test]
fn control_characters_are_escaped() {
    let quoted = |title: &str| {
        let text = titles_json(&vec![("u".to_string(), title.to_string())]);
        text["[{\"url\":\"u\",\"title\":".len()..text.len() - 2].to_string()
    };
    assert_eq!(
        quoted("\u{8}\t\n\u{c}\r\"\\/"),
        r#""\b\t\n\f\r\"\\/""#
    );
    assert_eq!(
        quoted("\u{0}\u{b}\u{1f}\u{7f}\u{80}é🐝"),
        "\"\\u0000\\u000b\\u001f\u{7f}\u{80}é🐝\""
    );
    // Every character has a text of its own, and is read back.
    let mut seen: Vec<String> = (0..0x100u32)
        .map(|c| quoted(&char::from_u32(c).unwrap().to_string()))
        .collect();
    for (c, text) in seen.iter().enumerate() {
        let read: String = serde_json::from_str(text).unwrap();
        assert_eq!(read, char::from_u32(c as u32).unwrap().to_string());
    }
    seen.sort();
    seen.dedup();
    assert_eq!(seen.len(), 0x100);
}

#[test]
fn queries_are_percent_encoded() {
    assert_eq!(url_encode("AZaz09-_.~"), "AZaz09-_.~");
    assert_eq!(url_encode("http://a.b/c?d=e f"), "http%3A%2F%2Fa.b%2Fc%3Fd%3De%20f");
    assert_eq!(url_encode("é%\n"), "%C3%A9%25%0A");
    assert_eq!(url_encode(""), "");
    // A percent sign is encoded too, so nothing can be taken for another text.
    assert_ne!(url_encode("%41"), url_encode("A"));
    assert_eq!(proxy_url("a b"), "http://localhost:3001/proxy?url=a%20b");
    let every: String = (0..=255u8).map(|b| b as char).collect();
    assert!(url_encode(&every)
        .chars()
        .all(|c| c.is_ascii_alphanumeric() || "-_.~%".contains(c)));
}

#[test]
fn titles_come_from_the_title_element() {
    assert_eq!(extract_title_from_html("<html><title> A b \n</title>"), "A b");
    assert_eq!(extract_title_from_html("é<TiTlE>x</title><title>y</title>"), "x");
    assert_eq!(extract_title_from_html("<title></title>"), "");
    assert_eq!(
        extract_title_from_html("<title>&lt;a&gt; &amp; &quot;b&#39;&nbsp;c</title>"),
        "<a> & \"b' c"
    );
    // The ampersands are decoded first.
    assert_eq!(extract_title_from_html("<title>&amp;lt; &amp;amp;</title>"), "< &amp;");
    // White space that an entity stands for is not trimmed.
    assert_eq!(extract_title_from_html("<title>&nbsp;a</title>"), " a");
}

#[test]
fn titles_fall_back_on_the_og_property() {
    let page = r#"<meta PROPERTY="OG:title" content=" A &amp; b "><p>"#;
    assert_eq!(extract_title_from_html(page), "A &amp; b");
    let page = r#"<title>cut off<meta property="og:title" content="c">"#;
    assert_eq!(extract_title_from_html(page), "c");
    // What stands before the property is not looked at.
    let page = r#"<meta content="no" property="og:title">"#;
    assert_eq!(extract_title_from_html(page), "NO TITLE FOUND");
    let page = r#"<meta property="og:title" content="open"#;
    assert_eq!(extract_title_from_html(page), "NO TITLE FOUND");
}

#[test]
fn pages_without_a_title_say_so() {
    assert_eq!(extract_title_from_html(""), "NO TITLE FOUND");
    assert_eq!(extract_title_from_html("<title>x</TITLE>"), "NO TITLE FOUND");
    assert_eq!(extract_title_from_html("<title lang=en>x</title>"), "NO TITLE FOUND");
}

#[test]
fn failed_fetches_are_reported() {
    let cors = "CORS blocked: Browser security prevents fetching this URL. Consider using a CORS proxy or server-side fetching.";
    assert_eq!(fetch_error("TypeError: Failed to fetch"), cors);
    assert_eq!(fetch_error("no CORS header"), cors);
    assert_eq!(fetch_error("offline"), "Fetch failed: offline");
    assert_eq!(title_or_error(Err("HTTP 404".to_string())), "ERROR: HTTP 404");
    assert_eq!(title_or_error(Ok("<title>t</title>".to_string())), "t");
}

#[test]
fn failed_fetches_are_dropped_from_the_crawl() {
    let result = |fetched| crawl::CrawlResult {
        url: "u".to_string(),
        title: title_or_error(fetched),
    };
    let kept = crawl::reducer(vec![vec![
        result(Err("".to_string())),
        result(Ok("".to_string())),
        result(Ok("<title>t</title>".to_string())),
    ]]);
    assert_eq!(kept.len(), 1);
    assert_eq!(kept[0].title, "t");
}
