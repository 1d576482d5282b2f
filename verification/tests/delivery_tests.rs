use hourly_brief::delivery::{
    all_failed, chunk_messages, code_block, count_error_sections, failure_notice, file_payload,
    multipart_body, multipart_content_type, plan_delivery, post_count, should_retry, Delivery,
    CHUNK_LIMIT,
};

fn strings(v: &[&str]) -> Vec<String> {
    v.iter().map(|s| s.to_string()).collect()
}

#[test]
fn chunks_fit_in_one_message() {
    let m = chunk_messages("# head", &strings(&["## a", "## b"]));
    assert_eq!(m, vec!["# head\n## a\n## b".to_string()]);
}

#[test]
fn chunks_split_at_section_boundaries() {
    let a = "a".repeat(1000);
    let b = "b".repeat(1000);
    let c = "c".repeat(800);
    let m = chunk_messages("H", &vec![a.clone(), b.clone(), c.clone()]);
    assert_eq!(m.len(), 2);
    assert_eq!(m[0], format!("H\n{a}"));
    assert_eq!(m[1], format!("{b}\n{c}"));
    for msg in &m {
        assert!(msg.len() <= CHUNK_LIMIT);
    }
}

#[test]
fn chunks_exact_limit_is_kept_together() {
    // 1 + 1 + 1898 = 1900 bytes: fits exactly
    let s = "x".repeat(1898);
    let m = chunk_messages("H", &vec![s.clone()]);
    assert_eq!(m, vec![format!("H\n{s}")]);
    // one byte more does not fit
    let t = "x".repeat(1899);
    let m = chunk_messages("H", &vec![t.clone()]);
    assert_eq!(m, vec!["H".to_string(), t]);
}

#[test]
fn chunks_count_bytes_not_characters() {
    // each '確' is 3 bytes: 633 of them are 1899 bytes
    let s = "確".repeat(633);
    let m = chunk_messages("H", &vec![s.clone()]);
    assert_eq!(m, vec!["H".to_string(), s]);
}

#[test]
fn chunks_oversized_section_is_sent_whole() {
    let big = "z".repeat(2500);
    let m = chunk_messages("H", &vec!["small".to_string(), big.clone(), "tail".to_string()]);
    assert_eq!(m, vec!["H\nsmall".to_string(), big, "tail".to_string()]);
}

#[test]
fn chunks_empty_header_and_sections() {
    assert_eq!(chunk_messages("", &[]), Vec::<String>::new());
    assert_eq!(chunk_messages("H", &[]), vec!["H".to_string()]);
    assert_eq!(chunk_messages("", &strings(&["a", "b"])), vec!["a\nb".to_string()]);
}

#[test]
fn chunks_empty_header_keeps_sections_whole() {
    let sections: Vec<String> = (0..30).map(|i| format!("## pair{i} {}", "w".repeat(150))).collect();
    let m = chunk_messages("", &sections);
    assert!(m.len() > 1);
    assert_eq!(m.join("\n"), sections.join("\n"));
    assert!(m[0].starts_with("## pair0 "));
}

#[test]
fn each_message_is_full() {
    let sections: Vec<String> = (0..40).map(|i| format!("## pair{i} {}", "v".repeat(100 + 7 * i))).collect();
    let m = chunk_messages("# header", &sections);
    assert!(m.len() > 2);
    for k in 0..m.len() - 1 {
        assert!(m[k].len() <= CHUNK_LIMIT);
        // the first piece of the next message would not have fitted
        let next_first = m[k + 1].split('\n').next().unwrap();
        assert!(m[k].len() + next_first.len() + 1 > CHUNK_LIMIT);
    }
}

#[test]
fn chunks_join_back_to_the_whole_text() {
    let sections: Vec<String> = (0..40).map(|i| format!("## pair{i} {}", "v".repeat(120))).collect();
    let m = chunk_messages("# header", &sections);
    assert!(m.len() > 1);
    assert_eq!(m.join("\n"), format!("# header\n{}", sections.join("\n")));
}

#[test]
fn code_block_wraps_content() {
    assert_eq!(code_block("abc"), "```text\nabc\n```");
}

#[test]
fn file_payload_escapes_the_summary() {
    assert_eq!(file_payload("a\"b\nc"), "{\"content\":\"a\\\"b\\nc\"}");
    assert_eq!(file_payload("# brief"), "{\"content\":\"# brief\"}");
    // backslash, the short escapes, other control characters, and text left as it is
    assert_eq!(
        file_payload("\\\t\r\u{8}\u{c}\u{1}\u{1f}/é日\u{7f}"),
        "{\"content\":\"\\\\\\t\\r\\b\\f\\u0001\\u001f/é日\u{7f}\"}"
    );
}

#[test]
fn multipart_layout() {
    assert_eq!(multipart_content_type(), "multipart/form-data; boundary=----aws-hourly-brief-boundary");
    let body = multipart_body("{}", "brief.txt", "hello");
    let expected = "------aws-hourly-brief-boundary\r\n\
        Content-Disposition: form-data; name=\"payload_json\"\r\n\
        Content-Type: application/json\r\n\r\n{}\r\n\
        ------aws-hourly-brief-boundary\r\n\
        Content-Disposition: form-data; name=\"files[0]\"; filename=\"brief.txt\"\r\n\
        Content-Type: text/plain; charset=utf-8\r\n\r\nhello\r\n\
        ------aws-hourly-brief-boundary--\r\n";
    assert_eq!(body, expected);
}

#[test]
fn file_delivery_attaches_the_whole_digest() {
    let d = plan_delivery("file", "# h", &strings(&["## a", "## b"]));
    match &d {
        Delivery::File { summary, filename, text } => {
            assert_eq!(summary, "# h");
            assert_eq!(filename, "brief.txt");
            assert_eq!(text, "# h\n## a\n## b");
        }
        Delivery::Chunks(_) => panic!("expected a file"),
    }
    assert_eq!(post_count(&d), 1);
}

#[test]
fn chunk_delivery_for_anything_else() {
    let d = plan_delivery("chunks", "# h", &strings(&["## a"]));
    match &d {
        Delivery::Chunks(m) => assert_eq!(m, &vec!["# h\n## a".to_string()]),
        Delivery::File { .. } => panic!("expected chunks"),
    }
    assert_eq!(post_count(&d), 1);
    let d = plan_delivery("weird", "# h", &[]);
    assert!(matches!(d, Delivery::Chunks(_)));
}

#[test]
fn retry_only_first_rate_limit() {
    assert!(should_retry(0, Some(429)));
    assert!(!should_retry(1, Some(429)));
    assert!(!should_retry(0, Some(500)));
    assert!(!should_retry(0, None));
}

#[test]
fn error_sections_are_counted() {
    let s = strings(&["## a  px=1", "## b  ERROR: b: no daily data", "## c  ERROR: x"]);
    assert_eq!(count_error_sections(&s), 2);
    assert_eq!(count_error_sections(&[]), 0);
    assert!(!all_failed(3, 2));
    assert!(all_failed(2, 2));
    assert!(all_failed(0, 0));
}

#[test]
fn failure_notice_text() {
    assert_eq!(failure_notice("# h", 3), "# h\n(all pairs failed: 3 errors)");
}
