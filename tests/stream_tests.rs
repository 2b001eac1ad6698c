use gemini_bridge::stream::{
    decode_marker_chunks, line_event, marker_chunk_event, marker_end_event, ChatLine, LineFramer,
};

fn parse_line(line: &[u8]) -> Option<ChatLine> {
    let v: serde_json::Value = serde_json::from_slice(line).ok()?;
    Some(ChatLine {
        content: v
            .get("message")
            .and_then(|m| m.get("content"))
            .and_then(|c| c.as_str())
            .map(|s| s.to_string()),
        done: v.get("done").and_then(|d| d.as_bool()),
    })
}

#[test]
fn line_delimited_emits_each_message() {
    let input = b"{\"message\":{\"content\":\"Hi\"},\"done\":false}\n{\"message\":{\"content\":\" there\"},\"done\":true}\n";
    let mut framer = LineFramer::new();
    let lines = framer.feed(&input.to_vec());
    assert_eq!(lines.len(), 2);
    let events: Vec<_> = lines
        .iter()
        .filter_map(|l| parse_line(l))
        .filter_map(line_event)
        .map(|e| (e.chunk, e.done))
        .collect();
    assert_eq!(events, vec![("Hi".to_string(), false), (" there".to_string(), true)]);
    assert!(framer.finish().is_none());
}

#[test]
fn framer_buffers_partial_lines() {
    let mut framer = LineFramer::new();
    assert!(framer.feed(&b"{\"a\":".to_vec()).is_empty());
    let lines = framer.feed(&b"1}\n{\"b\"".to_vec());
    assert_eq!(lines, vec![b"{\"a\":1}".to_vec()]);
    let lines = framer.feed(&b":2}\n\n".to_vec());
    assert_eq!(lines, vec![b"{\"b\":2}".to_vec(), Vec::new()]);
    assert_eq!(framer.feed(&b"tail".to_vec()), Vec::<Vec<u8>>::new());
    assert_eq!(framer.finish(), Some(b"tail".to_vec()));
    assert_eq!(framer.finish(), None);
}

#[test]
fn line_without_content_is_skipped() {
    assert!(line_event(ChatLine { content: None, done: Some(true) }).is_none());
    let e = line_event(ChatLine { content: Some("x".to_string()), done: None }).unwrap();
    assert_eq!(e.chunk, "x");
    assert!(!e.done);
    assert!(parse_line(b"not json").is_none());
}

#[test]
fn marker_scan_over_two_chunks() {
    let chunks = vec![
        b"[{\"candidates\": [{\"content\": {\"parts\": [{\"text\": \"Hello\\nwor".to_vec(),
        b"ld\"}]}}]}, {\"parts\": [{\"text\": \"Say \\\"hi\\\"\\nnow\"}]}]".to_vec(),
    ];
    let events = decode_marker_chunks(&chunks);
    let got: Vec<_> = events.into_iter().map(|e| (e.chunk, e.done)).collect();
    assert_eq!(
        got,
        vec![("Say \"hi\"\nnow".to_string(), false), (String::new(), true)]
    );
}

#[test]
fn marker_scan_takes_first_marker_only() {
    let e = marker_chunk_event(b"{\"text\": \"one\"} {\"text\": \"two\"}").unwrap();
    assert_eq!(e.chunk, "one");
    assert!(!e.done);
}

#[test]
fn marker_scan_skips_bad_chunks() {
    assert!(marker_chunk_event(b"no marker here").is_none());
    assert!(marker_chunk_event(b"{\"text\": \"unterminated").is_none());
    assert!(marker_chunk_event(&[0xff, 0xfe, b'"']).is_none());
    let end = marker_end_event();
    assert_eq!(end.chunk, "");
    assert!(end.done);
    let only_end = decode_marker_chunks(&Vec::new());
    assert_eq!(only_end.len(), 1);
    assert!(only_end[0].done);
}

#[test]
fn marker_scan_unescapes_in_order() {
    let e = marker_chunk_event(b"\"text\": \"a\\\\nb\"").unwrap();
    assert_eq!(e.chunk, "a\\\nb");
    let e = marker_chunk_event("\"text\": \"zażółć\"".as_bytes()).unwrap();
    assert_eq!(e.chunk, "zażółć");
}
