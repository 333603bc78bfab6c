use open_promux::sse::SseDecoder;

#[test]
fn sse_decoder_should_preserve_multibyte_content_split_across_chunks() {
    let mut decoder = SseDecoder::new();
    let event = "data: {\"text\":\"你好\"}\n\n";
    let split = event.find("好").unwrap() + 1;

    assert!(decoder.push(&event.as_bytes()[..split]).is_empty());
    let events = decoder.push(&event.as_bytes()[split..]);

    assert_eq!(events, vec!["{\"text\":\"你好\"}".to_string()]);
}

#[test]
fn sse_decoder_joins_multiple_data_lines_with_newline() {
    let mut decoder = SseDecoder::new();
    let events = decoder.push(b"event: x\ndata: a\ndata:b\r\n\r\n");
    assert_eq!(events, vec!["a\nb".to_string()]);
}

#[test]
fn sse_decoder_skips_events_without_data_lines() {
    let mut decoder = SseDecoder::new();
    let events = decoder.push(b": comment\n\ndata: x\n\n");
    assert_eq!(events, vec!["x".to_string()]);
}

#[test]
fn sse_decoder_prefers_earliest_boundary() {
    let mut decoder = SseDecoder::new();
    let events = decoder.push(b"data: one\r\n\r\ndata: two\n\ndata: three");
    assert_eq!(events, vec!["one".to_string(), "two".to_string()]);
    let rest = decoder.push(b"\n\n");
    assert_eq!(rest, vec!["three".to_string()]);
}

#[test]
fn sse_decoder_chunking_gives_same_events_as_whole_input() {
    let input = b"data: alpha\n\ndata: beta\r\n\r\ndata: \xe4\xbd\xa0\n\n";
    let mut whole = SseDecoder::new();
    let expected = whole.push(input);
    for split in 0..input.len() {
        let mut decoder = SseDecoder::new();
        let mut got = decoder.push(&input[..split]);
        got.extend(decoder.push(&input[split..]));
        assert_eq!(got, expected);
    }
    assert_eq!(expected, vec!["alpha".to_string(), "beta".to_string(), "你".to_string()]);
}

#[test]
fn sse_decoder_drops_invalid_utf8_event() {
    let mut decoder = SseDecoder::new();
    let events = decoder.push(b"data: \xff\n\ndata: ok\n\n");
    assert_eq!(events, vec!["ok".to_string()]);
}

#[test]
fn sse_decoder_keeps_partial_event_pending() {
    let mut decoder = SseDecoder::new();
    assert!(decoder.push(b"data: [DONE]\n").is_empty());
    assert_eq!(decoder.push(b"\n"), vec!["[DONE]".to_string()]);
}
