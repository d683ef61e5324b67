use miurbot::json::{field, item, str_eq, Json};
use miurbot::sse::{delta_content, parse_sse_line, reply_from_chunks, SseLine, StreamDecoder};

fn s(x: &str) -> String {
    x.to_string()
}

fn obj(entries: Vec<(&str, Json)>) -> Json {
    Json::Object(entries.into_iter().map(|(k, v)| (s(k), v)).collect())
}

/// `{"choices":[{"delta":{"content": <content>}}]}`
fn chunk_with(content: Json) -> Json {
    obj(vec![(
        "choices",
        Json::Array(vec![obj(vec![("delta", obj(vec![("content", content)]))])]),
    )])
}

#[test]
fn data_line_yields_trimmed_payload() {
    assert!(matches!(parse_sse_line("data: {\"a\":1}"), SseLine::Data(d) if d == "{\"a\":1}"));
    assert!(matches!(parse_sse_line("  data:   x y  \r\n"), SseLine::Data(d) if d == "x y"));
    assert!(matches!(parse_sse_line("data:"), SseLine::Data(d) if d.is_empty()));
}

#[test]
fn done_line_ends_the_stream() {
    assert!(matches!(parse_sse_line("data: [DONE]"), SseLine::Done));
    assert!(matches!(parse_sse_line(" data:[DONE] \n"), SseLine::Done));
    assert!(matches!(parse_sse_line("data: [DONE]x"), SseLine::Data(d) if d == "[DONE]x"));
}

#[test]
fn other_lines_are_skipped() {
    assert!(matches!(parse_sse_line(""), SseLine::Skip));
    assert!(matches!(parse_sse_line(": keep-alive"), SseLine::Skip));
    assert!(matches!(parse_sse_line("event: message"), SseLine::Skip));
    assert!(matches!(parse_sse_line("Data: x"), SseLine::Skip));
    assert!(matches!(parse_sse_line("dat"), SseLine::Skip));
}

#[test]
fn delta_content_reads_the_streamed_text() {
    assert_eq!(delta_content(&chunk_with(Json::Str(s("你好")))), Some(s("你好")));
}

#[test]
fn delta_content_is_none_without_text() {
    assert_eq!(delta_content(&chunk_with(Json::Number(s("3")))), None);
    assert_eq!(delta_content(&chunk_with(Json::Null)), None);
    assert_eq!(delta_content(&obj(vec![("choices", Json::Array(vec![]))])), None);
    assert_eq!(delta_content(&obj(vec![])), None);
    assert_eq!(delta_content(&Json::Array(vec![])), None);
    let no_delta = obj(vec![("choices", Json::Array(vec![obj(vec![("finish_reason", Json::Str(s("stop")))])]))]);
    assert_eq!(delta_content(&no_delta), None);
}

#[test]
fn field_finds_the_first_member_with_the_key() {
    let v = obj(vec![("a", Json::Bool(true)), ("b", Json::Str(s("x"))), ("a", Json::Bool(false))]);
    assert!(matches!(field(&v, "a"), Some(Json::Bool(true))));
    assert!(matches!(field(&v, "b"), Some(Json::Str(t)) if t == "x"));
    assert!(field(&v, "c").is_none());
    assert!(field(&Json::Null, "a").is_none());
}

#[test]
fn item_reads_arrays_only() {
    let v = Json::Array(vec![Json::Null, Json::Bool(true)]);
    assert!(matches!(item(&v, 1), Some(Json::Bool(true))));
    assert!(item(&v, 2).is_none());
    assert!(item(&Json::Str(s("ab")), 0).is_none());
}

#[test]
fn str_eq_compares_characters() {
    assert!(str_eq("choices", "choices"));
    assert!(!str_eq("choices", "choice"));
    assert!(!str_eq("abc", "abd"));
}

/// Collects the lines a decoder yields when fed `chunks`.
fn lines_of(chunks: &[&[u8]]) -> Vec<Vec<u8>> {
    let mut d = StreamDecoder::new();
    let mut out = Vec::new();
    for c in chunks {
        d.feed(c);
        while let Some(l) = d.next_line() {
            out.push(l);
        }
    }
    out
}

#[test]
fn decoder_cuts_lines_at_newlines() {
    let lines = lines_of(&[b"data: a\n\nda", b"ta: b\ntail"]);
    assert_eq!(lines, vec![b"data: a\n".to_vec(), b"\n".to_vec(), b"data: b\n".to_vec()]);
}

#[test]
fn decoder_lines_do_not_depend_on_chunking() {
    let stream: &[u8] = b"data: {\"x\":1}\n\ndata: [DONE]\n:\n";
    let whole = lines_of(&[stream]);
    let bytewise: Vec<&[u8]> = stream.chunks(1).collect();
    assert_eq!(lines_of(&bytewise), whole);
    let threes: Vec<&[u8]> = stream.chunks(3).collect();
    assert_eq!(lines_of(&threes), whole);
    assert_eq!(whole.len(), 4);
}

#[test]
fn decoder_keeps_an_unfinished_line() {
    let mut d = StreamDecoder::new();
    d.feed(b"data: partial");
    assert!(d.next_line().is_none());
    d.feed(b" line\n");
    assert_eq!(d.next_line(), Some(b"data: partial line\n".to_vec()));
    assert!(d.next_line().is_none());
}

/// Feeds `chunks` to a decoder, taking out every complete line with
/// `next_delta`; returns the pieces of reply text and the reply.
fn reply_of_chunks(chunks: &[&[u8]]) -> (Vec<String>, String) {
    let mut d = StreamDecoder::new();
    let mut pieces = Vec::new();
    for c in chunks {
        d.feed(c);
        while let Some(t) = d.next_delta() {
            if let Some(t) = t {
                pieces.push(t);
            }
        }
    }
    (pieces, d.reply().clone())
}

const BODY: &str = "data: {\"choices\":[{\"delta\":{\"content\":\"Hello, \"}}]}\n\n\
: keep-alive\n\
data: not json\n\
data: {\"choices\":[{\"delta\":{\"role\":\"assistant\"}}]}\n\
data: {\"choices\":[{\"delta\":{\"content\":\"米儿\"}}]}\n\
data: [DONE]\n";

#[test]
fn decoder_assembles_the_reply() {
    let (pieces, reply) = reply_of_chunks(&[BODY.as_bytes()]);
    assert_eq!(pieces, vec![s("Hello, "), s("米儿")]);
    assert_eq!(reply, "Hello, 米儿");
}

#[test]
fn reply_does_not_depend_on_chunking() {
    let bytes = BODY.as_bytes();
    let whole = reply_of_chunks(&[bytes]);
    for size in [1, 2, 3, 5, 7, 64] {
        let chunks: Vec<&[u8]> = bytes.chunks(size).collect();
        assert_eq!(reply_of_chunks(&chunks), whole);
    }
}

#[test]
fn next_delta_reports_lines_without_text() {
    let mut d = StreamDecoder::new();
    d.feed(b"data: [DONE]\n\ndata: {}\n");
    assert_eq!(d.next_delta(), Some(None));
    assert_eq!(d.next_delta(), Some(None));
    assert_eq!(d.next_delta(), Some(None));
    assert_eq!(d.next_delta(), None);
    assert_eq!(d.reply(), "");
}

#[test]
fn unfinished_last_line_adds_nothing() {
    let (pieces, reply) = reply_of_chunks(&[b"data: {\"choices\":[{\"delta\":{\"content\":\"x\"}}]}"]);
    assert!(pieces.is_empty());
    assert_eq!(reply, "");
}

#[test]
fn decoder_reads_invalid_utf8_lossily() {
    let mut d = StreamDecoder::new();
    d.feed(&[b'd', b'a', b't', b'a', b':', b' ', 0xff, b'x', b'\n']);
    assert!(matches!(d.next_event(), Some(SseLine::Data(x)) if x == "\u{FFFD}x"));
    assert!(d.next_event().is_none());
}

#[test]
fn whole_body_reply_does_not_depend_on_chunking() {
    let bytes = BODY.as_bytes();
    assert_eq!(reply_from_chunks(&vec![bytes.to_vec()]), "Hello, 米儿");
    for size in [1, 2, 4, 9, 100] {
        let chunks: Vec<Vec<u8>> = bytes.chunks(size).map(|c| c.to_vec()).collect();
        assert_eq!(reply_from_chunks(&chunks), "Hello, 米儿");
    }
    // A cut inside the three bytes of '米'.
    let at = BODY.find('米').unwrap() + 1;
    assert_eq!(reply_from_chunks(&vec![bytes[..at].to_vec(), bytes[at..].to_vec()]), "Hello, 米儿");
}

#[test]
fn empty_body_has_an_empty_reply() {
    assert_eq!(reply_from_chunks(&vec![]), "");
    assert_eq!(reply_from_chunks(&vec![vec![], b"data: [DONE]\n".to_vec()]), "");
}
