use prompt_stream::decoder::decode;
use prompt_stream::reassembler::LineBuffer;
use prompt_stream::request::{request_payload, EndpointConfig};
use prompt_stream::session::{file_prompt, Session, INTRODUCTION_PROMPT, REVIEW_PROMPT};
use prompt_stream::turn::{
    status_is_success, Action, ChunkEvent, Phase, SendOutcome, Turn, TurnResult,
};

fn feed_all(chunks: &[&[u8]]) -> (Vec<Vec<u8>>, bool) {
    let mut buf = LineBuffer::new();
    let mut lines = Vec::new();
    for c in chunks {
        lines.extend(buf.feed(c));
    }
    (lines, buf.is_empty())
}

/// Runs a successful turn over the chunks; returns everything written and the result.
fn run_stream(chunks: &[&[u8]]) -> (String, TurnResult) {
    let mut turn = Turn::new();
    let mut written = String::new();
    let step = turn.on_response(SendOutcome::Status(200));
    assert!(matches!(step.action, Action::PullChunk));
    written.push_str(&step.output);
    for c in chunks {
        let step = turn.on_chunk(ChunkEvent::Data(c.to_vec()));
        assert!(matches!(step.action, Action::PullChunk));
        written.push_str(&step.output);
    }
    let step = turn.on_chunk(ChunkEvent::End);
    written.push_str(&step.output);
    assert_eq!(turn.phase(), Phase::Completed);
    match step.action {
        Action::Finish(r) => (written, r),
        _ => panic!("the end of the stream must finish the turn"),
    }
}

#[test]
fn lines_are_split_at_newlines() {
    let (lines, empty) = feed_all(&[b"ab\ncd\n\nef"]);
    assert_eq!(lines, vec![b"ab".to_vec(), b"cd".to_vec(), b"".to_vec()]);
    assert!(!empty);
}

#[test]
fn chunk_boundaries_do_not_change_lines() {
    let whole: &[u8] = "x\u{e9}y\n{\"a\":1}\n\u{1f600}z\ntail".as_bytes();
    let (expected, _) = feed_all(&[whole]);
    for cut1 in 0..whole.len() {
        for cut2 in cut1..whole.len() {
            let (lines, _) = feed_all(&[&whole[..cut1], &whole[cut1..cut2], &whole[cut2..]]);
            assert_eq!(lines, expected);
        }
    }
    assert_eq!(expected.len(), 3);
    assert_eq!(expected[0], "x\u{e9}y".as_bytes().to_vec());
}

#[test]
fn byte_by_byte_feeding_matches_whole() {
    let whole: &[u8] = b"{\"response\":\"a\"}\n{\"response\":\"b\"}\n";
    let single: Vec<&[u8]> = (0..whole.len()).map(|i| &whole[i..i + 1]).collect();
    assert_eq!(feed_all(&single), feed_all(&[whole]));
}

#[test]
fn unterminated_last_line_is_never_emitted() {
    let (lines, empty) = feed_all(&[b"{\"response\":\"a\"}\n{\"response\"", b":\"b\"}"]);
    assert_eq!(lines.len(), 1);
    assert!(!empty);
    let (out, _) = run_stream(&[b"{\"response\":\"a\"}\n{\"response\":\"b\"}"]);
    assert_eq!(out, "a\n");
}

#[test]
fn decode_extracts_response_text() {
    assert_eq!(decode(b"{\"response\":\"Hi \"}"), Some("Hi ".to_string()));
    assert_eq!(decode(b"{\"response\":\"\",\"done\":true}"), Some(String::new()));
    assert_eq!(decode("{\"response\":\"\u{fc}\"}".as_bytes()), Some("\u{fc}".to_string()));
}

#[test]
fn decode_skips_lines_without_text() {
    assert_eq!(decode(b""), None);
    assert_eq!(decode(b"not json"), None);
    assert_eq!(decode(b"{\"done\":true}"), None);
    assert_eq!(decode(b"[1,2]"), None);
    assert_eq!(decode(b"{\"response\":"), None);
}

#[test]
fn decode_non_string_response_is_empty_text() {
    assert_eq!(decode(b"{\"response\":42}"), Some(String::new()));
}

#[test]
fn decode_twice_gives_same_fragment() {
    for line in [&b"{\"response\":\"x\"}"[..], b"garbage", b"{}"] {
        assert_eq!(decode(line), decode(line));
    }
}

#[test]
fn well_formed_stream_renders_concatenation() {
    let (out, result) = run_stream(&[
        b"{\"response\":\"The\"}\n{\"response\":\" quick\"}\n",
        b"{\"response\":\" fox\"}\n",
    ]);
    assert_eq!(out, "The quick fox\n");
    match result {
        TurnResult::Rendered(t) => assert_eq!(t, "The quick fox"),
        _ => panic!("expected a rendered turn"),
    }
}

#[test]
fn malformed_lines_are_ignored() {
    let (out, result) = run_stream(&[
        b"{\"response\":\"a\"}\nkeep-alive\n\n{\"done\":false}\n{\"response\":\"b\"}\n",
    ]);
    assert_eq!(out, "ab\n");
    assert!(!result.is_failure());
}

#[test]
fn empty_stream_writes_one_newline() {
    let (out, result) = run_stream(&[]);
    assert_eq!(out, "\n");
    assert!(matches!(result, TurnResult::Rendered(t) if t.is_empty()));
}

#[test]
fn error_status_reports_body_and_writes_nothing() {
    let mut turn = Turn::new();
    let step = turn.on_response(SendOutcome::Status(500));
    assert!(step.output.is_empty());
    assert!(matches!(step.action, Action::FetchErrorBody));
    assert_eq!(turn.phase(), Phase::AwaitingErrorBody(500));
    let step = turn.on_error_body(Some("boom".to_string()));
    assert!(step.output.is_empty());
    assert_eq!(turn.phase(), Phase::Failed);
    match step.action {
        Action::Finish(TurnResult::HttpError(code, body)) => {
            assert_eq!(code, 500);
            assert_eq!(body, "boom");
        }
        _ => panic!("expected an HTTP error"),
    }
}

#[test]
fn unreadable_error_body_falls_back() {
    let mut turn = Turn::new();
    turn.on_response(SendOutcome::Status(404));
    let step = turn.on_error_body(None);
    match step.action {
        Action::Finish(TurnResult::HttpError(404, body)) => {
            assert_eq!(body, "Keine Fehlermeldung verf\u{fc}gbar")
        }
        _ => panic!("expected an HTTP error"),
    }
}

#[test]
fn unreachable_endpoint_is_transport_error() {
    let mut turn = Turn::new();
    let step = turn.on_response(SendOutcome::Unreachable("connection refused".to_string()));
    assert!(step.output.is_empty());
    assert_eq!(turn.phase(), Phase::Failed);
    assert!(matches!(step.action,
        Action::Finish(TurnResult::TransportError(d)) if d == "connection refused"));
}

#[test]
fn broken_stream_keeps_partial_output() {
    let mut turn = Turn::new();
    turn.on_response(SendOutcome::Status(200));
    let step = turn.on_chunk(ChunkEvent::Data(b"{\"response\":\"par\"}\n{\"resp".to_vec()));
    assert_eq!(step.output, "par");
    let step = turn.on_chunk(ChunkEvent::Failed("reset".to_string()));
    assert!(step.output.is_empty());
    assert_eq!(turn.phase(), Phase::Failed);
    assert!(matches!(step.action, Action::Finish(TurnResult::TransportError(d)) if d == "reset"));
}

#[test]
fn success_statuses_are_2xx() {
    assert!(status_is_success(200));
    assert!(status_is_success(204));
    assert!(status_is_success(299));
    assert!(!status_is_success(199));
    assert!(!status_is_success(300));
    assert!(!status_is_success(500));
}

#[test]
fn end_to_end_example() {
    let config = EndpointConfig::new("m1".to_string(), "http://x/api".to_string());
    assert_eq!(request_payload(&config, "Hello"), "{\"model\":\"m1\",\"prompt\":\"Hello\"}");
    let (out, _) = run_stream(&[
        b"{\"respon",
        b"se\":\"Hi \"}\n{\"response\":\"there\"}\n",
    ]);
    assert_eq!(out, "Hi there\n");
}

#[test]
fn payload_escapes_json_strings() {
    let config = EndpointConfig::new("m\"1".to_string(), "u".to_string());
    assert_eq!(
        request_payload(&config, "a\nb"),
        "{\"model\":\"m\\\"1\",\"prompt\":\"a\\nb\"}"
    );
}

#[test]
fn file_prompt_embeds_path_and_content() {
    assert_eq!(
        file_prompt("src/lib.rs", "fn f() {}"),
        "Hier ist der Inhalt der Datei `src/lib.rs`:\n\n```rust\nfn f() {}\n```"
    );
}

#[test]
fn session_goes_on_after_a_failed_turn() {
    let mut session =
        Session::new(vec!["A".to_string(), "B".to_string(), "C".to_string()]);
    let mut sent = Vec::new();
    let results = [
        TurnResult::Rendered("ok".to_string()),
        TurnResult::HttpError(500, "boom".to_string()),
        TurnResult::TransportError("down".to_string()),
    ];
    let mut k = 0;
    while let Some(p) = session.start_next() {
        sent.push(p);
        session.finish_turn(&results[k]);
        k += 1;
    }
    assert_eq!(sent, vec!["A", "B", "C"]);
    assert_eq!(session.failures(), 2);
    assert!(session.is_done());
}

#[test]
fn session_prompts_in_order() {
    let prompts = vec![
        INTRODUCTION_PROMPT.to_string(),
        file_prompt("a.rs", "x"),
        REVIEW_PROMPT.to_string(),
    ];
    let mut session = Session::new(prompts.clone());
    let mut sent = Vec::new();
    while let Some(p) = session.start_next() {
        sent.push(p);
        session.finish_turn(&TurnResult::TransportError("x".to_string()));
    }
    assert_eq!(sent, prompts);
    assert_eq!(session.failures(), 3);
}

#[test]
fn empty_session_is_done() {
    let mut session = Session::new(Vec::new());
    assert!(session.is_done());
    assert_eq!(session.start_next(), None);
}
