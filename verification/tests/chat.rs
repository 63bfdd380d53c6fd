use leva::cli::{
    cli_outcome, error_text, max_rounds_reply, remote_tool_error, repl_input, CliOutcome, ReplInput,
};
use leva::job_runner::{job_id_from_uuid, job_result, JobState};
use leva::server_llm::anthropic_stream::{
    assistant_content, closing_frames, error_frame, status_frame, token_frame, tool_results,
    ContentBlock, ToolBlock,
    is_model_unavailable, on_model_error, reply_outcome, reply_text, split_conversation,
    sse_data, sse_frame, stream_error_message, tool_uses, ErrorAction, LineBuffer, ReplyBlock,
    ReplyOutcome, RoleMessage, RoundEnd, StreamEvent, StreamState, TurnLoop, MAX_TOOL_ROUNDS,
};
use leva::server_llm::routes_chat::{
    full_text_payload, replaces_last_content, session_id_or_default, system_prompt,
};
use leva::server_llm::routes_models::{available_models, choose_model, ModelChoice, ModelSwitch};
use leva::server_llm::session_store::AppState;
use leva::server_llm::tool_dispatch::{call_error, read_error, route, tool_url, ToolRoute};

fn lines_of(v: Vec<Vec<char>>) -> Vec<String> {
    v.into_iter().map(|l| l.into_iter().collect()).collect()
}

fn ev(kind: &str) -> StreamEvent {
    StreamEvent {
        kind: Some(kind.into()),
        index: None,
        block_type: None,
        block_id: None,
        block_name: None,
        delta_type: None,
        text: None,
        partial_json: None,
        stop_reason: None,
    }
}

fn text_delta(t: &str) -> StreamEvent {
    let mut e = ev("content_block_delta");
    e.delta_type = Some("text_delta".into());
    e.text = Some(t.into());
    e
}

fn tool_start(i: u64, id: &str, name: &str) -> StreamEvent {
    let mut e = ev("content_block_start");
    e.index = Some(i);
    e.block_type = Some("tool_use".into());
    e.block_id = Some(id.into());
    e.block_name = Some(name.into());
    e
}

fn json_delta(i: u64, pj: &str) -> StreamEvent {
    let mut e = ev("content_block_delta");
    e.index = Some(i);
    e.delta_type = Some("input_json_delta".into());
    e.partial_json = Some(pj.into());
    e
}

fn stop(reason: &str) -> StreamEvent {
    let mut e = ev("message_delta");
    e.stop_reason = Some(reason.into());
    e
}

fn block(kind: &str, text: Option<&str>, id: Option<&str>, name: Option<&str>) -> ReplyBlock {
    ReplyBlock {
        kind: Some(kind.into()),
        text: text.map(|s| s.into()),
        id: id.map(|s| s.into()),
        name: name.map(|s| s.into()),
    }
}

#[test]
fn line_buffer_splits_lines_across_chunks() {
    let mut b = LineBuffer::new();
    assert!(b.push_text("data: a").is_empty());
    assert_eq!(lines_of(b.push_text("bc\r\n\ndata: x")), vec!["data: abc".to_string(), "".to_string()]);
    assert_eq!(b.buf.iter().collect::<String>(), "data: x");
    assert_eq!(lines_of(b.push_text("\n")), vec!["data: x".to_string()]);
    assert!(b.buf.is_empty());
}

#[test]
fn line_buffer_chunking_does_not_matter() {
    let stream = "event: a\r\ndata: {\"x\":1}\n\ndata: [DONE]\nrest";
    let mut whole = LineBuffer::new();
    let all = lines_of(whole.push_text(stream));
    for cut in 0..=stream.len() {
        let mut b = LineBuffer::new();
        let mut got = lines_of(b.push_text(&stream[..cut]));
        got.extend(lines_of(b.push_text(&stream[cut..])));
        assert_eq!(got, all);
        assert_eq!(b.buf, whole.buf);
    }
}

#[test]
fn line_buffer_bytes_lossy() {
    let mut b = LineBuffer::new();
    assert_eq!(lines_of(b.push_bytes(b"a\xffb\nc")), vec!["a\u{FFFD}b".to_string()]);
    assert_eq!(b.buf, vec!['c']);
}

#[test]
fn sse_lines() {
    assert_eq!(sse_data(&"data: {}".chars().collect()), Some("{}".to_string()));
    assert_eq!(sse_data(&"data:{}".chars().collect()), None);
    assert_eq!(sse_data(&"event: x".chars().collect()), None);
    assert_eq!(sse_frame("{\"t\":1}"), "data: {\"t\":1}\n\n");
}

#[test]
fn model_fallback_once() {
    assert!(is_model_unavailable("{\"error\":{\"type\":\"overloaded_error\"}}"));
    assert!(is_model_unavailable("model not_found"));
    assert!(!is_model_unavailable("rate limited"));
    match on_model_error("p", "p", "f", "overloaded") {
        ErrorAction::Retry(m) => assert_eq!(m, "f"),
        other => panic!("unexpected {:?}", other),
    }
    match on_model_error("f", "p", "f", "overloaded") {
        ErrorAction::Fail(e) => assert_eq!(e, "overloaded"),
        other => panic!("unexpected {:?}", other),
    }
    match on_model_error("p", "p", "f", "bad request") {
        ErrorAction::Fail(e) => assert_eq!(e, "bad request"),
        other => panic!("unexpected {:?}", other),
    }
    assert_eq!(stream_error_message("529", "busy"), "Anthropic API error 529: busy");
}

#[test]
fn conversation_split() {
    let ms = vec![
        RoleMessage { role: Some("system".into()), content_text: Some("S1".into()) },
        RoleMessage { role: Some("user".into()), content_text: Some("hi".into()) },
        RoleMessage { role: Some("tool".into()), content_text: None },
        RoleMessage { role: Some("assistant".into()), content_text: Some("yo".into()) },
        RoleMessage { role: Some("system".into()), content_text: Some("S2".into()) },
        RoleMessage { role: None, content_text: Some("?".into()) },
    ];
    let (system, turns) = split_conversation(&ms);
    assert_eq!(system, "S2");
    assert_eq!(turns, vec![1, 3]);
    let (none, empty) = split_conversation(&vec![]);
    assert_eq!(none, "");
    assert!(empty.is_empty());
}

#[test]
fn streamed_round_with_text_and_tools() {
    let mut s = StreamState::new();
    assert_eq!(s.apply(&text_delta("Let me ")), Some("Let me ".to_string()));
    assert_eq!(s.apply(&text_delta("")), None);
    assert_eq!(s.apply(&text_delta("check.")), Some("check.".to_string()));
    assert_eq!(s.apply(&tool_start(2, "t2", "web_search")), None);
    assert_eq!(s.apply(&tool_start(1, "t1", "file_read")), None);
    s.apply(&json_delta(2, "{\"query\":"));
    s.apply(&json_delta(1, "{\"path\":\"a\"}"));
    s.apply(&json_delta(2, "\"x\"}"));
    s.apply(&json_delta(7, "ignored"));
    s.apply(&stop("tool_use"));
    match s.finish_round() {
        RoundEnd::ToolUse { text, calls } => {
            assert_eq!(text.as_deref(), Some("Let me check."));
            assert_eq!(calls.len(), 2);
            assert_eq!(calls[0].index, 1);
            assert_eq!(calls[0].name, "file_read");
            assert_eq!(calls[0].args, "{\"path\":\"a\"}");
            assert_eq!(calls[1].id, "t2");
            assert_eq!(calls[1].args, "{\"query\":\"x\"}");
        }
        RoundEnd::Done => panic!("expected tools"),
    }
    s.start_round();
    assert!(s.blocks.is_empty());
    assert_eq!(s.text_buf, "");
    assert_eq!(s.stop_reason, "");
    assert_eq!(s.full_text, "Let me check.");
    s.apply(&text_delta(" Done"));
    s.apply(&stop("end_turn"));
    assert!(matches!(s.finish_round(), RoundEnd::Done));
    assert_eq!(s.full_text, "Let me check. Done");
}

#[test]
fn round_without_text_has_none() {
    let mut s = StreamState::new();
    s.apply(&tool_start(0, "a", "b"));
    s.apply(&ev("ping"));
    s.apply(&stop("tool_use"));
    match s.finish_round() {
        RoundEnd::ToolUse { text, calls } => {
            assert!(text.is_none());
            assert_eq!(calls[0].args, "");
        }
        RoundEnd::Done => panic!("expected tools"),
    }
    assert_eq!(MAX_TOOL_ROUNDS, 10);
}

#[test]
fn whole_reply_outcomes() {
    let blocks = vec![
        block("text", Some("Hello "), None, None),
        block("tool_use", None, Some("c1"), Some("gmail_inbox")),
        block("text", Some("world"), None, None),
        block("tool_use", None, None, Some("x")),
    ];
    assert_eq!(reply_text(&blocks), "Hello world");
    let tu = tool_uses(&blocks);
    assert_eq!(tu.len(), 2);
    assert_eq!((tu[0].position, tu[0].id.as_str(), tu[0].name.as_str()), (1, "c1", "gmail_inbox"));
    assert_eq!((tu[1].position, tu[1].id.as_str()), (3, ""));
    match reply_outcome(&None, "m", "m", "f", &Some("end_turn".into()), &blocks) {
        ReplyOutcome::Answer(t) => assert_eq!(t, "Hello world"),
        other => panic!("unexpected {:?}", other),
    }
    match reply_outcome(&None, "m", "m", "f", &Some("tool_use".into()), &blocks) {
        ReplyOutcome::Tools(ts) => assert_eq!(ts.len(), 2),
        other => panic!("unexpected {:?}", other),
    }
    match reply_outcome(&Some("unavailable".into()), "m", "m", "f", &None, &blocks) {
        ReplyOutcome::Retry(m) => assert_eq!(m, "f"),
        other => panic!("unexpected {:?}", other),
    }
    match reply_outcome(&Some("unavailable".into()), "f", "m", "f", &None, &blocks) {
        ReplyOutcome::Fail(e) => assert_eq!(e, "unavailable"),
        other => panic!("unexpected {:?}", other),
    }
}

#[test]
fn terminal_outcomes() {
    let blocks = vec![block("text", Some("hi"), None, None), block("tool_use", None, Some("i"), Some("n"))];
    match cli_outcome(&Some("boom".into()), &None, &blocks) {
        CliOutcome::Failed(t) => assert_eq!(t, "API error: boom"),
        other => panic!("unexpected {:?}", other),
    }
    match cli_outcome(&None, &Some("end_turn".into()), &blocks) {
        CliOutcome::Reply(t) => assert_eq!(t, "hi"),
        other => panic!("unexpected {:?}", other),
    }
    match cli_outcome(&None, &Some("tool_use".into()), &blocks) {
        CliOutcome::Tools(ts) => assert_eq!(ts[0].name, "n"),
        other => panic!("unexpected {:?}", other),
    }
    assert_eq!(error_text("x"), "Error: x");
    assert_eq!(remote_tool_error("refused"), "Error calling server_auto: refused");
    assert_eq!(max_rounds_reply(), "Error: tool call loop exceeded max rounds");
}

#[test]
fn chat_route_rules() {
    assert_eq!(session_id_or_default(None), "default");
    assert_eq!(session_id_or_default(Some("s9".into())), "s9");
    assert_eq!(system_prompt("You help.", "I am Leva."), "You help.\n\n# Core Identity (Soul)\n\nI am Leva.");
    assert_eq!(
        full_text_payload("data: data: {\"type\":\"done\",\"full_text\":\"hi\"}  "),
        Some("{\"type\":\"done\",\"full_text\":\"hi\"}".to_string())
    );
    assert_eq!(full_text_payload("data: {\"token\":\"x\"}"), None);
    assert!(replaces_last_content(true, Some("user".into())));
    assert!(!replaces_last_content(true, Some("assistant".into())));
    assert!(!replaces_last_content(false, Some("user".into())));
    assert!(!replaces_last_content(true, None));
}

#[test]
fn model_switching() {
    let models = available_models();
    assert_eq!(models, &["gpt-4.1-mini", "gpt-4.1", "gpt-4o", "gpt-4o-mini", "o3-mini"]);
    match choose_model(&ModelSwitch { model: "gpt-4o".into() }) {
        ModelChoice::Accepted(m) => assert_eq!(m, "gpt-4o"),
        other => panic!("unexpected {:?}", other),
    }
    match choose_model(&ModelSwitch { model: "gpt-5".into() }) {
        ModelChoice::Unknown(e) => assert_eq!(e, "Unknown model: gpt-5"),
        other => panic!("unexpected {:?}", other),
    }
}

#[test]
fn tool_routing() {
    assert_eq!(tool_url(8001, "gmail_inbox"), "http://127.0.0.1:8001/tools/gmail_inbox");
    assert!(matches!(route("memory_search", 8001), ToolRoute::Local));
    match route("web_fetch", 9001) {
        ToolRoute::Remote(u) => assert_eq!(u, "http://127.0.0.1:9001/tools/web_fetch"),
        other => panic!("unexpected {:?}", other),
    }
    assert_eq!(read_error("eof"), "Error reading response: eof");
    assert_eq!(call_error("web_fetch", "refused"), "Error calling server_auto tool 'web_fetch': refused");
}

#[test]
fn app_state_starts_empty() {
    let s = AppState::new();
    assert!(!s.store.is_cached("default"));
}

#[test]
fn job_lifecycle() {
    assert_eq!(job_id_from_uuid("1b4e28ba-2fa1-11d2-883f-0016d3cca427"), "1b4e28ba");
    assert_eq!(job_result("test"), "test completed");
    assert_eq!(job_result("other"), "unknown type: other");
    let mut js = JobState::new();
    let started = js.start_job("j1".into(), "test");
    assert_eq!(started.status, "running");
    assert!(started.result.is_none() && started.error.is_none());
    assert_eq!(js.get_job("j1").unwrap().status, "running");
    js.complete_job("j1");
    let done = js.get_job("j1").unwrap();
    assert_eq!(done.status, "completed");
    assert_eq!(done.result.as_deref(), Some("test completed"));
    assert_eq!(done.job_type, "test");
    js.complete_job("missing");
    assert!(js.get_job("missing").is_none());
    js.start_job("j2".into(), "weird");
    js.complete_job("j2");
    assert_eq!(js.get_job("j2").unwrap().result.as_deref(), Some("unknown type: weird"));
    let all = js.list_jobs();
    assert_eq!(all.len(), 2);
    let copy = all[0].copy();
    assert_eq!(copy.job_id, all[0].job_id);
}

#[test]
fn turn_loop_rounds_and_fallback() {
    let mut t = TurnLoop::new("p", "f");
    assert_eq!(t.next_request().as_deref(), Some("p"));
    match t.on_error("model overloaded") {
        ErrorAction::Retry(m) => assert_eq!(m, "f"),
        other => panic!("unexpected {:?}", other),
    }
    assert_eq!(t.next_request().as_deref(), Some("f"));
    match t.on_error("model overloaded") {
        ErrorAction::Fail(e) => assert_eq!(e, "model overloaded"),
        other => panic!("unexpected {:?}", other),
    }
    let mut made = 2;
    while t.next_request().is_some() {
        made += 1;
    }
    assert_eq!(made, MAX_TOOL_ROUNDS);
    assert!(t.next_request().is_none());
}

#[test]
fn prompt_lines() {
    assert!(matches!(repl_input("   "), ReplInput::Skip));
    assert!(matches!(repl_input(""), ReplInput::Skip));
    assert!(matches!(repl_input(" exit "), ReplInput::Quit));
    assert!(matches!(repl_input("quit"), ReplInput::Quit));
    match repl_input("  hello there \n") {
        ReplInput::Message(m) => assert_eq!(m, "hello there"),
        other => panic!("unexpected {:?}", other),
    }
    assert!(matches!(repl_input("exit now"), ReplInput::Message(_)));
}

#[test]
fn client_frames() {
    assert_eq!(token_frame("Hi"), "data: {\"token\":\"Hi\"}\n\n");
    assert_eq!(token_frame("a\"b\\c\nd\t\u{1}é"), "data: {\"token\":\"a\\\"b\\\\c\\nd\\t\\u0001é\"}\n\n");
    for t in ["x\u{8}\u{c}\r\u{1f}\u{7f}", "", "日本"] {
        let want = format!("data: {{\"token\":{}}}\n\n", serde_json::to_string(t).unwrap());
        assert_eq!(token_frame(t), want);
    }
    assert_eq!(status_frame(), "data: {\"status\":\"Using tools...\"}\n\n");
    assert_eq!(error_frame("bad"), "data: {\"error\":\"bad\"}\n\n");
    assert_eq!(
        closing_frames("all of it"),
        vec!["data: [DONE]\n\n".to_string(), "data: {\"full_text\":\"all of it\"}\n\n".to_string()]
    );
}

#[test]
fn tool_round_messages() {
    let calls = vec![
        ToolBlock { index: 1, id: "a".into(), name: "file_read".into(), args: "{\"path\":\"x\"}".into() },
        ToolBlock { index: 4, id: "b".into(), name: "web_fetch".into(), args: "".into() },
    ];
    let blocks = assistant_content(Some("Looking.".into()), &calls);
    assert_eq!(blocks.len(), 3);
    assert!(matches!(&blocks[0], ContentBlock::Text(t) if t == "Looking."));
    assert!(matches!(&blocks[2], ContentBlock::ToolUse { id, args, .. } if id == "b" && args.is_empty()));
    let none = assistant_content(None, &calls);
    assert!(matches!(&none[0], ContentBlock::ToolUse { name, .. } if name == "file_read"));
    let rs = tool_results(&calls, vec!["r1".into(), "r2".into()]);
    assert_eq!((rs[0].tool_use_id.as_str(), rs[0].content.as_str()), ("a", "r1"));
    assert_eq!((rs[1].tool_use_id.as_str(), rs[1].content.as_str()), ("b", "r2"));
}
