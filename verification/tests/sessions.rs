use leva::common::config::{join, Config, EnvSettings};
use leva::common::memory_store::{session_file_name, SessionStore, MAX_MESSAGES};
use leva::common::types::{copy_messages, ChatMessage, MessageContent};
use leva::gmail_api::auth::{
    chosen_access_token, creds_path, refreshed_token, should_refresh, token_missing_message,
    token_path, Token,
};

fn text_of(m: &ChatMessage) -> String {
    match &m.content {
        MessageContent::Text(t) => t.clone(),
        MessageContent::Json(j) => format!("json:{j}"),
    }
}

#[test]
fn new_store_is_empty() {
    let s = SessionStore::new();
    assert!(!s.is_cached("a"));
}

#[test]
fn load_after_add_gives_the_message() {
    let mut s = SessionStore::new();
    let r = s.add_message("s1", "user", "hello");
    assert_eq!(r.len(), 1);
    assert_eq!(r[0].role, "user");
    assert_eq!(text_of(&r[0]), "hello");
    assert!(r[0].tool_calls.is_none() && r[0].tool_call_id.is_none() && r[0].name.is_none());
    let got = s.get_messages("s1", vec![ChatMessage::text("x", "from disk")]);
    assert_eq!(got.len(), 1);
    assert_eq!(text_of(&got[0]), "hello");
}

#[test]
fn fresh_store_reloads_what_was_saved() {
    let mut s = SessionStore::new();
    s.add_message("s1", "user", "hello");
    let saved = s.add_message("s1", "assistant", "hi there");
    let mut fresh = SessionStore::new();
    let got = fresh.get_messages("s1", copy_messages(&saved));
    let want = s.get_messages("s1", Vec::new());
    assert_eq!(got.len(), 2);
    assert_eq!(got.len(), want.len());
    for (a, b) in got.iter().zip(want.iter()) {
        assert_eq!(a.role, b.role);
        assert_eq!(text_of(a), text_of(b));
    }
}

#[test]
fn load_caches_what_disk_gave() {
    let mut s = SessionStore::new();
    let first = s.get_messages("s", vec![ChatMessage::text("user", "a")]);
    assert_eq!(first.len(), 1);
    assert!(s.is_cached("s"));
    let second = s.get_messages("s", vec![]);
    assert_eq!(second.len(), 1);
    assert_eq!(text_of(&second[0]), "a");
    let r = s.add_message("s", "assistant", "b");
    assert_eq!(r.len(), 2);
    assert_eq!(text_of(&r[0]), "a");
    assert_eq!(r[1].role, "assistant");
}

#[test]
fn history_keeps_last_fifty() {
    let mut s = SessionStore::new();
    let mut last = Vec::new();
    for i in 0..(MAX_MESSAGES + 7) {
        last = s.add_message("long", "user", &format!("m{i}"));
    }
    assert_eq!(MAX_MESSAGES, 50);
    assert_eq!(last.len(), 50);
    assert_eq!(text_of(&last[0]), "m7");
    assert_eq!(text_of(&last[49]), "m56");
}

#[test]
fn sessions_are_isolated() {
    let mut s = SessionStore::new();
    s.add_message("a", "user", "1");
    s.add_message("b", "user", "2");
    s.add_message("a", "user", "3");
    let b = s.get_messages("b", vec![]);
    assert_eq!(b.len(), 1);
    assert_eq!(text_of(&b[0]), "2");
}

#[test]
fn get_session_and_delete() {
    let mut s = SessionStore::new();
    assert!(s.get_session("none", false, vec![]).is_none());
    assert!(!s.is_cached("none"));
    let got = s.get_session("f", true, vec![ChatMessage::text("user", "saved")]).unwrap();
    assert_eq!(text_of(&got[0]), "saved");
    assert!(s.is_cached("f"));
    s.add_message("g", "user", "x");
    s.delete_session("f");
    assert!(!s.is_cached("f"));
    assert!(s.is_cached("g"));
    assert!(s.get_session("f", false, vec![]).is_none());
    s.delete_session("missing");
    assert!(s.is_cached("g"));
}

#[test]
fn copy_keeps_every_field() {
    let m = ChatMessage {
        role: "tool".into(),
        content: MessageContent::Json("[1,2]".into()),
        tool_calls: Some("[]".into()),
        tool_call_id: Some("c1".into()),
        name: Some("n".into()),
    };
    let c = m.copy();
    assert_eq!(c.role, "tool");
    assert_eq!(text_of(&c), "json:[1,2]");
    assert_eq!(c.tool_calls.as_deref(), Some("[]"));
    assert_eq!(c.tool_call_id.as_deref(), Some("c1"));
    assert_eq!(c.name.as_deref(), Some("n"));
    assert_eq!(copy_messages(&vec![m, c]).len(), 2);
}

#[test]
fn session_file_names_are_flat() {
    assert_eq!(session_file_name("abc"), "abc.json");
    assert_eq!(session_file_name("a/b/../c"), "a_b_.._c.json");
    assert!(!session_file_name("../../etc/passwd").contains('/'));
}

#[test]
fn list_sessions_sorted_json_stems() {
    let v = SessionStore::new().list_sessions(vec![
        "zeta.json".into(),
        "notes.txt".into(),
        "alpha.json".into(),
        ".json".into(),
        "mid.json".into(),
    ]);
    assert_eq!(v, vec!["".to_string(), "alpha".into(), "mid".into(), "zeta".into()]);
}

#[test]
fn path_join() {
    assert_eq!(join("/a/b", "c"), "/a/b/c");
    assert_eq!(join("/a/b/", "c"), "/a/b/c");
    assert_eq!(join("", "c"), "c");
}

fn env(priv_dir: Option<&str>) -> EnvSettings {
    EnvSettings {
        priv_dir: priv_dir.map(|s| s.to_string()),
        base_dir: "/base".into(),
        openai_api_key: None,
        anthropic_api_key: Some("ak".into()),
        model_name: None,
        fallback_model: None,
        llm_port: Some("9000".into()),
        auto_port: Some("notaport".into()),
        perplexity_api_key: None,
    }
}

#[test]
fn config_defaults_and_dirs() {
    let c = Config::from_settings(&env(None));
    assert_eq!(c.base_dir, "/base");
    assert_eq!(c.prompts_dir, "/base/prompts");
    assert_eq!(c.soul_dir, "/base/soul");
    assert_eq!(c.reference_dir, "/base/reference");
    assert_eq!(c.memory_dir, "/base/memory");
    assert_eq!(c.memory_topics_dir, "/base/memory/topics");
    assert_eq!(c.credentials_dir, "/base/credentials");
    assert_eq!(c.model_name, "gpt-4.1-mini");
    assert_eq!(c.openai_api_key, "");
    assert_eq!(c.anthropic_api_key, "ak");
    assert_eq!(c.fallback_model, "");
    assert_eq!(c.llm_port, 9000);
    assert_eq!(c.auto_port, 8001);
    assert_eq!(c.perplexity_api_key, "");
}

#[test]
fn config_port_text() {
    for (text, port) in [("", 8000), ("+", 8000), ("00080", 80), ("65535", 65535), ("65536", 8000), ("-1", 8000), (" 80", 8000), ("8a", 8000), ("+0", 0)] {
        let mut e = env(None);
        e.llm_port = Some(text.into());
        assert_eq!(Config::from_settings(&e).llm_port, port, "{text:?}");
    }
}

#[test]
fn config_private_dir() {
    let mut e = env(Some("/priv"));
    e.llm_port = Some("70000".into());
    e.auto_port = Some("+8002".into());
    e.model_name = Some("sonnet".into());
    let c = Config::from_settings(&e);
    assert_eq!(c.priv_dir.as_deref(), Some("/priv"));
    assert_eq!(c.memory_dir, "/priv/memory");
    assert_eq!(c.memory_topics_dir, "/priv/memory/topics");
    assert_eq!(c.credentials_dir, "/priv/credentials");
    assert_eq!(c.prompts_dir, "/base/prompts");
    assert_eq!(c.llm_port, 8000);
    assert_eq!(c.auto_port, 8002);
    assert_eq!(c.model_name, "sonnet");
}

#[test]
fn gmail_token_files_and_refresh() {
    assert_eq!(token_path("/c"), "/c/gmail_token.json");
    assert_eq!(creds_path("/c/"), "/c/gmail_credentials.json");
    assert_eq!(
        token_missing_message("/c/gmail_token.json"),
        "Gmail token not found at /c/gmail_token.json. Run `cargo run --bin gmail-auth` to authenticate."
    );
    let saved = Token { access_token: "old".into(), refresh_token: "r".into(), expires_in: 10 };
    // still valid: saved at 100, lasts until 110
    assert!(!should_refresh(&saved, 100, 109));
    assert!(should_refresh(&saved, 100, 110));
    assert!(should_refresh(&saved, 100, 5000));
    // a clock before the save time does not count as expired
    assert!(!should_refresh(&saved, 100, 50));
    assert!(!should_refresh(&saved, u64::MAX, u64::MAX - 1));
    let empty = Token { access_token: "".into(), refresh_token: "r".into(), expires_in: 3600 };
    assert!(should_refresh(&empty, 100, 101));
    let none = Token { access_token: "".into(), refresh_token: "".into(), expires_in: 0 };
    assert!(!should_refresh(&none, 0, 1000));
    let t = refreshed_token(Some("new".into()), None, "r");
    assert_eq!(t.access_token, "new");
    assert_eq!(t.refresh_token, "r");
    assert_eq!(t.expires_in, 3600);
    let t2 = refreshed_token(None, Some(5), "r");
    assert_eq!(t2.access_token, "");
    assert_eq!(t2.expires_in, 5);
    assert_eq!(chosen_access_token(&saved, Some(t)), "new");
    assert_eq!(chosen_access_token(&saved, None), "old");
}
