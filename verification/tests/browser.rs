use leva::cdp_browser::actions::{
    dry_run_action, like_click_script, like_info_script, keep_authored, keep_titled, page_text, search_url, LinkedInPost, SearchResult,
};
use leva::cdp_browser::client::{
    attach_candidates, close_tab_url, decode_screenshot, list_tabs_url, new_tab_url, poll_steps,
    session_ws_url, TabInfo,
};
use leva::cdp_browser::perplexity::check_api_key;

fn tab(id: &str, url: &str, title: &str, ws: &str) -> TabInfo {
    TabInfo { id: id.into(), url: url.into(), title: title.into(), ws_url: ws.into() }
}

#[test]
fn google_search_url() {
    assert_eq!(search_url("rust verus"), "https://www.google.com/search?q=rust%20verus");
    assert_eq!(search_url("a+b/c"), "https://www.google.com/search?q=a%2Bb%2Fc");
}

#[test]
fn results_without_title_dropped() {
    let v = vec![
        SearchResult { title: "A".into(), url: "u1".into(), snippet: "s".into() },
        SearchResult { title: "".into(), url: "u2".into(), snippet: "".into() },
        SearchResult { title: "C".into(), url: "u3".into(), snippet: "".into() },
    ];
    let r = keep_titled(v);
    assert_eq!(r.len(), 2);
    assert_eq!(r[0].url, "u1");
    assert_eq!(r[1].url, "u3");
}

#[test]
fn posts_without_author_dropped() {
    let v = vec![
        LinkedInPost { author: "".into(), text: "ad".into(), likes: "".into() },
        LinkedInPost { author: "Bo".into(), text: "hi".into(), likes: "3".into() },
    ];
    let r = keep_authored(v);
    assert_eq!(r.len(), 1);
    assert_eq!(r[0].author, "Bo");
}

#[test]
fn page_text_trims_and_truncates() {
    assert_eq!(page_text("  short  ", 100), "short");
    assert_eq!(page_text("abcdef", 3), "abc\n...[truncated]");
    assert_eq!(page_text("abc", 3), "abc");
    // the cut counts characters, not bytes
    assert_eq!(page_text("ééé", 2), "éé\n...[truncated]");
    assert_eq!(page_text("ééé", 3), "ééé");
    assert_eq!(page_text("  日本語テキスト ", 1), "日\n...[truncated]");
}

#[test]
fn devtools_endpoints() {
    assert_eq!(list_tabs_url(), "http://127.0.0.1:9222/json");
    assert_eq!(new_tab_url("https://x.y/"), "http://127.0.0.1:9222/json/new?https://x.y/");
    assert_eq!(close_tab_url("T1"), "http://127.0.0.1:9222/json/close/T1");
    assert_eq!(session_ws_url(&tab("T1", "", "", "")), "ws://127.0.0.1:9222/devtools/page/T1");
    assert_eq!(session_ws_url(&tab("T1", "", "", "ws://h/x")), "ws://h/x");
}

#[test]
fn polling_steps() {
    assert_eq!(poll_steps(5000), 50);
    assert_eq!(poll_steps(50), 1);
    assert_eq!(poll_steps(0), 1);
    assert_eq!(poll_steps(250), 2);
}

#[test]
fn feed_tabs_first() {
    let tabs = vec![
        tab("0", "https://www.linkedin.com/in/me", "Profile", "ws0"),
        tab("1", "https://www.linkedin.com/feed/", "Feed | LinkedIn", "ws1"),
        tab("2", "https://example.com", "Feed", "ws2"),
        tab("3", "https://www.linkedin.com/feed/", "Feed", ""),
        tab("4", "https://www.linkedin.com/jobs", "Jobs", "ws4"),
    ];
    assert_eq!(attach_candidates(&tabs, "https://www.linkedin.com"), vec![1, 0, 4]);
    assert!(attach_candidates(&tabs, "https://nowhere").is_empty());
}

#[test]
fn screenshot_data() {
    assert_eq!(decode_screenshot("iVBORw=="), Some(vec![0x89, 0x50, 0x4e, 0x47]));
    assert_eq!(decode_screenshot("not base64!"), None);
}

#[test]
fn perplexity_key_required() {
    assert_eq!(check_api_key(""), Err("PERPLEXITY_API_KEY not set in .env".to_string()));
    assert_eq!(check_api_key("pplx"), Ok(()));
}

#[test]
fn like_scripts_name_the_post() {
    let info = like_info_script(3);
    assert!(info.contains("var el = items[3];"));
    assert!(info.contains("like_button_found: likeBtn !== null"));
    assert!(info.contains("return JSON.stringify({error: 'post not found'});"));
    let click = like_click_script(12);
    assert!(click.contains("var el = items[12];"));
    assert!(click.contains("btn.click();"));
    assert!(!click.contains("{{"));
    assert_eq!(dry_run_action(), "not liked (dry run)");
}
