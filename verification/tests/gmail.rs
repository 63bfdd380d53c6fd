use leva::gmail_api::auth::{
    chosen_access_token, creds_path, refreshed_token, should_refresh, token_missing_message,
    token_path, Token,
};
use leva::gmail_api::client::{
    attachment_source, attachment_url, auth_header, collect_attachment_infos, email_full,
    email_summary, encode_message, extract_body, extract_body_html, extract_body_prefer_plain,
    extract_body_raw_html, forward_boundary, forward_raw, forward_subject, full_message_url,
    header_value, html_email_raw, inbox_url, label_names, labels_url, metadata_url, plain_email_raw,
    plan_forward, send_url, strip_html_tags, summarize, uuid_hex, Attachment, AttachmentSource,
    HeaderField, Payload,
};
use leva::gmail_api::routes::{max_results_arg, INBOX_DEFAULT, SEARCH_DEFAULT};

fn h(name: &str, value: &str) -> HeaderField {
    HeaderField { name: Some(name.to_string()), value: Some(value.to_string()) }
}

fn leaf(mime: &str, data: Option<&str>) -> Payload {
    Payload {
        mime_type: Some(mime.to_string()),
        filename: None,
        body_data: data.map(|s| s.to_string()),
        attachment_id: None,
        headers: vec![],
        parts: vec![],
    }
}

fn b64(s: &str) -> String {
    encode_message(s)
}

fn multipart(headers: Vec<HeaderField>, parts: Vec<Payload>) -> Payload {
    Payload {
        mime_type: Some("multipart/mixed".to_string()),
        filename: None,
        body_data: None,
        attachment_id: None,
        headers,
        parts,
    }
}

#[test]
fn header_value_last_wins_and_missing_is_empty() {
    let hs = vec![
        h("Subject", "first"),
        HeaderField { name: Some("Subject".to_string()), value: None },
        h("From", "a@b"),
        h("Subject", "second"),
    ];
    assert_eq!(header_value(&hs, "Subject"), "second");
    assert_eq!(header_value(&hs, "From"), "a@b");
    assert_eq!(header_value(&hs, "To"), "");
    assert_eq!(header_value(&hs, "subject"), "");
}

#[test]
fn body_prefers_plain_text() {
    let p = multipart(
        vec![],
        vec![leaf("text/html", Some(&b64("<p>Hi</p>"))), leaf("text/plain", Some(&b64("Hi plain")))],
    );
    assert_eq!(extract_body_prefer_plain(&p), Some("Hi plain".to_string()));
    assert_eq!(extract_body(&p), "Hi plain");
    assert_eq!(extract_body_raw_html(&p), Some("<p>Hi</p>".to_string()));
    assert_eq!(extract_body_html(&p), Some("Hi\n".to_string()));
}

#[test]
fn body_falls_back_to_html_then_empty() {
    let p = multipart(vec![], vec![leaf("text/html", Some(&b64("<b>Bold</b>")))]);
    assert_eq!(extract_body(&p), "Bold\n");
    let q = multipart(vec![], vec![leaf("image/png", Some(&b64("x")))]);
    assert_eq!(extract_body(&q), "");
    assert_eq!(extract_body_prefer_plain(&q), None);
}

#[test]
fn body_skips_empty_parts_depth_first() {
    let inner = multipart(vec![], vec![leaf("text/plain", Some(&b64("deep")))]);
    let p = multipart(vec![], vec![leaf("text/plain", Some("")), inner, leaf("text/plain", Some(&b64("late")))]);
    assert_eq!(extract_body(&p), "deep");
}

#[test]
fn strip_html_collapses_blank_lines() {
    assert_eq!(strip_html_tags("<div>\n  a  \n\n\n\n b</div>"), "\na\n\nb\n");
    assert_eq!(strip_html_tags(""), "");
    assert_eq!(strip_html_tags("x<y"), "x\n");
}

#[test]
fn summary_reads_headers_and_snippet() {
    let hs = vec![h("From", "Ann <ann@x>"), h("Subject", "Hello"), h("Date", "Mon")];
    let s = email_summary("m1", &hs, Some("snip".to_string()));
    assert_eq!(s.id, "m1");
    assert_eq!(s.from, "Ann <ann@x>");
    assert_eq!(s.subject, "Hello");
    assert_eq!(s.date, "Mon");
    assert_eq!(s.snippet, "snip");
    let s2 = email_summary("m2", &vec![], None);
    assert_eq!(s2.snippet, "");
    assert_eq!(s2.from, "");
}

#[test]
fn full_message_uses_html_for_display() {
    let p = multipart(
        vec![h("From", "a"), h("To", "b"), h("Subject", "s"), h("Date", "d")],
        vec![leaf("text/plain", Some(&b64("plain"))), leaf("text/html", Some(&b64("<i>rich</i>")))],
    );
    let e = email_full("id9", &p);
    assert_eq!(e.id, "id9");
    assert_eq!(e.to, "b");
    assert_eq!(e.body_html, "<i>rich</i>");
    assert_eq!(e.body, "rich\n");
    let q = multipart(vec![], vec![leaf("text/plain", Some(&b64("only plain")))]);
    let e2 = email_full("id10", &q);
    assert_eq!(e2.body_html, "");
    assert_eq!(e2.body, "only plain");
}

#[test]
fn payload_summary_keeps_shape() {
    let p = multipart(vec![], vec![leaf("text/plain", Some("abcd")), leaf("text/html", None)]);
    let s = summarize(&p);
    assert_eq!(s.mime_type, "multipart/mixed");
    assert_eq!(s.body_data_len, 0);
    assert_eq!(s.parts.len(), 2);
    assert_eq!(s.parts[0].body_data_len, 4);
    assert_eq!(s.parts[1].mime_type, "text/html");
}

#[test]
fn attachments_found_in_tree_order() {
    let mut a = leaf("application/pdf", None);
    a.filename = Some("a.pdf".to_string());
    a.attachment_id = Some("ATT1".to_string());
    let mut b = leaf("text/plain", Some("ZGF0YQ"));
    b.filename = Some("b.txt".to_string());
    let mut c = leaf("text/plain", None);
    c.filename = Some("no-data.txt".to_string());
    let mut d = Payload {
        mime_type: None,
        filename: Some("d.bin".to_string()),
        body_data: None,
        attachment_id: Some("ATT4".to_string()),
        headers: vec![],
        parts: vec![],
    };
    d.parts = vec![];
    let p = multipart(vec![], vec![a, multipart(vec![], vec![b, c]), d]);
    let mut out = Vec::new();
    collect_attachment_infos(&p, &mut out);
    assert_eq!(out.len(), 3);
    assert_eq!(out[0].filename, "a.pdf");
    assert_eq!(out[0].source, "ATT1");
    assert_eq!(out[1].filename, "b.txt");
    assert_eq!(out[1].source, "inline:ZGF0YQ");
    assert_eq!(out[2].mime_type, "application/octet-stream");
    assert_eq!(out[2].source, "ATT4");
}

#[test]
fn attachment_source_inline_or_fetch() {
    match attachment_source("inline:QUJD") {
        AttachmentSource::Inline(d) => assert_eq!(d, "QUJD"),
        other => panic!("unexpected {:?}", other),
    }
    match attachment_source("ANGjd") {
        AttachmentSource::Fetch(id) => assert_eq!(id, "ANGjd"),
        other => panic!("unexpected {:?}", other),
    }
    match attachment_source("inline:") {
        AttachmentSource::Inline(d) => assert_eq!(d, ""),
        other => panic!("unexpected {:?}", other),
    }
}

#[test]
fn outgoing_raw_messages() {
    assert_eq!(
        plain_email_raw("x@y", "Hi", "Body"),
        "To: x@y\r\nSubject: Hi\r\nContent-Type: text/plain; charset=UTF-8\r\n\r\nBody"
    );
    assert_eq!(
        html_email_raw("x@y", "Hi", "<p>B</p>"),
        "To: x@y\r\nSubject: Hi\r\nMIME-Version: 1.0\r\nContent-Type: text/html; charset=UTF-8\r\n\r\n<p>B</p>"
    );
}

#[test]
fn forward_subject_prefix_once() {
    assert_eq!(forward_subject("Hello"), "Fwd: Hello");
    assert_eq!(forward_subject("Fwd: Hello"), "Fwd: Hello");
    assert_eq!(forward_subject("Fwd:x"), "Fwd:x");
    assert_eq!(forward_subject(""), "Fwd: ");
    // a forward of a forward keeps one prefix
    let once = forward_subject("Report");
    assert_eq!(forward_subject(&once), once);
}

#[test]
fn forward_plan_with_html_body() {
    let mut att = leaf("image/png", None);
    att.filename = Some("pic.png".to_string());
    att.attachment_id = Some("A1".to_string());
    let p = multipart(
        vec![h("From", "f"), h("Date", "d"), h("Subject", "s"), h("To", "t")],
        vec![leaf("text/html", Some(&b64("<p>x</p>"))), att],
    );
    let plan = plan_forward(&p);
    assert_eq!(plan.subject, "Fwd: s");
    assert_eq!(
        plan.html_body,
        "<div style=\"margin-bottom:16px\">---------- Forwarded message ----------<br>From: f<br>Date: d<br>Subject: s<br>To: t</div><p>x</p>"
    );
    assert_eq!(plan.attachments.len(), 1);
    assert_eq!(plan.attachments[0].source, "A1");
}

#[test]
fn forward_plan_with_plain_body() {
    let p = multipart(vec![], vec![leaf("text/plain", Some(&b64("a<b")))]);
    let plan = plan_forward(&p);
    assert_eq!(
        plan.html_body,
        "<div style=\"margin-bottom:16px\">---------- Forwarded message ----------<br>From: <br>Date: <br>Subject: <br>To: </div><pre style=\"white-space:pre-wrap\">a<b</pre>"
    );
    assert!(plan.attachments.is_empty());
}

#[test]
fn forward_raw_without_attachments() {
    let raw = forward_raw("t@x", "Fwd: s", "<p>hi</p>", &vec![], "B");
    assert_eq!(
        raw,
        "To: t@x\r\nSubject: Fwd: s\r\nMIME-Version: 1.0\r\nContent-Type: text/html; charset=UTF-8\r\nContent-Transfer-Encoding: base64\r\n\r\nPHA+aGk8L3A+"
    );
    // an attachment without data is left out
    let empty = vec![Attachment { filename: "e".into(), mime_type: "x/y".into(), data_b64: String::new() }];
    assert_eq!(forward_raw("t@x", "Fwd: s", "<p>hi</p>", &empty, "B"), raw);
}

#[test]
fn forward_raw_multipart() {
    let atts = vec![Attachment {
        filename: "a.txt".into(),
        mime_type: "text/plain".into(),
        data_b64: "-_8".into(),
    }];
    let raw = forward_raw("t", "S", "h", &atts, "BND");
    assert_eq!(
        raw,
        "To: t\r\nSubject: S\r\nMIME-Version: 1.0\r\nContent-Type: multipart/mixed; boundary=\"BND\"\r\n\r\n--BND\r\nContent-Type: text/html; charset=UTF-8\r\nContent-Transfer-Encoding: base64\r\n\r\naA==\r\n--BND\r\nContent-Type: text/plain; name=\"a.txt\"\r\nContent-Transfer-Encoding: base64\r\nContent-Disposition: attachment; filename=\"a.txt\"\r\n\r\n+/8=\r\n--BND--"
    );
}

#[test]
fn boundary_from_time() {
    assert_eq!(uuid_hex(255, 16), "ff10");
    assert_eq!(forward_boundary(0, 0), "fwd_boundary_00");
    assert_eq!(forward_boundary(4096, 1), "fwd_boundary_10001");
}

#[test]
fn request_urls() {
    let base = "https://www.googleapis.com/gmail/v1/users/me";
    assert_eq!(auth_header("tok"), "Bearer tok");
    assert_eq!(inbox_url(15), format!("{base}/messages?labelIds=INBOX&maxResults=15"));
    assert_eq!(
        metadata_url("abc"),
        format!("{base}/messages/abc?format=metadata&metadataHeaders=From&metadataHeaders=Subject&metadataHeaders=Date")
    );
    assert_eq!(full_message_url("abc"), format!("{base}/messages/abc?format=full"));
    assert_eq!(attachment_url("m", "a"), format!("{base}/messages/m/attachments/a"));
    assert_eq!(send_url(), format!("{base}/messages/send"));
    assert_eq!(labels_url(), format!("{base}/labels"));
}

#[test]
fn label_names_skip_missing() {
    let v = label_names(vec![Some("INBOX".into()), None, Some("Work".into())]);
    assert_eq!(v, vec!["INBOX".to_string(), "Work".to_string()]);
}

#[test]
fn max_results_defaults() {
    assert_eq!(INBOX_DEFAULT, 15);
    assert_eq!(SEARCH_DEFAULT, 10);
    assert_eq!(max_results_arg(None, INBOX_DEFAULT), 15);
    assert_eq!(max_results_arg(Some(3), INBOX_DEFAULT), 3);
}

#[test]
fn strip_html_at_most_one_blank_line() {
    for html in [
        "\n\n\n\n<p>a</p>\n\n\n\n\n<p>b</p>\n\n\n",
        "<br>\r\n\r\n\r\n<br>x",
        "   \n \t \n<div> </div>\n\ny\n\n",
    ] {
        let out = strip_html_tags(html);
        assert!(!out.contains("\n\n\n"), "{out:?}");
        assert!(!out.starts_with("\n\n"), "{out:?}");
        assert!(!out.contains('<') && !out.contains('>'));
    }
}

#[test]
fn strip_html_keeps_visible_text_in_order() {
    for (html, want) in [
        ("<p>Hi  there</p>\n\n\n<b>you</b>", "Hithereyou"),
        ("  a <i class=\"x\">b</i>\r\n c  ", "abc"),
        ("<<x>>y", "y"),
    ] {
        let out = strip_html_tags(html);
        let seen: String = out.chars().filter(|c| !c.is_whitespace()).collect();
        assert_eq!(seen, want);
        for line in out.lines() {
            assert_eq!(line, line.trim());
        }
    }
}
