use xuflow_core::num::{dec_chars, dec_i64_chars, parse_usize_chars, zero_pad_i64_chars};
use xuflow_core::order::sort_strings;
use xuflow_core::prompt::build_system_prompt;
use xuflow_core::search::{
    glob_full_pattern, glob_hidden, grep_skip_name, is_binary_extension, validate_pattern,
    GlobState, GrepState, GlobTool, GrepTool,
};
use xuflow_core::session::{
    days_to_date, imported_message, imported_project, imported_session, message_update_sql, millis_to_ts, ts_now,
    ts_to_iso, uid, ImportConversation, ImportMessage, ImportProject,
};
use xuflow_core::backend::{chat_http_error, chat_url, max_tokens_of, provider_of, stream_error, volcengine_base_url, Provider};
use xuflow_core::tokens::{char_counts, event_channel, is_cjk_char, is_structured_content, ContentShape, StreamEvent};

fn s(v: Vec<char>) -> String {
    v.into_iter().collect()
}

#[test]
fn numbers_render_and_parse() {
    assert_eq!(s(dec_chars(0)), "0");
    assert_eq!(s(dec_chars(1_234_567)), "1234567");
    assert_eq!(s(dec_i64_chars(-42)), "-42");
    assert_eq!(s(zero_pad_i64_chars(7, 3)), "007");
    assert_eq!(s(zero_pad_i64_chars(2023, 2)), "2023");
    let digits: Vec<char> = "0042".chars().collect();
    assert_eq!(parse_usize_chars(&digits), Some(42));
    let bad: Vec<char> = "4x".chars().collect();
    assert_eq!(parse_usize_chars(&bad), None);
    let empty: Vec<char> = vec![];
    assert_eq!(parse_usize_chars(&empty), None);
}

#[test]
fn strings_sort_like_std() {
    let v: Vec<String> = vec!["b", "B", "a", "ab", "", "é"].into_iter().map(String::from).collect();
    let mut expected = v.clone();
    expected.sort();
    assert_eq!(sort_strings(v), expected);
}

#[test]
fn dates_and_time_stamps() {
    assert_eq!(days_to_date(0), (1970, 1, 1));
    assert_eq!(days_to_date(19675), (2023, 11, 14));
    assert_eq!(days_to_date(-1), (1969, 12, 31));
    assert_eq!(days_to_date(11016), (2000, 2, 29));
    assert_eq!(ts_to_iso(0), "1970-01-01T00:00:00.000Z");
    assert_eq!(ts_to_iso(1_700_000_000_123), "2023-11-14T22:13:20.123Z");
    assert_eq!(millis_to_ts(5), 5);
    assert!(ts_now() > 1_600_000_000_000);
    assert_eq!(uid(1_700_000_000_000, 3), "1700000000000-3");
}

#[test]
fn tokens_and_events() {
    assert!(is_cjk_char('中'));
    assert!(is_cjk_char('カ'));
    assert!(is_cjk_char('한'));
    assert!(!is_cjk_char('a'));
    assert_eq!(char_counts("Hello 你好 World 世界"), (17, 4));
    assert_eq!(char_counts(""), (0, 0));
    assert_eq!(event_channel(&StreamEvent::ReasoningDone), "agent:reasoning-done");
    assert_eq!(event_channel(&StreamEvent::Error { message: String::new() }), "agent:error");
}

#[test]
fn test_is_structured_content_json_string() {
    let v = ContentShape::Text(r#"{"key":"value"}"#.into());
    assert!(is_structured_content(&v));
}

#[test]
fn test_is_structured_content_plain_text() {
    let v = ContentShape::Text("Hello world".into());
    assert!(!is_structured_content(&v));
}

#[test]
fn structured_content_needs_valid_json() {
    assert!(is_structured_content(&ContentShape::Text("  [1, 2, 3]\n".into())));
    assert!(!is_structured_content(&ContentShape::Text("{not json".into())));
    assert!(!is_structured_content(&ContentShape::Text("[1, 2".into())));
    assert!(!is_structured_content(&ContentShape::Text("   ".into())));
    assert!(is_structured_content(&ContentShape::Object));
    assert!(is_structured_content(&ContentShape::Array));
    assert!(!is_structured_content(&ContentShape::Other));
}

#[test]
fn system_prompt_uses_forward_slashes() {
    let p = build_system_prompt("C:\\work\\proj");
    assert!(p.contains("C:/work/proj"));
    assert!(!p.contains('\\'));
}

#[test]
fn grep_collects_numbered_lines() {
    assert!(validate_pattern("fn\\s+main").is_ok());
    let e = validate_pattern("(").unwrap_err();
    assert!(e.error.unwrap().starts_with("Invalid regex: "));
    let mut st = GrepState::new();
    assert!(st.before_entry());
    assert!(st.search("fn\\s+main", "src/main.rs", "use x;\n  fn main() {}\n"));
    assert!(!st.search("(", "src/main.rs", "fn main"));
    let r = st.finish("fn\\s+main");
    assert_eq!(r.content, "src/main.rs:2: fn main() {}");
    let r = GrepState::new().finish("zzz");
    assert_eq!(r.content, "No matches found for pattern: zzz");
    assert!(grep_skip_name(".git"));
    assert!(grep_skip_name("node_modules"));
    assert!(!grep_skip_name("."));
    assert!(!grep_skip_name("src"));
    assert!(is_binary_extension("png"));
    assert!(!is_binary_extension("rs"));
    assert_eq!(GrepTool.name(), "grep");
}

#[test]
fn grep_stops_at_five_hundred() {
    let text = "x\n".repeat(600);
    let mut st = GrepState::new();
    assert!(st.search("x", "f", &text));
    assert_eq!(st.count, 500);
    assert!(!st.before_entry());
    let r = st.finish("x");
    assert!(r.content.ends_with("f:500: x\n... (truncated, 500 matches total)"));
}

#[test]
fn glob_patterns_and_hidden_paths() {
    assert_eq!(glob_full_pattern(".", "**/*.rs"), "**/*.rs");
    assert_eq!(glob_full_pattern("src/", "/*.rs"), "src/*.rs");
    assert!(glob_hidden("a/.git/config"));
    assert!(glob_hidden("a/target/debug/x"));
    assert!(!glob_hidden("src/lib.rs"));
    let mut st = GlobState::new();
    assert!(st.before_entry());
    st.add_file("src/b.rs".to_string());
    st.add_file("node/x/node_modules/y.rs".to_string());
    st.add_file("src/a.rs".to_string());
    let r = st.finish("src/*.rs");
    assert_eq!(r.content, "src/a.rs\nsrc/b.rs");
    let r = GlobState::new().finish("*.zz");
    assert_eq!(r.content, "No files found matching pattern: *.zz");
    assert_eq!(GlobTool.name(), "glob");
}

#[test]
fn backends_are_chosen_and_addressed() {
    assert_eq!(provider_of("volcengine"), Provider::VolcEngine);
    assert_eq!(provider_of("kimi"), Provider::Kimi);
    assert_eq!(provider_of("deepseek"), Provider::DeepSeek);
    assert_eq!(provider_of("anything"), Provider::DeepSeek);
    assert_eq!(volcengine_base_url(None), "https://ark.cn-beijing.volces.com/api/v3");
    assert_eq!(volcengine_base_url(Some("http://x".into())), "http://x");
    assert_eq!(chat_url("https://api.x.com/v1//"), "https://api.x.com/v1/chat/completions");
    assert_eq!(chat_url("https://api.x.com/v1"), "https://api.x.com/v1/chat/completions");
    assert_eq!(max_tokens_of(None), 4096);
    assert_eq!(max_tokens_of(Some(300)), 300);
    assert_eq!(chat_http_error(429, Some("Too Many Requests"), "slow down"), "HTTP 429 Too Many Requests: slow down");
    assert_eq!(chat_http_error(599, None, ""), "HTTP 599 : ");
    assert_eq!(stream_error("reset"), "Stream error: reset");
}

#[test]
fn message_updates_set_the_given_fields() {
    assert_eq!(message_update_sql(false, false, false, false, false), None);
    assert_eq!(
        message_update_sql(true, false, true, false, true),
        Some("UPDATE messages SET content = ?, reasoning = ?, tool_calls = ? WHERE id = ?".to_string())
    );
    assert_eq!(
        message_update_sql(false, true, false, true, false),
        Some("UPDATE messages SET done = ?, reasoning_done = ? WHERE id = ?".to_string())
    );
}

#[test]
fn imported_rows_take_defaults() {
    let p = imported_project(&ImportProject {
        id: Some("p1".into()),
        name: None,
        path: Some("/work".into()),
        source: None,
        created_at: Some(5),
        updated_at: None,
    });
    assert_eq!(p.id, "p1");
    assert_eq!(p.name, "未命名项目");
    assert_eq!(p.path.as_deref(), Some("/work"));
    assert_eq!(p.source, "local");
    assert_eq!((p.created_at, p.updated_at), (5, 0));

    let s = imported_session(
        &p.id,
        &ImportConversation { id: None, title: Some("t".into()), title_source: None, visible: None, created_at: None, updated_at: Some(9) },
    );
    assert_eq!(s.id, "");
    assert_eq!(s.project_id, "p1");
    assert_eq!(s.title, "t");
    assert_eq!(s.title_source, "default");
    assert!(s.visible);
    assert_eq!((s.created_at, s.updated_at), (0, 9));

    let m = imported_message(
        "c1",
        &ImportMessage {
            role: Some("user".into()),
            content: None,
            done: Some(true),
            reasoning: None,
            reasoning_done: None,
            tool_calls: Some("[]".into()),
            created_at: None,
        },
        1234,
    );
    assert_eq!(m.session_id, "c1");
    assert_eq!(m.role, "user");
    assert_eq!(m.content, "");
    assert!(m.done && !m.reasoning_done);
    assert_eq!(m.reasoning, None);
    assert_eq!(m.tool_calls.as_deref(), Some("[]"));
    assert_eq!(m.created_at, 1234);
    let m2 = imported_message("c1", &ImportMessage { role: None, content: Some("x".into()), done: None, reasoning: Some("r".into()), reasoning_done: Some(true), tool_calls: None, created_at: Some(7) }, 1234);
    assert_eq!(m2.created_at, 7);
    assert_eq!(m2.reasoning.as_deref(), Some("r"));
}
