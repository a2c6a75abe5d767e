use xuflow_core::agent::{
    add_usage, bad_arguments_message, build_summary_request, build_title_request,
    build_tool_defs_with_truncation, decide_trim, denied_message, finish_summary, plan_drop,
    result_text, round_ends_run, split_mcp_name, summary_message, summary_outcome,
    tool_needs_approval, unknown_tool, usage_event, AgentSettings, ApprovalHandler,
    DenyAllHandler, RoundState, SummaryItem, ToolDefEntry, ToolInfo, MAX_TOOL_ROUNDS,
};
use xuflow_core::tokens::{default_context_window, StreamEvent, Usage};
use xuflow_core::tool::ToolResult;

fn tool(name: &str) -> ToolInfo {
    ToolInfo { name: name.to_string(), description: "A dummy tool".to_string() }
}

fn make_mcp_tools(count: usize, server: &str) -> Vec<ToolInfo> {
    (0..count).map(|i| tool(&format!("mcp__{}__tool_{}", server, i))).collect()
}

#[test]
fn test_tool_truncation_below_20_mcps_full_definition() {
    let mut all = vec![tool("read_file")];
    all.extend(make_mcp_tools(5, "filesystem"));
    let defs = build_tool_defs_with_truncation(&all);
    // 1 builtin + 5 MCP = 6 full definitions
    assert_eq!(defs.len(), 6);
    for d in &defs {
        assert!(matches!(d, ToolDefEntry::Full { .. }), "工具 {:?} 的 parameters 不应为空", d);
    }
}

#[test]
fn test_tool_truncation_21_to_40_mcps_parameters_empty() {
    let mut all = vec![tool("read_file")];
    all.extend(make_mcp_tools(25, "filesystem"));
    let defs = build_tool_defs_with_truncation(&all);
    // 1 builtin (full) + 25 MCP (empty params)
    assert_eq!(defs.len(), 26);
    assert!(matches!(defs[0], ToolDefEntry::Full { index: 0 }));
    assert!(matches!(defs[1], ToolDefEntry::Bare { index: 1 }));
}

#[test]
fn test_tool_truncation_over_40_mcps_aggregated() {
    let mut all = vec![tool("read_file")];
    all.extend(make_mcp_tools(25, "server_a"));
    all.extend(make_mcp_tools(20, "server_b"));
    let defs = build_tool_defs_with_truncation(&all);
    // 1 builtin + 2 aggregated server entries
    assert_eq!(defs.len(), 3);
    match &defs[1] {
        ToolDefEntry::ServerSummary { name, .. } => assert!(name.contains("list_tools")),
        other => panic!("unexpected {:?}", other),
    }
    match &defs[2] {
        ToolDefEntry::ServerSummary { name, .. } => assert!(name.contains("list_tools")),
        other => panic!("unexpected {:?}", other),
    }
}

#[test]
fn test_agent_context_window_defaults() {
    let settings = AgentSettings::new("test-model");
    assert_eq!(settings.context_window, 128_000);
    assert_eq!(settings.min_user_turns, 3);
    assert!(settings.summarization);
}

#[test]
fn test_default_context_window() {
    assert_eq!(default_context_window("deepseek-v4-pro"), 128_000);
    assert_eq!(default_context_window("doubao-seed-2.0-code"), 128_000);
    assert_eq!(default_context_window("unknown-model"), 128_000);
}

#[test]
fn server_summary_lists_tools_in_order() {
    let mut all = make_mcp_tools(21, "a");
    all.extend(make_mcp_tools(20, "b"));
    all.push(tool("bash"));
    let defs = build_tool_defs_with_truncation(&all);
    assert_eq!(defs.len(), 3);
    assert!(matches!(defs[0], ToolDefEntry::Full { index: 41 }));
    match &defs[1] {
        ToolDefEntry::ServerSummary { name, description } => {
            assert_eq!(name, "mcp__a__list_tools");
            assert!(description.starts_with("MCP Server 'a' 提供的工具: tool_0, tool_1, "));
            assert!(description.ends_with("tool_20"));
        }
        other => panic!("unexpected {:?}", other),
    }
}

#[test]
fn exactly_twenty_mcp_tools_stay_full() {
    let all = make_mcp_tools(20, "s");
    let defs = build_tool_defs_with_truncation(&all);
    assert_eq!(defs.len(), 20);
    assert!(defs.iter().all(|d| matches!(d, ToolDefEntry::Full { .. })));
    let all = make_mcp_tools(40, "s");
    let defs = build_tool_defs_with_truncation(&all);
    assert!(defs.iter().all(|d| matches!(d, ToolDefEntry::Bare { .. })));
}

#[test]
fn mcp_names_split_into_server_and_tool() {
    let (s, t) = split_mcp_name("mcp__github__create_issue");
    assert_eq!(s, "github");
    assert_eq!(t, "create_issue");
    let (s, t) = split_mcp_name("mcp__lonely");
    assert_eq!(s, "lonely");
    assert_eq!(t, "");
}

fn roles(v: &[&str]) -> Vec<String> {
    v.iter().map(|s| s.to_string()).collect()
}

#[test]
fn trimming_waits_for_eighty_percent() {
    let r = roles(&["system", "user", "assistant", "user", "assistant", "user", "assistant", "user"]);
    let t = vec![10u32; 8];
    // 80 tokens of a 110-token window: under 80%
    assert_eq!(decide_trim(&r, &t, 110, 3), None);
    // 80 tokens of a 100-token window: trimming, 4 turns of which 3 stay
    assert_eq!(decide_trim(&r, &t, 100, 3), Some(1));
    // no more turns than protected ones
    assert_eq!(decide_trim(&r, &t, 100, 4), None);
}

#[test]
fn dropping_keeps_system_and_recent_turns() {
    let r = roles(&["system", "user", "assistant", "user", "assistant", "user", "assistant", "user"]);
    let t = vec![10u32; 8];
    let out = plan_drop(&r, &t, 100, 3);
    // the first turn (messages 1 and 2) goes
    assert_eq!(out.keep_from, 3);
    assert_eq!(out.removed, 1);
    assert_eq!(out.tokens_freed, 20);
    assert_eq!(out.usage_percent, 60);
    // with one protected turn, turns go until the rest is under 60%
    let t = vec![0u32, 10, 10, 20, 20, 10, 10, 10];
    let out = plan_drop(&r, &t, 100, 1);
    assert_eq!(out.removed, 2);
    assert_eq!(out.keep_from, 5);
    assert_eq!(out.tokens_freed, 60);
    assert_eq!(out.usage_percent, 30);
}

#[test]
fn summary_outcome_reports_only_under_target() {
    assert_eq!(summary_outcome(900, 500, 1000, 4), Some((4, 400, 50)));
    assert_eq!(summary_outcome(900, 600, 1000, 4), None);
    assert_eq!(summary_outcome(100, 150, 1000, 2), Some((2, 0, 15)));
}

#[test]
fn summary_request_quotes_users_and_assistant() {
    let items = vec![
        SummaryItem { role: "user".into(), text: Some("加一个按钮".into()) },
        SummaryItem { role: "tool".into(), text: Some("ok".into()) },
        SummaryItem { role: "assistant".into(), text: Some("好的".into()) },
        SummaryItem { role: "assistant".into(), text: None },
    ];
    let req = build_summary_request(&items, "").unwrap();
    assert_eq!(
        req,
        "请用中文将以下对话片段压缩为一段简洁的摘要（最多 200 字），保留关键决策、代码变更内容和用户的核心意图：\n\n用户: 加一个按钮\n助手: 好的\n\n\n摘要："
    );
    let req = build_summary_request(&items, "旧摘要").unwrap();
    assert!(req.starts_with("已有的历史摘要：\n旧摘要\n\n请将以下新对话与已有摘要合并为一段摘要（最多 300 字）：\n\n用户: 加一个按钮\n"));
    assert!(req.ends_with("\n\n合并后的摘要："));
    let only_tools = vec![SummaryItem { role: "tool".into(), text: Some("x".into()) }];
    assert_eq!(build_summary_request(&only_tools, ""), None);
}

#[test]
fn long_messages_are_cut_in_summaries() {
    let long = "a".repeat(600);
    let items = vec![SummaryItem { role: "user".into(), text: Some(long) }];
    let req = build_summary_request(&items, "").unwrap();
    assert!(req.contains(&format!("用户: {}...\n", "a".repeat(500))));
    assert!(!req.contains(&"a".repeat(501)));
}

#[test]
fn summaries_are_trimmed_and_wrapped() {
    assert_eq!(finish_summary("  要点  \n"), Some("要点".to_string()));
    assert_eq!(finish_summary("   "), None);
    assert_eq!(summary_message("要点"), "[历史对话摘要]\n要点");
}

#[test]
fn title_requests() {
    let one = vec![("user".to_string(), "  fix the build  ".to_string())];
    assert_eq!(
        build_title_request(&one).unwrap(),
        "Generate a short title (max 30 chars) for a conversation that starts with this query:\n\nfix the build\n\nTitle:"
    );
    let two = vec![
        ("user".to_string(), "hi".to_string()),
        ("assistant".to_string(), "hello".to_string()),
        ("user".to_string(), "bye".to_string()),
    ];
    assert_eq!(
        build_title_request(&two).unwrap(),
        "Generate a short title (max 30 chars) that captures the main topic of this conversation:\n\nUser: hi\nAssistant: hello\nUser: bye\n\nTitle:"
    );
    let none = vec![("assistant".to_string(), "hello".to_string())];
    assert_eq!(build_title_request(&none).unwrap_err(), "No user messages found");
}

#[test]
fn approval_follows_dangerous_flag() {
    let tools = vec![("bash".to_string(), true), ("read_file".to_string(), false)];
    assert!(tool_needs_approval(&tools, &"bash".to_string()));
    assert!(!tool_needs_approval(&tools, &"read_file".to_string()));
    assert!(!tool_needs_approval(&tools, &"missing".to_string()));
    assert!(!DenyAllHandler.approve("bash", "{}"));
}

#[test]
fn loop_messages() {
    assert_eq!(denied_message("bash"), "Tool execution denied by user: bash");
    assert_eq!(bad_arguments_message("EOF"), "Failed to parse tool arguments: EOF");
    let r = unknown_tool("nope");
    assert!(!r.success);
    assert_eq!(r.error.as_deref(), Some("Unknown tool: nope"));
    assert_eq!(result_text(&r), "Error: Unknown tool: nope");
    let ok = ToolResult { success: true, content: "done".into(), error: None };
    assert_eq!(result_text(&ok), "done");
    let bare = ToolResult { success: false, content: String::new(), error: None };
    assert_eq!(result_text(&bare), "Error: unknown error");
    assert_eq!(MAX_TOOL_ROUNDS, 30);
}

#[test]
fn rounds_and_usage() {
    assert!(round_ends_run(0, false));
    assert!(round_ends_run(2, true));
    assert!(!round_ends_run(2, false));
    let total = add_usage(
        Usage { prompt_tokens: 1, completion_tokens: 2, total_tokens: 3 },
        Usage { prompt_tokens: 10, completion_tokens: 20, total_tokens: 30 },
    );
    assert_eq!((total.prompt_tokens, total.completion_tokens, total.total_tokens), (11, 22, 33));
    match usage_event(false, 1000, 0, 128000) {
        StreamEvent::TokenUsage { phase, estimated, actual, context_window, context_remaining } => {
            assert_eq!(phase, "before");
            assert_eq!(estimated, 1000);
            assert_eq!(actual, None);
            assert_eq!(context_window, 128000);
            assert_eq!(context_remaining, 127000);
        }
        other => panic!("unexpected {:?}", other),
    }
    match usage_event(false, 1000, 5000, 8000) {
        StreamEvent::TokenUsage { actual, context_remaining, .. } => {
            assert_eq!(actual, None);
            assert_eq!(context_remaining, 3000);
        }
        other => panic!("unexpected {:?}", other),
    }
    match usage_event(true, 1000, 5000, 4000) {
        StreamEvent::TokenUsage { phase, actual, context_remaining, .. } => {
            assert_eq!(phase, "after");
            assert_eq!(actual, Some(5000));
            assert_eq!(context_remaining, 0);
        }
        other => panic!("unexpected {:?}", other),
    }
}

#[test]
fn round_state_collects_calls() {
    let mut st = RoundState::new();
    assert!(st.observe(&StreamEvent::TextDelta { delta: "hi".into() }));
    assert!(st.observe(&StreamEvent::ToolCall { id: "1".into(), name: "bash".into(), arguments: "{}".into() }));
    assert!(!st.observe(&StreamEvent::Done {
        usage: Usage { prompt_tokens: 1, completion_tokens: 2, total_tokens: 3 }
    }));
    assert_eq!(st.tool_calls, vec![("1".to_string(), "bash".to_string(), "{}".to_string())]);
    assert_eq!(st.usage.total_tokens, 3);
    assert!(!st.had_error);
    assert!(st.observe(&StreamEvent::Error { message: "x".into() }));
    assert!(st.had_error);
}

#[test]
fn settings_clamp_protected_turns() {
    let mut s = AgentSettings::new("m");
    s.set_min_user_turns(0);
    assert_eq!(s.min_user_turns, 1);
    s.set_min_user_turns(5);
    assert_eq!(s.min_user_turns, 5);
    s.set_context_window(64_000);
    assert_eq!(s.context_window, 64_000);
}

#[test]
fn dropping_counts_the_system_messages() {
    // a system prompt and six turns of one user message each; the whole
    // conversation must fall under 60% of the window
    let r = roles(&["system", "user", "user", "user", "user", "user", "user"]);
    let t = vec![5u32, 14, 14, 14, 14, 14, 14];
    assert_eq!(decide_trim(&r, &t, 100, 1), Some(5));
    let out = plan_drop(&r, &t, 100, 1);
    assert_eq!(out.removed, 3);
    assert_eq!(out.keep_from, 4);
    assert_eq!(out.tokens_freed, 42);
    assert_eq!(out.usage_percent, 47);
}

#[test]
fn multibyte_messages_are_cut_at_a_character() {
    let items = vec![SummaryItem { role: "user".into(), text: Some("你".repeat(200)) }];
    let req = build_summary_request(&items, "").unwrap();
    // 166 characters of 3 bytes fit in 500 bytes
    assert!(req.contains(&format!("用户: {}...\n", "你".repeat(166))));
    assert!(!req.contains(&"你".repeat(167)));
    let msgs = vec![
        ("user".to_string(), "é".repeat(200)),
        ("user".to_string(), "second".to_string()),
    ];
    let title = build_title_request(&msgs).unwrap();
    assert!(title.contains(&format!("User: {}...\n", "é".repeat(150))));
}
