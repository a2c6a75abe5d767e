use xuflow_core::mcp::{
    adapter_result, call_gate, call_step, CallAction, CallEvent, CallPhase, call_reply, init_failure, load_mcp_config, mcp_tool_description,
    mcp_tool_name, reconnect_plan, server_status, setup_reply, tool_is_dangerous,
    warnings_as_errors, ConfigSource, McpConnectionState, McpError, McpServerEntry,
    McpServersFile, ReconnectPlan, RpcError, ToolContent, ToolsCallResult,
    MAX_RECONNECT_ATTEMPTS,
};

fn entry(command: &str, disabled: bool, safe: &[&str]) -> McpServerEntry {
    McpServerEntry {
        command: command.to_string(),
        args: vec!["-y".to_string()],
        env: vec![],
        disabled,
        safe_tools: safe.iter().map(|s| s.to_string()).collect(),
    }
}

fn source(path: &str, entries: Vec<(&str, McpServerEntry)>) -> ConfigSource {
    ConfigSource {
        path: path.to_string(),
        loaded: Ok(McpServersFile {
            mcp_servers: entries.into_iter().map(|(n, e)| (n.to_string(), e)).collect(),
        }),
        missing: false,
    }
}

#[test]
fn project_config_overrides_global() {
    let global = source("g.json", vec![("fs", entry("npx", false, &["read"])), ("git", entry("git-mcp", false, &[]))]);
    let project = source("p.json", vec![("fs", entry("node", false, &[])), ("off", entry("x", true, &[]))]);
    let (merged, warnings) = load_mcp_config(Some(global), Some(project));
    let names: Vec<&str> = merged.servers.iter().map(|(n, _)| n.as_str()).collect();
    assert_eq!(names, vec!["fs", "git"]);
    assert_eq!(merged.servers[0].1.command, "node");
    assert_eq!(warnings, vec!["MCP Server 'fs' 被项目级配置覆盖".to_string()]);
    // the project's (empty) safe list replaced the global one
    assert!(tool_is_dangerous(&merged, &"fs".to_string(), &"read".to_string()));
}

#[test]
fn disabled_entries_are_left_out() {
    let global = source("g.json", vec![("a", entry("a", true, &[]))]);
    let (merged, warnings) = load_mcp_config(Some(global), None);
    assert!(merged.servers.is_empty());
    assert!(warnings.is_empty());
}

#[test]
fn unreadable_files_warn_missing_ones_do_not() {
    let bad = ConfigSource { path: "/x/g.json".to_string(), loaded: Err("expected value at line 1".to_string()), missing: false };
    let (merged, warnings) = load_mcp_config(Some(bad), None);
    assert!(merged.servers.is_empty());
    assert_eq!(warnings, vec!["读取全局 MCP 配置失败 (/x/g.json): expected value at line 1".to_string()]);
    let (_, warnings) = load_mcp_config(None, None);
    assert!(warnings.is_empty());
    let missing = ConfigSource { path: "p.json".to_string(), loaded: Err("file not found".to_string()), missing: false };
    let (_, warnings) = load_mcp_config(None, Some(missing));
    assert!(warnings.is_empty());
    let absent = ConfigSource {
        path: "/x/g.json".to_string(),
        loaded: Err("无法读取文件: No such file or directory (os error 2)".to_string()),
        missing: true,
    };
    let (merged, warnings) = load_mcp_config(Some(absent), None);
    assert!(merged.servers.is_empty());
    assert!(warnings.is_empty());
}

#[test]
fn safe_tools_need_no_approval() {
    let global = source("g.json", vec![("fs", entry("npx", false, &["read_file", "list"]))]);
    let (merged, _) = load_mcp_config(Some(global), None);
    assert!(!tool_is_dangerous(&merged, &"fs".to_string(), &"read_file".to_string()));
    assert!(tool_is_dangerous(&merged, &"fs".to_string(), &"write_file".to_string()));
    assert!(tool_is_dangerous(&merged, &"other".to_string(), &"read_file".to_string()));
}

#[test]
fn calls_wait_for_a_connected_server() {
    assert!(call_gate(&McpConnectionState::Connected, "fs").is_ok());
    let e = call_gate(&McpConnectionState::Reconnecting, "fs").unwrap_err();
    assert_eq!(e.message(), "Tool call error: MCP Server 'fs' 正在重连中，请稍后重试");
    let e = call_gate(&McpConnectionState::Failed("gone".into()), "fs").unwrap_err();
    assert_eq!(e.message(), "Tool call error: MCP Server 'fs' 不可用: gone");
}

#[test]
fn replies_and_errors() {
    assert!(call_reply(None, true).is_ok());
    let e = call_reply(None, false).unwrap_err();
    assert_eq!(e.message(), "Protocol error: tools/call 响应缺少 result");
    let e = call_reply(Some(RpcError { code: -32601, message: "no such tool".into() }), true).unwrap_err();
    assert_eq!(e.message(), "Tool call error: 工具执行错误: no such tool (code: -32601)");
    let e = setup_reply("initialize", Some(RpcError { code: 1, message: "bad".into() }), false).unwrap_err();
    assert_eq!(e.message(), "Protocol error: initialize 失败: bad (code: 1)");
    let e = setup_reply("tools/list", None, false).unwrap_err();
    assert_eq!(e.message(), "Protocol error: tools/list 响应缺少 result");
    assert!(setup_reply("tools/list", None, true).is_ok());
    assert_eq!(McpError::Timeout(30).message(), "Timeout (30s)");
    assert_eq!(McpError::Transport("pipe".into()).message(), "Transport error: pipe");
}

#[test]
fn reconnection_backs_off_then_gives_up() {
    assert_eq!(MAX_RECONNECT_ATTEMPTS, 3);
    assert!(matches!(reconnect_plan(0, "fs"), ReconnectPlan::Retry { delay_secs: 1 }));
    assert!(matches!(reconnect_plan(1, "fs"), ReconnectPlan::Retry { delay_secs: 2 }));
    assert!(matches!(reconnect_plan(2, "fs"), ReconnectPlan::Retry { delay_secs: 4 }));
    match reconnect_plan(3, "fs") {
        ReconnectPlan::GiveUp { reason, error } => {
            assert_eq!(reason, "MCP Server 'fs' 重连失败（已尝试 3 次），工具已不可用");
            assert_eq!(
                error.message(),
                "Connection failed after 3 retries: MCP Server 'fs' 重连失败（已尝试 3 次），工具已不可用"
            );
        }
        other => panic!("unexpected {:?}", other),
    }
}

#[test]
fn adapter_names_and_results() {
    assert_eq!(mcp_tool_name("fs", "read"), "mcp__fs__read");
    assert_eq!(mcp_tool_description("fs", "Reads"), "[MCP:fs] Reads");
    let item = |t: &str, text: Option<&str>| ToolContent {
        content_type: t.to_string(),
        text: text.map(|s| s.to_string()),
        data: None,
        mime_type: None,
    };
    let ok = ToolsCallResult { content: vec![item("text", Some("a")), item("image", None), item("text", Some("b"))], is_error: None };
    let r = adapter_result("fs", "read", Ok(ok));
    assert!(r.success);
    assert_eq!(r.content, "a\nb");
    let flagged = ToolsCallResult { content: vec![item("text", Some("denied"))], is_error: Some(true) };
    let r = adapter_result("fs", "read", Ok(flagged));
    assert!(!r.success);
    assert_eq!(r.content, "denied");
    assert_eq!(r.error.as_deref(), Some("MCP Server 返回错误"));
    let r = adapter_result("fs", "read", Err(McpError::Timeout(5)));
    assert_eq!(r.error.as_deref(), Some("MCP 工具调用失败 [fs::read]: Timeout (5s)"));
}

#[test]
fn init_errors_and_status() {
    let e = init_failure("fs".to_string(), &McpError::Transport("spawn".into()));
    assert_eq!(e.server_name, "fs");
    assert_eq!(e.message, "MCP Server 初始化失败: Transport error: spawn");
    let w = warnings_as_errors(vec!["w1".to_string()]);
    assert_eq!(w.len(), 1);
    assert_eq!(w[0].server_name, "");
    assert_eq!(w[0].message, "w1");
    let s = server_status("fs".to_string(), 4, &McpConnectionState::Connected);
    assert_eq!(s.name, "fs");
    assert_eq!(s.tool_count, 4);
    assert!(s.connected);
    assert!(!server_status("fs".to_string(), 0, &McpConnectionState::Reconnecting).connected);
}

#[test]
fn a_lost_call_is_retried_once() {
    let (p, a) = call_step(CallPhase::First, CallEvent::SendFailed(McpError::Transport("closed".into())));
    assert!(matches!(a, CallAction::Reconnect));
    let (p2, a) = call_step(p, CallEvent::Reconnected(true));
    assert!(matches!(a, CallAction::Send));
    let (p3, a) = call_step(p2, CallEvent::SendFailed(McpError::Timeout(5)));
    assert!(matches!(a, CallAction::Return(McpError::Timeout(5))));
    assert!(matches!(p3, CallPhase::Done));
    let (p, _) = call_step(CallPhase::First, CallEvent::SendFailed(McpError::Transport("first".into())));
    let (_, a) = call_step(p, CallEvent::Reconnected(false));
    match a {
        CallAction::Return(McpError::Transport(m)) => assert_eq!(m, "first"),
        _ => panic!("the first error should come back"),
    }
    let (_, a) = call_step(CallPhase::First, CallEvent::Sent);
    assert!(matches!(a, CallAction::ReadReply));
}
