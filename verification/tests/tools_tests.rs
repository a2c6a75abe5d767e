use xuflow_core::edit::{count_matches, edit_success, plan_edit, EditFileTool};
use xuflow_core::files::{list_entries, number_lines, write_success};
use xuflow_core::git::{
    diff_is_cuttable, git_add_files, git_add_report, git_commit_report, git_diff_report,
    git_log_report, git_status_report, log_count_arg, validate_dir, GitCommitTool, GitStatusTool,
};
use xuflow_core::search::GlobTool;
use xuflow_core::shell::{check_command, command_result, BashTool};
use xuflow_core::todo::{
    plan_event, planning_event, todo_update_event, validate_plan, validate_todos, PlanningReply, ProposePlanTool, TodoArg,
};
use xuflow_core::tokens::StreamEvent;
use xuflow_core::tool::missing_parameter;

#[test]
fn edit_replaces_a_unique_match() {
    let (c, n) = plan_edit("a.txt", "hello world\n", "world", "there", false).unwrap();
    assert_eq!(c, "hello there\n");
    assert_eq!(n, 1);
    assert_eq!(edit_success("a.txt", n).content, "Successfully edited 'a.txt': 1 replacement(s) made.");
}

#[test]
fn edit_refuses_missing_and_ambiguous_text() {
    let e = plan_edit("a.txt", "abc", "zzz", "y", false).unwrap_err();
    assert_eq!(
        e,
        "old_string not found in 'a.txt'. The string you provided does not appear in the file. Re-read the file to verify the exact text to replace."
    );
    let e = plan_edit("a.txt", "x = 1\n  x = 2\ny\n", "x", "z", false).unwrap_err();
    assert!(e.starts_with("old_string matches 2 locations in 'a.txt'."));
    assert!(e.ends_with("Matching locations:\n  Line 1: x = 1\n  Line 2: x = 2"));
}

#[test]
fn edit_replace_all_counts() {
    let (c, n) = plan_edit("a", "aXbXc", "X", "--", true).unwrap();
    assert_eq!(c, "a--b--c");
    assert_eq!(n, 2);
    let chars: Vec<char> = "aaaa".chars().collect();
    let p: Vec<char> = "aa".chars().collect();
    assert_eq!(count_matches(&chars, &p), 2);
    let tool = EditFileTool;
    assert_eq!(tool.name(), "edit");
    assert!(tool.is_dangerous());
}

#[test]
fn dangerous_commands_are_blocked() {
    assert_eq!(
        check_command("sudo RM -RF /"),
        Some("Command blocked for safety: 'sudo RM -RF /' matches dangerous pattern 'rm -rf'".to_string())
    );
    assert!(check_command("shutdown now").is_some());
    assert!(check_command(":(){ :|:& };:").is_some());
    assert_eq!(check_command("ls -la"), None);
    assert!(BashTool.is_dangerous());
}

#[test]
fn command_output_is_reported() {
    let r = command_result("out", "warn", true, Some(0));
    assert!(r.success);
    assert_eq!(r.content, "out\n[stderr]\nwarn");
    let r = command_result("", "", false, Some(2));
    assert_eq!(r.content, "Command completed with exit code: 2");
    assert_eq!(r.error.as_deref(), Some("Command exited with code: 2"));
    let r = command_result("", "boom", false, None);
    assert_eq!(r.content, "[stderr]\nboom");
    assert_eq!(r.error.as_deref(), Some("Command exited with code: -1"));
}

#[test]
fn files_are_numbered_listed_and_written() {
    assert_eq!(number_lines("a\nb"), "     1\ta\n     2\tb");
    assert_eq!(number_lines(""), "");
    let entries = vec![("src".to_string(), true), ("Cargo.toml".to_string(), false), ("README.md".to_string(), false)];
    let listing = list_entries(&entries);
    let mut expected = vec!["📁 src".to_string(), "📄 Cargo.toml".to_string(), "📄 README.md".to_string()];
    expected.sort();
    assert_eq!(listing, expected.join("\n"));
    assert_eq!(write_success("x.txt", "héllo").content, "Successfully wrote 6 bytes to x.txt");
}

#[test]
fn git_checks_and_reports() {
    assert_eq!(validate_dir("/nope", false, false).unwrap_err(), "Directory does not exist: /nope");
    assert_eq!(validate_dir("/f", true, false).unwrap_err(), "Path is not a directory: /f");
    assert!(validate_dir("/d", true, true).is_ok());
    assert_eq!(git_status_report("", "", 0).content, "Working tree clean — no changes.");
    let r = git_status_report("", "fatal: not a repo", 128);
    assert_eq!(r.content, "fatal: not a repo");
    assert_eq!(r.error.as_deref(), Some("git status exited with code 128"));
    assert_eq!(git_log_report("", 0).content, "No commits yet.");
    assert_eq!(log_count_arg(None), "10");
    assert_eq!(log_count_arg(Some(3)), "3");
    assert_eq!(git_diff_report("", 0).content, "No changes.");
    let long = "x".repeat(50_010);
    assert!(diff_is_cuttable(&long));
    let r = git_diff_report(&long, 0);
    assert_eq!(r.content, format!("{}...\n\n[Diff truncated at 50000 characters]", "x".repeat(50_000)));
    let awkward = format!("{}é", "x".repeat(49_999));
    assert!(!diff_is_cuttable(&awkward.repeat(2)));
}

#[test]
fn git_add_and_commit() {
    let files = git_add_files(Some(vec![Some("a.rs".to_string()), None, Some("b.rs".to_string())])).unwrap();
    assert_eq!(files, vec!["a.rs".to_string(), "b.rs".to_string()]);
    assert!(git_add_files(None).is_err());
    assert_eq!(
        git_add_files(Some(vec![None])).err().unwrap().error.as_deref(),
        Some("files array is empty")
    );
    let r = git_add_report("", "", 0, 2);
    assert!(r.success);
    assert_eq!(r.content, "Staged 2 file(s).");
    let r = git_commit_report("[main abc] msg", "", 0, "msg");
    assert!(r.success);
    let r = git_commit_report("", "nothing to commit", 1, "msg");
    assert!(!r.success);
}

#[test]
fn todos_are_checked() {
    let good = vec![
        TodoArg { content: Some("write tests".into()), status: Some("pending".into()) },
        TodoArg { content: Some("ship".into()), status: Some("completed".into()) },
    ];
    assert_eq!(validate_todos(&Some(good)), None);
    let bad = vec![
        TodoArg { content: Some("a".into()), status: Some("in_progress".into()) },
        TodoArg { content: Some("b".into()), status: Some("doing".into()) },
    ];
    assert_eq!(validate_todos(&Some(bad)), Some("Todo item 1 has invalid status: 'doing'".to_string()));
    let nameless = vec![TodoArg { content: None, status: Some("pending".into()) }];
    assert_eq!(validate_todos(&Some(nameless)), Some("Todo item 0 missing 'content'".to_string()));
    assert_eq!(validate_todos(&None), Some("Missing required parameter: todos (array)".to_string()));
    assert_eq!(validate_plan(false, true, true), Some("Missing required parameter: title".to_string()));
    assert_eq!(validate_plan(true, false, true), Some("Missing required parameter: steps (array)".to_string()));
    assert_eq!(validate_plan(true, true, false), Some("Missing required parameter: files_to_modify (array)".to_string()));
    assert_eq!(validate_plan(true, true, true), None);
}

#[test]
fn todo_and_plan_events() {
    let items = vec![
        TodoArg { content: Some("a".into()), status: Some("pending".into()) },
        TodoArg { content: None, status: Some("pending".into()) },
        TodoArg { content: Some("c".into()), status: Some("completed".into()) },
    ];
    match todo_update_event(&items) {
        StreamEvent::TodoUpdate { todos } => {
            let got: Vec<(String, String)> = todos.into_iter().map(|t| (t.content, t.status)).collect();
            assert_eq!(got, vec![("a".to_string(), "pending".to_string()), ("c".to_string(), "completed".to_string())]);
        }
        other => panic!("unexpected {:?}", other),
    }
    match plan_event(None, &Some(vec![Some("s1".into()), None]), &None) {
        StreamEvent::PlanProposed { title, steps, files_to_modify } => {
            assert_eq!(title, "");
            assert_eq!(steps, vec!["s1".to_string()]);
            assert!(files_to_modify.is_empty());
        }
        other => panic!("unexpected {:?}", other),
    }
    assert_eq!(missing_parameter("path").error.as_deref(), Some("Missing required parameter: path"));
}

#[test]
fn tool_names_and_descriptions() {
    assert_eq!(GitStatusTool.name(), "git_status");
    assert_eq!(GitStatusTool.description(), "Show the working tree status (git status --porcelain).");
    assert!(GitCommitTool.is_dangerous());
    assert!(GitCommitTool.description().starts_with("Commit staged changes"));
    assert!(!GlobTool.is_dangerous());
    assert!(GlobTool.description().ends_with("node_modules, target, and .git."));
    assert!(ProposePlanTool.is_dangerous());
    assert_eq!(ProposePlanTool.name(), "propose_plan");
}

#[test]
fn planning_tools_produce_events() {
    let reply = || PlanningReply {
        todos: Some(vec![TodoArg { content: Some("write".into()), status: Some("pending".into()) }]),
        title: Some("Plan".into()),
        steps: Some(vec![Some("a".into()), None, Some("b".into())]),
        files: None,
    };
    match planning_event("todo_write", true, Some(reply())) {
        Some(StreamEvent::TodoUpdate { todos }) => assert_eq!(todos.len(), 1),
        _ => panic!("a todo update was expected"),
    }
    match planning_event("propose_plan", true, Some(reply())) {
        Some(StreamEvent::PlanProposed { title, steps, files_to_modify }) => {
            assert_eq!(title, "Plan");
            assert_eq!(steps, vec!["a".to_string(), "b".to_string()]);
            assert!(files_to_modify.is_empty());
        }
        _ => panic!("a plan was expected"),
    }
    assert!(planning_event("todo_write", false, Some(reply())).is_none());
    assert!(planning_event("todo_write", true, None).is_none());
    assert!(planning_event("bash", true, Some(reply())).is_none());
}
