use skills_hub::chat_server::{
    failure_reply, handle_chat_request, handle_get_messages_request, messages_url, problem,
    start_chat_server, stream_anthropic_response, stream_claude_response_via_cli, system_text,
    ChatRoute, ChatStart, CliStep,
    build_prompt, format_sse, full_prompt, key_from_settings, resolve_api_key, stream_claude_cli,
    ChatMessage, SessionStore,
};
use skills_hub::claude_cli::{
    candidate_paths, find_claude_cli, parse_claude_output, stream_claude_response, ClaudeSSEEvent,
};
use skills_hub::commands::awesome_sync::{cached_result, record_dto, split_tags};
use skills_hub::commands::config::{get_tool_status, newly_installed, ToolInfoDto};
use skills_hub::commands::errors::{expand_home_path, format_anyhow_error, now_ms, PathError};
use skills_hub::commands::scan_paths::{cleanup_failure, remove_scan_path};
use skills_hub::commands::skill_discovery::{
    paginate, pagination, scan_for_new_skills, PaginationInfo,
};
use skills_hub::commands::skill_files::{build_tree, list_skill_files, FoundEntry};
use skills_hub::commands::skill_management::{get_managed_skills_impl, managed_skill_dto};
use skills_hub::skill_store::SkillStore;
use skills_hub::discovery_remote::{fetch_github_skills, github_search_url, RemoteDiscoveredSkill};
use skills_hub::onboarding::{
    build_onboarding_plan_in_home, filter_detected, filter_detected_with_priority, is_under,
    managed_target_key, normalize_path_for_key, variant_of, DetectedSkill,
};
use skills_hub::skill_store::{DiscoveredSkillRecord, SkillRecord, SkillTargetRecord};
use skills_hub::text::{decimal_string, push_decimal};
use skills_hub::text_order::{rank_texts, sort_texts};

fn detected(tool: &str, name: &str, path: &str, link_target: Option<&str>) -> DetectedSkill {
    DetectedSkill {
        tool: tool.to_string(),
        name: name.to_string(),
        path: path.to_string(),
        is_link: link_target.is_some(),
        link_target: link_target.map(|t| t.to_string()),
    }
}

#[test]
fn test_parse_claude_output() {
    let line = r#"{"type":"text","data":"Hello"}"#;
    let event = parse_claude_output(line);
    assert!(event.is_some());
    assert_eq!(event.unwrap().event_type, "text");
}

#[test]
fn test_find_claude_cli() {
    let candidates = candidate_paths("/home/u", "tool");
    assert_eq!(
        candidates,
        vec![
            "/home/u/.npm-global/bin/tool",
            "/home/u/.local/bin/tool",
            "/home/u/.tool/bin/tool",
            "/usr/local/bin/tool",
            "/opt/homebrew/bin/tool",
            "/usr/bin/tool",
        ]
    );
    let path = find_claude_cli(&candidates, &vec![false, false, true, true, false, false]);
    println!("CLI path: {:?}", path);
    assert_eq!(path, Some("/home/u/.tool/bin/tool".to_string()));
    assert_eq!(find_claude_cli(&candidates, &vec![false; 6]), None);
    assert_eq!(find_claude_cli(&candidates, &vec![]), None);
}

#[test]
fn output_lines_become_events() {
    let event = parse_claude_output(r#"{"type":"status","data":"run \"x\""}"#).unwrap();
    assert_eq!(event.data, "run \"x\"");
    assert_eq!(event.to_sse(), "data: {\"data\":\"run \\\"x\\\"\",\"type\":\"status\"}\n\n");
    assert_eq!(parse_claude_output(r#"{"type":"t","data":5}"#).unwrap().data, "");
    assert!(parse_claude_output(r#"{"type":"t"}"#).is_none());
    assert!(parse_claude_output(r#"{"type":5,"data":"d"}"#).is_none());
    assert!(parse_claude_output(r#"{"data":"d"}"#).is_none());
    assert!(parse_claude_output("not json").is_none());
    assert!(parse_claude_output(r#"["type","data"]"#).is_none());
    let made = ClaudeSSEEvent { event_type: "a".to_string(), data: "b\n".to_string() };
    assert_eq!(made.to_sse(), "data: {\"data\":\"b\\n\",\"type\":\"a\"}\n\n");
    assert_eq!(stream_claude_response("hi", None), vec!["ask", "--json", "hi"]);
    assert_eq!(stream_claude_response("hi", Some("m")), vec!["ask", "--json", "hi", "--model", "m"]);
}

#[test]
fn sessions_keep_what_was_said() {
    let mut store = SessionStore::new();
    assert_eq!(store.get_messages("s1").len(), 0);
    store.add_message("s1", "user", "hello");
    store.add_message("s2", "user", "other");
    store.add_message("s1", "assistant", "hi there");
    let said = store.get_messages("s1");
    let got: Vec<(&str, &str)> = said.iter().map(|m| (m.role.as_str(), m.content.as_str())).collect();
    assert_eq!(got, vec![("user", "hello"), ("assistant", "hi there")]);
    assert_eq!(store.get_messages("s2").len(), 1);
    assert_eq!(build_prompt(&said), "user: hello\n\nassistant: hi there");
    assert_eq!(build_prompt(&vec![]), "");
    assert_eq!(
        build_prompt(&vec![ChatMessage { role: "r".to_string(), content: "c".to_string() }]),
        "r: c"
    );
    assert_eq!(full_prompt(None, "p"), "p");
    assert_eq!(full_prompt(Some(""), "p"), "p");
    assert_eq!(full_prompt(Some("ctx"), "p"), "[System Context]\nctx\n\n[User Message]\np");
    assert_eq!(format_sse("text", "a\"b"), "data: {\"type\":\"text\",\"data\":\"a\\\"b\"}\n\n");
}

#[test]
fn printed_lines_become_steps() {
    let show = |line: &str| format!("{:?}", stream_claude_cli(line));
    assert_eq!(
        show(r#"{"type":"text","text":"Hi"}"#),
        format!("{:?}", skills_hub::chat_server::CliStep::Text {
            sse: format_sse("text", "Hi"),
            text: "Hi".to_string()
        })
    );
    assert_eq!(show(r#"{"type":"text"}"#), "Skip");
    assert_eq!(show(r#"{"type":"done"}"#), "Done");
    assert_eq!(show(r#"{"type":"other"}"#), "Skip");
    assert_eq!(show("nonsense"), "Skip");
    assert_eq!(
        show(r#"{"type":"status","data":{"n": 1}}"#),
        format!("{:?}", skills_hub::chat_server::CliStep::Emit { sse: format_sse("status", "{\"n\":1}") })
    );
    assert_eq!(
        show(r#"{"type": "status"}"#),
        format!("{:?}", skills_hub::chat_server::CliStep::Emit {
            sse: format_sse("status", "{\"type\":\"status\"}")
        })
    );
    assert_eq!(
        show(r#"{"type":"tool_use", "name":"x"}"#),
        format!("{:?}", skills_hub::chat_server::CliStep::Emit {
            sse: format_sse("tool_use", "{\"name\":\"x\",\"type\":\"tool_use\"}")
        })
    );
    assert_eq!(
        show(r#"{"type":"error"}"#),
        format!("{:?}", skills_hub::chat_server::CliStep::Emit { sse: format_sse("error", "Unknown error") })
    );
    assert_eq!(
        show(r#"{"type":"error","error":"boom"}"#),
        format!("{:?}", skills_hub::chat_server::CliStep::Emit { sse: format_sse("error", "boom") })
    );
}

#[test]
fn the_key_is_looked_for_in_order() {
    let key = |k: &str, url: Option<&str>| Some((k.to_string(), url.map(|u| u.to_string())));
    let settings = r#"{"auth_token":"t","env":{"ANTHROPIC_API_KEY":"e","ANTHROPIC_BASE_URL":"eu"}}"#;
    assert_eq!(
        resolve_api_key(Some("k".to_string()), Some("tok".to_string()), Some("u".to_string()), Some(settings)),
        key("k", Some("u"))
    );
    assert_eq!(resolve_api_key(None, Some("tok".to_string()), None, Some(settings)), key("tok", None));
    assert_eq!(resolve_api_key(None, None, Some("u".to_string()), Some(settings)), key("t", Some("eu")));
    assert_eq!(resolve_api_key(None, None, None, None), None);
    assert_eq!(key_from_settings(r#"{"api_key":"a","auth_token":"t","base_url":"b"}"#), key("a", Some("b")));
    assert_eq!(key_from_settings(r#"{"api_key":5,"auth_token":"t"}"#), None);
    assert_eq!(key_from_settings(r#"{"api_key":5,"env":{"ANTHROPIC_AUTH_TOKEN":"x"}}"#), key("x", None));
    assert_eq!(key_from_settings(r#"{"env":{"ANTHROPIC_BASE_URL":"eu"}}"#), None);
    assert_eq!(key_from_settings("{}"), None);
    assert_eq!(key_from_settings("oops"), None);
}

#[test]
fn failures_are_told_in_words() {
    assert_eq!(format_anyhow_error("MULTI_SKILLS|a,b", "full", "root"), "MULTI_SKILLS|a,b");
    assert_eq!(format_anyhow_error("TARGET_EXISTS|/x", "full", "root"), "TARGET_EXISTS|/x");
    assert_eq!(format_anyhow_error("TOOL_NOT_INSTALLED|t", "full", "root"), "TOOL_NOT_INSTALLED|t");
    assert_eq!(format_anyhow_error("first", "first: cause", "cause"), "first: cause");
    assert_eq!(
        format_anyhow_error("x", "clone https://example.com/r into \"/tmp/d\"\ncause one\ncause two", "c"),
        "clone https://example.com/r (已省略临时目录)\ncause one\ncause two"
    );
    assert_eq!(
        format_anyhow_error("x", "clone https://example.com/r into \"/tmp/d\"", "c"),
        "clone https://example.com/r (已省略临时目录)"
    );
    assert_eq!(
        format_anyhow_error("x", "clone https://github.com/o/r into \"/tmp/d\"\nAuthentication failed", "denied"),
        "无法访问该仓库：可能是私有仓库/权限不足/需要鉴权。\n\n详细：denied"
    );
    assert_eq!(
        format_anyhow_error("x", "fetch from github.com: repository NOT FOUND", "404"),
        "仓库不存在或无权限访问（GitHub 返回 not found）。\n\n详细：404"
    );
    assert_eq!(
        format_anyhow_error("x", "remote github.com: could not resolve host", "dns"),
        "无法解析 GitHub 域名（DNS）。请检查网络/代理。\n\n详细：dns"
    );
    assert_eq!(
        format_anyhow_error("x", "fetch github.com timed out", "t"),
        "连接 GitHub 超时。请检查网络/代理。\n\n详细：t"
    );
    assert_eq!(
        format_anyhow_error("x", "fetch github.com: connection reset", "r"),
        "连接 GitHub 失败（连接被拒绝/重置）。请检查网络/代理。\n\n详细：r"
    );
    assert_eq!(
        format_anyhow_error("x", "fetch github.com: odd", "r"),
        "无法从 GitHub 拉取仓库。请检查网络/代理，或稍后重试。\n\n详细：r"
    );
    assert!(format_anyhow_error("x", "fetch github.com: SecureTransport error", "tls")
        .ends_with("是否可用\n\n详细：tls"));
}

#[test]
fn typed_paths_are_expanded() {
    assert_eq!(expand_home_path("  ", Some("/home/u")), Err(PathError::Empty));
    assert_eq!(expand_home_path(" ~ ", Some("/home/u")), Ok("/home/u".to_string()));
    assert_eq!(expand_home_path("~", None), Err(PathError::NoHome));
    assert_eq!(expand_home_path("~/skills/x", Some("/home/u")), Ok("/home/u/skills/x".to_string()));
    assert_eq!(expand_home_path("~/skills", None), Err(PathError::NoHome));
    assert_eq!(expand_home_path(" /abs/path ", None), Ok("/abs/path".to_string()));
    assert_eq!(expand_home_path("~other", None), Ok("~other".to_string()));
    assert!(now_ms() > 1_600_000_000_000);
}

#[test]
fn numbers_are_written_in_decimal() {
    assert_eq!(decimal_string(0), "0");
    assert_eq!(decimal_string(7), "7");
    assert_eq!(decimal_string(1234567890), "1234567890");
    assert_eq!(decimal_string(-45), "-45");
    assert_eq!(decimal_string(i128::MAX), i128::MAX.to_string());
    assert_eq!(decimal_string(i128::MIN), i128::MIN.to_string());
    let mut out = vec!['x'];
    push_decimal(&mut out, -10);
    assert_eq!(out, vec!['x', '-', '1', '0']);
}

#[test]
fn texts_are_sorted_by_code_point() {
    let keys: Vec<String> = ["b", "", "a", "B", "ab", "é", "aa"].iter().map(|s| s.to_string()).collect();
    assert_eq!(sort_texts(&keys), vec!["", "B", "a", "aa", "ab", "b", "é"]);
    let pairs: Vec<(String, String)> = [("b", "1"), ("a", "2"), ("b", "0"), ("a", "2"), ("a", "")]
        .iter()
        .map(|(a, b)| (a.to_string(), b.to_string()))
        .collect();
    assert_eq!(rank_texts(&pairs), vec![4, 1, 3, 2, 0]);
}

#[test]
fn pages_are_cut_from_the_list() {
    assert_eq!(
        pagination(25, 2, 10),
        PaginationInfo { current_page: 2, page_size: 10, total_items: 25, total_pages: 3 }
    );
    assert_eq!(pagination(25, 9, 10).current_page, 3);
    assert_eq!(pagination(25, 0, 10).current_page, 1);
    assert_eq!(pagination(0, 4, 10), PaginationInfo { current_page: 1, page_size: 10, total_items: 0, total_pages: 0 });
    assert_eq!(pagination(30, 1, 10).total_pages, 3);
    assert_eq!(pagination(5, 3, 0).total_pages, u32::MAX);
    assert_eq!(pagination(0, 3, 0).total_pages, 0);
    let all: Vec<RemoteDiscoveredSkill> = (0..5)
        .map(|i| RemoteDiscoveredSkill {
            name: format!("s{}", i),
            description: String::new(),
            github_url: format!("u{}", i),
            category: "c".to_string(),
            tags: vec!["t".to_string()],
        })
        .collect();
    let page = paginate(&all, 2, 2);
    let names: Vec<&str> = page.skills.iter().map(|s| s.name.as_str()).collect();
    assert_eq!(names, vec!["s2", "s3"]);
    assert_eq!(page.pagination.total_pages, 3);
    let last = paginate(&all, 7, 2);
    assert_eq!(last.pagination.current_page, 3);
    assert_eq!(last.skills.len(), 1);
    assert_eq!(last.skills[0].name, "s4");
    assert_eq!(last.skills[0].tags, vec!["t"]);
    assert_eq!(paginate(&all, 1, 0).skills.len(), 0);
    assert_eq!(paginate(&vec![], 1, 10).skills.len(), 0);
}

#[test]
fn answers_say_what_the_records_hold() {
    let record = DiscoveredSkillRecord {
        id: "i".to_string(),
        name: "n".to_string(),
        description: "d".to_string(),
        github_url: "u".to_string(),
        category: "c".to_string(),
        source: "s".to_string(),
        tags: " a, b ,,c ".to_string(),
        created_at: 1,
        updated_at: 2,
    };
    assert_eq!(record_dto(&record).tags, vec!["a", "b", "", "c"]);
    assert_eq!(split_tags("one"), vec!["one"]);
    let cached = cached_result(3, "curated list");
    assert_eq!((cached.total_synced, cached.source.as_str()), (3, "curated list (cached)"));
    let skill = SkillRecord {
        id: "s".to_string(),
        name: "n".to_string(),
        description: Some("d".to_string()),
        category: None,
        source_type: "git".to_string(),
        source_ref: Some("r".to_string()),
        source_revision: None,
        central_path: "/c".to_string(),
        content_hash: None,
        created_at: 1,
        updated_at: 2,
        last_sync_at: Some(3),
        last_seen_at: 4,
        status: "ok".to_string(),
    };
    let targets = vec![SkillTargetRecord {
        id: "t".to_string(),
        skill_id: "s".to_string(),
        tool: "cursor".to_string(),
        target_path: "/t".to_string(),
        mode: "link".to_string(),
        status: "ok".to_string(),
        last_error: None,
        synced_at: Some(9),
    }];
    let dto = managed_skill_dto(&skill, &targets);
    assert_eq!(dto.id, "s");
    assert_eq!(dto.source_ref, Some("r".to_string()));
    assert_eq!(dto.last_sync_at, Some(3));
    assert_eq!(dto.targets.len(), 1);
    assert_eq!(dto.targets[0].tool, "cursor");
    assert_eq!(dto.targets[0].synced_at, Some(9));
}

#[test]
fn tools_are_told_apart_from_those_known_before() {
    let tool = |key: &str, installed: bool| ToolInfoDto {
        key: key.to_string(),
        label: key.to_uppercase(),
        installed,
        skills_dir: format!("/{}", key),
    };
    let tools = vec![tool("a", true), tool("b", false), tool("c", true), tool("c", true), tool("d", true)];
    let (status, setting) = get_tool_status(tools, Some("[\"c\",\"x\"]"));
    assert_eq!(status.tools.len(), 5);
    assert_eq!(status.installed, vec!["a", "c", "d"]);
    assert_eq!(status.newly_installed, vec!["a", "d"]);
    assert_eq!(setting, "[\"a\",\"c\",\"d\"]");
    let (status, setting) = get_tool_status(vec![tool("a", true)], Some("not a list"));
    assert_eq!(status.newly_installed, vec!["a"]);
    assert_eq!(setting, "[\"a\"]");
    let (status, setting) = get_tool_status(vec![], None);
    assert!(status.installed.is_empty());
    assert_eq!(setting, "[]");
    assert_eq!(
        newly_installed(&vec!["x".to_string(), "y".to_string()], &vec!["y".to_string()]),
        vec!["x"]
    );
}

#[test]
fn files_are_listed_directories_first() {
    let entry = |name: &str, is_dir: bool| FoundEntry {
        name: name.to_string(),
        path: format!("p/{}", name),
        is_dir,
    };
    let entries = vec![
        entry("zeta.md", false),
        entry("src", true),
        entry(".git", true),
        entry("Alpha.md", false),
        entry("assets", true),
        entry(".hidden", false),
    ];
    let listed = list_skill_files(&entries);
    let names: Vec<&str> = listed.iter().map(|e| e.name.as_str()).collect();
    assert_eq!(names, vec!["assets", "src", "Alpha.md", "zeta.md"]);
    let nodes = build_tree(&listed, vec![vec![], vec![], vec![], vec![]]);
    let kinds: Vec<(&str, &str, bool)> = nodes
        .iter()
        .map(|n| (n.name.as_str(), n.node_type.as_str(), n.children.is_some()))
        .collect();
    assert_eq!(
        kinds,
        vec![
            ("assets", "directory", true),
            ("src", "directory", true),
            ("Alpha.md", "file", false),
            ("zeta.md", "file", false),
        ]
    );
    assert_eq!(nodes[0].path, "p/assets");
}

#[test]
fn repositories_become_skills() {
    assert_eq!(
        github_search_url("topic:x topic:y", 0),
        "https://api.github.com/search/repositories?q=topic%3Ax%20topic%3Ay&per_page=1&sort=stars&order=desc"
    );
    assert!(github_search_url("q", 7).contains("&per_page=7&"));
    assert!(github_search_url("q", 1000).contains("&per_page=100&"));
    let skill = fetch_github_skills(
        "owner/repo-name",
        "https://github.com/owner/repo-name".to_string(),
        None,
        &vec!["a".to_string(), String::new(), "b".to_string()],
        "ai",
    );
    assert_eq!(skill.name, "repo-name");
    assert_eq!(skill.description, "No description");
    assert_eq!(skill.github_url, "https://github.com/owner/repo-name");
    assert_eq!(skill.category, "ai");
    assert_eq!(skill.tags, vec!["a", "b"]);
    let plain = fetch_github_skills("plain", "u".to_string(), Some("d".to_string()), &vec![], "c");
    assert_eq!((plain.name.as_str(), plain.description.as_str()), ("plain", "d"));
}

#[test]
fn detected_skills_are_filtered() {
    assert!(is_under("/central/skills/a", "/central"));
    assert!(!is_under("/central2/a", "/central"));
    assert_eq!(normalize_path_for_key("/a//b/./c/"), "/a/b/c");
    assert_eq!(managed_target_key("Cursor", "/t//x/"), "cursor\n/t/x");
    let found = vec![
        detected("cursor", "one", "/home/.cursor/skills/one", None),
        detected("cursor", "two", "/central/two", None),
        detected("cursor", "three", "/home/.cursor/skills/three", Some("/central/three")),
        detected("cursor", "four", "/home/.cursor/skills/four", None),
    ];
    let managed = vec![managed_target_key("cursor", "/home/.cursor/skills/four")];
    let kept = filter_detected(found.clone(), Some("/central"), Some(&managed));
    let names: Vec<&str> = kept.iter().map(|s| s.name.as_str()).collect();
    assert_eq!(names, vec!["one"]);
    assert_eq!(filter_detected(found.clone(), None, None).len(), 4);
    assert_eq!(filter_detected(found.clone(), None, Some(&managed)).len(), 3);

    let mut preceding: Vec<String> = Vec::new();
    let agents = vec![
        detected("agents", "one", "/home/.agents/skills/one", None),
        detected("agents", "five", "/home/.agents/skills/five", None),
        detected("agents", "one", "/home/.agents/skills/one-again", None),
    ];
    let installed = vec!["five".to_string()];
    let offered = filter_detected_with_priority(agents, None, None, "agents", &mut preceding, Some(&installed));
    let names: Vec<&str> = offered.iter().map(|s| s.path.as_str()).collect();
    assert_eq!(names, vec!["/home/.agents/skills/one", "/home/.agents/skills/one-again"]);
    assert_eq!(preceding, vec!["one", "five"]);
    let offered = filter_detected_with_priority(
        found,
        Some("/central"),
        Some(&managed),
        "cursor",
        &mut preceding,
        Some(&installed),
    );
    assert_eq!(offered.len(), 0);
    assert_eq!(preceding, vec!["one", "five"]);
}

#[test]
fn the_plan_groups_what_was_found() {
    let variants = vec![
        variant_of(&detected("cursor", "one", "/a/one", None), Some("h1".to_string())),
        variant_of(&detected("zed", "two", "/b/two", None), None),
        variant_of(&detected("zed", "one", "/b/one", Some("/x")), Some("h2".to_string())),
        variant_of(&detected("kiro", "one", "/c/one", None), Some("h1".to_string())),
        variant_of(&detected("kiro", "three", "/c/three", None), Some("h3".to_string())),
        variant_of(&detected("zed", "three", "/b/three", None), Some("h3".to_string())),
    ];
    let plan = build_onboarding_plan_in_home(3, &variants);
    assert_eq!(plan.total_tools_scanned, 3);
    assert_eq!(plan.total_skills_found, 6);
    let groups: Vec<(&str, usize, bool)> = plan
        .groups
        .iter()
        .map(|g| (g.name.as_str(), g.variants.len(), g.has_conflict))
        .collect();
    assert_eq!(groups, vec![("one", 3, true), ("two", 1, false), ("three", 2, false)]);
    assert_eq!(plan.groups[0].variants[1].tool, "zed");
    assert_eq!(plan.groups[0].variants[1].link_target, Some("/x".to_string()));
    assert!(plan.groups[0].variants[1].is_link);
    assert_eq!(build_onboarding_plan_in_home(0, &vec![]).groups.len(), 0);
}

#[test]
fn managed_skills_come_with_their_targets() {
    let mut store = SkillStore::new("db".to_string());
    let skill = |id: &str, updated_at: i64| SkillRecord {
        id: id.to_string(),
        name: id.to_uppercase(),
        description: None,
        category: None,
        source_type: "local".to_string(),
        source_ref: None,
        source_revision: None,
        central_path: format!("/c/{}", id),
        content_hash: None,
        created_at: 1,
        updated_at,
        last_sync_at: None,
        last_seen_at: 1,
        status: "ok".to_string(),
    };
    let target = |id: &str, skill_id: &str, tool: &str| SkillTargetRecord {
        id: id.to_string(),
        skill_id: skill_id.to_string(),
        tool: tool.to_string(),
        target_path: format!("/{}/{}", tool, skill_id),
        mode: "copy".to_string(),
        status: "ok".to_string(),
        last_error: None,
        synced_at: None,
    };
    store.upsert_skill(&skill("old", 1)).unwrap();
    store.upsert_skill(&skill("new", 2)).unwrap();
    store.upsert_skill_target(&target("t1", "old", "zed")).unwrap();
    store.upsert_skill_target(&target("t2", "new", "zed")).unwrap();
    store.upsert_skill_target(&target("t3", "old", "cursor")).unwrap();
    let managed = get_managed_skills_impl(&store);
    let got: Vec<(&str, Vec<&str>)> = managed
        .iter()
        .map(|m| (m.id.as_str(), m.targets.iter().map(|t| t.target_path.as_str()).collect()))
        .collect();
    assert_eq!(got, vec![("new", vec!["/zed/new"]), ("old", vec!["/cursor/old", "/zed/old"])]);
}

#[test]
fn chat_requests_are_routed() {
    assert_eq!(start_chat_server("OPTIONS", "/anything"), ChatRoute::Preflight);
    assert_eq!(start_chat_server("GET", "/api/chat/messages"), ChatRoute::Messages);
    assert_eq!(start_chat_server("GET", "/api/chat/messages?session_id=s"), ChatRoute::Messages);
    assert_eq!(start_chat_server("GET", "/api/chat"), ChatRoute::NotFound);
    assert_eq!(start_chat_server("POST", "/api/chat"), ChatRoute::Chat);
    assert_eq!(start_chat_server("POST", "/api/chat/messages"), ChatRoute::NotFound);
    assert_eq!(start_chat_server("PUT", "/api/chat"), ChatRoute::NotFound);
    assert_eq!(handle_get_messages_request("/api/chat/messages?session_id=s1"), Some("s1".to_string()));
    assert_eq!(
        handle_get_messages_request("/m?a=b&session_id=first&x&session_id=last"),
        Some("last".to_string())
    );
    assert_eq!(handle_get_messages_request("/m?session_id="), None);
    assert_eq!(handle_get_messages_request("/m?session_id"), None);
    assert_eq!(handle_get_messages_request("/m?other=1"), None);
    assert_eq!(handle_get_messages_request("/m"), None);
    assert_eq!(handle_get_messages_request("/m?session_id=a=b"), Some("a=b".to_string()));
}

#[test]
fn a_chat_message_joins_its_session() {
    let mut store = SessionStore::new();
    let key = Some(("k".to_string(), Some("https://svc".to_string())));
    let refused = |start: ChatStart| match start {
        ChatStart::Refuse(reply) => (reply.status, reply.content_type, reply.body),
        ChatStart::Ask { .. } => panic!("asked"),
    };
    assert_eq!(
        refused(handle_chat_request(&mut store, "", "hi", None, key.clone(), "usual", "/settings")),
        (400, "application/json".to_string(), "{\"error\": \"Missing session_id or content\"}".to_string())
    );
    assert_eq!(
        refused(handle_chat_request(&mut store, "s", "", None, key.clone(), "usual", "/settings")).0,
        400
    );
    assert_eq!(
        refused(handle_chat_request(&mut store, "s", "hi", None, None, "usual", "/settings")),
        (
            500,
            "application/json".to_string(),
            "{\"error\": \"Anthropic API key not configured. Set ANTHROPIC_API_KEY environment variable or configure /settings\"}".to_string()
        )
    );
    assert_eq!(store.get_messages("s").len(), 0);
    store.add_message("s", "assistant", "earlier");
    match handle_chat_request(&mut store, "s", "hi", Some("fast".to_string()), key.clone(), "usual", "/p") {
        ChatStart::Ask { messages, model, api_key, base_url } => {
            let said: Vec<(&str, &str)> =
                messages.iter().map(|m| (m.role.as_str(), m.content.as_str())).collect();
            assert_eq!(said, vec![("assistant", "earlier"), ("user", "hi")]);
            assert_eq!(model, "fast");
            assert_eq!(api_key, "k");
            assert_eq!(base_url, Some("https://svc".to_string()));
        }
        ChatStart::Refuse(_) => panic!("refused"),
    }
    match handle_chat_request(&mut store, "s", "more", None, key, "usual", "/p") {
        ChatStart::Ask { messages, model, .. } => {
            assert_eq!(messages.len(), 3);
            assert_eq!(model, "usual");
        }
        ChatStart::Refuse(_) => panic!("refused"),
    }
    let reply = problem(418, "tea");
    assert_eq!((reply.status, reply.body.as_str()), (418, "{\"error\": \"tea\"}"));
    let failed = failure_reply("down");
    assert_eq!(failed.status, 200);
    assert_eq!(failed.content_type, "text/event-stream");
    assert_eq!(failed.body, format!("{}{}", format_sse("error", "down"), format_sse("done", "")));
}

#[test]
fn lines_of_a_single_question_become_steps() {
    let show = |line: &str| format!("{:?}", stream_claude_response_via_cli(line));
    let text = |sse: String, text: &str| format!("{:?}", CliStep::Text { sse, text: text.to_string() });
    let emit = |sse: String| format!("{:?}", CliStep::Emit { sse });
    assert_eq!(show("plain words"), text(format_sse("text", "plain words"), "plain words\n"));
    assert_eq!(show("   "), "Skip");
    assert_eq!(show(""), "Skip");
    assert_eq!(show(r#"{"type":"text","text":"Hi"}"#), text(format_sse("text", "Hi"), "Hi"));
    assert_eq!(show(r#"{"type":"status","data":[1]}"#), emit(format_sse("status", "[1]")));
    assert_eq!(show(r#"{"type":"status"}"#), emit(format_sse("status", "{\"type\":\"status\"}")));
    assert_eq!(show(r#"{"type":"error","error":"e"}"#), emit(format_sse("error", "e")));
    assert_eq!(show(r#"{"type":"error","error":1}"#), emit(format_sse("error", "Unknown error")));
    assert_eq!(show(r#"{"type":"tool_use"}"#), "Skip");
    assert_eq!(show(r#"{"type":"done"}"#), "Done");
    assert_eq!(show(r#"{"kind":"x"}"#), "Skip");
    assert_eq!(show("5"), "Skip");
}

#[test]
fn lines_of_the_service_become_steps() {
    let show = |line: &str| format!("{:?}", stream_anthropic_response(line));
    let text = |sse: String, text: &str| format!("{:?}", CliStep::Text { sse, text: text.to_string() });
    let emit = |sse: String| format!("{:?}", CliStep::Emit { sse });
    assert_eq!(show("event: ping"), "Skip");
    assert_eq!(show("data: [DONE]"), "Done");
    assert_eq!(show("data: nonsense"), "Skip");
    assert_eq!(
        show(r#"data: {"type":"content_block_delta","delta":{"text":"Hel"}}"#),
        text(format_sse("text", "Hel"), "Hel")
    );
    assert_eq!(show(r#"data: {"type":"content_block_delta","delta":{}}"#), "Skip");
    assert_eq!(
        show(r#"data: {"type":"message_start","message":{"model":"m-1"}}"#),
        emit(format_sse("status", "{\"model\":\"m-1\",\"session_id\":\"rust-native\"}"))
    );
    assert_eq!(
        show(r#"data: {"type":"message_start","message":{}}"#),
        emit(format_sse("status", "{\"model\":\"unknown\",\"session_id\":\"rust-native\"}"))
    );
    assert_eq!(show(r#"data: {"type":"message_start"}"#), "Skip");
    assert_eq!(
        show(r#"data: {"type":"message_delta","usage":{"output_tokens": 5}}"#),
        emit(format_sse("usage", "{\"output_tokens\":5}"))
    );
    assert_eq!(
        show(r#"data: {"type":"error","error":{"message":"overloaded"}}"#),
        emit(format_sse("error", "overloaded"))
    );
    assert_eq!(show(r#"data: {"type":"error"}"#), emit(format_sse("error", "Unknown API error")));
    assert_eq!(show(r#"data: {"type":"ping"}"#), "Skip");
}

#[test]
fn the_system_speaks_first() {
    let message = |role: &str, content: &str| ChatMessage { role: role.to_string(), content: content.to_string() };
    let said = vec![message("user", "q"), message("system", "be brief"), message("system", "later")];
    assert_eq!(system_text(&said, Some("ctx")), Some("ctx\n\nbe brief".to_string()));
    assert_eq!(system_text(&said, Some("")), Some("be brief".to_string()));
    assert_eq!(system_text(&said, None), Some("be brief".to_string()));
    assert_eq!(system_text(&vec![message("user", "q")], Some("ctx")), Some("ctx".to_string()));
    assert_eq!(system_text(&vec![], None), None);
    assert_eq!(system_text(&vec![], Some("")), None);
    assert_eq!(messages_url(None), "https://api.anthropic.com/v1/messages");
    assert_eq!(messages_url(Some("http://proxy")), "http://proxy/v1/messages");
}

#[test]
fn a_scan_path_takes_its_skills_with_it() {
    let mut store = SkillStore::new("db".to_string());
    let skill = |id: &str, source_ref: Option<&str>, updated_at: i64| SkillRecord {
        id: id.to_string(),
        name: id.to_string(),
        description: None,
        category: None,
        source_type: "local".to_string(),
        source_ref: source_ref.map(|s| s.to_string()),
        source_revision: None,
        central_path: format!("/c/{}", id),
        content_hash: None,
        created_at: 1,
        updated_at,
        last_sync_at: None,
        last_seen_at: 1,
        status: "ok".to_string(),
    };
    store.upsert_skill(&skill("a", Some("/scan/a"), 1)).unwrap();
    store.upsert_skill(&skill("b", Some("/other/b"), 2)).unwrap();
    store.upsert_skill(&skill("c", None, 3)).unwrap();
    store.upsert_skill(&skill("d", Some("/scan/deep/d"), 4)).unwrap();
    let gone: Vec<String> = remove_scan_path(&store, "/scan").iter().map(|s| s.id.clone()).collect();
    assert_eq!(gone, vec!["d", "a"]);
    assert_eq!(remove_scan_path(&store, "/none").len(), 0);
    assert_eq!(cleanup_failure(&vec![]), None);
    assert_eq!(
        cleanup_failure(&vec!["/x: denied".to_string(), "/y: busy".to_string()]),
        Some("已删除扫描路径，但清理部分文件失败：\n- /x: denied\n- /y: busy".to_string())
    );
}

#[test]
fn new_skills_are_those_not_installed() {
    let found = vec![
        detected("cursor", "one", "/p/one", None),
        detected("zed", "two", "/p/two", Some("/t")),
        detected("zed", "three", "/p/three", None),
    ];
    let installed = vec!["two".to_string(), "four".to_string()];
    let fresh = scan_for_new_skills(&found, &installed);
    let got: Vec<(&str, &str, &str, bool)> = fresh
        .iter()
        .map(|s| (s.name.as_str(), s.path.as_str(), s.tool.as_str(), s.is_link))
        .collect();
    assert_eq!(got, vec![("one", "/p/one", "cursor", false), ("three", "/p/three", "zed", false)]);
    assert_eq!(scan_for_new_skills(&found, &vec![]).len(), 3);
    assert!(scan_for_new_skills(&found, &vec![])[1].is_link);
}

#[test]
fn a_group_that_took_no_part_reads_as_empty() {
    assert_eq!(skills_hub::pattern::text_of(&None), "");
    assert_eq!(skills_hub::pattern::text_of(&Some("part".to_string())), "part");
    assert_eq!(skills_hub::pattern::text_of(&Some(String::new())), "");
}
