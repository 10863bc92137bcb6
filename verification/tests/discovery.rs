use skills_hub::discovery::{
    get_categories, get_recommended_skills, get_skills_by_category, merge_remote_skills,
    search_skills, DiscoveredSkill,
};
use skills_hub::discovery_config::DiscoveryConfig;
use skills_hub::discovery_parser::{
    normalize_category, parse_awesome_skills_readme, skills_to_records, skills_to_records_at,
    ParsedSkill,
};
use skills_hub::discovery_remote::{
    category_skills, fetch_all_category_skills, fetch_skills_by_category,
    fetch_skills_from_popular_list, github_search_for, top_up, topic_query, RemoteDiscoveredSkill,
};

fn remote(name: &str, url: &str, category: &str) -> RemoteDiscoveredSkill {
    RemoteDiscoveredSkill {
        name: name.to_string(),
        description: format!("{} described", name),
        github_url: url.to_string(),
        category: category.to_string(),
        tags: vec!["t".to_string()],
    }
}

#[test]
fn test_parse_readme() {
    let content = r#"
# Awesome Skills

## 📄 Document Skills
- [docx](https://github.com/anthropics/skills/tree/main/skills/docx) - Create, edit, analyze Word docs with tracked changes, comments, formatting.
- [pdf](https://github.com/anthropics/skills/tree/main/skills/pdf) - Extract text, tables, metadata, merge & annotate PDFs.

## 🔧 Development & Code Tools
- [web-artifacts-builder](https://github.com/anthropics/skills/tree/main/skills/web-artifacts-builder) - Suite of tools for creating elaborate, multi-component HTML artifacts.
"#;

    let skills = parse_awesome_skills_readme(content).unwrap();
    assert_eq!(skills.len(), 3);

    assert_eq!(skills[0].name, "docx");
    assert_eq!(skills[0].category, "Document Skills");
    assert!(skills[0].github_url.contains("github.com"));

    assert_eq!(skills[2].name, "web-artifacts-builder");
    assert_eq!(skills[2].category, "Development & Code Tools");
}

#[test]
fn test_normalize_category() {
    assert_eq!(normalize_category("Document Skills"), "document");
    assert_eq!(normalize_category("Development & Code Tools"), "development");
    assert_eq!(normalize_category("Data & Analysis"), "data-analysis");
    assert_eq!(normalize_category("Unknown Category"), "other");
}

#[test]
fn test_fetch_skills_by_category() {
    let result = fetch_skills_by_category("development", 5, Ok(Vec::new()));
    assert!(result.is_ok());
    let skills = result.unwrap();
    assert!(skills.len() <= 5);
}

#[test]
fn normalize_category_takes_the_first_that_fits() {
    assert_eq!(normalize_category("CODE review"), "development");
    assert_eq!(normalize_category("Scientific Research"), "research");
    assert_eq!(normalize_category("Creative Writing"), "writing");
    assert_eq!(normalize_category("Knowledge"), "learning");
    assert_eq!(normalize_category("Content & Media"), "media");
    assert_eq!(normalize_category("Health"), "health");
    assert_eq!(normalize_category("Project Management"), "collaboration");
    assert_eq!(normalize_category("Testing"), "security");
    assert_eq!(normalize_category("Automation"), "utility");
    assert_eq!(normalize_category("Collections"), "collections");
    assert_eq!(normalize_category("Documented data"), "document");
    assert_eq!(normalize_category(""), "other");
}

#[test]
fn readme_items_need_a_name_an_address_and_a_description() {
    let content = "## x Tools\r\n- [a](https://github.com/o/a) - does a\r\n\
        - [b](https://example.com/o/b) - elsewhere\n\
        - [c](https://github.com/o/c)\n\
        * [d](https://github.com/o/d) - wrong bullet\n\
        ##   y   Data   \n\
           - [ e ]( https://github.com/o/e ) -   does e  \n\
        - [ ](https://github.com/o/f) - no name\n";
    let skills = parse_awesome_skills_readme(content).unwrap();
    let got: Vec<(&str, &str, &str, &str)> = skills
        .iter()
        .map(|s| (s.name.as_str(), s.github_url.as_str(), s.description.as_str(), s.category.as_str()))
        .collect();
    assert_eq!(
        got,
        vec![
            ("a", "https://github.com/o/a", "does a", "Tools"),
            ("e", "https://github.com/o/e", "does e", "Data"),
        ]
    );
    assert_eq!(parse_awesome_skills_readme("").unwrap().len(), 0);
}

#[test]
fn records_carry_the_id_of_their_address() {
    let skill = ParsedSkill {
        name: "docx".to_string(),
        description: "Word".to_string(),
        github_url: "https://github.com/anthropics/skills/tree/main/skills/docx".to_string(),
        category: "Document Skills".to_string(),
    };
    let records = skills_to_records_at(vec![skill.clone()], "curated", 42);
    assert_eq!(records.len(), 1);
    let expected = uuid::Uuid::new_v5(&uuid::Uuid::NAMESPACE_URL, skill.github_url.as_bytes()).to_string();
    assert_eq!(records[0].id, expected);
    assert_eq!(records[0].name, "docx");
    assert_eq!(records[0].description, "Word");
    assert_eq!(records[0].github_url, skill.github_url);
    assert_eq!(records[0].category, "document");
    assert_eq!(records[0].source, "curated");
    assert_eq!(records[0].tags, "Document Skills");
    assert_eq!(records[0].created_at, 42);
    assert_eq!(records[0].updated_at, 42);
    let stamped = skills_to_records(vec![skill], "curated");
    assert_eq!(stamped[0].id, expected);
    assert!(stamped[0].created_at > 1_600_000_000_000);
    assert_eq!(stamped[0].created_at, stamped[0].updated_at);
}

#[test]
fn the_catalogue_has_four_categories_and_six_skills() {
    let config = DiscoveryConfig::get_default();
    let ids: Vec<&str> = config.categories.iter().map(|c| c.id.as_str()).collect();
    assert_eq!(ids, vec!["development", "productivity", "ai", "documentation"]);
    assert_eq!(config.skills.len(), 6);
    let names: Vec<String> = config
        .get_skills_by_category("productivity")
        .iter()
        .map(|s| s.name.clone())
        .collect();
    assert_eq!(names, vec!["Task Planner", "Brainstorming Helper"]);
    assert_eq!(config.get_skills_by_category("none").len(), 0);
    let found: Vec<String> = config.search_skills("REVIEW").iter().map(|s| s.name.clone()).collect();
    assert_eq!(found, vec!["Code Review Assistant"]);
    // a tag counts as well as the name
    let found: Vec<String> = config.search_skills("planning").iter().map(|s| s.name.clone()).collect();
    assert_eq!(found, vec!["Task Planner"]);
    assert_eq!(config.search_skills("").len(), 6);
    assert_eq!(config.search_skills("no such thing").len(), 0);
    let categories = get_categories();
    assert_eq!(categories.len(), 4);
    assert_eq!(categories[2].id, "ai");
    assert_eq!(categories[2].color, "#8b5cf6");
    assert_eq!(get_skills_by_category("development").len(), 2);
    assert_eq!(search_skills("git")[0].name, "Git Worktree Manager");
}

#[test]
fn the_catalogue_says_what_is_built_in() {
    let said: Vec<(String, String, String, String, String)> = get_categories()
        .into_iter()
        .map(|c| (c.id, c.name, c.description, c.icon, c.color))
        .collect();
    let expect = |id: &str, name: &str, description: &str, icon: &str, color: &str| {
        (id.to_string(), name.to_string(), description.to_string(), icon.to_string(), color.to_string())
    };
    assert_eq!(
        said,
        vec![
            expect("development", "开发工具", "提升开发效率的工具和技能", "💻", "#3b82f6"),
            expect("productivity", "生产力", "提高工作效率的技能", "⚡", "#f59e0b"),
            expect("ai", "AI 辅助", "AI 相关的技能和工具", "🤖", "#8b5cf6"),
            expect("documentation", "文档", "文档编写和管理技能", "📚", "#10b981"),
        ]
    );
    let skills = get_recommended_skills(None);
    let said: Vec<(&str, &str, &str, Vec<&str>)> = skills
        .iter()
        .map(|s| {
            (
                s.name.as_str(),
                s.description.as_str(),
                s.category.as_str(),
                s.tags.iter().map(|t| t.as_str()).collect(),
            )
        })
        .collect();
    assert_eq!(
        said,
        vec![
            ("Git Worktree Manager", "管理 Git 工作树，支持并行开发多个分支", "development", vec!["git", "workflow"]),
            ("Code Review Assistant", "辅助代码审查，提供代码质量建议", "development", vec!["review", "quality"]),
            ("Task Planner", "任务规划和分解，帮助制定详细的实施计划", "productivity", vec!["planning", "productivity"]),
            ("Brainstorming Helper", "创意头脑风暴，帮助探索用户意图和需求", "productivity", vec!["brainstorm", "ideas"]),
            ("AI Prompt Optimizer", "优化 AI 提示词，提升 AI 响应质量", "ai", vec!["ai", "prompt"]),
            ("Documentation Generator", "自动生成项目文档和 API 文档", "documentation", vec!["docs", "generator"]),
        ]
    );
    for skill in &skills {
        assert_eq!(skill.github_url, "https://github.com/anthropics/skills");
    }
    let found: Vec<String> = search_skills("DOC").into_iter().map(|s| s.name).collect();
    assert_eq!(found, vec!["Documentation Generator"]);
    let found: Vec<String> = get_skills_by_category("ai").into_iter().map(|s| s.name).collect();
    assert_eq!(found, vec!["AI Prompt Optimizer"]);
}

#[test]
fn popular_skills_come_first_and_the_search_tops_up() {
    let five = fetch_skills_from_popular_list("development", 5);
    let names: Vec<&str> = five.iter().map(|s| s.name.as_str()).collect();
    assert_eq!(
        names,
        vec![
            "vercel-react-best-practices",
            "web-design-guidelines",
            "remotion-best-practices",
            "frontend-design",
            "vercel-composition-patterns",
        ]
    );
    assert_eq!(five[0].github_url, "https://github.com/vercel-labs/agent-skills");
    assert_eq!(five[0].category, "development");
    assert_eq!(five[0].tags, vec!["skills.sh", "popular"]);
    assert_eq!(fetch_skills_from_popular_list("documentation", 10).len(), 4);
    assert_eq!(fetch_skills_from_popular_list("ai", 10).len(), 0);
    assert_eq!(fetch_skills_from_popular_list("development", 0).len(), 0);

    // enough popular skills: the search is not looked at
    assert!(github_search_for("development", 5, "topic:x").is_none());
    let full = fetch_skills_by_category("development", 5, Err("offline".to_string())).unwrap();
    assert_eq!(full.len(), 5);
    // too few: the search is asked for the rest
    let search = github_search_for("documentation", 10, "topic:x").unwrap();
    assert_eq!(search.limit, 6);
    assert_eq!(search.category, "documentation");
    assert_eq!(search.query, "topic:x topic:documentation topic:docs");
    assert_eq!(topic_query("ai", "topic:x"), "topic:x topic:ai topic:assistant");
    assert_eq!(topic_query("unknown", "topic:x"), "topic:x");
    assert_eq!(
        fetch_skills_by_category("documentation", 10, Err("offline".to_string())).err(),
        Some("offline".to_string())
    );
    let found = vec![
        remote("new", "https://github.com/o/new", "documentation"),
        remote("known", "https://github.com/anthropics/skills", "documentation"),
        remote("twice", "https://github.com/o/new", "documentation"),
    ];
    let merged = fetch_skills_by_category("documentation", 10, Ok(found)).unwrap();
    let names: Vec<&str> = merged.iter().map(|s| s.name.as_str()).collect();
    assert_eq!(names, vec!["seo-audit", "pdf", "copywriting", "pptx", "new", "twice"]);
}

#[test]
fn top_up_keeps_what_is_new() {
    let list = vec![remote("a", "u1", "c"), remote("b", "u2", "c")];
    let found = vec![remote("x", "u2", "c"), remote("y", "u3", "c")];
    let merged = top_up(&list, &found);
    let names: Vec<&str> = merged.iter().map(|s| s.name.as_str()).collect();
    assert_eq!(names, vec!["a", "b", "y"]);
    let kept = category_skills(vec![remote("a", "u1", "c")], 1, Err("never looked at".to_string())).unwrap();
    assert_eq!(kept.len(), 1);
}

#[test]
fn all_categories_are_fetched_in_order() {
    let searches = vec![
        Ok(Vec::new()),
        Ok(vec![remote("p", "https://github.com/o/p", "productivity")]),
        Ok(vec![remote("q", "https://github.com/o/q", "ai")]),
        Ok(Vec::new()),
    ];
    let all = fetch_all_category_skills(10, searches).unwrap();
    let categories: Vec<&str> = all.iter().map(|(c, _)| c.as_str()).collect();
    assert_eq!(categories, vec!["development", "productivity", "ai", "documentation"]);
    assert_eq!(all[0].1.len(), 10);
    assert_eq!(all[1].1.len(), 7);
    assert_eq!(all[2].1.len(), 1);
    assert_eq!(all[3].1.len(), 4);
    let failed = fetch_all_category_skills(10, vec![Ok(Vec::new()), Err("down".to_string())]);
    assert_eq!(failed.err(), Some("down".to_string()));
}

#[test]
fn recommended_skills_add_what_was_found() {
    let local = get_recommended_skills(None);
    assert_eq!(local.len(), 6);
    assert_eq!(local[0].name, "Git Worktree Manager");
    let found = vec![
        (
            "development".to_string(),
            vec![
                remote("same address", "https://github.com/anthropics/skills", "development"),
                remote("fresh", "https://github.com/o/fresh", "development"),
            ],
        ),
        ("ai".to_string(), vec![remote("fresh again", "https://github.com/o/fresh", "ai")]),
    ];
    let all = get_recommended_skills(Some(found));
    let names: Vec<&str> = all.iter().skip(6).map(|s| s.name.as_str()).collect();
    assert_eq!(names, vec!["fresh", "fresh again"]);
    let base = vec![DiscoveredSkill {
        name: "n".to_string(),
        description: "d".to_string(),
        github_url: "u".to_string(),
        category: "c".to_string(),
        tags: vec![],
    }];
    let merged = merge_remote_skills(base, &vec![("c".to_string(), vec![remote("x", "u", "c")])]);
    assert_eq!(merged.len(), 1);
}
