use skills_hub::skill_store::{
    legacy_db_paths, migrate_legacy_db_if_needed, LegacyMigration,
    DiscoveredSkillRecord, Migration, SkillRecord, SkillStore, SkillTargetRecord, StoreError,
    SCHEMA_VERSION,
};

fn skill(id: &str, path: &str, updated_at: i64) -> SkillRecord {
    SkillRecord {
        id: id.to_string(),
        name: format!("name of {}", id),
        description: None,
        category: None,
        source_type: "local".to_string(),
        source_ref: None,
        source_revision: None,
        central_path: path.to_string(),
        content_hash: None,
        created_at: 1,
        updated_at,
        last_sync_at: None,
        last_seen_at: 1,
        status: "ok".to_string(),
    }
}

fn target(id: &str, skill_id: &str, tool: &str, path: &str) -> SkillTargetRecord {
    SkillTargetRecord {
        id: id.to_string(),
        skill_id: skill_id.to_string(),
        tool: tool.to_string(),
        target_path: path.to_string(),
        mode: "copy".to_string(),
        status: "ok".to_string(),
        last_error: None,
        synced_at: Some(5),
    }
}

fn discovered(id: &str, name: &str, category: &str, tags: &str, created_at: i64) -> DiscoveredSkillRecord {
    DiscoveredSkillRecord {
        id: id.to_string(),
        name: name.to_string(),
        description: format!("{} Described", name),
        github_url: format!("https://github.com/o/{}", id),
        category: category.to_string(),
        source: "curated".to_string(),
        tags: tags.to_string(),
        created_at,
        updated_at: created_at,
    }
}

fn ready() -> SkillStore {
    let mut store = SkillStore::new("/data/skills_hub.db".to_string());
    store.ensure_schema(1000).unwrap();
    store
}

#[test]
fn the_schema_is_brought_up_step_by_step() {
    let mut store = SkillStore::new("/data/skills_hub.db".to_string());
    assert_eq!(store.db_path(), "/data/skills_hub.db");
    assert_eq!(store.schema_version(), 0);
    assert_eq!(
        store.pending_migrations(),
        Ok(vec![
            Migration::CreateSchema,
            Migration::AddSkillDescription,
            Migration::AddSkillCategory,
            Migration::AddCategories,
            Migration::RebuildDiscoveredSkills,
            Migration::AddAiAgents,
        ])
    );
    assert_eq!(store.ensure_schema(77), Ok(()));
    assert_eq!(store.schema_version(), SCHEMA_VERSION);
    assert_eq!(store.pending_migrations(), Ok(vec![]));
    let categories = store.list_categories();
    let ids: Vec<&str> = categories.iter().map(|c| c.id.as_str()).collect();
    assert_eq!(ids, vec!["development", "productivity", "ai", "documentation"]);
    assert_eq!(store.ensure_schema(78), Ok(()));
    assert_eq!(store.list_categories().len(), 4);
}

#[test]
fn a_schema_from_the_future_is_refused() {
    let mut store = SkillStore::with_version("db".to_string(), 7);
    let refusal = StoreError::UnsupportedSchemaVersion { found: 7, supported: 6 };
    assert_eq!(store.pending_migrations(), Err(refusal));
    assert_eq!(store.ensure_schema(1), Err(refusal));
    assert_eq!(store.schema_version(), 7);
    let mut late = SkillStore::with_version("db".to_string(), 4);
    late.upsert_discovered_skill(&discovered("d", "n", "c", "t", 1));
    assert_eq!(
        late.pending_migrations(),
        Ok(vec![Migration::RebuildDiscoveredSkills, Migration::AddAiAgents])
    );
    assert_eq!(late.ensure_schema(1), Ok(()));
    assert_eq!(late.list_discovered_skills().len(), 0);
    assert_eq!(late.list_categories().len(), 0);
    let mut odd = SkillStore::with_version("db".to_string(), -1);
    assert_eq!(odd.ensure_schema(1), Ok(()));
    assert_eq!(odd.schema_version(), -1);
}

#[test]
fn settings_keep_the_last_value() {
    let mut store = ready();
    assert_eq!(store.get_setting("k"), None);
    assert!(!store.get_auto_update_enabled());
    store.set_setting("k", "v1");
    store.set_auto_update_enabled(true);
    store.set_setting("k", "v2");
    store.set_onboarding_completed(true);
    assert_eq!(store.get_setting("k"), Some("v2".to_string()));
    assert!(store.get_auto_update_enabled());
    assert_eq!(store.get_setting("onboarding_completed"), Some("true".to_string()));
    store.set_auto_update_enabled(false);
    store.set_onboarding_completed(false);
    assert!(!store.get_auto_update_enabled());
    assert_eq!(store.get_setting("auto_update_enabled"), Some("false".to_string()));
    assert_eq!(store.get_setting("onboarding_completed"), Some("false".to_string()));
    store.set_setting("auto_update_enabled", "TRUE");
    assert!(!store.get_auto_update_enabled());
}

#[test]
fn skills_are_listed_latest_first() {
    let mut store = ready();
    assert_eq!(store.upsert_skill(&skill("a", "/c/a", 10)), Ok(()));
    assert_eq!(store.upsert_skill(&skill("b", "/c/b", 30)), Ok(()));
    assert_eq!(store.upsert_skill(&skill("c", "/c/c", 10)), Ok(()));
    assert_eq!(store.upsert_skill(&skill("d", "/c/a", 40)), Err(StoreError::Conflict));
    let ids: Vec<String> = store.list_skills().iter().map(|s| s.id.clone()).collect();
    assert_eq!(ids, vec!["b", "a", "c"]);
    assert_eq!(store.upsert_skill(&skill("a", "/c/a2", 50)), Ok(()));
    let ids: Vec<String> = store.list_skills().iter().map(|s| s.id.clone()).collect();
    assert_eq!(ids, vec!["a", "b", "c"]);
    assert_eq!(store.get_skill_by_id("a").unwrap().central_path, "/c/a2");
    assert!(store.get_skill_by_id("zz").is_none());
    store.update_skill_category("c", Some("ai"), 60);
    store.update_skill_description("b", "renamed".to_string(), Some("what it does".to_string()), 70);
    store.update_skill_timestamp("a", 5);
    store.update_skill_timestamp("nothing", 500);
    let listed = store.list_skills();
    let got: Vec<(&str, i64)> = listed.iter().map(|s| (s.id.as_str(), s.updated_at)).collect();
    assert_eq!(got, vec![("b", 70), ("c", 60), ("a", 5)]);
    assert_eq!(listed[0].name, "renamed");
    assert_eq!(listed[0].description, Some("what it does".to_string()));
    assert_eq!(listed[1].category, Some("ai".to_string()));
    store.update_skill_category("c", None, 61);
    assert_eq!(store.get_skill_by_id("c").unwrap().category, None);
}

#[test]
fn targets_follow_their_skill() {
    let mut store = ready();
    store.upsert_skill(&skill("a", "/c/a", 10)).unwrap();
    store.upsert_skill(&skill("b", "/c/b", 20)).unwrap();
    assert_eq!(store.upsert_skill_target(&target("t1", "a", "zed", "/z/a")), Ok(()));
    assert_eq!(store.upsert_skill_target(&target("t2", "a", "Cursor", "/cu/a")), Ok(()));
    assert_eq!(store.upsert_skill_target(&target("t3", "b", "cursor", "/cu/b")), Ok(()));
    assert_eq!(
        store.upsert_skill_target(&target("t4", "gone", "cursor", "/x")),
        Err(StoreError::MissingSkill)
    );
    assert_eq!(store.upsert_skill_target(&target("t1", "b", "zed", "/z/b")), Err(StoreError::Conflict));
    // the target of a skill and a tool keeps its id and takes what is new
    assert_eq!(store.upsert_skill_target(&target("t9", "a", "zed", "/z/a2")), Ok(()));
    let kept = store.get_skill_target("a", "zed").unwrap();
    assert_eq!((kept.id.as_str(), kept.target_path.as_str()), ("t1", "/z/a2"));
    let tools: Vec<String> = store.list_skill_targets("a").iter().map(|t| t.tool.clone()).collect();
    assert_eq!(tools, vec!["Cursor", "zed"]);
    assert_eq!(
        store.list_all_skill_target_paths(),
        vec![
            ("zed".to_string(), "/z/a2".to_string()),
            ("Cursor".to_string(), "/cu/a".to_string()),
            ("cursor".to_string(), "/cu/b".to_string()),
        ]
    );
    store.delete_skill_target("a", "Cursor");
    assert!(store.get_skill_target("a", "Cursor").is_none());
    store.delete_skill("a");
    assert!(store.get_skill_by_id("a").is_none());
    assert_eq!(store.list_skill_targets("a").len(), 0);
    assert_eq!(store.list_all_skill_target_paths(), vec![("cursor".to_string(), "/cu/b".to_string())]);
}

#[test]
fn scan_paths_are_listed_oldest_first() {
    let mut store = ready();
    assert_eq!(store.add_scan_path_as("/late", "i1".to_string(), 30), Ok("i1".to_string()));
    assert_eq!(store.add_scan_path_as("/early", "i2".to_string(), 10), Ok("i2".to_string()));
    assert_eq!(store.add_scan_path_as("/early", "i3".to_string(), 20), Err(StoreError::Conflict));
    assert_eq!(store.add_scan_path_as("/other", "i1".to_string(), 20), Err(StoreError::Conflict));
    assert_eq!(store.list_scan_paths(), vec!["/early", "/late"]);
    let id = store.add_scan_path("/fresh").unwrap();
    assert_eq!(id.len(), 36);
    assert_eq!(store.add_scan_path("/fresh"), Err(StoreError::Conflict));
    let defaults = vec!["~/.agents/skills".to_string(), "/late".to_string(), "~/.cursor/skills".to_string()];
    assert_eq!(store.initialize_default_scan_paths(&defaults), Ok(()));
    assert_eq!(store.initialize_default_scan_paths(&defaults), Ok(()));
    let listed = store.list_scan_paths();
    assert_eq!(listed.len(), 5);
    assert_eq!(&listed[..2], &["/early".to_string(), "/late".to_string()]);
    store.remove_scan_path("/late");
    store.remove_scan_path("/never");
    assert_eq!(store.list_scan_paths().len(), 4);
}

#[test]
fn categories_are_added_and_removed() {
    let mut store = ready();
    assert_eq!(
        store.add_category_at("games", "Games", "Play", "G", "#fff", 5),
        Ok("games".to_string())
    );
    assert_eq!(store.add_category("ai", "AI", "again", "A", "#000"), Err(StoreError::Conflict));
    assert_eq!(store.add_category("art", "Art", "Draw", "A", "#000"), Ok("art".to_string()));
    let ids: Vec<String> = store.list_categories().iter().map(|c| c.id.clone()).collect();
    assert_eq!(ids, vec!["games", "development", "productivity", "ai", "documentation", "art"]);
    store.remove_category("productivity");
    let listed = store.list_categories();
    assert_eq!(listed.len(), 5);
    assert_eq!(listed[0].name, "Games");
    assert_eq!(listed[0].color, "#fff");
}

#[test]
fn mirrored_skills_are_sorted_and_searched() {
    let mut store = ready();
    store.upsert_discovered_skill(&discovered("1", "pdf", "document", "Document Skills", 10));
    store.upsert_discovered_skill(&discovered("2", "Alpha", "development", "Code", 20));
    store.upsert_discovered_skill(&discovered("3", "docx", "document", "Document Skills", 30));
    store.upsert_discovered_skill(&discovered("4", "beta", "development", "Code", 40));
    let names: Vec<String> = store.list_discovered_skills().iter().map(|d| d.name.clone()).collect();
    assert_eq!(names, vec!["Alpha", "beta", "docx", "pdf"]);
    // written again, a skill keeps the time at which it was first written
    let mut again = discovered("1", "PDF tools", "document", "Document Skills", 99);
    again.updated_at = 100;
    store.upsert_discovered_skill(&again);
    let by_category = store.list_discovered_skills_by_category("document");
    let got: Vec<(&str, i64, i64)> = by_category
        .iter()
        .map(|d| (d.name.as_str(), d.created_at, d.updated_at))
        .collect();
    assert_eq!(got, vec![("PDF tools", 10, 100), ("docx", 30, 30)]);
    let found: Vec<String> = store.search_discovered_skills("DOC").iter().map(|d| d.name.clone()).collect();
    assert_eq!(found, vec!["PDF tools", "docx"]);
    let found: Vec<String> = store.search_discovered_skills("described").iter().map(|d| d.name.clone()).collect();
    assert_eq!(found.len(), 4);
    assert_eq!(store.search_discovered_skills("nothing").len(), 0);
    store.clear_discovered_skills();
    assert_eq!(store.list_discovered_skills().len(), 0);
}

#[test]
fn agents_are_listed_oldest_first() {
    let mut store = ready();
    assert_eq!(store.add_ai_agent_as("late", "k1", "u1", "a1".to_string(), 30), Ok("a1".to_string()));
    assert_eq!(store.add_ai_agent_as("early", "k2", "u2", "a2".to_string(), 10), Ok("a2".to_string()));
    assert_eq!(
        store.add_ai_agent_as("again", "k", "u", "a1".to_string(), 20),
        Err(StoreError::Conflict)
    );
    let id = store.add_ai_agent("fresh", "k3", "u3").unwrap();
    assert_eq!(id.len(), 36);
    store.update_ai_agent("a2", "renamed", "k9", "u9", 50);
    store.update_ai_agent("none", "x", "x", "x", 50);
    let agents = store.list_ai_agents();
    let got: Vec<(&str, &str, i64, i64)> = agents
        .iter()
        .take(2)
        .map(|a| (a.id.as_str(), a.name.as_str(), a.created_at, a.updated_at))
        .collect();
    assert_eq!(got, vec![("a2", "renamed", 10, 50), ("a1", "late", 30, 30)]);
    assert_eq!(agents.len(), 3);
    assert_eq!(store.get_ai_agent_by_id("a2").unwrap().api_key, "k9");
    assert!(store.get_ai_agent_by_id("zz").is_none());
    store.remove_ai_agent("a2");
    assert_eq!(store.list_ai_agents().len(), 2);
}

#[test]
fn an_earlier_catalogue_is_copied_once() {
    let candidates = legacy_db_paths("/data");
    assert_eq!(
        candidates,
        vec!["/data/com.tauri.dev/skills_hub.db", "/data/com.tauri.dev.skillshub/skills_hub.db"]
    );
    let plan = |has_skills: bool, exists: bool, found: Vec<bool>| {
        format!(
            "{:?}",
            migrate_legacy_db_if_needed("/data/app/skills_hub.db", has_skills, exists, &candidates, &found, 1700)
        )
    };
    assert_eq!(plan(true, true, vec![true, true]), "Nothing");
    assert_eq!(plan(false, true, vec![false, false]), "Nothing");
    assert_eq!(plan(false, false, vec![]), "Nothing");
    assert_eq!(
        plan(false, false, vec![false, true]),
        format!(
            "{:?}",
            LegacyMigration::Copy { from: candidates[1].clone(), backup: None }
        )
    );
    assert_eq!(
        plan(false, true, vec![true, true]),
        format!(
            "{:?}",
            LegacyMigration::Copy {
                from: candidates[0].clone(),
                backup: Some("/data/app/skills_hub.bak-1700".to_string()),
            }
        )
    );
    let same = migrate_legacy_db_if_needed(&candidates[0], false, true, &candidates, &vec![true, false], 1);
    assert_eq!(format!("{:?}", same), "Nothing");
}

#[test]
fn the_built_in_categories_are_added_where_they_are_missing() {
    let mut store = SkillStore::new("/data/skills_hub.db".to_string());
    store.ensure_schema(10).unwrap();
    assert_eq!(
        store.add_category_at("games", "Games", "Play", "G", "#fff", 20),
        Ok("games".to_string())
    );
    store.initialize_default_categories(30);
    // all four are stored already: nothing is added
    let said: Vec<(&str, &str, &str, &str, &str, i64)> = store
        .categories()
        .iter()
        .map(|c| {
            (c.id.as_str(), c.name.as_str(), c.description.as_str(), c.icon.as_str(), c.color.as_str(), c.created_at)
        })
        .collect();
    assert_eq!(
        said,
        vec![
            ("development", "开发工具", "提升开发效率的工具和技能", "💻", "#3b82f6", 10),
            ("productivity", "生产力", "提高工作效率的技能", "⚡", "#f59e0b", 10),
            ("ai", "AI 辅助", "AI 相关的技能和工具", "🤖", "#8b5cf6", 10),
            ("documentation", "文档", "文档编写和管理技能", "📚", "#10b981", 10),
            ("games", "Games", "Play", "G", "#fff", 20),
        ]
    );
    // in a catalogue without a schema, a category of a built-in id stays
    // as it is and the others are added in their order
    let mut bare = SkillStore::new("/data/other.db".to_string());
    assert_eq!(bare.add_category_at("ai", "Mine", "My own", "M", "#000", 5), Ok("ai".to_string()));
    bare.initialize_default_categories(40);
    let ids: Vec<(&str, &str, i64)> =
        bare.categories().iter().map(|c| (c.id.as_str(), c.name.as_str(), c.created_at)).collect();
    assert_eq!(
        ids,
        vec![
            ("ai", "Mine", 5),
            ("development", "开发工具", 40),
            ("productivity", "生产力", 40),
            ("documentation", "文档", 40),
        ]
    );
}
