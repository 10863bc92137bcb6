//! The catalogue of managed skills: its records, its settings and the
//! history of its schema.
//!
//! The catalogue is held in memory. Whoever keeps it on disk replays what
//! the methods report: the migrations of [`SkillStore::pending_migrations`]
//! and the rows that the tables hold.

use vstd::prelude::*;
use crate::clock::unix_now_millis;
use crate::discovery::CategoryInfo;
use crate::discovery_config::{
    category_views, default_categories, CategoryView, DiscoveryConfig,
};
use crate::distinct::texts;
use crate::ident::new_id;
use crate::paths::{joined_path, no_separator, path_join, path_with_extension, with_extension};
use crate::text::{decimal, decimal_digits, decimal_string, lemma_decimal_digits};
use crate::ranking::{is_ranking, rank_descending};
use crate::text::{lowercase, occurs_in, str_contains, str_eq, to_lowercase};
use crate::text_order::{is_text_ranking, key_texts, rank_texts};

verus! {

/// The name of the file that the catalogue is kept in.
pub const DB_FILE_NAME: &'static str = "skills_hub.db";

/// The schema version that this library knows.
pub const SCHEMA_VERSION: i32 = 6;

/// Why the catalogue refused an operation.
#[derive(Clone, Copy, Debug, PartialEq, Eq, Structural)]
pub enum StoreError {
    /// The stored schema is newer than this library knows.
    UnsupportedSchemaVersion { found: i32, supported: i32 },
    /// A row with the same unique value is already stored.
    Conflict,
    /// The skill that a row belongs to is not stored.
    MissingSkill,
}

/// A managed skill.
#[derive(Debug)]
pub struct SkillRecord {
    pub id: String,
    pub name: String,
    pub description: Option<String>,
    pub category: Option<String>,
    pub source_type: String,
    pub source_ref: Option<String>,
    pub source_revision: Option<String>,
    pub central_path: String,
    pub content_hash: Option<String>,
    pub created_at: i64,
    pub updated_at: i64,
    pub last_sync_at: Option<i64>,
    pub last_seen_at: i64,
    pub status: String,
}

impl Clone for SkillRecord {
    fn clone(&self) -> (r: Self)
        ensures
            r == *self,
    {
        SkillRecord {
            id: self.id.clone(),
            name: self.name.clone(),
            description: self.description.clone(),
            category: self.category.clone(),
            source_type: self.source_type.clone(),
            source_ref: self.source_ref.clone(),
            source_revision: self.source_revision.clone(),
            central_path: self.central_path.clone(),
            content_hash: self.content_hash.clone(),
            created_at: self.created_at,
            updated_at: self.updated_at,
            last_sync_at: self.last_sync_at,
            last_seen_at: self.last_seen_at,
            status: self.status.clone(),
        }
    }
}

/// A copy of a managed skill in the directory of one tool.
#[derive(Debug)]
pub struct SkillTargetRecord {
    pub id: String,
    pub skill_id: String,
    pub tool: String,
    pub target_path: String,
    pub mode: String,
    pub status: String,
    pub last_error: Option<String>,
    pub synced_at: Option<i64>,
}

impl Clone for SkillTargetRecord {
    fn clone(&self) -> (r: Self)
        ensures
            r == *self,
    {
        SkillTargetRecord {
            id: self.id.clone(),
            skill_id: self.skill_id.clone(),
            tool: self.tool.clone(),
            target_path: self.target_path.clone(),
            mode: self.mode.clone(),
            status: self.status.clone(),
            last_error: self.last_error.clone(),
            synced_at: self.synced_at,
        }
    }
}

/// A skill mirrored from a curated list.
#[derive(Debug)]
pub struct DiscoveredSkillRecord {
    pub id: String,
    pub name: String,
    pub description: String,
    pub github_url: String,
    pub category: String,
    pub source: String,
    pub tags: String,
    pub created_at: i64,
    pub updated_at: i64,
}

impl Clone for DiscoveredSkillRecord {
    fn clone(&self) -> (r: Self)
        ensures
            r == *self,
    {
        DiscoveredSkillRecord {
            id: self.id.clone(),
            name: self.name.clone(),
            description: self.description.clone(),
            github_url: self.github_url.clone(),
            category: self.category.clone(),
            source: self.source.clone(),
            tags: self.tags.clone(),
            created_at: self.created_at,
            updated_at: self.updated_at,
        }
    }
}

/// An AI agent and how to reach it.
#[derive(Debug)]
pub struct AiAgentRecord {
    pub id: String,
    pub name: String,
    pub api_key: String,
    pub base_url: String,
    pub created_at: i64,
    pub updated_at: i64,
}

impl Clone for AiAgentRecord {
    fn clone(&self) -> (r: Self)
        ensures
            r == *self,
    {
        AiAgentRecord {
            id: self.id.clone(),
            name: self.name.clone(),
            api_key: self.api_key.clone(),
            base_url: self.base_url.clone(),
            created_at: self.created_at,
            updated_at: self.updated_at,
        }
    }
}

/// A setting of the application.
#[derive(Debug)]
pub struct Setting {
    pub key: String,
    pub value: String,
}

/// A stored category and when it was added.
#[derive(Debug)]
pub struct CategoryRow {
    pub id: String,
    pub name: String,
    pub description: String,
    pub icon: String,
    pub color: String,
    pub created_at: i64,
}

/// A directory that is scanned for skills.
#[derive(Debug)]
pub struct ScanPath {
    pub id: String,
    pub path: String,
    pub created_at: i64,
}

/// One step in the history of the schema.
#[derive(Clone, Copy, Debug, PartialEq, Eq, Structural)]
pub enum Migration {
    /// From nothing to the first schema.
    CreateSchema,
    /// Skills get a description.
    AddSkillDescription,
    /// Skills get a category.
    AddSkillCategory,
    /// The table of categories, filled with the built-in ones.
    AddCategories,
    /// The table of mirrored skills is made anew, empty.
    RebuildDiscoveredSkills,
    /// The table of AI agents.
    AddAiAgents,
}

/// The step that leads from schema version `version` to the next one, for
/// the versions below [`SCHEMA_VERSION`].
pub open spec fn step_from(version: int) -> Migration {
    if version == 0 {
        Migration::CreateSchema
    } else if version == 1 {
        Migration::AddSkillDescription
    } else if version == 2 {
        Migration::AddSkillCategory
    } else if version == 3 {
        Migration::AddCategories
    } else if version == 4 {
        Migration::RebuildDiscoveredSkills
    } else {
        Migration::AddAiAgents
    }
}

/// The steps that lead from schema version `version` to
/// [`SCHEMA_VERSION`], in order.
pub open spec fn steps_from(version: int) -> Seq<Migration> {
    if 0 <= version <= SCHEMA_VERSION {
        Seq::new((SCHEMA_VERSION - version) as nat, |i: int| step_from(version + i))
    } else {
        Seq::empty()
    }
}

/// The value of a key among the settings, if it has one.
pub open spec fn setting_of(settings: Seq<Setting>, key: Seq<char>) -> Option<Seq<char>> {
    if exists|i: int| 0 <= i < settings.len() && (#[trigger] settings[i]).key@ == key {
        let i = choose|i: int| 0 <= i < settings.len() && (#[trigger] settings[i]).key@ == key;
        Some(settings[i].value@)
    } else {
        None
    }
}

/// Whether no two settings share a key.
pub open spec fn unique_keys(settings: Seq<Setting>) -> bool {
    forall|i: int, j: int|
        0 <= i < j < settings.len() ==> (#[trigger] settings[i]).key@ != (#[trigger] settings[j]).key@
}

/// Whether some category has the id.
pub open spec fn has_category_row(rows: Seq<CategoryRow>, id: Seq<char>) -> bool {
    exists|i: int| 0 <= i < rows.len() && (#[trigger] rows[i]).id@ == id
}

/// Whether no two categories share an id.
pub open spec fn unique_category_ids(rows: Seq<CategoryRow>) -> bool {
    forall|i: int, j: int|
        0 <= i < j < rows.len() ==> (#[trigger] rows[i]).id@ != (#[trigger] rows[j]).id@
}

/// Whether some skill has the id.
pub open spec fn has_skill(rows: Seq<SkillRecord>, id: Seq<char>) -> bool {
    exists|i: int| 0 <= i < rows.len() && (#[trigger] rows[i]).id@ == id
}

/// Whether a skill with another id is kept at the path.
pub open spec fn path_taken(rows: Seq<SkillRecord>, id: Seq<char>, path: Seq<char>) -> bool {
    exists|i: int|
        0 <= i < rows.len() && (#[trigger] rows[i]).central_path@ == path && rows[i].id@ != id
}

/// Whether no two skills share an id or a path.
pub open spec fn skills_wf(rows: Seq<SkillRecord>) -> bool {
    forall|i: int, j: int|
        0 <= i < j < rows.len() ==> (#[trigger] rows[i]).id@ != (#[trigger] rows[j]).id@
            && rows[i].central_path@ != rows[j].central_path@
}

/// Whether some target is of the skill and the tool.
pub open spec fn has_target(rows: Seq<SkillTargetRecord>, skill: Seq<char>, tool: Seq<char>) -> bool {
    exists|i: int|
        0 <= i < rows.len() && (#[trigger] rows[i]).skill_id@ == skill && rows[i].tool@ == tool
}

/// Whether some target has the id.
pub open spec fn has_target_id(rows: Seq<SkillTargetRecord>, id: Seq<char>) -> bool {
    exists|i: int| 0 <= i < rows.len() && (#[trigger] rows[i]).id@ == id
}

/// Whether no two targets share an id or are of the same skill and tool,
/// and every target is of a stored skill.
pub open spec fn targets_wf(rows: Seq<SkillTargetRecord>, skills: Seq<SkillRecord>) -> bool {
    &&& forall|i: int, j: int|
        0 <= i < j < rows.len() ==> (#[trigger] rows[i]).id@ != (#[trigger] rows[j]).id@ && !(
        rows[i].skill_id@ == rows[j].skill_id@ && rows[i].tool@ == rows[j].tool@)
    &&& forall|i: int| 0 <= i < rows.len() ==> has_skill(skills, (#[trigger] rows[i]).skill_id@)
}

/// Whether some scanned directory is the path.
pub open spec fn has_scan_path(rows: Seq<ScanPath>, path: Seq<char>) -> bool {
    exists|i: int| 0 <= i < rows.len() && (#[trigger] rows[i]).path@ == path
}

/// Whether some scanned directory has the id.
pub open spec fn has_scan_id(rows: Seq<ScanPath>, id: Seq<char>) -> bool {
    exists|i: int| 0 <= i < rows.len() && (#[trigger] rows[i]).id@ == id
}

/// Whether no two scanned directories share an id or a path.
pub open spec fn scan_paths_wf(rows: Seq<ScanPath>) -> bool {
    forall|i: int, j: int|
        0 <= i < j < rows.len() ==> (#[trigger] rows[i]).id@ != (#[trigger] rows[j]).id@
            && rows[i].path@ != rows[j].path@
}

/// Whether some mirrored skill has the id.
pub open spec fn has_discovered(rows: Seq<DiscoveredSkillRecord>, id: Seq<char>) -> bool {
    exists|i: int| 0 <= i < rows.len() && (#[trigger] rows[i]).id@ == id
}

/// Whether no two mirrored skills share an id.
pub open spec fn discovered_wf(rows: Seq<DiscoveredSkillRecord>) -> bool {
    forall|i: int, j: int|
        0 <= i < j < rows.len() ==> (#[trigger] rows[i]).id@ != (#[trigger] rows[j]).id@
}

/// Whether some agent has the id.
pub open spec fn has_agent(rows: Seq<AiAgentRecord>, id: Seq<char>) -> bool {
    exists|i: int| 0 <= i < rows.len() && (#[trigger] rows[i]).id@ == id
}

/// Whether no two agents share an id.
pub open spec fn agents_wf(rows: Seq<AiAgentRecord>) -> bool {
    forall|i: int, j: int|
        0 <= i < j < rows.len() ==> (#[trigger] rows[i]).id@ != (#[trigger] rows[j]).id@
}

/// The text of a flag as the settings hold it.
pub open spec fn flag_text(on: bool) -> Seq<char> {
    if on {
        "true"@
    } else {
        "false"@
    }
}

/// What the catalogue holds: the place it is kept at, the version of its
/// schema, and its tables, each in the order of insertion.
pub ghost struct Catalogue {
    pub path: Seq<char>,
    pub version: int,
    pub settings: Seq<Setting>,
    pub skills: Seq<SkillRecord>,
    pub targets: Seq<SkillTargetRecord>,
    pub scan_paths: Seq<ScanPath>,
    pub categories: Seq<CategoryRow>,
    pub discovered: Seq<DiscoveredSkillRecord>,
    pub agents: Seq<AiAgentRecord>,
}

impl Catalogue {
    /// The invariant of the catalogue: within each table, no two rows
    /// share what is unique to a row, and every target is of a stored
    /// skill.
    pub open spec fn wf(self) -> bool {
        &&& unique_keys(self.settings)
        &&& skills_wf(self.skills)
        &&& targets_wf(self.targets, self.skills)
        &&& scan_paths_wf(self.scan_paths)
        &&& unique_category_ids(self.categories)
        &&& discovered_wf(self.discovered)
        &&& agents_wf(self.agents)
    }
}

/// The catalogue.
#[derive(Debug)]
pub struct SkillStore {
    db_path: String,
    user_version: i32,
    settings: Vec<Setting>,
    skills: Vec<SkillRecord>,
    targets: Vec<SkillTargetRecord>,
    scan_paths: Vec<ScanPath>,
    categories: Vec<CategoryRow>,
    discovered: Vec<DiscoveredSkillRecord>,
    agents: Vec<AiAgentRecord>,
}

impl View for SkillStore {
    type V = Catalogue;

    closed spec fn view(&self) -> Catalogue {
        Catalogue {
            path: self.db_path@,
            version: self.user_version as int,
            settings: self.settings@,
            skills: self.skills@,
            targets: self.targets@,
            scan_paths: self.scan_paths@,
            categories: self.categories@,
            discovered: self.discovered@,
            agents: self.agents@,
        }
    }
}

/// What a stored category says.
pub open spec fn category_said(row: CategoryRow) -> CategoryView {
    CategoryView {
        id: row.id@,
        name: row.name@,
        description: row.description@,
        icon: row.icon@,
        color: row.color@,
    }
}

/// Whether the row stores the category, stamped with `now`.
pub open spec fn stores(row: CategoryRow, category: CategoryView, now: i64) -> bool {
    category_said(row) == category && row.created_at == now
}

/// Whether no row has the id of a category, as a predicate.
pub open spec fn not_stored(rows: Seq<CategoryRow>) -> spec_fn(CategoryView) -> bool {
    |c: CategoryView| !has_category_row(rows, c.id)
}

/// Whether `after` is `before` with those of the categories added, in
/// their order, whose id no row of `before` has, each stamped with `now`.
pub open spec fn adds_categories(
    before: Seq<CategoryRow>,
    categories: Seq<CategoryView>,
    now: i64,
    after: Seq<CategoryRow>,
) -> bool {
    let missing = categories.filter(not_stored(before));
    &&& after.len() == before.len() + missing.len()
    &&& before.is_prefix_of(after)
    &&& forall|k: int|
        0 <= k < missing.len() ==> stores(#[trigger] after[before.len() + k], missing[k], now)
}

/// Whether the built-in categories are among the rows.
pub open spec fn has_builtin_categories(rows: Seq<CategoryRow>) -> bool {
    &&& has_category_row(rows, "development"@)
    &&& has_category_row(rows, "productivity"@)
    &&& has_category_row(rows, "ai"@)
    &&& has_category_row(rows, "documentation"@)
}

impl SkillStore {
    /// The invariant of the catalogue, see [`Catalogue::wf`].
    pub open spec fn wf(&self) -> bool {
        self@.wf()
    }

    /// An empty catalogue without a schema, to be kept at `db_path`.
    pub fn new(db_path: String) -> (s: SkillStore)
        ensures
            s.wf(),
            s@ == (Catalogue {
                path: db_path@,
                version: 0,
                settings: Seq::empty(),
                skills: Seq::empty(),
                targets: Seq::empty(),
                scan_paths: Seq::empty(),
                categories: Seq::empty(),
                discovered: Seq::empty(),
                agents: Seq::empty(),
            }),
    {
        SkillStore {
            db_path,
            user_version: 0,
            settings: Vec::new(),
            skills: Vec::new(),
            targets: Vec::new(),
            scan_paths: Vec::new(),
            categories: Vec::new(),
            discovered: Vec::new(),
            agents: Vec::new(),
        }
    }

    /// An empty catalogue whose schema has the version given.
    pub fn with_version(db_path: String, version: i32) -> (s: SkillStore)
        ensures
            s.wf(),
            s@ == (Catalogue {
                path: db_path@,
                version: version as int,
                settings: Seq::empty(),
                skills: Seq::empty(),
                targets: Seq::empty(),
                scan_paths: Seq::empty(),
                categories: Seq::empty(),
                discovered: Seq::empty(),
                agents: Seq::empty(),
            }),
    {
        SkillStore {
            db_path,
            user_version: version,
            settings: Vec::new(),
            skills: Vec::new(),
            targets: Vec::new(),
            scan_paths: Vec::new(),
            categories: Vec::new(),
            discovered: Vec::new(),
            agents: Vec::new(),
        }
    }

    /// The settings, oldest insert first.
    pub fn settings(&self) -> (r: &Vec<Setting>)
        ensures
            r@ == self@.settings,
    {
        &self.settings
    }

    /// The skills, oldest insert first.
    pub fn skills(&self) -> (r: &Vec<SkillRecord>)
        ensures
            r@ == self@.skills,
    {
        &self.skills
    }

    /// The targets, oldest insert first.
    pub fn targets(&self) -> (r: &Vec<SkillTargetRecord>)
        ensures
            r@ == self@.targets,
    {
        &self.targets
    }

    /// The scanned directories, oldest insert first.
    pub fn scan_paths(&self) -> (r: &Vec<ScanPath>)
        ensures
            r@ == self@.scan_paths,
    {
        &self.scan_paths
    }

    /// The categories, oldest insert first.
    pub fn categories(&self) -> (r: &Vec<CategoryRow>)
        ensures
            r@ == self@.categories,
    {
        &self.categories
    }

    /// The mirrored skills, oldest insert first.
    pub fn discovered_skills(&self) -> (r: &Vec<DiscoveredSkillRecord>)
        ensures
            r@ == self@.discovered,
    {
        &self.discovered
    }

    /// The agents, oldest insert first.
    pub fn ai_agents(&self) -> (r: &Vec<AiAgentRecord>)
        ensures
            r@ == self@.agents,
    {
        &self.agents
    }

    /// The place where the catalogue is kept.
    pub fn db_path(&self) -> (r: &str)
        ensures
            r@ == self@.path,
    {
        self.db_path.as_str()
    }

    /// The schema version of the catalogue.
    pub fn schema_version(&self) -> (r: i32)
        ensures
            r == self@.version,
    {
        self.user_version
    }

    /// The steps that [`SkillStore::ensure_schema`] would take, in order,
    /// or the refusal of a schema that is newer than this library knows.
    /// A version below zero has no steps.
    pub fn pending_migrations(&self) -> (r: Result<Vec<Migration>, StoreError>)
        ensures
            match r {
                Ok(steps) => self@.version <= SCHEMA_VERSION && steps@ == steps_from(self@.version),
                Err(e) => self@.version > SCHEMA_VERSION && e
                    == (StoreError::UnsupportedSchemaVersion {
                    found: self@.version as i32,
                    supported: SCHEMA_VERSION,
                }),
            },
    {
        if self.user_version > SCHEMA_VERSION {
            return Err(
                StoreError::UnsupportedSchemaVersion {
                    found: self.user_version,
                    supported: SCHEMA_VERSION,
                },
            );
        }
        let mut steps: Vec<Migration> = Vec::new();
        if self.user_version < 0 {
            assert(steps@ =~= steps_from(self@.version));
            return Ok(steps);
        }
        let mut v: i32 = self.user_version;
        while v < SCHEMA_VERSION
            invariant
                0 <= self.user_version <= v <= SCHEMA_VERSION,
                steps@.len() == v - self.user_version,
                forall|k: int|
                    0 <= k < steps@.len() ==> #[trigger] steps@[k] == step_from(
                        self.user_version + k,
                    ),
            decreases SCHEMA_VERSION - v,
        {
            steps.push(next_step(v));
            v = v + 1;
        }
        assert(steps@ =~= steps_from(self@.version));
        Ok(steps)
    }

    /// Adds the built-in categories that are not stored yet, in their
    /// order, each stamped with `now`.
    pub fn initialize_default_categories(&mut self, now: i64)
        requires
            old(self).wf(),
        ensures
            final(self).wf(),
            final(self)@ == (Catalogue { categories: final(self)@.categories, ..old(self)@ }),
            old(self)@.categories.is_prefix_of(final(self)@.categories),
            has_builtin_categories(final(self)@.categories),
            adds_categories(
                old(self)@.categories,
                default_categories(),
                now,
                final(self)@.categories,
            ),
    {
        let config = DiscoveryConfig::get_default();
        let ghost before = self@.categories;
        let ghost said = category_views(config.categories@);
        let mut i: usize = 0;
        proof {
            reveal(Seq::filter);
            assert(said.take(0).filter(not_stored(before)) =~= Seq::<CategoryView>::empty());
        }
        while i < config.categories.len()
            invariant
                i <= config.categories.len(),
                config.wf(),
                said == category_views(config.categories@),
                before == old(self)@.categories,
                self.wf(),
                self@ == (Catalogue { categories: self@.categories, ..old(self)@ }),
                forall|k: int|
                    0 <= k < i ==> has_category_row(
                        self@.categories,
                        (#[trigger] config.categories@[k]).id@,
                    ),
                adds_categories(before, said.take(i as int), now, self@.categories),
            decreases config.categories.len() - i,
        {
            let c = &config.categories[i];
            let ghost rows = self@.categories;
            let ghost missing = said.take(i as int).filter(not_stored(before));
            proof {
                said.lemma_take_succ_push(i as int);
                said.take(i as int).lemma_filter_push(said[i as int], not_stored(before));
                assert(said[i as int] == c@);
                assert(has_category_row(rows, c.id@) <==> has_category_row(before, c.id@)) by {
                    if has_category_row(rows, c.id@) {
                        let w = choose|w: int| 0 <= w < rows.len() && (#[trigger] rows[w]).id@ == c.id@;
                        if w >= before.len() {
                            let k = w - before.len();
                            assert(stores(rows[before.len() + k], missing[k], now));
                            assert(missing.contains(missing[k]));
                            said.take(i as int).lemma_filter_contains_rev(
                                not_stored(before),
                                missing[k],
                            );
                            let j = choose|j: int|
                                0 <= j < said.take(i as int).len() && said.take(i as int)[j]
                                    == missing[k];
                            assert(said[j] == config.categories@[j]@);
                            assert(config.categories@[j].id@ != config.categories@[i as int].id@);
                        } else {
                            assert(before[w].id@ == c.id@);
                        }
                    }
                    if has_category_row(before, c.id@) {
                        let w = choose|w: int|
                            0 <= w < before.len() && (#[trigger] before[w]).id@ == c.id@;
                        assert(rows[w].id@ == c.id@);
                    }
                }
            }
            if self.find_category(c.id.as_str()).is_none() {
                self.categories.push(
                    CategoryRow {
                        id: c.id.clone(),
                        name: c.name.clone(),
                        description: c.description.clone(),
                        icon: c.icon.clone(),
                        color: c.color.clone(),
                        created_at: now,
                    },
                );
                assert(self@.categories[rows.len() as int].id@ == c.id@);
                assert(stores(self@.categories[rows.len() as int], c@, now));
            }
            proof {
                assert forall|k: int| 0 <= k < i implies has_category_row(
                    self@.categories,
                    (#[trigger] config.categories@[k]).id@,
                ) by {
                    let id = config.categories@[k].id@;
                    let w = choose|w: int| 0 <= w < rows.len() && (#[trigger] rows[w]).id@ == id;
                    assert(self@.categories[w].id@ == id);
                }
                let grown = said.take(i + 1).filter(not_stored(before));
                assert forall|k: int| 0 <= k < grown.len() implies stores(
                    #[trigger] self@.categories[before.len() + k],
                    grown[k],
                    now,
                ) by {
                    if k < missing.len() {
                        assert(self@.categories[before.len() + k] == rows[before.len() + k]);
                        assert(grown[k] == missing[k]);
                    }
                }
            }
            i = i + 1;
        }
        proof {
            said.lemma_take_len();
            assert(said == default_categories());
            assert(said.len() == 4);
            assert(said[0] == config.categories@[0]@);
            assert(said[1] == config.categories@[1]@);
            assert(said[2] == config.categories@[2]@);
            assert(said[3] == config.categories@[3]@);
            assert(has_category_row(self@.categories, config.categories@[0].id@));
            assert(has_category_row(self@.categories, config.categories@[1].id@));
            assert(has_category_row(self@.categories, config.categories@[2].id@));
            assert(has_category_row(self@.categories, config.categories@[3].id@));
        }
    }

    /// Takes one step in the history of the schema. Only two steps change
    /// what the catalogue holds: the built-in categories come with their
    /// table, and the mirrored skills are emptied with theirs.
    pub fn apply_migration(&mut self, step: Migration, now: i64)
        requires
            old(self).wf(),
            0 <= old(self)@.version < SCHEMA_VERSION,
            step == step_from(old(self)@.version),
        ensures
            final(self).wf(),
            final(self)@ == (Catalogue {
                version: old(self)@.version + 1,
                categories: final(self)@.categories,
                discovered: final(self)@.discovered,
                ..old(self)@
            }),
            step == Migration::RebuildDiscoveredSkills ==> final(self)@.discovered.len() == 0,
            step != Migration::RebuildDiscoveredSkills ==> final(self)@.discovered == old(self)@.discovered,
            step != Migration::AddCategories ==> final(self)@.categories == old(self)@.categories,
            step == Migration::AddCategories ==> old(self)@.categories.is_prefix_of(
                final(self)@.categories,
            ) && has_builtin_categories(final(self)@.categories),
    {
        match step {
            Migration::AddCategories => {
                self.initialize_default_categories(now);
            },
            Migration::RebuildDiscoveredSkills => {
                self.discovered.clear();
            },
            _ => {},
        }
        self.user_version = self.user_version + 1;
    }

    /// Brings the schema up to [`SCHEMA_VERSION`], one step at a time,
    /// each stamped with `now`. A schema that is newer than this library
    /// knows is refused, and the catalogue left as it is; so is, without
    /// a refusal, one with a version below zero.
    pub fn ensure_schema(&mut self, now: i64) -> (r: Result<(), StoreError>)
        requires
            old(self).wf(),
        ensures
            final(self).wf(),
            final(self)@ == (Catalogue {
                version: final(self)@.version,
                categories: final(self)@.categories,
                discovered: final(self)@.discovered,
                ..old(self)@
            }),
            r is Err <==> old(self)@.version > SCHEMA_VERSION,
            match r {
                Ok(_) => if old(self)@.version < 0 {
                    final(self)@.version == old(self)@.version
                } else {
                    final(self)@.version == SCHEMA_VERSION
                },
                Err(e) => e == (StoreError::UnsupportedSchemaVersion {
                    found: old(self)@.version as i32,
                    supported: SCHEMA_VERSION,
                }) && final(self)@.version == old(self)@.version,
            },
            old(self)@.version < 0 || old(self)@.version >= SCHEMA_VERSION ==> final(self)@ == old(self)@,
            0 <= old(self)@.version <= 3 ==> has_builtin_categories(final(self)@.categories),
            0 <= old(self)@.version <= 4 ==> final(self)@.discovered.len() == 0,
    {
        if self.user_version > SCHEMA_VERSION {
            return Err(
                StoreError::UnsupportedSchemaVersion {
                    found: self.user_version,
                    supported: SCHEMA_VERSION,
                },
            );
        }
        if self.user_version < 0 {
            return Ok(());
        }
        while self.user_version < SCHEMA_VERSION
            invariant
                self.wf(),
                0 <= old(self)@.version <= self@.version <= SCHEMA_VERSION,
                self@ == (Catalogue {
                    version: self@.version,
                    categories: self@.categories,
                    discovered: self@.discovered,
                    ..old(self)@
                }),
                self@.version == old(self)@.version ==> self@ == old(self)@,
                old(self)@.version <= 3 < self@.version ==> has_builtin_categories(
                    self@.categories,
                ),
                old(self)@.version <= 4 < self@.version ==> self@.discovered.len() == 0,
            decreases SCHEMA_VERSION - self.user_version,
        {
            let step = next_step(self.user_version);
            self.apply_migration(step, now);
        }
        Ok(())
    }

    fn find_category(&self, id: &str) -> (r: Option<usize>)
        ensures
            r is Some <==> has_category_row(self@.categories, id@),
            r matches Some(i) ==> i < self@.categories.len() && self@.categories[i as int].id@ == id@,
    {
        let mut i: usize = 0;
        while i < self.categories.len()
            invariant
                i <= self.categories.len(),
                forall|k: int| 0 <= k < i ==> (#[trigger] self.categories[k]).id@ != id@,
            decreases self.categories.len() - i,
        {
            if str_eq(self.categories[i].id.as_str(), id) {
                return Some(i);
            }
            i = i + 1;
        }
        None
    }

    fn find_setting(&self, key: &str) -> (r: Option<usize>)
        ensures
            match r {
                Some(i) => i < self@.settings.len() && self@.settings[i as int].key@ == key@,
                None => forall|k: int|
                    0 <= k < self@.settings.len() ==> (#[trigger] self@.settings[k]).key@ != key@,
            },
    {
        let mut i: usize = 0;
        while i < self.settings.len()
            invariant
                i <= self.settings.len(),
                forall|k: int| 0 <= k < i ==> (#[trigger] self.settings[k]).key@ != key@,
            decreases self.settings.len() - i,
        {
            if str_eq(self.settings[i].key.as_str(), key) {
                return Some(i);
            }
            i = i + 1;
        }
        None
    }

    /// The value of a setting, if it has one.
    pub fn get_setting(&self, key: &str) -> (r: Option<String>)
        requires
            self.wf(),
        ensures
            match r {
                Some(v) => setting_of(self@.settings, key@) == Some(v@),
                None => setting_of(self@.settings, key@) is None,
            },
    {
        match self.find_setting(key) {
            Some(i) => {
                proof {
                    lemma_setting_at(self@.settings, i as int);
                }
                Some(self.settings[i].value.clone())
            },
            None => None,
        }
    }

    /// Gives a setting a value, in place of the one it had.
    pub fn set_setting(&mut self, key: &str, value: &str)
        requires
            old(self).wf(),
        ensures
            final(self).wf(),
            final(self)@ == (Catalogue { settings: final(self)@.settings, ..old(self)@ }),
            setting_of(final(self)@.settings, key@) == Some(value@),
            forall|other: Seq<char>|
                other != key@ ==> setting_of(final(self)@.settings, other) == setting_of(
                    old(self)@.settings,
                    other,
                ),
    {
        let ghost before = self@.settings;
        let entry = Setting { key: key.to_string(), value: value.to_string() };
        match self.find_setting(key) {
            Some(i) => {
                self.settings.set(i, entry);
                proof {
                    let after = self@.settings;
                    lemma_setting_at(after, i as int);
                    assert forall|other: Seq<char>| other != key@ implies setting_of(after, other)
                        == setting_of(before, other) by {
                        lemma_setting_same(before, after, other);
                    }
                }
            },
            None => {
                self.settings.push(entry);
                proof {
                    let after = self@.settings;
                    lemma_setting_at(after, before.len() as int);
                    assert forall|other: Seq<char>| other != key@ implies setting_of(after, other)
                        == setting_of(before, other) by {
                        lemma_setting_same(before, after, other);
                    }
                }
            },
        }
    }

    /// Records whether the first-run tour was completed.
    pub fn set_onboarding_completed(&mut self, completed: bool)
        requires
            old(self).wf(),
        ensures
            final(self).wf(),
            final(self)@ == (Catalogue { settings: final(self)@.settings, ..old(self)@ }),
            setting_of(final(self)@.settings, "onboarding_completed"@) == Some(
                flag_text(completed),
            ),
            forall|other: Seq<char>|
                other != "onboarding_completed"@ ==> setting_of(final(self)@.settings, other)
                    == setting_of(old(self)@.settings, other),
    {
        self.set_setting(
            "onboarding_completed",
            if completed {
                "true"
            } else {
                "false"
            },
        )
    }

    /// Whether skills are updated without asking: so where the setting
    /// reads `true`, and not where it reads anything else or is not set.
    pub fn get_auto_update_enabled(&self) -> (r: bool)
        requires
            self.wf(),
        ensures
            r == (setting_of(self@.settings, "auto_update_enabled"@) == Some("true"@)),
    {
        match self.get_setting("auto_update_enabled") {
            Some(v) => str_eq(v.as_str(), "true"),
            None => false,
        }
    }

    /// Records whether skills are updated without asking.
    pub fn set_auto_update_enabled(&mut self, enabled: bool)
        requires
            old(self).wf(),
        ensures
            final(self).wf(),
            final(self)@ == (Catalogue { settings: final(self)@.settings, ..old(self)@ }),
            setting_of(final(self)@.settings, "auto_update_enabled"@) == Some(flag_text(enabled)),
            forall|other: Seq<char>|
                other != "auto_update_enabled"@ ==> setting_of(final(self)@.settings, other)
                    == setting_of(old(self)@.settings, other),
    {
        self.set_setting(
            "auto_update_enabled",
            if enabled {
                "true"
            } else {
                "false"
            },
        )
    }
}

/// The step that leads on from a schema version.
pub fn next_step(version: i32) -> (r: Migration)
    ensures
        r == step_from(version as int),
{
    if version == 0 {
        Migration::CreateSchema
    } else if version == 1 {
        Migration::AddSkillDescription
    } else if version == 2 {
        Migration::AddSkillCategory
    } else if version == 3 {
        Migration::AddCategories
    } else if version == 4 {
        Migration::RebuildDiscoveredSkills
    } else {
        Migration::AddAiAgents
    }
}

/// Among settings with unique keys, the value of a key is the value of
/// the setting that has it.
pub proof fn lemma_setting_at(settings: Seq<Setting>, i: int)
    requires
        unique_keys(settings),
        0 <= i < settings.len(),
    ensures
        setting_of(settings, settings[i].key@) == Some(settings[i].value@),
{
    let key = settings[i].key@;
    let w = choose|w: int| 0 <= w < settings.len() && (#[trigger] settings[w]).key@ == key;
    if w < i {
        assert(settings[w].key@ != settings[i].key@);
    } else if i < w {
        assert(settings[i].key@ != settings[w].key@);
    }
}

/// Two lists of settings that differ in the setting of one key at most,
/// at one place or by one setting more at the end, agree on every other
/// key.
pub proof fn lemma_setting_same(before: Seq<Setting>, after: Seq<Setting>, other: Seq<char>)
    requires
        unique_keys(before),
        unique_keys(after),
        before.len() <= after.len() <= before.len() + 1,
        forall|k: int| 0 <= k < before.len() ==> (#[trigger] after[k]).key@ == before[k].key@,
        forall|k: int|
            0 <= k < before.len() && (#[trigger] before[k]).key@ == other ==> after[k].value@
                == before[k].value@,
        after.len() > before.len() ==> after[before.len() as int].key@ != other,
    ensures
        setting_of(after, other) == setting_of(before, other),
{
    if exists|i: int| 0 <= i < before.len() && (#[trigger] before[i]).key@ == other {
        let i = choose|i: int| 0 <= i < before.len() && (#[trigger] before[i]).key@ == other;
        assert(after[i].key@ == other);
        lemma_setting_at(before, i);
        lemma_setting_at(after, i);
    } else {
        if exists|i: int| 0 <= i < after.len() && (#[trigger] after[i]).key@ == other {
            let i = choose|i: int| 0 <= i < after.len() && (#[trigger] after[i]).key@ == other;
            if i < before.len() {
                assert(before[i].key@ == other);
            }
        }
    }
}

/// Whether `result` holds the rows in the given order.
pub open spec fn arranged<T>(result: Seq<T>, rows: Seq<T>, order: Seq<usize>) -> bool {
    &&& result.len() == rows.len()
    &&& forall|i: int| 0 <= i < result.len() ==> #[trigger] result[i] == rows[order[i] as int]
}

/// Whether `result` holds the rows ranked by their keys, the largest key
/// first, in the given order.
pub open spec fn is_listing<T>(result: Seq<T>, rows: Seq<T>, keys: Seq<i128>, order: Seq<usize>) -> bool {
    is_ranking(keys, order) && arranged(result, rows, order)
}

/// Whether `result` holds the rows sorted by their pairs of texts in
/// ascending order, in the given order.
pub open spec fn is_text_listing<T>(
    result: Seq<T>,
    rows: Seq<T>,
    keys: Seq<(Seq<char>, Seq<char>)>,
    order: Seq<usize>,
) -> bool {
    is_text_ranking(keys, order) && arranged(result, rows, order)
}

/// The skills after one was written: in the place of the skill of its
/// id, or last where no skill has its id.
pub open spec fn upserted_skill(rows: Seq<SkillRecord>, record: SkillRecord) -> Seq<SkillRecord> {
    if has_skill(rows, record.id@) {
        let i = choose|i: int| 0 <= i < rows.len() && (#[trigger] rows[i]).id@ == record.id@;
        rows.update(i, record)
    } else {
        rows.push(record)
    }
}

/// Whether a skill is another one than that of the id, as a predicate.
pub open spec fn other_skill(id: Seq<char>) -> spec_fn(SkillRecord) -> bool {
    |s: SkillRecord| s.id@ != id
}

/// Whether a target is of another skill than that of the id, as a
/// predicate.
pub open spec fn of_other_skill(id: Seq<char>) -> spec_fn(SkillTargetRecord) -> bool {
    |t: SkillTargetRecord| t.skill_id@ != id
}

/// Whether a target is another one than that of the skill and the tool,
/// as a predicate.
pub open spec fn other_target(skill: Seq<char>, tool: Seq<char>) -> spec_fn(
    SkillTargetRecord,
) -> bool {
    |t: SkillTargetRecord| !(t.skill_id@ == skill && t.tool@ == tool)
}

/// Whether a target is of the skill, as a predicate.
pub open spec fn target_of(skill: Seq<char>) -> spec_fn(SkillTargetRecord) -> bool {
    |t: SkillTargetRecord| t.skill_id@ == skill
}

/// The time at which each skill was updated, in the same order.
pub open spec fn update_times(rows: Seq<SkillRecord>) -> Seq<i128> {
    rows.map_values(|s: SkillRecord| s.updated_at as i128)
}

/// The tool of each target, as a pair with nothing, in the same order.
pub open spec fn tool_keys(rows: Seq<SkillTargetRecord>) -> Seq<(Seq<char>, Seq<char>)> {
    rows.map_values(|t: SkillTargetRecord| (t.tool@, Seq::<char>::empty()))
}

/// Whether a skill differs from another in no more than its category and
/// the time of its update, which are the ones given.
pub open spec fn recategorized(
    after: SkillRecord,
    before: SkillRecord,
    category: Option<&str>,
    now: i64,
) -> bool {
    &&& after.id == before.id
    &&& after.name == before.name
    &&& after.description == before.description
    &&& match category {
        Some(c) => after.category matches Some(a) && a@ == c@,
        None => after.category is None,
    }
    &&& after.source_type == before.source_type
    &&& after.source_ref == before.source_ref
    &&& after.source_revision == before.source_revision
    &&& after.central_path == before.central_path
    &&& after.content_hash == before.content_hash
    &&& after.created_at == before.created_at
    &&& after.updated_at == now
    &&& after.last_sync_at == before.last_sync_at
    &&& after.last_seen_at == before.last_seen_at
    &&& after.status == before.status
}

/// The skill with another name, description and time of update.
pub open spec fn redescribed(
    before: SkillRecord,
    name: String,
    description: Option<String>,
    now: i64,
) -> SkillRecord {
    SkillRecord { name, description, updated_at: now, ..before }
}

/// The skill with another time of update.
pub open spec fn restamped(before: SkillRecord, updated_at: i64) -> SkillRecord {
    SkillRecord { updated_at, ..before }
}

/// Choosing among rows of which any two differ leaves rows of which any
/// two differ.
pub proof fn lemma_filter_pairwise<A>(
    s: Seq<A>,
    p: spec_fn(A) -> bool,
    differ: spec_fn(A, A) -> bool,
)
    requires
        forall|i: int, j: int| 0 <= i < j < s.len() ==> differ(#[trigger] s[i], #[trigger] s[j]),
    ensures
        forall|i: int, j: int|
            0 <= i < j < s.filter(p).len() ==> differ(
                #[trigger] s.filter(p)[i],
                #[trigger] s.filter(p)[j],
            ),
    decreases s.len(),
{
    reveal(Seq::filter);
    if s.len() > 0 {
        let rest = s.drop_last();
        let last = s.last();
        assert forall|i: int, j: int| 0 <= i < j < rest.len() implies differ(
            #[trigger] rest[i],
            #[trigger] rest[j],
        ) by {
            assert(differ(s[i], s[j]));
        }
        lemma_filter_pairwise(rest, p, differ);
        let chosen = rest.filter(p);
        let f = s.filter(p);
        if p(last) {
            assert(f == chosen.push(last));
            assert forall|i: int, j: int| 0 <= i < j < f.len() implies differ(
                #[trigger] f[i],
                #[trigger] f[j],
            ) by {
                if j < chosen.len() {
                    assert(differ(chosen[i], chosen[j]));
                } else {
                    assert(chosen.contains(chosen[i]));
                    rest.lemma_filter_contains_rev(p, chosen[i]);
                    let a = choose|a: int| 0 <= a < rest.len() && rest[a] == chosen[i];
                    assert(differ(s[a], s[s.len() - 1]));
                }
            }
        } else {
            assert(f == chosen);
        }
    }
}

impl SkillStore {
    fn find_skill(&self, id: &str) -> (r: Option<usize>)
        ensures
            r is Some <==> has_skill(self@.skills, id@),
            r matches Some(i) ==> i < self@.skills.len() && self@.skills[i as int].id@ == id@,
    {
        let mut i: usize = 0;
        while i < self.skills.len()
            invariant
                i <= self.skills.len(),
                forall|k: int| 0 <= k < i ==> (#[trigger] self.skills[k]).id@ != id@,
            decreases self.skills.len() - i,
        {
            if str_eq(self.skills[i].id.as_str(), id) {
                return Some(i);
            }
            i = i + 1;
        }
        None
    }

    fn is_path_taken(&self, id: &str, path: &str) -> (r: bool)
        ensures
            r == path_taken(self@.skills, id@, path@),
    {
        let mut i: usize = 0;
        while i < self.skills.len()
            invariant
                i <= self.skills.len(),
                forall|k: int|
                    0 <= k < i ==> !((#[trigger] self.skills[k]).central_path@ == path@
                        && self.skills[k].id@ != id@),
            decreases self.skills.len() - i,
        {
            if str_eq(self.skills[i].central_path.as_str(), path) && !str_eq(
                self.skills[i].id.as_str(),
                id,
            ) {
                return true;
            }
            i = i + 1;
        }
        false
    }

    /// Writes a skill: in the place of the stored skill of its id, or as
    /// a new one. It is refused where another skill is kept at its path.
    pub fn upsert_skill(&mut self, record: &SkillRecord) -> (r: Result<(), StoreError>)
        requires
            old(self).wf(),
        ensures
            final(self).wf(),
            r is Err <==> path_taken(old(self)@.skills, record.id@, record.central_path@),
            match r {
                Ok(_) => final(self)@ == (Catalogue {
                    skills: upserted_skill(old(self)@.skills, *record),
                    ..old(self)@
                }),
                Err(e) => e == StoreError::Conflict && final(self)@ == old(self)@,
            },
    {
        if self.is_path_taken(record.id.as_str(), record.central_path.as_str()) {
            return Err(StoreError::Conflict);
        }
        let ghost before = self@.skills;
        let ghost targets = self@.targets;
        match self.find_skill(record.id.as_str()) {
            Some(i) => {
                proof {
                    let w = choose|w: int|
                        0 <= w < before.len() && (#[trigger] before[w]).id@ == record.id@;
                    if w < i {
                        assert(before[w].id@ != before[i as int].id@);
                    } else if i < w {
                        assert(before[i as int].id@ != before[w].id@);
                    }
                }
                self.skills.set(i, record.clone());
                proof {
                    let after = self@.skills;
                    assert(after == upserted_skill(before, *record));
                    assert forall|a: int, b: int| 0 <= a < b < after.len() implies (
                    #[trigger] after[a]).id@ != (#[trigger] after[b]).id@ && after[a].central_path@
                        != after[b].central_path@ by {
                        assert(before[a].id@ != before[b].id@);
                        if a == i {
                            assert(!(before[b].central_path@ == record.central_path@ && before[b].id@
                                != record.id@));
                        } else if b == i {
                            assert(!(before[a].central_path@ == record.central_path@ && before[a].id@
                                != record.id@));
                        }
                    }
                    assert forall|k: int| 0 <= k < targets.len() implies has_skill(
                        after,
                        (#[trigger] targets[k]).skill_id@,
                    ) by {
                        let w = choose|w: int|
                            0 <= w < before.len() && (#[trigger] before[w]).id@
                                == targets[k].skill_id@;
                        assert(after[w].id@ == targets[k].skill_id@);
                    }
                }
            },
            None => {
                self.skills.push(record.clone());
                proof {
                    let after = self@.skills;
                    assert forall|a: int, b: int| 0 <= a < b < after.len() implies (
                    #[trigger] after[a]).id@ != (#[trigger] after[b]).id@ && after[a].central_path@
                        != after[b].central_path@ by {
                        if b == before.len() {
                            assert(!(before[a].central_path@ == record.central_path@ && before[a].id@
                                != record.id@));
                        }
                    }
                    assert forall|k: int| 0 <= k < targets.len() implies has_skill(
                        after,
                        (#[trigger] targets[k]).skill_id@,
                    ) by {
                        let w = choose|w: int|
                            0 <= w < before.len() && (#[trigger] before[w]).id@
                                == targets[k].skill_id@;
                        assert(after[w].id@ == targets[k].skill_id@);
                    }
                }
            },
        }
        Ok(())
    }

    /// The skills, the latest updated first; skills updated at the same
    /// time stand oldest insert first.
    pub fn list_skills(&self) -> (r: Vec<SkillRecord>)
        ensures
            exists|order: Seq<usize>| #[trigger]
                is_listing(r@, self@.skills, update_times(self@.skills), order),
    {
        let mut keys: Vec<i128> = Vec::new();
        let mut i: usize = 0;
        while i < self.skills.len()
            invariant
                i <= self.skills.len(),
                keys@.len() == i,
                forall|k: int| 0 <= k < i ==> #[trigger] keys@[k] == self.skills@[k].updated_at,
            decreases self.skills.len() - i,
        {
            keys.push(self.skills[i].updated_at as i128);
            i = i + 1;
        }
        assert(keys@ =~= update_times(self@.skills));
        let order = rank_descending(&keys);
        let mut out: Vec<SkillRecord> = Vec::new();
        let mut k: usize = 0;
        while k < self.skills.len()
            invariant
                k <= self.skills.len(),
                is_ranking(keys@, order@),
                keys@.len() == self.skills@.len(),
                out@.len() == k,
                forall|a: int| 0 <= a < k ==> #[trigger] out@[a] == self.skills@[order@[a] as int],
            decreases self.skills.len() - k,
        {
            out.push(self.skills[order[k]].clone());
            k = k + 1;
        }
        assert(is_listing(out@, self@.skills, update_times(self@.skills), order@));
        out
    }

    /// The skill of the id, if one is stored.
    pub fn get_skill_by_id(&self, skill_id: &str) -> (r: Option<SkillRecord>)
        ensures
            r is Some <==> has_skill(self@.skills, skill_id@),
            r matches Some(s) ==> s.id@ == skill_id@ && self@.skills.contains(s),
    {
        match self.find_skill(skill_id) {
            Some(i) => {
                assert(self@.skills[i as int] == self@.skills[i as int]);
                Some(self.skills[i].clone())
            },
            None => None,
        }
    }

    /// Removes the skill of the id, and with it its targets.
    pub fn delete_skill(&mut self, skill_id: &str)
        requires
            old(self).wf(),
        ensures
            final(self).wf(),
            final(self)@ == (Catalogue {
                skills: old(self)@.skills.filter(other_skill(skill_id@)),
                targets: old(self)@.targets.filter(of_other_skill(skill_id@)),
                ..old(self)@
            }),
    {
        let ghost before = self@;
        let mut skills: Vec<SkillRecord> = Vec::new();
        let mut i: usize = 0;
        proof {
            reveal(Seq::filter);
            assert(skills@ =~= before.skills.take(0).filter(other_skill(skill_id@)));
        }
        while i < self.skills.len()
            invariant
                i <= self.skills.len(),
                self@ == before,
                skills@ == before.skills.take(i as int).filter(other_skill(skill_id@)),
            decreases self.skills.len() - i,
        {
            proof {
                before.skills.lemma_take_succ_push(i as int);
                before.skills.take(i as int).lemma_filter_push(
                    before.skills[i as int],
                    other_skill(skill_id@),
                );
            }
            if !str_eq(self.skills[i].id.as_str(), skill_id) {
                skills.push(self.skills[i].clone());
            }
            i = i + 1;
        }
        let mut targets: Vec<SkillTargetRecord> = Vec::new();
        let mut j: usize = 0;
        proof {
            before.skills.lemma_take_len();
            assert(targets@ =~= before.targets.take(0).filter(of_other_skill(skill_id@)));
        }
        while j < self.targets.len()
            invariant
                j <= self.targets.len(),
                self@ == before,
                targets@ == before.targets.take(j as int).filter(of_other_skill(skill_id@)),
            decreases self.targets.len() - j,
        {
            proof {
                before.targets.lemma_take_succ_push(j as int);
                before.targets.take(j as int).lemma_filter_push(
                    before.targets[j as int],
                    of_other_skill(skill_id@),
                );
            }
            if !str_eq(self.targets[j].skill_id.as_str(), skill_id) {
                targets.push(self.targets[j].clone());
            }
            j = j + 1;
        }
        proof {
            before.targets.lemma_take_len();
            lemma_filter_pairwise(
                before.skills,
                other_skill(skill_id@),
                |a: SkillRecord, b: SkillRecord| a.id@ != b.id@ && a.central_path@ != b.central_path@,
            );
            lemma_filter_pairwise(
                before.targets,
                of_other_skill(skill_id@),
                |a: SkillTargetRecord, b: SkillTargetRecord|
                    a.id@ != b.id@ && !(a.skill_id@ == b.skill_id@ && a.tool@ == b.tool@),
            );
            assert forall|k: int| 0 <= k < targets@.len() implies has_skill(
                skills@,
                (#[trigger] targets@[k]).skill_id@,
            ) by {
                let t = targets@[k];
                before.targets.lemma_filter_pred(of_other_skill(skill_id@), k);
                assert(targets@.contains(t));
                before.targets.lemma_filter_contains_rev(of_other_skill(skill_id@), t);
                let at = choose|at: int| 0 <= at < before.targets.len() && before.targets[at] == t;
                assert(has_skill(before.skills, before.targets[at].skill_id@));
                let w = choose|w: int|
                    0 <= w < before.skills.len() && (#[trigger] before.skills[w]).id@ == t.skill_id@;
                before.skills.lemma_filter_contains(other_skill(skill_id@), w);
                let kept = before.skills.filter(other_skill(skill_id@));
                let w2 = choose|w2: int| 0 <= w2 < kept.len() && kept[w2] == before.skills[w];
                assert(kept[w2].id@ == t.skill_id@);
            }
        }
        self.skills = skills;
        self.targets = targets;
    }

    /// Gives the skill of the id another category, or none, and stamps it
    /// with `now`. Where no skill has the id, nothing changes.
    pub fn update_skill_category(&mut self, skill_id: &str, category: Option<&str>, now: i64)
        requires
            old(self).wf(),
        ensures
            final(self).wf(),
            final(self)@ == (Catalogue { skills: final(self)@.skills, ..old(self)@ }),
            final(self)@.skills.len() == old(self)@.skills.len(),
            forall|i: int|
                0 <= i < old(self)@.skills.len() ==> if old(self)@.skills[i].id@ == skill_id@ {
                    recategorized(
                        #[trigger] final(self)@.skills[i],
                        old(self)@.skills[i],
                        category,
                        now,
                    )
                } else {
                    final(self)@.skills[i] == old(self)@.skills[i]
                },
    {
        match self.find_skill(skill_id) {
            Some(i) => {
                let ghost before = self@.skills;
                let ghost targets = self@.targets;
                let s = &self.skills[i];
                let changed = SkillRecord {
                    id: s.id.clone(),
                    name: s.name.clone(),
                    description: s.description.clone(),
                    category: match category {
                        Some(c) => Some(c.to_string()),
                        None => None,
                    },
                    source_type: s.source_type.clone(),
                    source_ref: s.source_ref.clone(),
                    source_revision: s.source_revision.clone(),
                    central_path: s.central_path.clone(),
                    content_hash: s.content_hash.clone(),
                    created_at: s.created_at,
                    updated_at: now,
                    last_sync_at: s.last_sync_at,
                    last_seen_at: s.last_seen_at,
                    status: s.status.clone(),
                };
                self.skills.set(i, changed);
                proof {
                    let after = self@.skills;
                    lemma_same_keys(before, after, targets);
                    assert forall|k: int| 0 <= k < before.len() implies if before[k].id@
                        == skill_id@ {
                        recategorized(#[trigger] after[k], before[k], category, now)
                    } else {
                        after[k] == before[k]
                    } by {
                        if k != i {
                            if k < i {
                                assert(before[k].id@ != before[i as int].id@);
                            } else {
                                assert(before[i as int].id@ != before[k].id@);
                            }
                        }
                    }
                }
            },
            None => {},
        }
    }

    /// Gives the skill of the id another name and description, and stamps
    /// it with `now`. Where no skill has the id, nothing changes.
    pub fn update_skill_description(
        &mut self,
        skill_id: &str,
        name: String,
        description: Option<String>,
        now: i64,
    )
        requires
            old(self).wf(),
        ensures
            final(self).wf(),
            final(self)@ == (Catalogue {
                skills: old(self)@.skills.map_values(
                    |s: SkillRecord|
                        if s.id@ == skill_id@ {
                            redescribed(s, name, description, now)
                        } else {
                            s
                        },
                ),
                ..old(self)@
            }),
    {
        let ghost before = self@.skills;
        let ghost targets = self@.targets;
        let ghost expected = before.map_values(
            |s: SkillRecord|
                if s.id@ == skill_id@ {
                    redescribed(s, name, description, now)
                } else {
                    s
                },
        );
        match self.find_skill(skill_id) {
            Some(i) => {
                let s = &self.skills[i];
                let changed = SkillRecord {
                    id: s.id.clone(),
                    name,
                    description,
                    category: s.category.clone(),
                    source_type: s.source_type.clone(),
                    source_ref: s.source_ref.clone(),
                    source_revision: s.source_revision.clone(),
                    central_path: s.central_path.clone(),
                    content_hash: s.content_hash.clone(),
                    created_at: s.created_at,
                    updated_at: now,
                    last_sync_at: s.last_sync_at,
                    last_seen_at: s.last_seen_at,
                    status: s.status.clone(),
                };
                self.skills.set(i, changed);
                proof {
                    let after = self@.skills;
                    lemma_same_keys(before, after, targets);
                    assert forall|k: int| 0 <= k < before.len() implies after[k] == expected[k] by {
                        if k != i {
                            if k < i {
                                assert(before[k].id@ != before[i as int].id@);
                            } else {
                                assert(before[i as int].id@ != before[k].id@);
                            }
                        }
                    }
                    assert(after =~= expected);
                }
            },
            None => {
                assert(before =~= expected);
            },
        }
    }

    /// Stamps the skill of the id with another time of update. Where no
    /// skill has the id, nothing changes.
    pub fn update_skill_timestamp(&mut self, skill_id: &str, updated_at: i64)
        requires
            old(self).wf(),
        ensures
            final(self).wf(),
            final(self)@ == (Catalogue {
                skills: old(self)@.skills.map_values(
                    |s: SkillRecord|
                        if s.id@ == skill_id@ {
                            restamped(s, updated_at)
                        } else {
                            s
                        },
                ),
                ..old(self)@
            }),
    {
        let ghost before = self@.skills;
        let ghost targets = self@.targets;
        let ghost expected = before.map_values(
            |s: SkillRecord|
                if s.id@ == skill_id@ {
                    restamped(s, updated_at)
                } else {
                    s
                },
        );
        match self.find_skill(skill_id) {
            Some(i) => {
                let s = &self.skills[i];
                let changed = SkillRecord {
                    id: s.id.clone(),
                    name: s.name.clone(),
                    description: s.description.clone(),
                    category: s.category.clone(),
                    source_type: s.source_type.clone(),
                    source_ref: s.source_ref.clone(),
                    source_revision: s.source_revision.clone(),
                    central_path: s.central_path.clone(),
                    content_hash: s.content_hash.clone(),
                    created_at: s.created_at,
                    updated_at,
                    last_sync_at: s.last_sync_at,
                    last_seen_at: s.last_seen_at,
                    status: s.status.clone(),
                };
                self.skills.set(i, changed);
                proof {
                    let after = self@.skills;
                    lemma_same_keys(before, after, targets);
                    assert forall|k: int| 0 <= k < before.len() implies after[k] == expected[k] by {
                        if k != i {
                            if k < i {
                                assert(before[k].id@ != before[i as int].id@);
                            } else {
                                assert(before[i as int].id@ != before[k].id@);
                            }
                        }
                    }
                    assert(after =~= expected);
                }
            },
            None => {
                assert(before =~= expected);
            },
        }
    }
}

/// Skills that keep their ids and paths stay well formed, and the targets
/// of the skills stay targets of theirs.
pub proof fn lemma_same_keys(
    before: Seq<SkillRecord>,
    after: Seq<SkillRecord>,
    targets: Seq<SkillTargetRecord>,
)
    requires
        skills_wf(before),
        targets_wf(targets, before),
        after.len() == before.len(),
        forall|k: int|
            0 <= k < before.len() ==> (#[trigger] after[k]).id@ == before[k].id@
                && after[k].central_path@ == before[k].central_path@,
    ensures
        skills_wf(after),
        targets_wf(targets, after),
{
    assert forall|a: int, b: int| 0 <= a < b < after.len() implies (#[trigger] after[a]).id@ != (
    #[trigger] after[b]).id@ && after[a].central_path@ != after[b].central_path@ by {
        assert(before[a].id@ != before[b].id@ && before[a].central_path@ != before[b].central_path@);
    }
    assert forall|k: int| 0 <= k < targets.len() implies has_skill(
        after,
        (#[trigger] targets[k]).skill_id@,
    ) by {
        let w = choose|w: int|
            0 <= w < before.len() && (#[trigger] before[w]).id@ == targets[k].skill_id@;
        assert(after[w].id@ == targets[k].skill_id@);
    }
}

/// The target with what a later sync of the same skill and tool found.
pub open spec fn resynced(before: SkillTargetRecord, record: SkillTargetRecord) -> SkillTargetRecord {
    SkillTargetRecord {
        target_path: record.target_path,
        mode: record.mode,
        status: record.status,
        last_error: record.last_error,
        synced_at: record.synced_at,
        ..before
    }
}

/// The targets after one was written: what it found, in the place of the
/// target of its skill and tool, or the target itself, last, where there
/// is none.
pub open spec fn upserted_target(rows: Seq<SkillTargetRecord>, record: SkillTargetRecord) -> Seq<
    SkillTargetRecord,
> {
    if has_target(rows, record.skill_id@, record.tool@) {
        let i = choose|i: int|
            0 <= i < rows.len() && (#[trigger] rows[i]).skill_id@ == record.skill_id@
                && rows[i].tool@ == record.tool@;
        rows.update(i, resynced(rows[i], record))
    } else {
        rows.push(record)
    }
}

/// The tool and path of each target, in the same order.
pub open spec fn target_paths(rows: Seq<SkillTargetRecord>) -> Seq<(Seq<char>, Seq<char>)> {
    rows.map_values(|t: SkillTargetRecord| (t.tool@, t.target_path@))
}

/// The path of each scanned directory, in the same order.
pub open spec fn scan_path_texts(rows: Seq<ScanPath>) -> Seq<Seq<char>> {
    rows.map_values(|p: ScanPath| p.path@)
}

/// The paths after those of the given ones that are not among them were
/// added, one after another.
pub open spec fn with_defaults(paths: Seq<Seq<char>>, defaults: Seq<Seq<char>>) -> Seq<Seq<char>>
    decreases defaults.len(),
{
    if defaults.len() == 0 {
        paths
    } else {
        let before = with_defaults(paths, defaults.drop_last());
        if before.contains(defaults.last()) {
            before
        } else {
            before.push(defaults.last())
        }
    }
}

/// Whether adding the given paths came as far as the one at `k`, which
/// was not added.
pub open spec fn stopped_at(
    before: Seq<Seq<char>>,
    after: Seq<Seq<char>>,
    defaults: Seq<Seq<char>>,
    k: int,
) -> bool {
    after == with_defaults(before, defaults.take(k)) && !after.contains(defaults[k])
}

/// A directory is scanned exactly where its path is among the paths of
/// the scanned directories.
pub proof fn lemma_scan_path_known(rows: Seq<ScanPath>, path: Seq<char>)
    ensures
        has_scan_path(rows, path) <==> scan_path_texts(rows).contains(path),
{
    let paths = scan_path_texts(rows);
    if has_scan_path(rows, path) {
        let w = choose|w: int| 0 <= w < rows.len() && (#[trigger] rows[w]).path@ == path;
        assert(paths[w] == path);
    }
    if paths.contains(path) {
        let w = choose|w: int| 0 <= w < paths.len() && paths[w] == path;
        assert(rows[w].path@ == path);
    }
}

/// Whether a scanned directory is another one than the path, as a
/// predicate.
pub open spec fn other_scan_path(path: Seq<char>) -> spec_fn(ScanPath) -> bool {
    |p: ScanPath| p.path@ != path
}

/// The negated time at which each scanned directory was added, in the
/// same order.
pub open spec fn scan_path_ages(rows: Seq<ScanPath>) -> Seq<i128> {
    rows.map_values(|p: ScanPath| (-(p.created_at as int)) as i128)
}

impl SkillStore {
    fn find_target(&self, skill_id: &str, tool: &str) -> (r: Option<usize>)
        ensures
            r is Some <==> has_target(self@.targets, skill_id@, tool@),
            r matches Some(i) ==> i < self@.targets.len() && self@.targets[i as int].skill_id@
                == skill_id@ && self@.targets[i as int].tool@ == tool@,
    {
        let mut i: usize = 0;
        while i < self.targets.len()
            invariant
                i <= self.targets.len(),
                forall|k: int|
                    0 <= k < i ==> !((#[trigger] self.targets[k]).skill_id@ == skill_id@
                        && self.targets[k].tool@ == tool@),
            decreases self.targets.len() - i,
        {
            if str_eq(self.targets[i].skill_id.as_str(), skill_id) && str_eq(
                self.targets[i].tool.as_str(),
                tool,
            ) {
                return Some(i);
            }
            i = i + 1;
        }
        None
    }

    fn find_target_id(&self, id: &str) -> (r: bool)
        ensures
            r == has_target_id(self@.targets, id@),
    {
        let mut i: usize = 0;
        while i < self.targets.len()
            invariant
                i <= self.targets.len(),
                forall|k: int| 0 <= k < i ==> (#[trigger] self.targets[k]).id@ != id@,
            decreases self.targets.len() - i,
        {
            if str_eq(self.targets[i].id.as_str(), id) {
                return true;
            }
            i = i + 1;
        }
        false
    }

    /// Writes a target. Where a target of its skill and tool is stored,
    /// that one takes what the new one found and keeps its id. Else the
    /// target is added; it is refused where its skill is not stored, or
    /// where another target has its id.
    pub fn upsert_skill_target(&mut self, record: &SkillTargetRecord) -> (r: Result<(), StoreError>)
        requires
            old(self).wf(),
        ensures
            final(self).wf(),
            match r {
                Ok(_) => final(self)@ == (Catalogue {
                    targets: upserted_target(old(self)@.targets, *record),
                    ..old(self)@
                }),
                Err(_) => final(self)@ == old(self)@,
            },
            r == (if has_target(old(self)@.targets, record.skill_id@, record.tool@) {
                Ok::<(), StoreError>(())
            } else if !has_skill(old(self)@.skills, record.skill_id@) {
                Err::<(), StoreError>(StoreError::MissingSkill)
            } else if has_target_id(old(self)@.targets, record.id@) {
                Err::<(), StoreError>(StoreError::Conflict)
            } else {
                Ok::<(), StoreError>(())
            }),
    {
        let ghost before = self@.targets;
        match self.find_target(record.skill_id.as_str(), record.tool.as_str()) {
            Some(i) => {
                proof {
                    let w = choose|w: int|
                        0 <= w < before.len() && (#[trigger] before[w]).skill_id@
                            == record.skill_id@ && before[w].tool@ == record.tool@;
                    if w < i {
                        assert(!(before[w].skill_id@ == before[i as int].skill_id@ && before[w].tool@
                            == before[i as int].tool@));
                    } else if i < w {
                        assert(!(before[i as int].skill_id@ == before[w].skill_id@
                            && before[i as int].tool@ == before[w].tool@));
                    }
                }
                let t = &self.targets[i];
                let changed = SkillTargetRecord {
                    id: t.id.clone(),
                    skill_id: t.skill_id.clone(),
                    tool: t.tool.clone(),
                    target_path: record.target_path.clone(),
                    mode: record.mode.clone(),
                    status: record.status.clone(),
                    last_error: record.last_error.clone(),
                    synced_at: record.synced_at,
                };
                self.targets.set(i, changed);
                proof {
                    let after = self@.targets;
                    assert(after == upserted_target(before, *record));
                    assert forall|a: int, b: int| 0 <= a < b < after.len() implies (
                    #[trigger] after[a]).id@ != (#[trigger] after[b]).id@ && !(after[a].skill_id@
                        == after[b].skill_id@ && after[a].tool@ == after[b].tool@) by {
                        assert(before[a].id@ != before[b].id@ && !(before[a].skill_id@
                            == before[b].skill_id@ && before[a].tool@ == before[b].tool@));
                    }
                    assert forall|k: int| 0 <= k < after.len() implies has_skill(
                        self@.skills,
                        (#[trigger] after[k]).skill_id@,
                    ) by {
                        assert(has_skill(self@.skills, before[k].skill_id@));
                    }
                }
                Ok(())
            },
            None => {
                if self.find_skill(record.skill_id.as_str()).is_none() {
                    return Err(StoreError::MissingSkill);
                }
                if self.find_target_id(record.id.as_str()) {
                    return Err(StoreError::Conflict);
                }
                self.targets.push(record.clone());
                proof {
                    let after = self@.targets;
                    assert forall|k: int| 0 <= k < after.len() implies has_skill(
                        self@.skills,
                        (#[trigger] after[k]).skill_id@,
                    ) by {
                        if k < before.len() {
                            assert(has_skill(self@.skills, before[k].skill_id@));
                        }
                    }
                }
                Ok(())
            },
        }
    }

    /// The targets of a skill, sorted by their tools.
    pub fn list_skill_targets(&self, skill_id: &str) -> (r: Vec<SkillTargetRecord>)
        ensures
            exists|order: Seq<usize>| #[trigger]
                is_text_listing(
                    r@,
                    self@.targets.filter(target_of(skill_id@)),
                    tool_keys(self@.targets.filter(target_of(skill_id@))),
                    order,
                ),
    {
        let ghost all = self@.targets;
        let mut mine: Vec<SkillTargetRecord> = Vec::new();
        let mut keys: Vec<(String, String)> = Vec::new();
        let mut i: usize = 0;
        proof {
            reveal(Seq::filter);
            assert(mine@ =~= all.take(0).filter(target_of(skill_id@)));
            assert(key_texts(keys@) =~= tool_keys(mine@));
        }
        while i < self.targets.len()
            invariant
                i <= self.targets.len(),
                all == self@.targets,
                mine@ == all.take(i as int).filter(target_of(skill_id@)),
                key_texts(keys@) == tool_keys(mine@),
            decreases self.targets.len() - i,
        {
            proof {
                all.lemma_take_succ_push(i as int);
                all.take(i as int).lemma_filter_push(all[i as int], target_of(skill_id@));
            }
            if str_eq(self.targets[i].skill_id.as_str(), skill_id) {
                let ghost before_keys = keys@;
                let ghost before_mine = mine@;
                mine.push(self.targets[i].clone());
                keys.push((self.targets[i].tool.clone(), String::new()));
                proof {
                    assert(key_texts(keys@) =~= key_texts(before_keys).push(
                        (all[i as int].tool@, Seq::<char>::empty()),
                    ));
                    assert(tool_keys(mine@) =~= tool_keys(before_mine).push(
                        (all[i as int].tool@, Seq::<char>::empty()),
                    ));
                }
            }
            i = i + 1;
        }
        proof {
            all.lemma_take_len();
        }
        let order = rank_texts(&keys);
        let mut out: Vec<SkillTargetRecord> = Vec::new();
        let mut k: usize = 0;
        while k < mine.len()
            invariant
                k <= mine.len(),
                is_text_ranking(key_texts(keys@), order@),
                key_texts(keys@).len() == mine@.len(),
                out@.len() == k,
                forall|a: int| 0 <= a < k ==> #[trigger] out@[a] == mine@[order@[a] as int],
            decreases mine.len() - k,
        {
            out.push(mine[order[k]].clone());
            k = k + 1;
        }
        assert(is_text_listing(
            out@,
            self@.targets.filter(target_of(skill_id@)),
            tool_keys(self@.targets.filter(target_of(skill_id@))),
            order@,
        ));
        out
    }

    /// The tool and the path of every target, oldest insert first.
    pub fn list_all_skill_target_paths(&self) -> (r: Vec<(String, String)>)
        ensures
            key_texts(r@) == target_paths(self@.targets),
    {
        let mut out: Vec<(String, String)> = Vec::new();
        let mut i: usize = 0;
        while i < self.targets.len()
            invariant
                i <= self.targets.len(),
                out@.len() == i,
                forall|k: int|
                    0 <= k < i ==> (#[trigger] out@[k]).0@ == self.targets@[k].tool@ && out@[k].1@
                        == self.targets@[k].target_path@,
            decreases self.targets.len() - i,
        {
            out.push((self.targets[i].tool.clone(), self.targets[i].target_path.clone()));
            i = i + 1;
        }
        assert(key_texts(out@) =~= target_paths(self@.targets));
        out
    }

    /// The target of a skill and a tool, if one is stored.
    pub fn get_skill_target(&self, skill_id: &str, tool: &str) -> (r: Option<SkillTargetRecord>)
        ensures
            r is Some <==> has_target(self@.targets, skill_id@, tool@),
            r matches Some(t) ==> t.skill_id@ == skill_id@ && t.tool@ == tool@
                && self@.targets.contains(t),
    {
        match self.find_target(skill_id, tool) {
            Some(i) => {
                assert(self@.targets[i as int] == self@.targets[i as int]);
                Some(self.targets[i].clone())
            },
            None => None,
        }
    }

    /// Removes the target of a skill and a tool.
    pub fn delete_skill_target(&mut self, skill_id: &str, tool: &str)
        requires
            old(self).wf(),
        ensures
            final(self).wf(),
            final(self)@ == (Catalogue {
                targets: old(self)@.targets.filter(other_target(skill_id@, tool@)),
                ..old(self)@
            }),
    {
        let ghost before = self@;
        let ghost pick = other_target(skill_id@, tool@);
        let mut targets: Vec<SkillTargetRecord> = Vec::new();
        let mut j: usize = 0;
        proof {
            reveal(Seq::filter);
            assert(targets@ =~= before.targets.take(0).filter(pick));
        }
        while j < self.targets.len()
            invariant
                j <= self.targets.len(),
                self@ == before,
                pick == other_target(skill_id@, tool@),
                targets@ == before.targets.take(j as int).filter(pick),
            decreases self.targets.len() - j,
        {
            proof {
                before.targets.lemma_take_succ_push(j as int);
                before.targets.take(j as int).lemma_filter_push(before.targets[j as int], pick);
            }
            if !(str_eq(self.targets[j].skill_id.as_str(), skill_id) && str_eq(
                self.targets[j].tool.as_str(),
                tool,
            )) {
                targets.push(self.targets[j].clone());
            }
            j = j + 1;
        }
        proof {
            before.targets.lemma_take_len();
            lemma_filter_pairwise(
                before.targets,
                pick,
                |a: SkillTargetRecord, b: SkillTargetRecord|
                    a.id@ != b.id@ && !(a.skill_id@ == b.skill_id@ && a.tool@ == b.tool@),
            );
            assert forall|k: int| 0 <= k < targets@.len() implies has_skill(
                before.skills,
                (#[trigger] targets@[k]).skill_id@,
            ) by {
                let t = targets@[k];
                assert(targets@.contains(t));
                before.targets.lemma_filter_contains_rev(pick, t);
                let at = choose|at: int| 0 <= at < before.targets.len() && before.targets[at] == t;
                assert(has_skill(before.skills, before.targets[at].skill_id@));
            }
        }
        self.targets = targets;
    }

    fn find_scan_path(&self, path: &str) -> (r: bool)
        ensures
            r == has_scan_path(self@.scan_paths, path@),
    {
        let mut i: usize = 0;
        while i < self.scan_paths.len()
            invariant
                i <= self.scan_paths.len(),
                forall|k: int| 0 <= k < i ==> (#[trigger] self.scan_paths[k]).path@ != path@,
            decreases self.scan_paths.len() - i,
        {
            if str_eq(self.scan_paths[i].path.as_str(), path) {
                return true;
            }
            i = i + 1;
        }
        false
    }

    fn find_scan_id(&self, id: &str) -> (r: bool)
        ensures
            r == has_scan_id(self@.scan_paths, id@),
    {
        let mut i: usize = 0;
        while i < self.scan_paths.len()
            invariant
                i <= self.scan_paths.len(),
                forall|k: int| 0 <= k < i ==> (#[trigger] self.scan_paths[k]).id@ != id@,
            decreases self.scan_paths.len() - i,
        {
            if str_eq(self.scan_paths[i].id.as_str(), id) {
                return true;
            }
            i = i + 1;
        }
        false
    }

    /// Adds a directory to scan under a fresh id, stamped with the time
    /// of the system clock in milliseconds; see
    /// [`SkillStore::add_scan_path_as`].
    pub fn add_scan_path(&mut self, path: &str) -> (r: Result<String, StoreError>)
        requires
            old(self).wf(),
        ensures
            final(self).wf(),
            final(self)@ == (Catalogue { scan_paths: final(self)@.scan_paths, ..old(self)@ }),
            has_scan_path(old(self)@.scan_paths, path@) ==> r is Err,
            match r {
                Ok(id) => final(self)@.scan_paths.len() == old(self)@.scan_paths.len() + 1
                    && final(self)@.scan_paths.drop_last() == old(self)@.scan_paths && final(self)@.scan_paths.last().path@ == path@ && final(self)@.scan_paths.last().id@ == id@,
                Err(e) => e == StoreError::Conflict && final(self)@ == old(self)@,
            },
    {
        let now = match unix_now_millis() {
            Some(t) => t,
            None => 0,
        };
        self.add_scan_path_as(path, new_id(), now)
    }

    /// Adds a directory to scan under the id given, stamped with `now`.
    /// It is refused where the directory is scanned already, or where
    /// another directory has the id.
    pub fn add_scan_path_as(&mut self, path: &str, id: String, now: i64) -> (r: Result<
        String,
        StoreError,
    >)
        requires
            old(self).wf(),
        ensures
            final(self).wf(),
            final(self)@ == (Catalogue { scan_paths: final(self)@.scan_paths, ..old(self)@ }),
            r is Err <==> has_scan_path(old(self)@.scan_paths, path@) || has_scan_id(
                old(self)@.scan_paths,
                id@,
            ),
            match r {
                Ok(given) => given@ == id@ && final(self)@.scan_paths.len() == old(self)@.scan_paths.len() + 1 && final(self)@.scan_paths.drop_last() == old(self)@.scan_paths && final(self)@.scan_paths.last().path@ == path@ && final(self)@.scan_paths.last().id@ == id@ && final(self)@.scan_paths.last().created_at
                    == now,
                Err(e) => e == StoreError::Conflict && final(self)@ == old(self)@,
            },
    {
        if self.find_scan_path(path) || self.find_scan_id(id.as_str()) {
            return Err(StoreError::Conflict);
        }
        let ghost before = self@.scan_paths;
        let given = id.clone();
        self.scan_paths.push(ScanPath { id, path: path.to_string(), created_at: now });
        assert(self@.scan_paths.drop_last() =~= before);
        Ok(given)
    }

    /// Adds those of the given directories that are not scanned yet, in
    /// their order, each under a fresh id. Where every directory is
    /// scanned already nothing changes and nothing can fail; else it
    /// fails where a fresh id is refused, and what was added before stays.
    pub fn initialize_default_scan_paths(&mut self, defaults: &Vec<String>) -> (r: Result<
        (),
        StoreError,
    >)
        requires
            old(self).wf(),
        ensures
            final(self).wf(),
            final(self)@ == (Catalogue { scan_paths: final(self)@.scan_paths, ..old(self)@ }),
            old(self)@.scan_paths.is_prefix_of(final(self)@.scan_paths),
            (forall|k: int|
                0 <= k < defaults@.len() ==> has_scan_path(
                    old(self)@.scan_paths,
                    (#[trigger] defaults@[k])@,
                )) ==> r is Ok && final(self)@ == old(self)@,
            match r {
                Ok(_) => {
                    &&& scan_path_texts(final(self)@.scan_paths) == with_defaults(
                        scan_path_texts(old(self)@.scan_paths),
                        texts(defaults@),
                    )
                    &&& forall|k: int|
                        0 <= k < defaults@.len() ==> has_scan_path(
                            final(self)@.scan_paths,
                            (#[trigger] defaults@[k])@,
                        )
                },
                Err(e) => e == StoreError::Conflict && exists|k: int|
                    0 <= k < defaults@.len() && #[trigger] stopped_at(
                        scan_path_texts(old(self)@.scan_paths),
                        scan_path_texts(final(self)@.scan_paths),
                        texts(defaults@),
                        k,
                    ),
            },
    {
        let ghost start = scan_path_texts(self@.scan_paths);
        let ghost wanted = texts(defaults@);
        let mut i: usize = 0;
        assert(wanted.take(0) =~= Seq::<Seq<char>>::empty());
        while i < defaults.len()
            invariant
                i <= defaults.len(),
                self.wf(),
                self@ == (Catalogue { scan_paths: self@.scan_paths, ..old(self)@ }),
                old(self)@.scan_paths.is_prefix_of(self@.scan_paths),
                start == scan_path_texts(old(self)@.scan_paths),
                wanted == texts(defaults@),
                scan_path_texts(self@.scan_paths) == with_defaults(start, wanted.take(i as int)),
                (forall|k: int|
                    0 <= k < i ==> has_scan_path(
                        old(self)@.scan_paths,
                        (#[trigger] defaults@[k])@,
                    )) ==> self@ == old(self)@,
                forall|k: int|
                    0 <= k < i ==> has_scan_path(self@.scan_paths, (#[trigger] defaults@[k])@),
            decreases defaults.len() - i,
        {
            let ghost before = self@.scan_paths;
            proof {
                assert(wanted.take(i + 1).drop_last() =~= wanted.take(i as int));
                assert(wanted.take(i + 1).last() == defaults@[i as int]@);
                lemma_scan_path_known(before, defaults@[i as int]@);
            }
            if !self.find_scan_path(defaults[i].as_str()) {
                match self.add_scan_path(defaults[i].as_str()) {
                    Ok(_) => {
                        proof {
                            let after = self@.scan_paths;
                            assert(after[before.len() as int].path@ == defaults@[i as int]@);
                            assert(after =~= before.push(after.last()));
                            assert(scan_path_texts(after) =~= scan_path_texts(before).push(
                                defaults@[i as int]@,
                            ));
                            if forall|k: int|
                                0 <= k < i + 1 ==> has_scan_path(
                                    old(self)@.scan_paths,
                                    (#[trigger] defaults@[k])@,
                                ) {
                                assert(has_scan_path(old(self)@.scan_paths, defaults@[i as int]@));
                            }
                        }
                    },
                    Err(e) => {
                        proof {
                            assert(stopped_at(
                                start,
                                scan_path_texts(self@.scan_paths),
                                wanted,
                                i as int,
                            ));
                            if forall|k: int|
                                0 <= k < defaults@.len() ==> has_scan_path(
                                    old(self)@.scan_paths,
                                    (#[trigger] defaults@[k])@,
                                ) {
                                assert(has_scan_path(old(self)@.scan_paths, defaults@[i as int]@));
                            }
                        }
                        return Err(e);
                    },
                }
            }
            proof {
                let after = self@.scan_paths;
                assert(before.is_prefix_of(after)) by {
                    if after.len() > before.len() {
                        assert(after.drop_last() == before);
                    }
                }
                assert forall|k: int| 0 <= k < i implies has_scan_path(
                    after,
                    (#[trigger] defaults@[k])@,
                ) by {
                    let w = choose|w: int|
                        0 <= w < before.len() && (#[trigger] before[w]).path@ == defaults@[k]@;
                    assert(after[w].path@ == defaults@[k]@);
                }
            }
            i = i + 1;
        }
        proof {
            wanted.lemma_take_len();
        }
        Ok(())
    }

    /// Stops scanning a directory.
    pub fn remove_scan_path(&mut self, path: &str)
        requires
            old(self).wf(),
        ensures
            final(self).wf(),
            final(self)@ == (Catalogue {
                scan_paths: old(self)@.scan_paths.filter(other_scan_path(path@)),
                ..old(self)@
            }),
    {
        let ghost before = self@;
        let ghost pick = other_scan_path(path@);
        let mut kept: Vec<ScanPath> = Vec::new();
        let mut j: usize = 0;
        proof {
            reveal(Seq::filter);
            assert(kept@ =~= before.scan_paths.take(0).filter(pick));
        }
        while j < self.scan_paths.len()
            invariant
                j <= self.scan_paths.len(),
                self@ == before,
                pick == other_scan_path(path@),
                kept@ == before.scan_paths.take(j as int).filter(pick),
            decreases self.scan_paths.len() - j,
        {
            proof {
                before.scan_paths.lemma_take_succ_push(j as int);
                before.scan_paths.take(j as int).lemma_filter_push(before.scan_paths[j as int], pick);
            }
            if !str_eq(self.scan_paths[j].path.as_str(), path) {
                let p = &self.scan_paths[j];
                let copy = ScanPath { id: p.id.clone(), path: p.path.clone(), created_at: p.created_at };
                assert(copy == before.scan_paths[j as int]);
                kept.push(copy);
            }
            j = j + 1;
        }
        proof {
            before.scan_paths.lemma_take_len();
            lemma_filter_pairwise(
                before.scan_paths,
                pick,
                |a: ScanPath, b: ScanPath| a.id@ != b.id@ && a.path@ != b.path@,
            );
        }
        self.scan_paths = kept;
    }

    /// The scanned directories, the first added first.
    pub fn list_scan_paths(&self) -> (r: Vec<String>)
        ensures
            exists|order: Seq<usize>| #[trigger]
                is_ranking(scan_path_ages(self@.scan_paths), order) && r@.len()
                    == self@.scan_paths.len() && forall|i: int|
                    0 <= i < r@.len() ==> (#[trigger] r@[i])@
                        == self@.scan_paths[order[i] as int].path@,
    {
        let mut keys: Vec<i128> = Vec::new();
        let mut i: usize = 0;
        while i < self.scan_paths.len()
            invariant
                i <= self.scan_paths.len(),
                keys@.len() == i,
                forall|k: int|
                    0 <= k < i ==> #[trigger] keys@[k] == -(self.scan_paths@[k].created_at as i128),
            decreases self.scan_paths.len() - i,
        {
            keys.push(-(self.scan_paths[i].created_at as i128));
            i = i + 1;
        }
        assert(keys@ =~= scan_path_ages(self@.scan_paths));
        let order = rank_descending(&keys);
        let mut out: Vec<String> = Vec::new();
        let mut k: usize = 0;
        while k < self.scan_paths.len()
            invariant
                k <= self.scan_paths.len(),
                is_ranking(keys@, order@),
                keys@.len() == self.scan_paths@.len(),
                out@.len() == k,
                forall|a: int|
                    0 <= a < k ==> (#[trigger] out@[a])@
                        == self.scan_paths@[order@[a] as int].path@,
            decreases self.scan_paths.len() - k,
        {
            out.push(self.scan_paths[order[k]].path.clone());
            k = k + 1;
        }
        assert(is_ranking(scan_path_ages(self@.scan_paths), order@));
        out
    }
}

/// Whether a category is another one than that of the id, as a
/// predicate.
pub open spec fn other_category(id: Seq<char>) -> spec_fn(CategoryRow) -> bool {
    |c: CategoryRow| c.id@ != id
}

/// The negated time at which each category was added, in the same order.
pub open spec fn category_ages(rows: Seq<CategoryRow>) -> Seq<i128> {
    rows.map_values(|c: CategoryRow| (-(c.created_at as int)) as i128)
}

/// Whether the category on offer says what the stored category holds.
pub open spec fn offers_category(info: CategoryInfo, row: CategoryRow) -> bool {
    &&& info.id@ == row.id@
    &&& info.name@ == row.name@
    &&& info.description@ == row.description@
    &&& info.icon@ == row.icon@
    &&& info.color@ == row.color@
}

/// The mirrored skill as it is after it was written again: it keeps the
/// time at which it was first written.
pub open spec fn rewritten(before: DiscoveredSkillRecord, record: DiscoveredSkillRecord) -> DiscoveredSkillRecord {
    DiscoveredSkillRecord { created_at: before.created_at, ..record }
}

/// The mirrored skills after one was written: in the place of the skill
/// of its id, or last where no skill has its id.
pub open spec fn upserted_discovered(
    rows: Seq<DiscoveredSkillRecord>,
    record: DiscoveredSkillRecord,
) -> Seq<DiscoveredSkillRecord> {
    if has_discovered(rows, record.id@) {
        let i = choose|i: int| 0 <= i < rows.len() && (#[trigger] rows[i]).id@ == record.id@;
        rows.update(i, rewritten(rows[i], record))
    } else {
        rows.push(record)
    }
}

/// The category and the name of each mirrored skill, in the same order.
pub open spec fn category_name_keys(rows: Seq<DiscoveredSkillRecord>) -> Seq<(Seq<char>, Seq<char>)> {
    rows.map_values(|d: DiscoveredSkillRecord| (d.category@, d.name@))
}

/// The name of each mirrored skill, as a pair with nothing, in the same
/// order.
pub open spec fn name_keys(rows: Seq<DiscoveredSkillRecord>) -> Seq<(Seq<char>, Seq<char>)> {
    rows.map_values(|d: DiscoveredSkillRecord| (d.name@, Seq::<char>::empty()))
}

/// Whether a mirrored skill is of the category, as a predicate.
pub open spec fn discovered_in(category: Seq<char>) -> spec_fn(DiscoveredSkillRecord) -> bool {
    |d: DiscoveredSkillRecord| d.category@ == category
}

/// Whether the name, the description or the tags of a mirrored skill hold
/// the query, all in lower case, as a predicate.
pub open spec fn discovered_matching(query: Seq<char>) -> spec_fn(DiscoveredSkillRecord) -> bool {
    |d: DiscoveredSkillRecord|
        occurs_in(lowercase(query), lowercase(d.name@)) || occurs_in(
            lowercase(query),
            lowercase(d.description@),
        ) || occurs_in(lowercase(query), lowercase(d.tags@))
}

/// Whether an agent is another one than that of the id, as a predicate.
pub open spec fn other_agent(id: Seq<char>) -> spec_fn(AiAgentRecord) -> bool {
    |a: AiAgentRecord| a.id@ != id
}

/// The negated time at which each agent was added, in the same order.
pub open spec fn agent_ages(rows: Seq<AiAgentRecord>) -> Seq<i128> {
    rows.map_values(|a: AiAgentRecord| (-(a.created_at as int)) as i128)
}

/// Whether an agent is a new one with the texts given, added at `now`.
pub open spec fn is_new_agent(
    a: AiAgentRecord,
    id: Seq<char>,
    name: Seq<char>,
    api_key: Seq<char>,
    base_url: Seq<char>,
    now: i64,
) -> bool {
    &&& a.id@ == id
    &&& a.name@ == name
    &&& a.api_key@ == api_key
    &&& a.base_url@ == base_url
    &&& a.created_at == now
    &&& a.updated_at == now
}

/// Whether an agent differs from another in its name, key and address,
/// which are the ones given, and in the time of its update.
pub open spec fn is_changed_agent(
    after: AiAgentRecord,
    before: AiAgentRecord,
    name: Seq<char>,
    api_key: Seq<char>,
    base_url: Seq<char>,
    now: i64,
) -> bool {
    &&& after.id == before.id
    &&& after.name@ == name
    &&& after.api_key@ == api_key
    &&& after.base_url@ == base_url
    &&& after.created_at == before.created_at
    &&& after.updated_at == now
}

impl SkillStore {
    /// Adds a category under the id given, stamped with the time of the
    /// system clock in milliseconds; see [`SkillStore::add_category_at`].
    pub fn add_category(
        &mut self,
        id: &str,
        name: &str,
        description: &str,
        icon: &str,
        color: &str,
    ) -> (r: Result<String, StoreError>)
        requires
            old(self).wf(),
        ensures
            final(self).wf(),
            final(self)@ == (Catalogue { categories: final(self)@.categories, ..old(self)@ }),
            r is Err <==> has_category_row(old(self)@.categories, id@),
            match r {
                Ok(given) => given@ == id@ && final(self)@.categories.len() == old(self)@.categories.len() + 1 && final(self)@.categories.drop_last() == old(self)@.categories && final(self)@.categories.last().id@ == id@,
                Err(e) => e == StoreError::Conflict && final(self)@ == old(self)@,
            },
    {
        let now = match unix_now_millis() {
            Some(t) => t,
            None => 0,
        };
        self.add_category_at(id, name, description, icon, color, now)
    }

    /// Adds a category under the id given, stamped with `now`. It is
    /// refused where a category has the id.
    pub fn add_category_at(
        &mut self,
        id: &str,
        name: &str,
        description: &str,
        icon: &str,
        color: &str,
        now: i64,
    ) -> (r: Result<String, StoreError>)
        requires
            old(self).wf(),
        ensures
            final(self).wf(),
            final(self)@ == (Catalogue { categories: final(self)@.categories, ..old(self)@ }),
            r is Err <==> has_category_row(old(self)@.categories, id@),
            match r {
                Ok(given) => {
                    let added = final(self)@.categories.last();
                    &&& given@ == id@
                    &&& final(self)@.categories.len() == old(self)@.categories.len() + 1
                    &&& final(self)@.categories.drop_last() == old(self)@.categories
                    &&& added.id@ == id@
                    &&& added.name@ == name@
                    &&& added.description@ == description@
                    &&& added.icon@ == icon@
                    &&& added.color@ == color@
                    &&& added.created_at == now
                },
                Err(e) => e == StoreError::Conflict && final(self)@ == old(self)@,
            },
    {
        if self.find_category(id).is_some() {
            return Err(StoreError::Conflict);
        }
        let ghost before = self@.categories;
        self.categories.push(
            CategoryRow {
                id: id.to_string(),
                name: name.to_string(),
                description: description.to_string(),
                icon: icon.to_string(),
                color: color.to_string(),
                created_at: now,
            },
        );
        assert(self@.categories.drop_last() =~= before);
        Ok(id.to_string())
    }

    /// Removes the category of the id.
    pub fn remove_category(&mut self, id: &str)
        requires
            old(self).wf(),
        ensures
            final(self).wf(),
            final(self)@ == (Catalogue {
                categories: old(self)@.categories.filter(other_category(id@)),
                ..old(self)@
            }),
    {
        let ghost before = self@;
        let ghost pick = other_category(id@);
        let mut kept: Vec<CategoryRow> = Vec::new();
        let mut j: usize = 0;
        proof {
            reveal(Seq::filter);
            assert(kept@ =~= before.categories.take(0).filter(pick));
        }
        while j < self.categories.len()
            invariant
                j <= self.categories.len(),
                self@ == before,
                pick == other_category(id@),
                kept@ == before.categories.take(j as int).filter(pick),
            decreases self.categories.len() - j,
        {
            proof {
                before.categories.lemma_take_succ_push(j as int);
                before.categories.take(j as int).lemma_filter_push(before.categories[j as int], pick);
            }
            if !str_eq(self.categories[j].id.as_str(), id) {
                let c = &self.categories[j];
                let copy = CategoryRow {
                    id: c.id.clone(),
                    name: c.name.clone(),
                    description: c.description.clone(),
                    icon: c.icon.clone(),
                    color: c.color.clone(),
                    created_at: c.created_at,
                };
                assert(copy == before.categories[j as int]);
                kept.push(copy);
            }
            j = j + 1;
        }
        proof {
            before.categories.lemma_take_len();
            lemma_filter_pairwise(
                before.categories,
                pick,
                |a: CategoryRow, b: CategoryRow| a.id@ != b.id@,
            );
        }
        self.categories = kept;
    }

    /// The categories, the first added first.
    pub fn list_categories(&self) -> (r: Vec<CategoryInfo>)
        ensures
            exists|order: Seq<usize>| #[trigger]
                is_ranking(category_ages(self@.categories), order) && r@.len()
                    == self@.categories.len() && forall|i: int|
                    0 <= i < r@.len() ==> offers_category(
                        #[trigger] r@[i],
                        self@.categories[order[i] as int],
                    ),
    {
        let mut keys: Vec<i128> = Vec::new();
        let mut i: usize = 0;
        while i < self.categories.len()
            invariant
                i <= self.categories.len(),
                keys@.len() == i,
                forall|k: int|
                    0 <= k < i ==> #[trigger] keys@[k] == -(self.categories@[k].created_at as i128),
            decreases self.categories.len() - i,
        {
            keys.push(-(self.categories[i].created_at as i128));
            i = i + 1;
        }
        assert(keys@ =~= category_ages(self@.categories));
        let order = rank_descending(&keys);
        let mut out: Vec<CategoryInfo> = Vec::new();
        let mut k: usize = 0;
        while k < self.categories.len()
            invariant
                k <= self.categories.len(),
                is_ranking(keys@, order@),
                keys@.len() == self.categories@.len(),
                out@.len() == k,
                forall|a: int|
                    0 <= a < k ==> offers_category(
                        #[trigger] out@[a],
                        self.categories@[order@[a] as int],
                    ),
            decreases self.categories.len() - k,
        {
            let c = &self.categories[order[k]];
            out.push(
                CategoryInfo {
                    id: c.id.clone(),
                    name: c.name.clone(),
                    description: c.description.clone(),
                    icon: c.icon.clone(),
                    color: c.color.clone(),
                },
            );
            k = k + 1;
        }
        assert(is_ranking(category_ages(self@.categories), order@));
        out
    }

    fn find_discovered(&self, id: &str) -> (r: Option<usize>)
        ensures
            r is Some <==> has_discovered(self@.discovered, id@),
            r matches Some(i) ==> i < self@.discovered.len() && self@.discovered[i as int].id@ == id@,
    {
        let mut i: usize = 0;
        while i < self.discovered.len()
            invariant
                i <= self.discovered.len(),
                forall|k: int| 0 <= k < i ==> (#[trigger] self.discovered[k]).id@ != id@,
            decreases self.discovered.len() - i,
        {
            if str_eq(self.discovered[i].id.as_str(), id) {
                return Some(i);
            }
            i = i + 1;
        }
        None
    }

    /// Writes a mirrored skill: in the place of the stored one of its id,
    /// which keeps the time at which it was first written, or as a new
    /// one.
    pub fn upsert_discovered_skill(&mut self, record: &DiscoveredSkillRecord)
        requires
            old(self).wf(),
        ensures
            final(self).wf(),
            final(self)@ == (Catalogue {
                discovered: upserted_discovered(old(self)@.discovered, *record),
                ..old(self)@
            }),
    {
        let ghost before = self@.discovered;
        match self.find_discovered(record.id.as_str()) {
            Some(i) => {
                proof {
                    let w = choose|w: int|
                        0 <= w < before.len() && (#[trigger] before[w]).id@ == record.id@;
                    if w < i {
                        assert(before[w].id@ != before[i as int].id@);
                    } else if i < w {
                        assert(before[i as int].id@ != before[w].id@);
                    }
                }
                let created_at = self.discovered[i].created_at;
                let mut changed = record.clone();
                changed.created_at = created_at;
                self.discovered.set(i, changed);
                proof {
                    let after = self@.discovered;
                    assert(after == upserted_discovered(before, *record));
                    assert forall|a: int, b: int| 0 <= a < b < after.len() implies (
                    #[trigger] after[a]).id@ != (#[trigger] after[b]).id@ by {
                        assert(before[a].id@ != before[b].id@);
                    }
                }
            },
            None => {
                self.discovered.push(record.clone());
            },
        }
    }

    /// The chosen mirrored skills, sorted by the keys given.
    fn sorted_discovered(
        chosen: Vec<DiscoveredSkillRecord>,
        keys: Vec<(String, String)>,
    ) -> (r: Vec<DiscoveredSkillRecord>)
        requires
            keys@.len() == chosen@.len(),
        ensures
            exists|order: Seq<usize>| #[trigger]
                is_text_listing(r@, chosen@, key_texts(keys@), order),
    {
        let order = rank_texts(&keys);
        let mut out: Vec<DiscoveredSkillRecord> = Vec::new();
        let mut k: usize = 0;
        while k < chosen.len()
            invariant
                k <= chosen.len(),
                is_text_ranking(key_texts(keys@), order@),
                key_texts(keys@).len() == chosen@.len(),
                out@.len() == k,
                forall|a: int| 0 <= a < k ==> #[trigger] out@[a] == chosen@[order@[a] as int],
            decreases chosen.len() - k,
        {
            out.push(chosen[order[k]].clone());
            k = k + 1;
        }
        assert(is_text_listing(out@, chosen@, key_texts(keys@), order@));
        out
    }

    /// The mirrored skills, sorted by category and then by name; skills
    /// of the same category and name stand oldest insert first.
    pub fn list_discovered_skills(&self) -> (r: Vec<DiscoveredSkillRecord>)
        ensures
            exists|order: Seq<usize>| #[trigger]
                is_text_listing(
                    r@,
                    self@.discovered,
                    category_name_keys(self@.discovered),
                    order,
                ),
    {
        let mut chosen: Vec<DiscoveredSkillRecord> = Vec::new();
        let mut keys: Vec<(String, String)> = Vec::new();
        let mut i: usize = 0;
        while i < self.discovered.len()
            invariant
                i <= self.discovered.len(),
                chosen@ == self.discovered@.take(i as int),
                keys@.len() == i,
                forall|k: int|
                    0 <= k < i ==> (#[trigger] keys@[k]).0@ == self.discovered@[k].category@
                        && keys@[k].1@ == self.discovered@[k].name@,
            decreases self.discovered.len() - i,
        {
            let d = &self.discovered[i];
            chosen.push(d.clone());
            keys.push((d.category.clone(), d.name.clone()));
            assert(chosen@ =~= self.discovered@.take(i + 1));
            i = i + 1;
        }
        proof {
            self.discovered@.lemma_take_len();
            assert(key_texts(keys@) =~= category_name_keys(self@.discovered));
        }
        let r = Self::sorted_discovered(chosen, keys);
        proof {
            let order = choose|order: Seq<usize>| #[trigger]
                is_text_listing(r@, chosen@, key_texts(keys@), order);
            assert(is_text_listing(
                r@,
                self@.discovered,
                category_name_keys(self@.discovered),
                order,
            ));
        }
        r
    }

    /// The mirrored skills of a category, sorted by name.
    pub fn list_discovered_skills_by_category(&self, category: &str) -> (r: Vec<
        DiscoveredSkillRecord,
    >)
        ensures
            exists|order: Seq<usize>| #[trigger]
                is_text_listing(
                    r@,
                    self@.discovered.filter(discovered_in(category@)),
                    name_keys(self@.discovered.filter(discovered_in(category@))),
                    order,
                ),
    {
        let ghost all = self@.discovered;
        let ghost pick = discovered_in(category@);
        let mut chosen: Vec<DiscoveredSkillRecord> = Vec::new();
        let mut keys: Vec<(String, String)> = Vec::new();
        let mut i: usize = 0;
        proof {
            reveal(Seq::filter);
            assert(chosen@ =~= all.take(0).filter(pick));
            assert(key_texts(keys@) =~= name_keys(chosen@));
        }
        while i < self.discovered.len()
            invariant
                i <= self.discovered.len(),
                all == self@.discovered,
                pick == discovered_in(category@),
                chosen@ == all.take(i as int).filter(pick),
                key_texts(keys@) == name_keys(chosen@),
            decreases self.discovered.len() - i,
        {
            proof {
                all.lemma_take_succ_push(i as int);
                all.take(i as int).lemma_filter_push(all[i as int], pick);
            }
            if str_eq(self.discovered[i].category.as_str(), category) {
                let ghost before_keys = keys@;
                let ghost before_chosen = chosen@;
                chosen.push(self.discovered[i].clone());
                keys.push((self.discovered[i].name.clone(), String::new()));
                proof {
                    assert(key_texts(keys@) =~= key_texts(before_keys).push(
                        (all[i as int].name@, Seq::<char>::empty()),
                    ));
                    assert(name_keys(chosen@) =~= name_keys(before_chosen).push(
                        (all[i as int].name@, Seq::<char>::empty()),
                    ));
                }
            }
            i = i + 1;
        }
        proof {
            all.lemma_take_len();
        }
        let r = Self::sorted_discovered(chosen, keys);
        proof {
            let order = choose|order: Seq<usize>| #[trigger]
                is_text_listing(r@, chosen@, key_texts(keys@), order);
            assert(is_text_listing(r@, all.filter(pick), name_keys(all.filter(pick)), order));
        }
        r
    }

    /// The mirrored skills whose name, description or tags hold the
    /// query, without regard to case, sorted by name.
    pub fn search_discovered_skills(&self, query: &str) -> (r: Vec<DiscoveredSkillRecord>)
        ensures
            exists|order: Seq<usize>| #[trigger]
                is_text_listing(
                    r@,
                    self@.discovered.filter(discovered_matching(query@)),
                    name_keys(self@.discovered.filter(discovered_matching(query@))),
                    order,
                ),
    {
        let ghost all = self@.discovered;
        let ghost pick = discovered_matching(query@);
        let query_lower = to_lowercase(query);
        let mut chosen: Vec<DiscoveredSkillRecord> = Vec::new();
        let mut keys: Vec<(String, String)> = Vec::new();
        let mut i: usize = 0;
        proof {
            reveal(Seq::filter);
            assert(chosen@ =~= all.take(0).filter(pick));
            assert(key_texts(keys@) =~= name_keys(chosen@));
        }
        while i < self.discovered.len()
            invariant
                i <= self.discovered.len(),
                all == self@.discovered,
                pick == discovered_matching(query@),
                query_lower@ == lowercase(query@),
                chosen@ == all.take(i as int).filter(pick),
                key_texts(keys@) == name_keys(chosen@),
            decreases self.discovered.len() - i,
        {
            proof {
                all.lemma_take_succ_push(i as int);
                all.take(i as int).lemma_filter_push(all[i as int], pick);
            }
            let d = &self.discovered[i];
            let name = to_lowercase(d.name.as_str());
            let description = to_lowercase(d.description.as_str());
            let tags = to_lowercase(d.tags.as_str());
            if str_contains(name.as_str(), query_lower.as_str()) || str_contains(
                description.as_str(),
                query_lower.as_str(),
            ) || str_contains(tags.as_str(), query_lower.as_str()) {
                let ghost before_keys = keys@;
                let ghost before_chosen = chosen@;
                chosen.push(d.clone());
                keys.push((d.name.clone(), String::new()));
                proof {
                    assert(key_texts(keys@) =~= key_texts(before_keys).push(
                        (all[i as int].name@, Seq::<char>::empty()),
                    ));
                    assert(name_keys(chosen@) =~= name_keys(before_chosen).push(
                        (all[i as int].name@, Seq::<char>::empty()),
                    ));
                }
            }
            i = i + 1;
        }
        proof {
            all.lemma_take_len();
        }
        let r = Self::sorted_discovered(chosen, keys);
        proof {
            let order = choose|order: Seq<usize>| #[trigger]
                is_text_listing(r@, chosen@, key_texts(keys@), order);
            assert(is_text_listing(r@, all.filter(pick), name_keys(all.filter(pick)), order));
        }
        r
    }

    /// Removes every mirrored skill.
    pub fn clear_discovered_skills(&mut self)
        requires
            old(self).wf(),
        ensures
            final(self).wf(),
            final(self)@ == (Catalogue { discovered: Seq::empty(), ..old(self)@ }),
    {
        self.discovered.clear();
        assert(self@.discovered =~= Seq::<DiscoveredSkillRecord>::empty());
    }

    fn find_agent(&self, id: &str) -> (r: Option<usize>)
        ensures
            r is Some <==> has_agent(self@.agents, id@),
            r matches Some(i) ==> i < self@.agents.len() && self@.agents[i as int].id@ == id@,
    {
        let mut i: usize = 0;
        while i < self.agents.len()
            invariant
                i <= self.agents.len(),
                forall|k: int| 0 <= k < i ==> (#[trigger] self.agents[k]).id@ != id@,
            decreases self.agents.len() - i,
        {
            if str_eq(self.agents[i].id.as_str(), id) {
                return Some(i);
            }
            i = i + 1;
        }
        None
    }

    /// Adds an agent under a fresh id, stamped with the time of the
    /// system clock in milliseconds; see [`SkillStore::add_ai_agent_as`].
    pub fn add_ai_agent(&mut self, name: &str, api_key: &str, base_url: &str) -> (r: Result<
        String,
        StoreError,
    >)
        requires
            old(self).wf(),
        ensures
            final(self).wf(),
            final(self)@ == (Catalogue { agents: final(self)@.agents, ..old(self)@ }),
            match r {
                Ok(id) => exists|now: i64|
                    final(self)@.agents.len() == old(self)@.agents.len() + 1 && final(self)@.agents.drop_last() == old(self)@.agents && #[trigger] is_new_agent(
                        final(self)@.agents.last(),
                        id@,
                        name@,
                        api_key@,
                        base_url@,
                        now,
                    ),
                Err(e) => e == StoreError::Conflict && final(self)@ == old(self)@,
            },
    {
        let now = match unix_now_millis() {
            Some(t) => t,
            None => 0,
        };
        let r = self.add_ai_agent_as(name, api_key, base_url, new_id(), now);
        proof {
            if r is Ok {
                assert(is_new_agent(
                    self@.agents.last(),
                    r->Ok_0@,
                    name@,
                    api_key@,
                    base_url@,
                    now,
                ));
            }
        }
        r
    }

    /// Adds an agent under the id given, stamped with `now`. It is
    /// refused where an agent has the id.
    pub fn add_ai_agent_as(
        &mut self,
        name: &str,
        api_key: &str,
        base_url: &str,
        id: String,
        now: i64,
    ) -> (r: Result<String, StoreError>)
        requires
            old(self).wf(),
        ensures
            final(self).wf(),
            final(self)@ == (Catalogue { agents: final(self)@.agents, ..old(self)@ }),
            r is Err <==> has_agent(old(self)@.agents, id@),
            match r {
                Ok(given) => given@ == id@ && final(self)@.agents.len() == old(self)@.agents.len()
                    + 1 && final(self)@.agents.drop_last() == old(self)@.agents && is_new_agent(
                    final(self)@.agents.last(),
                    id@,
                    name@,
                    api_key@,
                    base_url@,
                    now,
                ),
                Err(e) => e == StoreError::Conflict && final(self)@ == old(self)@,
            },
    {
        if self.find_agent(id.as_str()).is_some() {
            return Err(StoreError::Conflict);
        }
        let ghost before = self@.agents;
        let given = id.clone();
        self.agents.push(
            AiAgentRecord {
                id,
                name: name.to_string(),
                api_key: api_key.to_string(),
                base_url: base_url.to_string(),
                created_at: now,
                updated_at: now,
            },
        );
        assert(self@.agents.drop_last() =~= before);
        Ok(given)
    }

    /// Gives the agent of the id another name, key and address, and
    /// stamps it with `now`. Where no agent has the id, nothing changes.
    pub fn update_ai_agent(&mut self, id: &str, name: &str, api_key: &str, base_url: &str, now: i64)
        requires
            old(self).wf(),
        ensures
            final(self).wf(),
            final(self)@ == (Catalogue { agents: final(self)@.agents, ..old(self)@ }),
            final(self)@.agents.len() == old(self)@.agents.len(),
            forall|i: int|
                0 <= i < old(self)@.agents.len() ==> if old(self)@.agents[i].id@ == id@ {
                    is_changed_agent(
                        #[trigger] final(self)@.agents[i],
                        old(self)@.agents[i],
                        name@,
                        api_key@,
                        base_url@,
                        now,
                    )
                } else {
                    final(self)@.agents[i] == old(self)@.agents[i]
                },
    {
        match self.find_agent(id) {
            Some(i) => {
                let ghost before = self@.agents;
                let a = &self.agents[i];
                let changed = AiAgentRecord {
                    id: a.id.clone(),
                    name: name.to_string(),
                    api_key: api_key.to_string(),
                    base_url: base_url.to_string(),
                    created_at: a.created_at,
                    updated_at: now,
                };
                self.agents.set(i, changed);
                proof {
                    let after = self@.agents;
                    assert forall|x: int, y: int| 0 <= x < y < after.len() implies (
                    #[trigger] after[x]).id@ != (#[trigger] after[y]).id@ by {
                        assert(before[x].id@ != before[y].id@);
                    }
                    assert forall|k: int| 0 <= k < before.len() implies if before[k].id@ == id@ {
                        is_changed_agent(
                            #[trigger] after[k],
                            before[k],
                            name@,
                            api_key@,
                            base_url@,
                            now,
                        )
                    } else {
                        after[k] == before[k]
                    } by {
                        if k != i {
                            if k < i {
                                assert(before[k].id@ != before[i as int].id@);
                            } else {
                                assert(before[i as int].id@ != before[k].id@);
                            }
                        }
                    }
                }
            },
            None => {},
        }
    }

    /// Removes the agent of the id.
    pub fn remove_ai_agent(&mut self, id: &str)
        requires
            old(self).wf(),
        ensures
            final(self).wf(),
            final(self)@ == (Catalogue {
                agents: old(self)@.agents.filter(other_agent(id@)),
                ..old(self)@
            }),
    {
        let ghost before = self@;
        let ghost pick = other_agent(id@);
        let mut kept: Vec<AiAgentRecord> = Vec::new();
        let mut j: usize = 0;
        proof {
            reveal(Seq::filter);
            assert(kept@ =~= before.agents.take(0).filter(pick));
        }
        while j < self.agents.len()
            invariant
                j <= self.agents.len(),
                self@ == before,
                pick == other_agent(id@),
                kept@ == before.agents.take(j as int).filter(pick),
            decreases self.agents.len() - j,
        {
            proof {
                before.agents.lemma_take_succ_push(j as int);
                before.agents.take(j as int).lemma_filter_push(before.agents[j as int], pick);
            }
            if !str_eq(self.agents[j].id.as_str(), id) {
                kept.push(self.agents[j].clone());
            }
            j = j + 1;
        }
        proof {
            before.agents.lemma_take_len();
            lemma_filter_pairwise(
                before.agents,
                pick,
                |a: AiAgentRecord, b: AiAgentRecord| a.id@ != b.id@,
            );
        }
        self.agents = kept;
    }

    /// The agents, the first added first.
    pub fn list_ai_agents(&self) -> (r: Vec<AiAgentRecord>)
        ensures
            exists|order: Seq<usize>| #[trigger]
                is_listing(r@, self@.agents, agent_ages(self@.agents), order),
    {
        let mut keys: Vec<i128> = Vec::new();
        let mut i: usize = 0;
        while i < self.agents.len()
            invariant
                i <= self.agents.len(),
                keys@.len() == i,
                forall|k: int|
                    0 <= k < i ==> #[trigger] keys@[k] == -(self.agents@[k].created_at as i128),
            decreases self.agents.len() - i,
        {
            keys.push(-(self.agents[i].created_at as i128));
            i = i + 1;
        }
        assert(keys@ =~= agent_ages(self@.agents));
        let order = rank_descending(&keys);
        let mut out: Vec<AiAgentRecord> = Vec::new();
        let mut k: usize = 0;
        while k < self.agents.len()
            invariant
                k <= self.agents.len(),
                is_ranking(keys@, order@),
                keys@.len() == self.agents@.len(),
                out@.len() == k,
                forall|a: int| 0 <= a < k ==> #[trigger] out@[a] == self.agents@[order@[a] as int],
            decreases self.agents.len() - k,
        {
            out.push(self.agents[order[k]].clone());
            k = k + 1;
        }
        assert(is_listing(out@, self@.agents, agent_ages(self@.agents), order@));
        out
    }

    /// The agent of the id, if one is stored.
    pub fn get_ai_agent_by_id(&self, id: &str) -> (r: Option<AiAgentRecord>)
        ensures
            r is Some <==> has_agent(self@.agents, id@),
            r matches Some(a) ==> a.id@ == id@ && self@.agents.contains(a),
    {
        match self.find_agent(id) {
            Some(i) => {
                assert(self@.agents[i as int] == self@.agents[i as int]);
                Some(self.agents[i].clone())
            },
            None => None,
        }
    }
}

/// The first name under which the application kept its data.
pub const LEGACY_APP_ID: &'static str = "com.tauri.dev";

/// The second name under which the application kept its data.
pub const LEGACY_APP_ID_LATER: &'static str = "com.tauri.dev.skillshub";

/// What is to be done about a catalogue that an earlier version of the
/// application left behind.
#[derive(Debug)]
pub enum LegacyMigration {
    /// Nothing.
    Nothing,
    /// Copy the catalogue at `from` to where the catalogue is kept,
    /// after moving what lies there to `backup`, where anything lies
    /// there.
    Copy { from: String, backup: Option<String> },
}

/// What is to be done about an earlier catalogue, by what its texts say.
pub ghost enum LegacyMigrationView {
    Nothing,
    Copy { from: Seq<char>, backup: Option<Seq<char>> },
}

impl View for LegacyMigration {
    type V = LegacyMigrationView;

    open spec fn view(&self) -> LegacyMigrationView {
        match *self {
            LegacyMigration::Nothing => LegacyMigrationView::Nothing,
            LegacyMigration::Copy { from, backup } => LegacyMigrationView::Copy {
                from: from@,
                backup: match backup {
                    Some(b) => Some(b@),
                    None => None,
                },
            },
        }
    }
}

/// The places at which earlier versions kept the catalogue, below the
/// directory of application data.
pub open spec fn legacy_paths(data_dir: Seq<char>) -> Seq<Seq<char>> {
    seq![
        joined_path(joined_path(data_dir, LEGACY_APP_ID@), DB_FILE_NAME@),
        joined_path(joined_path(data_dir, LEGACY_APP_ID_LATER@), DB_FILE_NAME@),
    ]
}

/// The places at which earlier versions kept the catalogue.
pub fn legacy_db_paths(data_dir: &str) -> (r: Vec<String>)
    ensures
        texts(r@) == legacy_paths(data_dir@),
{
    let mut out: Vec<String> = Vec::new();
    out.push(path_join(path_join(data_dir, LEGACY_APP_ID).as_str(), DB_FILE_NAME));
    out.push(path_join(path_join(data_dir, LEGACY_APP_ID_LATER).as_str(), DB_FILE_NAME));
    assert(texts(out@) =~= legacy_paths(data_dir@));
    out
}

/// The first of the places at which something lies, if something lies at
/// one of them.
pub open spec fn first_existing(candidates: Seq<Seq<char>>, exists: Seq<bool>) -> Option<
    Seq<char>,
>
    decreases candidates.len(),
{
    if candidates.len() == 0 || exists.len() == 0 {
        None
    } else if exists[0] {
        Some(candidates[0])
    } else {
        first_existing(candidates.drop_first(), exists.drop_first())
    }
}

/// What is to be done about an earlier catalogue: nothing where the
/// catalogue holds skills, where no earlier catalogue lies at one of the
/// places, or where the first that does is the catalogue itself; else
/// that one is copied, after what lies at the place of the catalogue was
/// moved aside under an extension that names the time.
pub open spec fn legacy_plan(
    target: Seq<char>,
    target_has_skills: bool,
    target_exists: bool,
    candidates: Seq<Seq<char>>,
    exists: Seq<bool>,
    now_secs: u64,
) -> LegacyMigrationView {
    if target_has_skills {
        LegacyMigrationView::Nothing
    } else {
        match first_existing(candidates, exists) {
            None => LegacyMigrationView::Nothing,
            Some(from) => if from == target {
                LegacyMigrationView::Nothing
            } else {
                LegacyMigrationView::Copy {
                    from,
                    backup: if target_exists {
                        Some(path_with_extension(target, "bak-"@ + decimal(now_secs as int)))
                    } else {
                        None
                    },
                }
            },
        }
    }
}

/// What is to be done about an earlier catalogue, given whether the
/// catalogue holds skills, whether anything lies at its place, and for
/// each place of an earlier catalogue whether one lies there.
pub fn migrate_legacy_db_if_needed(
    target: &str,
    target_has_skills: bool,
    target_exists: bool,
    candidates: &Vec<String>,
    exists: &Vec<bool>,
    now_secs: u64,
) -> (r: LegacyMigration)
    ensures
        r@ == legacy_plan(
            target@,
            target_has_skills,
            target_exists,
            texts(candidates@),
            exists@,
            now_secs,
        ),
{
    if target_has_skills {
        return LegacyMigration::Nothing;
    }
    let ghost names = texts(candidates@);
    let mut i: usize = 0;
    assert(names.skip(0) =~= names);
    assert(exists@.skip(0) =~= exists@);
    while i < candidates.len() && i < exists.len()
        invariant
            i <= candidates.len(),
            i <= exists.len(),
            !target_has_skills,
            names == texts(candidates@),
            first_existing(names, exists@) == first_existing(
                names.skip(i as int),
                exists@.skip(i as int),
            ),
        decreases candidates.len() - i,
    {
        proof {
            assert(names.skip(i as int)[0] == candidates@[i as int]@);
            assert(exists@.skip(i as int)[0] == exists@[i as int]);
            assert(names.skip(i as int).drop_first() =~= names.skip(i + 1));
            assert(exists@.skip(i as int).drop_first() =~= exists@.skip(i + 1));
        }
        if exists[i] {
            proof {
                assert(first_existing(names.skip(i as int), exists@.skip(i as int)) == Some(
                    candidates@[i as int]@,
                ));
            }
            if str_eq(candidates[i].as_str(), target) {
                return LegacyMigration::Nothing;
            }
            let backup = if target_exists {
                let mut extension = "bak-".to_string();
                extension.append(decimal_string(now_secs as i128).as_str());
                proof {
                    reveal_strlit("bak-");
                    lemma_decimal_digits(now_secs as nat);
                    let digits = decimal_digits(now_secs as nat);
                    assert(decimal(now_secs as int) == digits);
                    assert forall|k: int| 0 <= k < extension@.len() implies (
                    #[trigger] extension@[k]) != '/' && extension@[k] != '\\' by {
                        if k >= 4 {
                            assert(extension@[k] == digits[k - 4]);
                        }
                    }
                }
                Some(with_extension(target, extension.as_str()))
            } else {
                None
            };
            let from = candidates[i].clone();
            return LegacyMigration::Copy { from, backup };
        }
        i = i + 1;
    }
    proof {
        assert(names.skip(i as int).len() == 0 || exists@.skip(i as int).len() == 0);
        assert(first_existing(names.skip(i as int), exists@.skip(i as int)) is None);
    }
    LegacyMigration::Nothing
}

} // verus!
