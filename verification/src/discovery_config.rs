//! The built-in catalogue of recommended skills and their categories.

use vstd::prelude::*;
use crate::distinct::texts;
use crate::text::{lowercase, occurs_in, str_contains, str_eq, to_lowercase};

verus! {

/// What a skill of the catalogue says, whatever record carries it.
pub ghost struct SkillView {
    pub name: Seq<char>,
    pub description: Seq<char>,
    pub github_url: Seq<char>,
    pub category: Seq<char>,
    pub tags: Seq<Seq<char>>,
}

/// A skill that the application recommends.
#[derive(Debug)]
pub struct RecommendedSkill {
    pub name: String,
    pub description: String,
    pub github_url: String,
    pub category: String,
    pub tags: Vec<String>,
}

impl View for RecommendedSkill {
    type V = SkillView;

    open spec fn view(&self) -> SkillView {
        SkillView {
            name: self.name@,
            description: self.description@,
            github_url: self.github_url@,
            category: self.category@,
            tags: texts(self.tags@),
        }
    }
}

impl Clone for RecommendedSkill {
    fn clone(&self) -> (r: Self)
        ensures
            r@ == self@,
    {
        RecommendedSkill {
            name: self.name.clone(),
            description: self.description.clone(),
            github_url: self.github_url.clone(),
            category: self.category.clone(),
            tags: clone_strings(&self.tags),
        }
    }
}

/// A copy of a list of strings.
pub fn clone_strings(v: &Vec<String>) -> (r: Vec<String>)
    ensures
        r@ == v@,
{
    let mut out: Vec<String> = Vec::new();
    let mut i: usize = 0;
    while i < v.len()
        invariant
            i <= v.len(),
            out@ == v@.take(i as int),
        decreases v.len() - i,
    {
        out.push(v[i].clone());
        i = i + 1;
        assert(out@ =~= v@.take(i as int));
    }
    assert(v@.take(v.len() as int) =~= v@);
    out
}

/// What a category says, whatever record carries it.
pub ghost struct CategoryView {
    pub id: Seq<char>,
    pub name: Seq<char>,
    pub description: Seq<char>,
    pub icon: Seq<char>,
    pub color: Seq<char>,
}

/// A category of skills.
#[derive(Debug)]
pub struct SkillCategory {
    pub id: String,
    pub name: String,
    pub description: String,
    pub icon: String,
    pub color: String,
}

impl View for SkillCategory {
    type V = CategoryView;

    open spec fn view(&self) -> CategoryView {
        CategoryView {
            id: self.id@,
            name: self.name@,
            description: self.description@,
            icon: self.icon@,
            color: self.color@,
        }
    }
}

impl Clone for SkillCategory {
    fn clone(&self) -> (r: Self)
        ensures
            r == *self,
    {
        SkillCategory {
            id: self.id.clone(),
            name: self.name.clone(),
            description: self.description.clone(),
            icon: self.icon.clone(),
            color: self.color.clone(),
        }
    }
}

/// What a catalogue says: its categories and its skills, in order.
pub ghost struct CatalogueView {
    pub categories: Seq<CategoryView>,
    pub skills: Seq<SkillView>,
}

/// The catalogue: the categories, each id once, and the recommended
/// skills.
#[derive(Debug)]
pub struct DiscoveryConfig {
    pub categories: Vec<SkillCategory>,
    pub skills: Vec<RecommendedSkill>,
}

impl View for DiscoveryConfig {
    type V = CatalogueView;

    open spec fn view(&self) -> CatalogueView {
        CatalogueView {
            categories: category_views(self.categories@),
            skills: catalogue_views(self.skills@),
        }
    }
}

/// What the categories of a catalogue say, in order.
pub open spec fn category_views(list: Seq<SkillCategory>) -> Seq<CategoryView> {
    list.map_values(|c: SkillCategory| c@)
}

/// What the skills of a catalogue say, in order.
pub open spec fn catalogue_views(list: Seq<RecommendedSkill>) -> Seq<SkillView> {
    list.map_values(|s: RecommendedSkill| s@)
}

/// The address that every skill of the built-in catalogue is found at.
pub open spec fn built_in_address() -> Seq<char> {
    "https://github.com/anthropics/skills"@
}

/// A skill of the built-in catalogue, with its two tags.
pub open spec fn built_in(
    name: Seq<char>,
    description: Seq<char>,
    category: Seq<char>,
    tag_a: Seq<char>,
    tag_b: Seq<char>,
) -> SkillView {
    SkillView { name, description, github_url: built_in_address(), category, tags: seq![tag_a, tag_b] }
}

/// The categories of the built-in catalogue.
pub open spec fn default_categories() -> Seq<CategoryView> {
    seq![
        CategoryView {
            id: "development"@,
            name: "开发工具"@,
            description: "提升开发效率的工具和技能"@,
            icon: "💻"@,
            color: "#3b82f6"@,
        },
        CategoryView {
            id: "productivity"@,
            name: "生产力"@,
            description: "提高工作效率的技能"@,
            icon: "⚡"@,
            color: "#f59e0b"@,
        },
        CategoryView {
            id: "ai"@,
            name: "AI 辅助"@,
            description: "AI 相关的技能和工具"@,
            icon: "🤖"@,
            color: "#8b5cf6"@,
        },
        CategoryView {
            id: "documentation"@,
            name: "文档"@,
            description: "文档编写和管理技能"@,
            icon: "📚"@,
            color: "#10b981"@,
        },
    ]
}

/// The skills of the built-in catalogue.
pub open spec fn default_skills() -> Seq<SkillView> {
    seq![
        built_in(
            "Git Worktree Manager"@,
            "管理 Git 工作树，支持并行开发多个分支"@,
            "development"@,
            "git"@,
            "workflow"@,
        ),
        built_in(
            "Code Review Assistant"@,
            "辅助代码审查，提供代码质量建议"@,
            "development"@,
            "review"@,
            "quality"@,
        ),
        built_in(
            "Task Planner"@,
            "任务规划和分解，帮助制定详细的实施计划"@,
            "productivity"@,
            "planning"@,
            "productivity"@,
        ),
        built_in(
            "Brainstorming Helper"@,
            "创意头脑风暴，帮助探索用户意图和需求"@,
            "productivity"@,
            "brainstorm"@,
            "ideas"@,
        ),
        built_in("AI Prompt Optimizer"@, "优化 AI 提示词，提升 AI 响应质量"@, "ai"@, "ai"@, "prompt"@),
        built_in(
            "Documentation Generator"@,
            "自动生成项目文档和 API 文档"@,
            "documentation"@,
            "docs"@,
            "generator"@,
        ),
    ]
}

/// The built-in catalogue.
pub open spec fn default_catalogue() -> CatalogueView {
    CatalogueView { categories: default_categories(), skills: default_skills() }
}

/// Whether a skill is of the category, as a predicate on what skills say.
pub open spec fn of_category(category: Seq<char>) -> spec_fn(SkillView) -> bool {
    |s: SkillView| s.category == category
}

/// Whether some tag holds the text, all in lower case.
pub open spec fn some_text_holds(tags: Seq<Seq<char>>, query: Seq<char>) -> bool {
    exists|i: int| 0 <= i < tags.len() && occurs_in(query, lowercase(#[trigger] tags[i]))
}

/// Whether the name, the description or a tag of what a skill says holds
/// the query, all in lower case.
pub open spec fn view_matches(s: SkillView, query: Seq<char>) -> bool {
    ||| occurs_in(lowercase(query), lowercase(s.name))
    ||| occurs_in(lowercase(query), lowercase(s.description))
    ||| some_text_holds(s.tags, lowercase(query))
}

/// [`view_matches`] as a predicate.
pub open spec fn matching_view(query: Seq<char>) -> spec_fn(SkillView) -> bool {
    |s: SkillView| view_matches(s, query)
}

/// A skill matches a query where what it says does.
pub proof fn lemma_matches_view(s: RecommendedSkill, query: Seq<char>)
    ensures
        matches_query(s, query) == view_matches(s@, query),
{
    let q = lowercase(query);
    if some_tag_holds(s.tags@, q) {
        let i = choose|i: int| 0 <= i < s.tags@.len() && occurs_in(q, lowercase((#[trigger] s.tags@[i])@));
        assert(texts(s.tags@)[i] == s.tags@[i]@);
        assert(occurs_in(q, lowercase(texts(s.tags@)[i])));
    }
    if some_text_holds(s@.tags, q) {
        let i = choose|i: int| 0 <= i < s@.tags.len() && occurs_in(q, lowercase(#[trigger] s@.tags[i]));
        assert(texts(s.tags@)[i] == s.tags@[i]@);
        assert(occurs_in(q, lowercase(s.tags@[i]@)));
    }
}

/// Choosing skills by a predicate and then reading what they say gives
/// what choosing among what they say gives, where the two predicates
/// agree.
pub proof fn lemma_views_filter(
    list: Seq<RecommendedSkill>,
    p: spec_fn(RecommendedSkill) -> bool,
    q: spec_fn(SkillView) -> bool,
)
    requires
        forall|s: RecommendedSkill| #[trigger] p(s) == q(s@),
    ensures
        catalogue_views(list.filter(p)) == catalogue_views(list).filter(q),
    decreases list.len(),
{
    reveal(Seq::filter);
    if list.len() == 0 {
        assert(catalogue_views(list.filter(p)) =~= catalogue_views(list).filter(q));
    } else {
        let rest = list.drop_last();
        lemma_views_filter(rest, p, q);
        let views = catalogue_views(list);
        assert(views.drop_last() =~= catalogue_views(rest));
        assert(views.last() == list.last()@);
        assert(p(list.last()) == q(list.last()@));
        if p(list.last()) {
            assert(catalogue_views(rest.filter(p).push(list.last())) =~= catalogue_views(
                rest.filter(p),
            ).push(list.last()@));
        }
    }
}

/// Whether one of the categories has the id.
pub open spec fn has_category(categories: Seq<SkillCategory>, id: Seq<char>) -> bool {
    exists|c: int| 0 <= c < categories.len() && (#[trigger] categories[c]).id@ == id
}

/// Whether a skill belongs to the category, as a predicate.
pub open spec fn in_category(category: Seq<char>) -> spec_fn(RecommendedSkill) -> bool {
    |s: RecommendedSkill| s.category@ == category
}

/// Whether some tag holds the text, all in lower case.
pub open spec fn some_tag_holds(tags: Seq<String>, query: Seq<char>) -> bool {
    exists|i: int| 0 <= i < tags.len() && occurs_in(query, lowercase((#[trigger] tags[i])@))
}

/// Whether the name, the description or a tag of the skill holds the
/// query, all in lower case.
pub open spec fn matches_query(s: RecommendedSkill, query: Seq<char>) -> bool {
    ||| occurs_in(lowercase(query), lowercase(s.name@))
    ||| occurs_in(lowercase(query), lowercase(s.description@))
    ||| some_tag_holds(s.tags@, lowercase(query))
}

/// [`matches_query`] as a predicate.
pub open spec fn matching(query: Seq<char>) -> spec_fn(RecommendedSkill) -> bool {
    |s: RecommendedSkill| matches_query(s, query)
}

fn category(id: &str, name: &str, description: &str, icon: &str, color: &str) -> (r: SkillCategory)
    ensures
        r@ == (CategoryView {
            id: id@,
            name: name@,
            description: description@,
            icon: icon@,
            color: color@,
        }),
{
    SkillCategory {
        id: id.to_string(),
        name: name.to_string(),
        description: description.to_string(),
        icon: icon.to_string(),
        color: color.to_string(),
    }
}

fn skill(name: &str, description: &str, category: &str, tag_a: &str, tag_b: &str) -> (r:
    RecommendedSkill)
    ensures
        r@ == built_in(name@, description@, category@, tag_a@, tag_b@),
{
    let mut tags: Vec<String> = Vec::new();
    tags.push(tag_a.to_string());
    tags.push(tag_b.to_string());
    assert(texts(tags@) =~= seq![tag_a@, tag_b@]);
    RecommendedSkill {
        name: name.to_string(),
        description: description.to_string(),
        github_url: "https://github.com/anthropics/skills".to_string(),
        category: category.to_string(),
        tags,
    }
}

/// Whether some tag holds the query, all in lower case.
fn tag_holds(tags: &Vec<String>, query_lower: &str) -> (r: bool)
    ensures
        r == some_tag_holds(tags@, query_lower@),
{
    let mut i: usize = 0;
    while i < tags.len()
        invariant
            i <= tags.len(),
            forall|k: int| 0 <= k < i ==> !occurs_in(query_lower@, lowercase((#[trigger] tags[k])@)),
        decreases tags.len() - i,
    {
        let tag_lower = to_lowercase(tags[i].as_str());
        if str_contains(tag_lower.as_str(), query_lower) {
            return true;
        }
        i = i + 1;
    }
    false
}

impl DiscoveryConfig {
    /// No two categories share an id, and every skill belongs to one of
    /// the categories.
    pub open spec fn wf(&self) -> bool {
        &&& forall|i: int, j: int|
            0 <= i < j < self.categories.len() ==> (#[trigger] self.categories[i]).id@
                != (#[trigger] self.categories[j]).id@
        &&& forall|k: int|
            0 <= k < self.skills.len() ==> has_category(
                self.categories@,
                (#[trigger] self.skills[k]).category@,
            )
    }

    /// The built-in catalogue.
    pub fn get_default() -> (r: Self)
        ensures
            r.wf(),
            r@ == default_catalogue(),
    {
        Self::default()
    }

    /// The skills of one category, in catalogue order.
    pub fn get_skills_by_category<'a>(&'a self, category_id: &str) -> (r: Vec<&'a RecommendedSkill>)
        ensures
            r@.unref() == self.skills@.filter(in_category(category_id@)),
            catalogue_views(r@.unref()) == self@.skills.filter(of_category(category_id@)),
    {
        let mut out: Vec<&'a RecommendedSkill> = Vec::new();
        let mut i: usize = 0;
        assert(self.skills@.take(0).filter(in_category(category_id@)) =~= out@.unref()) by {
            reveal(Seq::filter);
        }
        while i < self.skills.len()
            invariant
                i <= self.skills.len(),
                out@.unref() == self.skills@.take(i as int).filter(in_category(category_id@)),
            decreases self.skills.len() - i,
        {
            proof {
                self.skills@.lemma_take_succ_push(i as int);
                self.skills@.take(i as int).lemma_filter_push(
                    self.skills@[i as int],
                    in_category(category_id@),
                );
            }
            let ghost before = out@;
            if str_eq(self.skills[i].category.as_str(), category_id) {
                out.push(&self.skills[i]);
                assert(out@.unref() =~= before.unref().push(self.skills@[i as int]));
            }
            i = i + 1;
        }
        proof {
            self.skills@.lemma_take_len();
            lemma_views_filter(self.skills@, in_category(category_id@), of_category(category_id@));
        }
        out
    }

    /// The skills whose name, description or tags hold the query, without
    /// regard to case, in catalogue order.
    pub fn search_skills<'a>(&'a self, query: &str) -> (r: Vec<&'a RecommendedSkill>)
        ensures
            r@.unref() == self.skills@.filter(matching(query@)),
            catalogue_views(r@.unref()) == self@.skills.filter(matching_view(query@)),
    {
        let query_lower = to_lowercase(query);
        let mut out: Vec<&'a RecommendedSkill> = Vec::new();
        let mut i: usize = 0;
        assert(self.skills@.take(0).filter(matching(query@)) =~= out@.unref()) by {
            reveal(Seq::filter);
        }
        while i < self.skills.len()
            invariant
                i <= self.skills.len(),
                query_lower@ == lowercase(query@),
                out@.unref() == self.skills@.take(i as int).filter(matching(query@)),
            decreases self.skills.len() - i,
        {
            proof {
                self.skills@.lemma_take_succ_push(i as int);
                self.skills@.take(i as int).lemma_filter_push(
                    self.skills@[i as int],
                    matching(query@),
                );
            }
            let ghost before = out@;
            let s = &self.skills[i];
            let name_lower = to_lowercase(s.name.as_str());
            let description_lower = to_lowercase(s.description.as_str());
            if str_contains(name_lower.as_str(), query_lower.as_str()) || str_contains(
                description_lower.as_str(),
                query_lower.as_str(),
            ) || tag_holds(&s.tags, query_lower.as_str()) {
                out.push(s);
                assert(out@.unref() =~= before.unref().push(self.skills@[i as int]));
            }
            i = i + 1;
        }
        proof {
            self.skills@.lemma_take_len();
            assert forall|s: RecommendedSkill| #[trigger]
                matching(query@)(s) == matching_view(query@)(s@) by {
                lemma_matches_view(s, query@);
            }
            lemma_views_filter(self.skills@, matching(query@), matching_view(query@));
        }
        out
    }
}

impl Default for DiscoveryConfig {
    fn default() -> (r: Self)
        ensures
            r.wf(),
            r@ == default_catalogue(),
    {
        let mut categories: Vec<SkillCategory> = Vec::new();
        categories.push(
            category("development", "开发工具", "提升开发效率的工具和技能", "💻", "#3b82f6"),
        );
        categories.push(category("productivity", "生产力", "提高工作效率的技能", "⚡", "#f59e0b"));
        categories.push(category("ai", "AI 辅助", "AI 相关的技能和工具", "🤖", "#8b5cf6"));
        categories.push(category("documentation", "文档", "文档编写和管理技能", "📚", "#10b981"));
        let mut skills: Vec<RecommendedSkill> = Vec::new();
        skills.push(
            skill(
                "Git Worktree Manager",
                "管理 Git 工作树，支持并行开发多个分支",
                "development",
                "git",
                "workflow",
            ),
        );
        skills.push(
            skill(
                "Code Review Assistant",
                "辅助代码审查，提供代码质量建议",
                "development",
                "review",
                "quality",
            ),
        );
        skills.push(
            skill(
                "Task Planner",
                "任务规划和分解，帮助制定详细的实施计划",
                "productivity",
                "planning",
                "productivity",
            ),
        );
        skills.push(
            skill(
                "Brainstorming Helper",
                "创意头脑风暴，帮助探索用户意图和需求",
                "productivity",
                "brainstorm",
                "ideas",
            ),
        );
        skills.push(
            skill("AI Prompt Optimizer", "优化 AI 提示词，提升 AI 响应质量", "ai", "ai", "prompt"),
        );
        skills.push(
            skill(
                "Documentation Generator",
                "自动生成项目文档和 API 文档",
                "documentation",
                "docs",
                "generator",
            ),
        );
        proof {
            reveal_strlit("development");
            reveal_strlit("productivity");
            reveal_strlit("ai");
            reveal_strlit("documentation");
            assert("development"@.len() == 11);
            assert("productivity"@.len() == 12);
            assert("ai"@.len() == 2);
            assert("documentation"@.len() == 13);
            assert(category_views(categories@) =~= default_categories());
            assert(catalogue_views(skills@) =~= default_skills());
            assert(skills@[0]@.category == categories@[0]@.id);
            assert(skills@[1]@.category == categories@[0]@.id);
            assert(skills@[2]@.category == categories@[1]@.id);
            assert(skills@[3]@.category == categories@[1]@.id);
            assert(skills@[4]@.category == categories@[2]@.id);
            assert(skills@[5]@.category == categories@[3]@.id);
            assert(skills@[0].category@ == categories@[0].id@);
            assert(skills@[1].category@ == categories@[0].id@);
            assert(skills@[2].category@ == categories@[1].id@);
            assert(skills@[3].category@ == categories@[1].id@);
            assert(skills@[4].category@ == categories@[2].id@);
            assert(skills@[5].category@ == categories@[3].id@);
            assert forall|k: int| 0 <= k < skills@.len() implies has_category(
                categories@,
                (#[trigger] skills@[k]).category@,
            ) by {}
        }
        DiscoveryConfig { categories, skills }
    }
}

} // verus!
