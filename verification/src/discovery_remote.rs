//! Skills found outside the built-in catalogue: a list of popular skills,
//! topped up by what a repository search returned.
//!
//! The search itself is made by the caller. [`github_search_for`] says
//! what to search for, and [`fetch_skills_by_category`] takes what the
//! search returned.

use vstd::prelude::*;
use crate::discovery_config::{clone_strings, SkillView};
use crate::distinct::texts;
use crate::text::{decimal, decimal_string, split_on, split_text, str_eq};

verus! {

/// How many skills are fetched for a category where nothing else is said.
pub const DEFAULT_SKILLS_PER_CATEGORY: usize = 10;

/// A skill found outside the built-in catalogue.
#[derive(Debug)]
pub struct RemoteDiscoveredSkill {
    pub name: String,
    pub description: String,
    pub github_url: String,
    pub category: String,
    pub tags: Vec<String>,
}

impl View for RemoteDiscoveredSkill {
    type V = SkillView;

    open spec fn view(&self) -> SkillView {
        SkillView {
            name: self.name@,
            description: self.description@,
            github_url: self.github_url@,
            category: self.category@,
            tags: texts(self.tags@),
        }
    }
}

impl Clone for RemoteDiscoveredSkill {
    fn clone(&self) -> (r: Self)
        ensures
            r@ == self@,
    {
        RemoteDiscoveredSkill {
            name: self.name.clone(),
            description: self.description.clone(),
            github_url: self.github_url.clone(),
            category: self.category.clone(),
            tags: clone_strings(&self.tags),
        }
    }
}

/// What the skills of a list say, in order.
pub open spec fn remote_views(list: Seq<RemoteDiscoveredSkill>) -> Seq<SkillView> {
    list.map_values(|s: RemoteDiscoveredSkill| s@)
}

/// An entry of the list of popular skills.
pub struct PopularSkill {
    pub repo: &'static str,
    pub name: &'static str,
    pub category: &'static str,
    pub description: &'static str,
}

/// A category and the topics by which its repositories are found, beside
/// the topic that all skills share.
pub struct CategoryTopic {
    pub category: &'static str,
    pub topics: &'static str,
}

/// The categories that are fetched, each with its topics.
pub fn category_topics() -> (r: Vec<CategoryTopic>)
    ensures
        r@.len() == 4,
        r@[0].category@ == "development"@,
        r@[1].category@ == "productivity"@,
        r@[2].category@ == "ai"@,
        r@[3].category@ == "documentation"@,
        r@[0].topics@ == "topic:development"@,
        r@[1].topics@ == "topic:productivity"@,
        r@[2].topics@ == "topic:ai topic:assistant"@,
        r@[3].topics@ == "topic:documentation topic:docs"@,
{
    let mut v: Vec<CategoryTopic> = Vec::new();
    v.push(CategoryTopic { category: "development", topics: "topic:development" });
    v.push(CategoryTopic { category: "productivity", topics: "topic:productivity" });
    v.push(CategoryTopic { category: "ai", topics: "topic:ai topic:assistant" });
    v.push(CategoryTopic { category: "documentation", topics: "topic:documentation topic:docs" });
    v
}

/// The topics of a category, if it is one of those that are fetched.
pub open spec fn topics_of(category: Seq<char>) -> Option<Seq<char>> {
    if category == "development"@ {
        Some("topic:development"@)
    } else if category == "productivity"@ {
        Some("topic:productivity"@)
    } else if category == "ai"@ {
        Some("topic:ai topic:assistant"@)
    } else if category == "documentation"@ {
        Some("topic:documentation topic:docs"@)
    } else {
        None
    }
}

/// The search for the repositories of a category: the topic that all
/// skills share, followed by a blank and the topics of the category where
/// it has any.
pub open spec fn query_for(category: Seq<char>, shared_topic: Seq<char>) -> Seq<char> {
    match topics_of(category) {
        Some(topics) => shared_topic + " "@ + topics,
        None => shared_topic,
    }
}

/// What an entry of the list of popular skills says.
pub ghost struct PopularView {
    pub repo: Seq<char>,
    pub name: Seq<char>,
    pub category: Seq<char>,
    pub description: Seq<char>,
}

impl View for PopularSkill {
    type V = PopularView;

    open spec fn view(&self) -> PopularView {
        PopularView {
            repo: self.repo@,
            name: self.name@,
            category: self.category@,
            description: self.description@,
        }
    }
}

/// What the entries of a list say, in order.
pub open spec fn popular_views(list: Seq<PopularSkill>) -> Seq<PopularView> {
    list.map_values(|p: PopularSkill| p@)
}

/// What an entry with the given texts says.
pub open spec fn entry(repo: &str, name: &str, category: &str, description: &str) -> PopularView {
    PopularView { repo: repo@, name: name@, category: category@, description: description@ }
}

/// What the list of popular skills says, most popular first.
pub open spec fn popular_table() -> Seq<PopularView> {
    seq![
        entry("vercel-labs/skills", "find-skills", "productivity", "帮助发现和安装新技能"),
        entry(
            "vercel-labs/agent-skills",
            "vercel-react-best-practices",
            "development",
            "Vercel React 最佳实践",
        ),
        entry("vercel-labs/agent-skills", "web-design-guidelines", "development", "Web 设计指南"),
        entry(
            "remotion-dev/skills",
            "remotion-best-practices",
            "development",
            "Remotion 最佳实践",
        ),
        entry("anthropics/skills", "frontend-design", "development", "前端设计技能"),
        entry(
            "vercel-labs/agent-skills",
            "vercel-composition-patterns",
            "development",
            "Vercel 组合模式",
        ),
        entry("vercel-labs/agent-browser", "agent-browser", "productivity", "浏览器自动化代理"),
        entry("anthropics/skills", "skill-creator", "productivity", "技能创建工具"),
        entry("browser-use/browser-use", "browser-use", "productivity", "浏览器使用技能"),
        entry(
            "vercel-labs/agent-skills",
            "vercel-react-native-skills",
            "development",
            "React Native 技能",
        ),
        entry(
            "nextlevelbuilder/ui-ux-pro-max-skill",
            "ui-ux-pro-max",
            "development",
            "UI/UX 设计专家",
        ),
        entry("squirrelscan/skills", "audit-website", "productivity", "网站审计工具"),
        entry("obra/superpowers", "brainstorming", "productivity", "头脑风暴助手"),
        entry("coreyhaines31/marketingskills", "seo-audit", "documentation", "SEO 审计"),
        entry(
            "supabase/agent-skills",
            "supabase-postgres-best-practices",
            "development",
            "Supabase Postgres 最佳实践",
        ),
        entry("anthropics/skills", "pdf", "documentation", "PDF 处理"),
        entry("coreyhaines31/marketingskills", "copywriting", "documentation", "文案写作"),
        entry("vercel-labs/next-skills", "next-best-practices", "development", "Next.js 最佳实践"),
        entry("anthropics/skills", "pptx", "documentation", "PPT 处理"),
        entry(
            "better-auth/skills",
            "better-auth-best-practices",
            "development",
            "Better Auth 最佳实践",
        ),
    ]
}

fn popular(
    repo: &'static str,
    name: &'static str,
    category: &'static str,
    description: &'static str,
) -> (r: PopularSkill)
    ensures
        r@ == entry(repo, name, category, description),
{
    PopularSkill { repo, name, category, description }
}

/// The list of popular skills, most popular first.
pub fn popular_skills() -> (r: Vec<PopularSkill>)
    ensures
        popular_views(r@) == popular_table(),
        r@.len() == 20,
{
    let mut v: Vec<PopularSkill> = Vec::new();
    v.push(popular("vercel-labs/skills", "find-skills", "productivity", "帮助发现和安装新技能"));
    v.push(
        popular(
            "vercel-labs/agent-skills",
            "vercel-react-best-practices",
            "development",
            "Vercel React 最佳实践",
        ),
    );
    v.push(
        popular("vercel-labs/agent-skills", "web-design-guidelines", "development", "Web 设计指南"),
    );
    v.push(
        popular(
            "remotion-dev/skills",
            "remotion-best-practices",
            "development",
            "Remotion 最佳实践",
        ),
    );
    v.push(popular("anthropics/skills", "frontend-design", "development", "前端设计技能"));
    v.push(
        popular(
            "vercel-labs/agent-skills",
            "vercel-composition-patterns",
            "development",
            "Vercel 组合模式",
        ),
    );
    v.push(popular("vercel-labs/agent-browser", "agent-browser", "productivity", "浏览器自动化代理"));
    v.push(popular("anthropics/skills", "skill-creator", "productivity", "技能创建工具"));
    v.push(popular("browser-use/browser-use", "browser-use", "productivity", "浏览器使用技能"));
    v.push(
        popular(
            "vercel-labs/agent-skills",
            "vercel-react-native-skills",
            "development",
            "React Native 技能",
        ),
    );
    v.push(
        popular(
            "nextlevelbuilder/ui-ux-pro-max-skill",
            "ui-ux-pro-max",
            "development",
            "UI/UX 设计专家",
        ),
    );
    v.push(popular("squirrelscan/skills", "audit-website", "productivity", "网站审计工具"));
    v.push(popular("obra/superpowers", "brainstorming", "productivity", "头脑风暴助手"));
    v.push(popular("coreyhaines31/marketingskills", "seo-audit", "documentation", "SEO 审计"));
    v.push(
        popular(
            "supabase/agent-skills",
            "supabase-postgres-best-practices",
            "development",
            "Supabase Postgres 最佳实践",
        ),
    );
    v.push(popular("anthropics/skills", "pdf", "documentation", "PDF 处理"));
    v.push(popular("coreyhaines31/marketingskills", "copywriting", "documentation", "文案写作"));
    v.push(
        popular("vercel-labs/next-skills", "next-best-practices", "development", "Next.js 最佳实践"),
    );
    v.push(popular("anthropics/skills", "pptx", "documentation", "PPT 处理"));
    v.push(
        popular(
            "better-auth/skills",
            "better-auth-best-practices",
            "development",
            "Better Auth 最佳实践",
        ),
    );
    assert(popular_views(v@) =~= popular_table());
    v
}

/// Whether a popular skill belongs to the category, as a predicate.
pub open spec fn popular_in(category: Seq<char>) -> spec_fn(PopularView) -> bool {
    |p: PopularView| p.category == category
}

/// What a popular skill says once it is listed under a category.
pub open spec fn popular_view(p: PopularView, category: Seq<char>) -> SkillView {
    SkillView {
        name: p.name,
        description: p.description,
        github_url: "https://github.com/"@ + p.repo,
        category,
        tags: seq!["skills.sh"@, "popular"@],
    }
}

/// What goes with an entry once it is listed under a category.
pub open spec fn listed_under(category: Seq<char>) -> spec_fn(PopularView) -> SkillView {
    |p: PopularView| popular_view(p, category)
}

/// The first `limit` popular skills of a category, out of a list.
pub open spec fn popular_for(list: Seq<PopularView>, category: Seq<char>, limit: int) -> Seq<
    SkillView,
> {
    let found = list.filter(popular_in(category));
    let kept = if found.len() <= limit {
        found
    } else {
        found.take(limit)
    };
    kept.map_values(listed_under(category))
}

/// The first `limit` skills of the category out of `list`.
pub fn skills_from_list(list: &Vec<PopularSkill>, category_id: &str, limit: usize) -> (r: Vec<
    RemoteDiscoveredSkill,
>)
    ensures
        remote_views(r@) == popular_for(popular_views(list@), category_id@, limit as int),
        r@.len() <= limit,
{
    let mut out: Vec<RemoteDiscoveredSkill> = Vec::new();
    let mut i: usize = 0;
    let ghost views = popular_views(list@);
    let ghost pick = popular_in(category_id@);
    let ghost view_of = listed_under(category_id@);
    assert(views.take(0).filter(pick) =~= Seq::<PopularView>::empty()) by {
        reveal(Seq::filter);
    }
    assert(remote_views(out@) =~= views.take(0).filter(pick).map_values(view_of));
    while i < list.len() && out.len() < limit
        invariant
            i <= list.len(),
            out.len() <= limit,
            views == popular_views(list@),
            pick == popular_in(category_id@),
            view_of == listed_under(category_id@),
            remote_views(out@) == views.take(i as int).filter(pick).map_values(view_of),
        decreases list.len() - i,
    {
        proof {
            views.lemma_take_succ_push(i as int);
            views.take(i as int).lemma_filter_push(views[i as int], pick);
            assert(views[i as int] == list@[i as int]@);
        }
        let ghost before = out@;
        let ghost found = views.take(i as int).filter(pick);
        if str_eq(list[i].category, category_id) {
            let mut github_url = "https://github.com/".to_string();
            github_url.append(list[i].repo);
            let mut tags: Vec<String> = Vec::new();
            tags.push("skills.sh".to_string());
            tags.push("popular".to_string());
            let skill = RemoteDiscoveredSkill {
                name: list[i].name.to_string(),
                description: list[i].description.to_string(),
                github_url,
                category: category_id.to_string(),
                tags,
            };
            proof {
                assert(texts(skill.tags@) =~= seq!["skills.sh"@, "popular"@]);
                assert(skill@ == popular_view(views[i as int], category_id@));
            }
            out.push(skill);
            proof {
                assert(remote_views(out@) =~= remote_views(before).push(skill@));
                found.lemma_push_map_commute(view_of, views[i as int]);
            }
        }
        i = i + 1;
    }
    proof {
        let all = views.filter(pick);
        let seen = views.take(i as int).filter(pick);
        if i == list.len() {
            views.lemma_take_len();
        } else {
            assert(out.len() == limit);
            assert(seen.len() == limit) by {
                assert(remote_views(out@).len() == seen.map_values(view_of).len());
            }
            lemma_filter_prefix(views, pick, i as int);
            assert(all.take(limit as int) =~= seen);
        }
    }
    out
}

/// The chosen entries of a prefix are a prefix of the chosen entries.
pub proof fn lemma_filter_prefix<A>(s: Seq<A>, p: spec_fn(A) -> bool, i: int)
    requires
        0 <= i <= s.len(),
    ensures
        s.take(i).filter(p).len() <= s.filter(p).len(),
        s.filter(p).take(s.take(i).filter(p).len() as int) == s.take(i).filter(p),
    decreases s.len() - i,
{
    if i == s.len() {
        assert(s.take(i) =~= s);
        assert(s.filter(p).take(s.filter(p).len() as int) =~= s.filter(p));
    } else {
        lemma_filter_prefix(s, p, i + 1);
        s.lemma_take_succ_push(i);
        s.take(i).lemma_filter_push(s[i], p);
        let short = s.take(i).filter(p);
        let long = s.take(i + 1).filter(p);
        let all = s.filter(p);
        assert(all.take(long.len() as int) == long);
        assert(all.take(short.len() as int) =~= short) by {
            assert forall|k: int| 0 <= k < short.len() implies all[k] == short[k] by {
                assert(all.take(long.len() as int)[k] == long[k]);
            }
        }
    }
}

/// The first `limit` popular skills of the category, in the order of the
/// list, each under the address of its repository and with the two tags
/// of the list.
pub fn fetch_skills_from_popular_list(category_id: &str, limit: usize) -> (r: Vec<
    RemoteDiscoveredSkill,
>)
    ensures
        remote_views(r@) == popular_for(popular_table(), category_id@, limit as int),
        r@.len() <= limit,
{
    let list = popular_skills();
    skills_from_list(&list, category_id, limit)
}

/// Whether some skill of the list has the address.
pub open spec fn has_url(list: Seq<SkillView>, url: Seq<char>) -> bool {
    exists|i: int| 0 <= i < list.len() && (#[trigger] list[i]).github_url == url
}

/// Whether a skill's address is not yet in the list, as a predicate.
pub open spec fn fresh(list: Seq<SkillView>) -> spec_fn(SkillView) -> bool {
    |s: SkillView| !has_url(list, s.github_url)
}

/// The list, followed by those of the found skills whose address the list
/// does not hold.
pub open spec fn topped_up(list: Seq<SkillView>, found: Seq<SkillView>) -> Seq<SkillView> {
    list + found.filter(fresh(list))
}

/// What a category's fetch returns, given its popular skills and the
/// outcome of the search: the popular skills alone where they reach the
/// limit; else the failure of the search, or the popular skills topped up
/// by what was found.
pub open spec fn category_outcome(
    from_list: Seq<SkillView>,
    limit: int,
    github: Result<Seq<SkillView>, Seq<char>>,
) -> Result<Seq<SkillView>, Seq<char>> {
    if from_list.len() >= limit {
        Ok(from_list)
    } else {
        match github {
            Ok(found) => Ok(topped_up(from_list, found)),
            Err(e) => Err(e),
        }
    }
}

/// The outcome of a search or of a fetch, by what its skills say.
pub open spec fn outcome_view(r: Result<Vec<RemoteDiscoveredSkill>, String>) -> Result<
    Seq<SkillView>,
    Seq<char>,
> {
    match r {
        Ok(v) => Ok(remote_views(v@)),
        Err(e) => Err(e@),
    }
}

fn url_in(list: &Vec<RemoteDiscoveredSkill>, url: &str) -> (r: bool)
    ensures
        r == has_url(remote_views(list@), url@),
{
    let mut i: usize = 0;
    while i < list.len()
        invariant
            i <= list.len(),
            forall|k: int| 0 <= k < i ==> (#[trigger] remote_views(list@)[k]).github_url != url@,
        decreases list.len() - i,
    {
        if str_eq(list[i].github_url.as_str(), url) {
            assert(remote_views(list@)[i as int].github_url == url@);
            return true;
        }
        i = i + 1;
    }
    false
}

/// A copy of a list of skills.
pub fn clone_skills(list: &Vec<RemoteDiscoveredSkill>) -> (r: Vec<RemoteDiscoveredSkill>)
    ensures
        remote_views(r@) == remote_views(list@),
{
    let mut out: Vec<RemoteDiscoveredSkill> = Vec::new();
    let mut i: usize = 0;
    assert(remote_views(out@) =~= remote_views(list@).take(0));
    while i < list.len()
        invariant
            i <= list.len(),
            remote_views(out@) == remote_views(list@).take(i as int),
        decreases list.len() - i,
    {
        let ghost before = out@;
        let skill = list[i].clone();
        out.push(skill);
        i = i + 1;
        assert(remote_views(out@) =~= remote_views(list@).take(i as int)) by {
            assert(remote_views(out@) =~= remote_views(before).push(skill@));
        }
    }
    proof {
        remote_views(list@).lemma_take_len();
    }
    out
}

/// The popular skills of a category, topped up by the found skills whose
/// address is new.
pub fn top_up(from_list: &Vec<RemoteDiscoveredSkill>, found: &Vec<RemoteDiscoveredSkill>) -> (r:
    Vec<RemoteDiscoveredSkill>)
    ensures
        remote_views(r@) == topped_up(remote_views(from_list@), remote_views(found@)),
{
    let ghost base = remote_views(from_list@);
    let ghost finds = remote_views(found@);
    let mut out = clone_skills(from_list);
    let mut i: usize = 0;
    proof {
        reveal(Seq::filter);
        assert(finds.take(0).filter(fresh(base)) =~= Seq::<SkillView>::empty());
        assert(remote_views(out@) =~= base + finds.take(0).filter(fresh(base)));
    }
    while i < found.len()
        invariant
            i <= found.len(),
            base == remote_views(from_list@),
            finds == remote_views(found@),
            remote_views(out@) == base + finds.take(i as int).filter(fresh(base)),
        decreases found.len() - i,
    {
        proof {
            finds.lemma_take_succ_push(i as int);
            finds.take(i as int).lemma_filter_push(finds[i as int], fresh(base));
        }
        let ghost before = out@;
        if !url_in(from_list, found[i].github_url.as_str()) {
            let skill = found[i].clone();
            out.push(skill);
            proof {
                assert(remote_views(out@) =~= remote_views(before).push(skill@));
                assert(remote_views(out@) =~= base + finds.take(i + 1).filter(fresh(base)));
            }
        }
        i = i + 1;
    }
    proof {
        finds.lemma_take_len();
    }
    out
}

/// A search of repositories that the caller is to make.
#[derive(Debug)]
pub struct GithubSearch {
    pub query: String,
    pub category: String,
    pub limit: usize,
}

/// The search by which the repositories of a category are found.
pub fn topic_query(category_id: &str, shared_topic: &str) -> (r: String)
    ensures
        r@ == query_for(category_id@, shared_topic@),
{
    let topics = category_topics();
    let mut i: usize = 0;
    while i < topics.len()
        invariant
            i <= topics.len(),
            topics@.len() == 4,
            topics@[0].category@ == "development"@,
            topics@[1].category@ == "productivity"@,
            topics@[2].category@ == "ai"@,
            topics@[3].category@ == "documentation"@,
            topics@[0].topics@ == "topic:development"@,
            topics@[1].topics@ == "topic:productivity"@,
            topics@[2].topics@ == "topic:ai topic:assistant"@,
            topics@[3].topics@ == "topic:documentation topic:docs"@,
            forall|k: int| 0 <= k < i ==> (#[trigger] topics@[k]).category@ != category_id@,
        decreases topics.len() - i,
    {
        if str_eq(topics[i].category, category_id) {
            proof {
                reveal_strlit("development");
                reveal_strlit("productivity");
                reveal_strlit("ai");
                reveal_strlit("documentation");
                assert("development"@.len() == 11);
                assert("productivity"@.len() == 12);
                assert("ai"@.len() == 2);
                assert("documentation"@.len() == 13);
            }
            let mut query = shared_topic.to_string();
            query.append(" ");
            query.append(topics[i].topics);
            return query;
        }
        i = i + 1;
    }
    shared_topic.to_string()
}

/// What is left to search for after the popular skills of a category:
/// nothing where they reach the limit, and else as many repositories as
/// they fall short of it, by the search of the category.
pub fn github_search_for(category_id: &str, limit: usize, shared_topic: &str) -> (r: Option<
    GithubSearch,
>)
    ensures
        match r {
            Some(search) => {
                let listed = popular_for(popular_table(), category_id@, limit as int);
                &&& listed.len() < limit
                &&& search.limit == limit - listed.len()
                &&& search.category@ == category_id@
                &&& search.query@ == query_for(category_id@, shared_topic@)
            },
            None => popular_for(popular_table(), category_id@, limit as int).len() >= limit,
        },
{
    let from_list = fetch_skills_from_popular_list(category_id, limit);
    assert(remote_views(from_list@).len() == from_list@.len());
    if from_list.len() < limit {
        Some(
            GithubSearch {
                query: topic_query(category_id, shared_topic),
                category: category_id.to_string(),
                limit: limit - from_list.len(),
            },
        )
    } else {
        None
    }
}

/// What [`fetch_skills_by_category`] returns for given popular skills.
pub fn category_skills(
    from_list: Vec<RemoteDiscoveredSkill>,
    limit: usize,
    github: Result<Vec<RemoteDiscoveredSkill>, String>,
) -> (r: Result<Vec<RemoteDiscoveredSkill>, String>)
    ensures
        outcome_view(r) == category_outcome(
            remote_views(from_list@),
            limit as int,
            outcome_view(github),
        ),
{
    assert(remote_views(from_list@).len() == from_list@.len());
    if from_list.len() < limit {
        match github {
            Ok(found) => Ok(top_up(&from_list, &found)),
            Err(e) => Err(e),
        }
    } else {
        Ok(from_list)
    }
}

/// What fetching a category comes to, given the outcome of its search.
pub open spec fn fetched(
    category: Seq<char>,
    limit: int,
    github: Result<Seq<SkillView>, Seq<char>>,
) -> Result<Seq<SkillView>, Seq<char>> {
    category_outcome(popular_for(popular_table(), category, limit), limit, github)
}

/// The skills of a category: its popular skills, topped up by what the
/// search returned where they fall short of the limit. `github` is the
/// outcome of the search that [`github_search_for`] asks for; it is not
/// looked at where no search is asked for.
pub fn fetch_skills_by_category(
    category_id: &str,
    limit: usize,
    github: Result<Vec<RemoteDiscoveredSkill>, String>,
) -> (r: Result<Vec<RemoteDiscoveredSkill>, String>)
    ensures
        outcome_view(r) == fetched(category_id@, limit as int, outcome_view(github)),
{
    let from_list = fetch_skills_from_popular_list(category_id, limit);
    category_skills(from_list, limit, github)
}

/// The categories that are fetched, in their order.
pub open spec fn fetched_categories() -> Seq<Seq<char>> {
    seq!["development"@, "productivity"@, "ai"@, "documentation"@]
}

/// What the outcomes of a list of searches say, in order.
pub open spec fn search_views(searches: Seq<Result<Vec<RemoteDiscoveredSkill>, String>>) -> Seq<
    Result<Seq<SkillView>, Seq<char>>,
> {
    searches.map_values(|r: Result<Vec<RemoteDiscoveredSkill>, String>| outcome_view(r))
}

/// The outcome of the search at a place, where a place without one found
/// nothing.
pub open spec fn search_at(searches: Seq<Result<Seq<SkillView>, Seq<char>>>, k: int) -> Result<
    Seq<SkillView>,
    Seq<char>,
> {
    if 0 <= k < searches.len() {
        searches[k]
    } else {
        Ok(Seq::empty())
    }
}

/// What fetching the first `n` categories comes to: each category with
/// its skills, in order, or the first failure of a search that was
/// looked at.
pub open spec fn fetched_all(
    limit: int,
    searches: Seq<Result<Seq<SkillView>, Seq<char>>>,
    n: int,
) -> Result<Seq<(Seq<char>, Seq<SkillView>)>, Seq<char>>
    decreases n,
{
    if n <= 0 {
        Ok(Seq::empty())
    } else {
        match fetched_all(limit, searches, n - 1) {
            Err(e) => Err(e),
            Ok(before) => match fetched(
                fetched_categories()[n - 1],
                limit,
                search_at(searches, n - 1),
            ) {
                Ok(skills) => Ok(before.push((fetched_categories()[n - 1], skills))),
                Err(e) => Err(e),
            },
        }
    }
}

/// What the skills of each category say, in order.
pub open spec fn category_views(all: Seq<(String, Vec<RemoteDiscoveredSkill>)>) -> Seq<
    (Seq<char>, Seq<SkillView>),
> {
    all.map_values(|c: (String, Vec<RemoteDiscoveredSkill>)| (c.0@, remote_views(c.1@)))
}

/// What a fetch of every category came to, by what its skills say.
pub open spec fn all_view(r: Result<Vec<(String, Vec<RemoteDiscoveredSkill>)>, String>) -> Result<
    Seq<(Seq<char>, Seq<SkillView>)>,
    Seq<char>,
> {
    match r {
        Ok(all) => Ok(category_views(all@)),
        Err(e) => Err(e@),
    }
}

/// The skills of every fetched category, in the order of
/// [`category_topics`]. `searches` holds the outcome of each category's
/// search in the same order; a category without one is taken to have
/// found nothing. The first failure of a search that is looked at ends
/// the fetch.
pub fn fetch_all_category_skills(
    limit_per_category: usize,
    searches: Vec<Result<Vec<RemoteDiscoveredSkill>, String>>,
) -> (r: Result<Vec<(String, Vec<RemoteDiscoveredSkill>)>, String>)
    ensures
        all_view(r) == fetched_all(limit_per_category as int, search_views(searches@), 4),
{
    let topics = category_topics();
    let ghost given = search_views(searches@);
    let ghost limit = limit_per_category as int;
    let mut rest = searches;
    let mut out: Vec<(String, Vec<RemoteDiscoveredSkill>)> = Vec::new();
    let mut i: usize = 0;
    proof {
        assert(search_views(rest@).skip(0) =~= given);
        assert(category_views(out@) =~= Seq::<(Seq<char>, Seq<SkillView>)>::empty());
    }
    while i < topics.len()
        invariant
            i <= topics.len(),
            topics@.len() == 4,
            topics@[0].category@ == "development"@,
            topics@[1].category@ == "productivity"@,
            topics@[2].category@ == "ai"@,
            topics@[3].category@ == "documentation"@,
            limit == limit_per_category as int,
            given == search_views(searches@),
            if i <= given.len() {
                search_views(rest@) == given.skip(i as int)
            } else {
                rest@.len() == 0
            },
            fetched_all(limit, given, i as int) == Ok::<
                Seq<(Seq<char>, Seq<SkillView>)>,
                Seq<char>,
            >(category_views(out@)),
        decreases topics.len() - i,
    {
        assert(topics@[i as int].category@ == fetched_categories()[i as int]);
        let ghost left = rest@;
        let github: Result<Vec<RemoteDiscoveredSkill>, String> = if rest.len() > 0 {
            rest.remove(0)
        } else {
            Ok(Vec::new())
        };
        proof {
            if left.len() > 0 {
                assert(search_views(left)[0] == outcome_view(github));
                assert(given.skip(i as int)[0] == given[i as int]);
                assert(search_views(rest@) =~= search_views(left).skip(1));
                assert(given.skip(i as int).skip(1) =~= given.skip(i + 1));
            } else {
                assert(search_views(left).len() == 0);
                assert(remote_views(github->Ok_0@) =~= Seq::<SkillView>::empty());
                if i < given.len() {
                    assert(given.skip(i as int).len() > 0);
                }
            }
            assert(outcome_view(github) == search_at(given, i as int));
        }
        let ghost before = out@;
        match fetch_skills_by_category(topics[i].category, limit_per_category, github) {
            Ok(skills) => {
                let name = topics[i].category.to_string();
                out.push((name, skills));
                proof {
                    assert(category_views(out@) =~= category_views(before).push(
                        (fetched_categories()[i as int], remote_views(skills@)),
                    ));
                }
            },
            Err(e) => {
                proof {
                    assert(fetched_all(limit, given, i + 1) == Err::<
                        Seq<(Seq<char>, Seq<SkillView>)>,
                        Seq<char>,
                    >(e@));
                    lemma_fetch_failed(limit, given, i + 1, 4);
                }
                return Err(e);
            },
        }
        i = i + 1;
    }
    Ok(out)
}

/// A fetch that has failed after some categories has failed after all.
proof fn lemma_fetch_failed(
    limit: int,
    searches: Seq<Result<Seq<SkillView>, Seq<char>>>,
    n: int,
    m: int,
)
    requires
        0 <= n <= m,
        fetched_all(limit, searches, n) is Err,
    ensures
        fetched_all(limit, searches, m) == fetched_all(limit, searches, n),
    decreases m - n,
{
    if n < m {
        lemma_fetch_failed(limit, searches, n, m - 1);
    }
}

/// A text with every byte but letters, digits, `-`, `_`, `.` and `~`
/// written as a percent sign and two hexadecimal digits.
pub uninterp spec fn percent_encoded(s: Seq<char>) -> Seq<char>;

/// A text made safe for an address, by `urlencoding::encode`. The result
/// is a function of the text alone and is named [`percent_encoded`].
#[verifier::external_body]
fn percent_encode(s: &str) -> (r: String)
    ensures
        r@ == percent_encoded(s@),
{
    urlencoding::encode(s).into_owned()
}

/// The number of repositories asked for in one page: at least one, and a
/// hundred at most.
pub open spec fn page_size(limit: int) -> int {
    if limit < 1 {
        1
    } else if limit > 100 {
        100
    } else {
        limit
    }
}

/// The address of a search of repositories, the most starred first.
pub open spec fn search_url(query: Seq<char>, limit: int) -> Seq<char> {
    "https://api.github.com/search/repositories?q="@ + percent_encoded(query) + "&per_page="@
        + decimal(page_size(limit)) + "&sort=stars&order=desc"@
}

/// The address of a search of repositories.
pub fn github_search_url(query: &str, limit: usize) -> (r: String)
    ensures
        r@ == search_url(query@, limit as int),
{
    let per_page: usize = if limit < 1 {
        1
    } else if limit > 100 {
        100
    } else {
        limit
    };
    let mut url = "https://api.github.com/search/repositories?q=".to_string();
    url.append(percent_encode(query).as_str());
    url.append("&per_page=");
    url.append(decimal_string(per_page as i128).as_str());
    url.append("&sort=stars&order=desc");
    url
}

/// The name of a repository: the part of its full name after the last
/// slash.
pub open spec fn repo_name(full_name: Seq<char>) -> Seq<char> {
    let parts = split_text(full_name, '/');
    if parts.len() > 0 {
        parts.last()
    } else {
        full_name
    }
}

/// Whether a text is not empty, as a predicate.
pub open spec fn non_empty() -> spec_fn(Seq<char>) -> bool {
    |t: Seq<char>| t.len() > 0
}

/// What a repository that a search found says as a skill of a category:
/// its topics that are not empty are its tags.
pub open spec fn repo_view(
    full_name: Seq<char>,
    html_url: Seq<char>,
    description: Option<Seq<char>>,
    topics: Seq<Seq<char>>,
    category: Seq<char>,
) -> SkillView {
    SkillView {
        name: repo_name(full_name),
        description: match description {
            Some(d) => d,
            None => "No description"@,
        },
        github_url: html_url,
        category,
        tags: topics.filter(non_empty()),
    }
}

/// The skill that a repository found by a search stands for.
pub fn fetch_github_skills(
    full_name: &str,
    html_url: String,
    description: Option<String>,
    topics: &Vec<String>,
    category: &str,
) -> (r: RemoteDiscoveredSkill)
    ensures
        r@ == repo_view(
            full_name@,
            html_url@,
            match description {
                Some(d) => Some(d@),
                None => None,
            },
            texts(topics@),
            category@,
        ),
{
    let parts = split_on(full_name, '/');
    let name = if parts.len() > 0 {
        assert(parts@.map_values(|part: String| part@).last() == parts@[parts@.len() - 1]@);
        parts[parts.len() - 1].clone()
    } else {
        full_name.to_string()
    };
    let ghost names = texts(topics@);
    let mut tags: Vec<String> = Vec::new();
    let mut i: usize = 0;
    proof {
        reveal(Seq::filter);
        assert(texts(tags@) =~= names.take(0).filter(non_empty()));
    }
    while i < topics.len()
        invariant
            i <= topics.len(),
            names == texts(topics@),
            texts(tags@) == names.take(i as int).filter(non_empty()),
        decreases topics.len() - i,
    {
        proof {
            names.lemma_take_succ_push(i as int);
            names.take(i as int).lemma_filter_push(names[i as int], non_empty());
            assert(names[i as int] == topics@[i as int]@);
        }
        if topics[i].as_str().unicode_len() > 0 {
            proof {
                crate::distinct::lemma_texts_push(tags@, topics@[i as int]);
            }
            tags.push(topics[i].clone());
        }
        i = i + 1;
    }
    proof {
        names.lemma_take_len();
    }
    RemoteDiscoveredSkill {
        name,
        description: match description {
            Some(d) => d,
            None => "No description".to_string(),
        },
        github_url: html_url,
        category: category.to_string(),
        tags,
    }
}

} // verus!
