//! Reading of a curated list of skills: a text in which a heading names a
//! category and an item names a skill, its address and what it does.

use vstd::prelude::*;
use crate::clock::unix_now_millis;
use crate::ident::{url_id, url_id_text};
use crate::pattern::{
    capture, group_text, group_views, regex_capture, text_of, Captured, CapturedView,
};
use crate::skill_store::DiscoveredSkillRecord;
use crate::text::{
    lowercase, occurs_in, split_lines, str_contains, str_starts_with, text_lines, to_lowercase,
    trim, trimmed,
};

verus! {

/// The pattern of an item: a hyphen, the name in square brackets, the
/// address in round brackets, a hyphen, and the description.
pub const SKILL_PATTERN: &'static str = "^-\\s+\\[([^\\]]+)\\]\\(([^)]+)\\)\\s+-\\s+(.+)$";

/// The pattern of a heading: two hashes, a sign, and the name of the
/// category.
pub const CATEGORY_PATTERN: &'static str = "^##\\s+[^\\s]+\\s+(.+)$";

/// The beginning of the addresses that are taken.
pub const GITHUB_PREFIX: &'static str = "https://github.com/";

/// A skill read from the list.
#[derive(Debug)]
pub struct ParsedSkill {
    pub name: String,
    pub description: String,
    pub github_url: String,
    pub category: String,
}

/// What a skill read from the list says.
pub ghost struct ParsedView {
    pub name: Seq<char>,
    pub description: Seq<char>,
    pub github_url: Seq<char>,
    pub category: Seq<char>,
}

impl View for ParsedSkill {
    type V = ParsedView;

    open spec fn view(&self) -> ParsedView {
        ParsedView {
            name: self.name@,
            description: self.description@,
            github_url: self.github_url@,
            category: self.category@,
        }
    }
}

impl Clone for ParsedSkill {
    fn clone(&self) -> (r: Self)
        ensures
            r == *self,
    {
        ParsedSkill {
            name: self.name.clone(),
            description: self.description.clone(),
            github_url: self.github_url.clone(),
            category: self.category.clone(),
        }
    }
}

/// Why the list could not be read.
#[derive(Clone, Copy, Debug, PartialEq, Eq, Structural)]
pub enum ReadmeError {
    /// The pattern of an item is no regular expression.
    SkillPattern,
    /// The pattern of a heading is no regular expression.
    CategoryPattern,
}

/// What reading has come to after some lines: the category of the last
/// heading, and the skills read.
pub ghost struct Reading {
    pub category: Seq<char>,
    pub skills: Seq<ParsedView>,
}

/// What the skills of a list say, in order.
pub open spec fn parsed_views(list: Seq<ParsedSkill>) -> Seq<ParsedView> {
    list.map_values(|s: ParsedSkill| s@)
}

/// The skill that the groups of an item name under a category, unless one
/// of its texts is empty or its address is none of those that are taken.
pub open spec fn item_skill(groups: Seq<Option<Seq<char>>>, category: Seq<char>) -> Option<
    ParsedView,
> {
    if groups.len() < 3 {
        None
    } else {
        let name = trimmed(group_text(groups[0]));
        let url = trimmed(group_text(groups[1]));
        let description = trimmed(group_text(groups[2]));
        if name.len() == 0 || url.len() == 0 || description.len() == 0 {
            None
        } else if !GITHUB_PREFIX@.is_prefix_of(url) {
            None
        } else {
            Some(ParsedView { name, description, github_url: url, category })
        }
    }
}

/// What reading comes to after one more line. A heading sets the
/// category; an item adds its skill under the category set; any other
/// line changes nothing. A pattern that is no regular expression fails
/// the reading.
pub open spec fn read_line(before: Reading, line: Seq<char>) -> Result<Reading, ReadmeError> {
    let text = trimmed(line);
    match regex_capture(CATEGORY_PATTERN@, text) {
        CapturedView::BadPattern => Err(ReadmeError::CategoryPattern),
        CapturedView::Groups(groups) => Ok(
            Reading {
                category: if groups.len() > 0 {
                    trimmed(group_text(groups[0]))
                } else {
                    Seq::empty()
                },
                skills: before.skills,
            },
        ),
        CapturedView::NoMatch => match regex_capture(SKILL_PATTERN@, text) {
            CapturedView::BadPattern => Err(ReadmeError::SkillPattern),
            CapturedView::NoMatch => Ok(before),
            CapturedView::Groups(groups) => match item_skill(groups, before.category) {
                Some(skill) => Ok(
                    Reading { category: before.category, skills: before.skills.push(skill) },
                ),
                None => Ok(before),
            },
        },
    }
}

/// What reading comes to after the lines given, from nothing.
pub open spec fn read_lines(lines: Seq<Seq<char>>) -> Result<Reading, ReadmeError>
    decreases lines.len(),
{
    if lines.len() == 0 {
        Ok(Reading { category: Seq::empty(), skills: Seq::empty() })
    } else {
        match read_lines(lines.drop_last()) {
            Ok(before) => read_line(before, lines.last()),
            Err(e) => Err(e),
        }
    }
}

/// The skills of a curated list, in the order of the list, each under the
/// category of the heading before it.
pub fn parse_awesome_skills_readme(content: &str) -> (r: Result<Vec<ParsedSkill>, ReadmeError>)
    ensures
        match r {
            Ok(skills) => read_lines(text_lines(content@)) matches Ok(reading)
                && parsed_views(skills@) == reading.skills,
            Err(e) => read_lines(text_lines(content@)) == Err::<Reading, ReadmeError>(e),
        },
{
    let lines = split_lines(content);
    let ghost all = text_lines(content@);
    let mut skills: Vec<ParsedSkill> = Vec::new();
    let mut category = String::new();
    let mut i: usize = 0;
    proof {
        assert(all.take(0) =~= Seq::<Seq<char>>::empty());
        assert(parsed_views(skills@) =~= Seq::<ParsedView>::empty());
    }
    while i < lines.len()
        invariant
            i <= lines.len(),
            all == text_lines(content@),
            all == lines@.map_values(|line: String| line@),
            read_lines(all.take(i as int)) == Ok::<Reading, ReadmeError>(
                Reading { category: category@, skills: parsed_views(skills@) },
            ),
        decreases lines.len() - i,
    {
        proof {
            assert(all.take(i + 1).drop_last() =~= all.take(i as int));
            assert(all.take(i + 1).last() == all[i as int]);
            assert(all[i as int] == lines@[i as int]@);
        }
        let ghost before = Reading { category: category@, skills: parsed_views(skills@) };
        let text = trim(lines[i].as_str());
        match capture(CATEGORY_PATTERN, text.as_str()) {
            Captured::BadPattern => {
                proof {
                    lemma_read_failure(all, i + 1);
                }
                return Err(ReadmeError::CategoryPattern);
            },
            Captured::Groups(groups) => {
                category = if groups.len() > 0 {
                    assert(group_views(groups@)[0] == crate::pattern::group_view(groups@[0]));
                    trim(text_of(&groups[0]))
                } else {
                    String::new()
                };
            },
            Captured::NoMatch => {
                match capture(SKILL_PATTERN, text.as_str()) {
                    Captured::BadPattern => {
                        proof {
                            lemma_read_failure(all, i + 1);
                        }
                        return Err(ReadmeError::SkillPattern);
                    },
                    Captured::NoMatch => {},
                    Captured::Groups(groups) => {
                        if groups.len() >= 3 {
                            proof {
                                assert(group_views(groups@)[0] == crate::pattern::group_view(
                                    groups@[0],
                                ));
                                assert(group_views(groups@)[1] == crate::pattern::group_view(
                                    groups@[1],
                                ));
                                assert(group_views(groups@)[2] == crate::pattern::group_view(
                                    groups@[2],
                                ));
                            }
                            let name = trim(text_of(&groups[0]));
                            let url = trim(text_of(&groups[1]));
                            let description = trim(text_of(&groups[2]));
                            if !(name.as_str().unicode_len() == 0 || url.as_str().unicode_len() == 0
                                || description.as_str().unicode_len() == 0) && str_starts_with(
                                url.as_str(),
                                GITHUB_PREFIX,
                            ) {
                                let ghost listed = skills@;
                                let skill = ParsedSkill {
                                    name,
                                    description,
                                    github_url: url,
                                    category: category.clone(),
                                };
                                skills.push(skill);
                                assert(parsed_views(skills@) =~= parsed_views(listed).push(skill@));
                            }
                        }
                    },
                }
            },
        }
        i = i + 1;
    }
    proof {
        all.lemma_take_len();
    }
    Ok(skills)
}

/// A reading that has failed after some lines has failed after all.
proof fn lemma_read_failure(lines: Seq<Seq<char>>, n: int)
    requires
        0 <= n <= lines.len(),
        read_lines(lines.take(n)) is Err,
    ensures
        read_lines(lines) == read_lines(lines.take(n)),
    decreases lines.len() - n,
{
    if n == lines.len() {
        assert(lines.take(n) =~= lines);
    } else {
        assert(lines.take(n + 1).drop_last() =~= lines.take(n));
        lemma_read_failure(lines, n + 1);
    }
}

/// The category of the application that a category of the list belongs
/// to, given its name in lower case: the first of the known categories
/// one of whose words the name holds, and `other` where it holds none.
pub open spec fn normalized(lower: Seq<char>) -> Seq<char> {
    if occurs_in("document"@, lower) {
        "document"@
    } else if occurs_in("development"@, lower) || occurs_in("code"@, lower) {
        "development"@
    } else if occurs_in("data"@, lower) || occurs_in("analysis"@, lower) {
        "data-analysis"@
    } else if occurs_in("scientific"@, lower) || occurs_in("research"@, lower) {
        "research"@
    } else if occurs_in("writing"@, lower) {
        "writing"@
    } else if occurs_in("learning"@, lower) || occurs_in("knowledge"@, lower) {
        "learning"@
    } else if occurs_in("media"@, lower) || occurs_in("content"@, lower) {
        "media"@
    } else if occurs_in("health"@, lower) {
        "health"@
    } else if occurs_in("collaboration"@, lower) || occurs_in("project"@, lower) {
        "collaboration"@
    } else if occurs_in("security"@, lower) || occurs_in("testing"@, lower) {
        "security"@
    } else if occurs_in("utility"@, lower) || occurs_in("automation"@, lower) {
        "utility"@
    } else if occurs_in("collection"@, lower) {
        "collections"@
    } else {
        "other"@
    }
}

/// The category of the application that a category of the list belongs
/// to, without regard to case.
pub fn normalize_category(category: &str) -> (r: String)
    ensures
        r@ == normalized(lowercase(category@)),
{
    let lower = to_lowercase(category);
    let lower = lower.as_str();
    if str_contains(lower, "document") {
        "document".to_string()
    } else if str_contains(lower, "development") || str_contains(lower, "code") {
        "development".to_string()
    } else if str_contains(lower, "data") || str_contains(lower, "analysis") {
        "data-analysis".to_string()
    } else if str_contains(lower, "scientific") || str_contains(lower, "research") {
        "research".to_string()
    } else if str_contains(lower, "writing") {
        "writing".to_string()
    } else if str_contains(lower, "learning") || str_contains(lower, "knowledge") {
        "learning".to_string()
    } else if str_contains(lower, "media") || str_contains(lower, "content") {
        "media".to_string()
    } else if str_contains(lower, "health") {
        "health".to_string()
    } else if str_contains(lower, "collaboration") || str_contains(lower, "project") {
        "collaboration".to_string()
    } else if str_contains(lower, "security") || str_contains(lower, "testing") {
        "security".to_string()
    } else if str_contains(lower, "utility") || str_contains(lower, "automation") {
        "utility".to_string()
    } else if str_contains(lower, "collection") {
        "collections".to_string()
    } else {
        "other".to_string()
    }
}

/// Whether a record is the one of a skill read from `source` at `now`:
/// its id belongs to its address, its category is that of the
/// application, and its tags are the category of the list.
pub open spec fn records_skill(
    record: DiscoveredSkillRecord,
    skill: ParsedView,
    source: Seq<char>,
    now: i64,
) -> bool {
    &&& record.id@ == url_id_text(skill.github_url)
    &&& record.name@ == skill.name
    &&& record.description@ == skill.description
    &&& record.github_url@ == skill.github_url
    &&& record.category@ == normalized(lowercase(skill.category))
    &&& record.source@ == source
    &&& record.tags@ == skill.category
    &&& record.created_at == now
    &&& record.updated_at == now
}

/// Whether the records are those of the skills read from `source` at
/// `now`, in the same order.
pub open spec fn all_recorded(
    records: Seq<DiscoveredSkillRecord>,
    skills: Seq<ParsedSkill>,
    source: Seq<char>,
    now: i64,
) -> bool {
    &&& records.len() == skills.len()
    &&& forall|i: int|
        0 <= i < records.len() ==> #[trigger] records_skill(records[i], skills[i]@, source, now)
}

/// The records of the skills read from `source`, stamped with the time of
/// the system clock in milliseconds, and with zero where the clock reads
/// a time before 1970.
pub fn skills_to_records(skills: Vec<ParsedSkill>, source: &str) -> (r: Vec<DiscoveredSkillRecord>)
    ensures
        exists|now: i64| #[trigger] all_recorded(r@, skills@, source@, now),
{
    let now = match unix_now_millis() {
        Some(t) => t,
        None => 0,
    };
    let r = skills_to_records_at(skills, source, now);
    assert(all_recorded(r@, skills@, source@, now));
    r
}

/// The records of the skills read from `source` at the time `now`.
pub fn skills_to_records_at(skills: Vec<ParsedSkill>, source: &str, now: i64) -> (r: Vec<
    DiscoveredSkillRecord,
>)
    ensures
        all_recorded(r@, skills@, source@, now),
{
    let mut out: Vec<DiscoveredSkillRecord> = Vec::new();
    let mut i: usize = 0;
    while i < skills.len()
        invariant
            i <= skills.len(),
            out@.len() == i,
            forall|k: int|
                0 <= k < i ==> #[trigger] records_skill(out@[k], skills@[k]@, source@, now),
        decreases skills.len() - i,
    {
        let skill = &skills[i];
        out.push(
            DiscoveredSkillRecord {
                id: url_id(skill.github_url.as_str()),
                name: skill.name.clone(),
                description: skill.description.clone(),
                github_url: skill.github_url.clone(),
                category: normalize_category(skill.category.as_str()),
                source: source.to_string(),
                tags: skill.category.clone(),
                created_at: now,
                updated_at: now,
            },
        );
        i = i + 1;
    }
    out
}

} // verus!
