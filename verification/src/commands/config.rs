//! Answers of the commands on the tools that skills are synced to.

use vstd::prelude::*;
use crate::distinct::{lemma_texts_push, position, texts};
use crate::json_text::{json_list_text, json_of_strings, json_string_list, json_strings};
use crate::text::str_eq;

verus! {

/// One tool and whether it is installed.
#[derive(Debug)]
pub struct ToolInfoDto {
    pub key: String,
    pub label: String,
    pub installed: bool,
    pub skills_dir: String,
}

/// All tools, those that are installed, and those that were not
/// installed when last looked at.
#[derive(Debug)]
pub struct ToolStatusDto {
    pub tools: Vec<ToolInfoDto>,
    pub installed: Vec<String>,
    pub newly_installed: Vec<String>,
}

/// Whether a key is not among the earlier ones, as a predicate.
pub open spec fn not_among(previous: Seq<Seq<char>>) -> spec_fn(Seq<char>) -> bool {
    |key: Seq<char>| !previous.contains(key)
}

/// The installed tools that were not installed before, in the order of
/// `installed`.
pub fn newly_installed(installed: &Vec<String>, previous: &Vec<String>) -> (r: Vec<String>)
    ensures
        texts(r@) == texts(installed@).filter(not_among(texts(previous@))),
{
    let ghost keys = texts(installed@);
    let ghost earlier = texts(previous@);
    let mut out: Vec<String> = Vec::new();
    let mut i: usize = 0;
    proof {
        reveal(Seq::filter);
        assert(texts(out@) =~= keys.take(0).filter(not_among(earlier)));
    }
    while i < installed.len()
        invariant
            i <= installed.len(),
            keys == texts(installed@),
            earlier == texts(previous@),
            texts(out@) == keys.take(i as int).filter(not_among(earlier)),
        decreases installed.len() - i,
    {
        proof {
            keys.lemma_take_succ_push(i as int);
            keys.take(i as int).lemma_filter_push(keys[i as int], not_among(earlier));
        }
        if position(previous, installed[i].as_str()).is_none() {
            proof {
                crate::distinct::lemma_texts_push(out@, installed@[i as int]);
            }
            out.push(installed[i].clone());
        }
        i = i + 1;
    }
    proof {
        keys.lemma_take_len();
    }
    out
}

/// The texts without a text that repeats the one before it.
pub open spec fn without_repeats(s: Seq<Seq<char>>) -> Seq<Seq<char>>
    decreases s.len(),
{
    if s.len() == 0 {
        s
    } else {
        let d = without_repeats(s.drop_last());
        if d.len() > 0 && d.last() == s.last() {
            d
        } else {
            d.push(s.last())
        }
    }
}

/// Whether a tool is installed, as a predicate.
pub open spec fn is_installed() -> spec_fn(ToolInfoDto) -> bool {
    |t: ToolInfoDto| t.installed
}

/// The keys of the tools that are installed, in their order, without a
/// key that repeats the one before it.
pub open spec fn installed_keys(tools: Seq<ToolInfoDto>) -> Seq<Seq<char>> {
    without_repeats(tools.filter(is_installed()).map_values(|t: ToolInfoDto| t.key@))
}

/// The keys that a setting of installed tools holds: none where there is
/// no setting, or where it is no list of strings.
pub open spec fn previous_keys(setting: Option<Seq<char>>) -> Seq<Seq<char>> {
    match setting {
        Some(text) => match json_strings(text) {
            Some(keys) => keys,
            None => Seq::empty(),
        },
        None => Seq::empty(),
    }
}

/// The keys of the tools that are installed.
pub fn installed_tools(tools: &Vec<ToolInfoDto>) -> (r: Vec<String>)
    ensures
        texts(r@) == installed_keys(tools@),
{
    let ghost keys = tools@.filter(is_installed()).map_values(|t: ToolInfoDto| t.key@);
    let ghost key_of = |t: ToolInfoDto| t.key@;
    let mut out: Vec<String> = Vec::new();
    let mut i: usize = 0;
    proof {
        reveal(Seq::filter);
        assert(tools@.take(0).filter(is_installed()) =~= Seq::<ToolInfoDto>::empty());
        assert(texts(out@) =~= without_repeats(
            tools@.take(0).filter(is_installed()).map_values(key_of),
        ));
    }
    while i < tools.len()
        invariant
            i <= tools.len(),
            key_of == |t: ToolInfoDto| t.key@,
            texts(out@) == without_repeats(
                tools@.take(i as int).filter(is_installed()).map_values(key_of),
            ),
        decreases tools.len() - i,
    {
        let ghost chosen = tools@.take(i as int).filter(is_installed());
        proof {
            tools@.lemma_take_succ_push(i as int);
            tools@.take(i as int).lemma_filter_push(tools@[i as int], is_installed());
        }
        if tools[i].installed {
            proof {
                chosen.lemma_push_map_commute(key_of, tools@[i as int]);
                let next = chosen.push(tools@[i as int]).map_values(key_of);
                assert(next.drop_last() =~= chosen.map_values(key_of));
                assert(next.last() == tools@[i as int].key@);
            }
            let repeats = out.len() > 0 && str_eq(
                out[out.len() - 1].as_str(),
                tools[i].key.as_str(),
            );
            proof {
                if out.len() > 0 {
                    assert(texts(out@).last() == out@[out@.len() - 1]@);
                }
            }
            if !repeats {
                proof {
                    lemma_texts_push(out@, tools@[i as int].key);
                }
                out.push(tools[i].key.clone());
            }
        }
        i = i + 1;
    }
    proof {
        tools@.lemma_take_len();
    }
    out
}

/// The state of the tools, and the setting that remembers which of them
/// are installed: the tools, the keys of those that are installed, and
/// those of them that the setting did not hold before.
pub fn get_tool_status(tools: Vec<ToolInfoDto>, previous: Option<&str>) -> (r: (
    ToolStatusDto,
    String,
))
    ensures
        r.0.tools == tools,
        texts(r.0.installed@) == installed_keys(tools@),
        texts(r.0.newly_installed@) == installed_keys(tools@).filter(
            not_among(
                previous_keys(
                    match previous {
                        Some(p) => Some(p@),
                        None => None,
                    },
                ),
            ),
        ),
        r.1@ == json_list_text(installed_keys(tools@)),
{
    let installed = installed_tools(&tools);
    let earlier: Vec<String> = match previous {
        Some(text) => match json_string_list(text) {
            Some(keys) => keys,
            None => Vec::new(),
        },
        None => Vec::new(),
    };
    proof {
        assert(texts(earlier@) =~= previous_keys(
            match previous {
                Some(p) => Some(p@),
                None => None,
            },
        ));
    }
    let fresh = newly_installed(&installed, &earlier);
    let setting = json_of_strings(&installed);
    (ToolStatusDto { tools, installed, newly_installed: fresh }, setting)
}

} // verus!
