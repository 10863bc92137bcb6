//! Which skills share their users.

use vstd::prelude::*;
use crate::distinct::{distinct, position, texts};
use crate::event::{scoped, user_of, Scope, SkillEventRow, Window};
use crate::ranking::{is_ranking, rank_descending};
use crate::ratio::{rate_of, Ratio};
use crate::stats::UserRetentionPair;
use crate::tally::{distinct_skills, distinct_users};
use crate::text::{str_lt, text_lt};
use crate::top_skills::{limited, skills_in};

verus! {

/// How many pairs of skills a retention analysis lists at most.
pub const MAX_PAIRS: usize = 20;

/// The users of a skill in the selection, each once, in the order of
/// their first event.
pub open spec fn users_of(events: Seq<SkillEventRow>, scope: Scope, skill: Seq<char>) -> Seq<
    Seq<char>,
> {
    distinct(scoped(events, scope.of_skill(skill)).map_values(user_of()))
}

/// Whether a user is among the given ones, as a predicate.
pub open spec fn among(users: Seq<Seq<char>>) -> spec_fn(Seq<char>) -> bool {
    |u: Seq<char>| users.contains(u)
}

/// The number of users that two skills share in the selection.
pub open spec fn overlap(events: Seq<SkillEventRow>, scope: Scope, a: Seq<char>, b: Seq<char>) -> int {
    users_of(events, scope, a).filter(among(users_of(events, scope, b))).len() as int
}

/// Whether two skills, given by their places among `skills`, make a pair:
/// the first comes before the second in the order of texts, and they
/// share a user.
pub open spec fn is_pair(events: Seq<SkillEventRow>, scope: Scope, skills: Seq<Seq<char>>) -> spec_fn(
    (int, int),
) -> bool {
    |p: (int, int)|
        text_lt(skills[p.0], skills[p.1]) && overlap(events, scope, skills[p.0], skills[p.1]) > 0
}

/// The places of the skill at `i` together with each of `n` skills.
pub open spec fn pairs_from(n: int, i: int) -> Seq<(int, int)> {
    Seq::new(n as nat, |j: int| (i, j))
}

/// For each skill of the selection, the pairs that it is the first of.
pub open spec fn pair_rows(events: Seq<SkillEventRow>, scope: Scope) -> Seq<Seq<(int, int)>> {
    let skills = skills_in(events, scope);
    Seq::new(
        skills.len(),
        |i: int| pairs_from(skills.len() as int, i).filter(is_pair(events, scope, skills)),
    )
}

/// The pairs of skills of the selection, by the places of the two skills
/// in [`skills_in`], ordered by the first place and then by the second.
pub open spec fn skill_pairs(events: Seq<SkillEventRow>, scope: Scope) -> Seq<(int, int)> {
    pair_rows(events, scope).flatten()
}

/// The number of users that each pair shares, in the order of the pairs.
pub open spec fn pair_keys(events: Seq<SkillEventRow>, scope: Scope) -> Seq<i128> {
    let skills = skills_in(events, scope);
    skill_pairs(events, scope).map_values(
        |p: (int, int)| overlap(events, scope, skills[p.0], skills[p.1]) as i128,
    )
}

/// Whether the entry states a pair of skills and its figures: the users
/// that both have, the users that only the first has, and the share of
/// the first skill's users that the second has too.
pub open spec fn describes_pair(
    entry: UserRetentionPair,
    events: Seq<SkillEventRow>,
    scope: Scope,
    a: Seq<char>,
    b: Seq<char>,
) -> bool {
    let both = overlap(events, scope, a, b);
    let of_a = users_of(events, scope, a).len() as int;
    &&& entry.skill_a@ == a
    &&& entry.skill_b@ == b
    &&& entry.users_both == both
    &&& entry.users_a_only == of_a - both
    &&& entry.retention_rate == rate_of(both, of_a)
}

/// Whether `result` lists the pairs of skills of the selection, the pair
/// with the most shared users first and no more than [`MAX_PAIRS`] of
/// them, in the given order of the pairs.
pub open spec fn is_user_retention(
    result: Seq<UserRetentionPair>,
    events: Seq<SkillEventRow>,
    scope: Scope,
    order: Seq<usize>,
) -> bool {
    let skills = skills_in(events, scope);
    let pairs = skill_pairs(events, scope);
    &&& is_ranking(pair_keys(events, scope), order)
    &&& result.len() == limited(pairs.len() as int, MAX_PAIRS as int)
    &&& forall|i: int|
        0 <= i < result.len() ==> describes_pair(
            #[trigger] result[i],
            events,
            scope,
            skills[pairs[order[i] as int].0],
            skills[pairs[order[i] as int].1],
        )
}

/// The number of users of `a` that are among those of `b`.
pub fn count_common(a: &Vec<String>, b: &Vec<String>) -> (n: usize)
    ensures
        n == texts(a@).filter(among(texts(b@))).len(),
        n <= a.len(),
{
    let ghost names = texts(a@);
    let mut n: usize = 0;
    let mut i: usize = 0;
    proof {
        reveal(Seq::filter);
        assert(names.take(0) =~= Seq::<Seq<char>>::empty());
    }
    while i < a.len()
        invariant
            i <= a.len(),
            n <= i,
            names == texts(a@),
            n == names.take(i as int).filter(among(texts(b@))).len(),
        decreases a.len() - i,
    {
        proof {
            names.lemma_take_succ_push(i as int);
            names.take(i as int).lemma_filter_push(names[i as int], among(texts(b@)));
            assert(names[i as int] == a@[i as int]@);
        }
        if position(b, a[i].as_str()).is_some() {
            n = n + 1;
        }
        i = i + 1;
    }
    proof {
        names.lemma_take_len();
    }
    n
}

/// A pair of skills by their places, with the number of users they share.
struct Candidate {
    a: usize,
    b: usize,
    both: usize,
}

/// The pairs of skills that share a user among the events of the window,
/// the pair with the most shared users first; pairs with as many shared
/// users stand in the order of the first event of their first skill, and
/// then of their second. In each pair the first skill is the one that
/// comes first in the order of texts. No more than [`MAX_PAIRS`] pairs
/// are returned.
pub fn user_retention(events: &Vec<SkillEventRow>, w: &Window) -> (r: Vec<UserRetentionPair>)
    requires
        events.len() <= 0x7fff_ffff,
        w.skill is None,
    ensures
        exists|order: Seq<usize>| #[trigger] is_user_retention(r@, events@, w@, order),
{
    let ghost scope = w@;
    let skills = distinct_skills(events, w);
    let ghost names = skills_in(events@, scope);
    assert(texts(skills@) == names);
    let n = skills.len();
    let mut lists: Vec<Vec<String>> = Vec::new();
    let mut k: usize = 0;
    while k < n
        invariant
            k <= n,
            n == skills.len(),
            scope == w@,
            texts(skills@) == names,
            lists@.len() == k,
            forall|i: int|
                0 <= i < k ==> texts((#[trigger] lists@[i])@) == users_of(events@, scope, names[i]),
            forall|i: int| 0 <= i < k ==> (#[trigger] lists@[i])@.len() <= events.len(),
        decreases n - k,
    {
        let wk = w.of_skill(skills[k].as_str());
        proof {
            assert(names[k as int] == skills@[k as int]@);
        }
        lists.push(distinct_users(events, &wk));
        k = k + 1;
    }
    let ghost rows = pair_rows(events@, scope);
    let ghost pick = is_pair(events@, scope, names);
    let mut found: Vec<Candidate> = Vec::new();
    let mut keys: Vec<i128> = Vec::new();
    let mut i: usize = 0;
    assert(rows.take(0).flatten() =~= Seq::<(int, int)>::empty());
    assert(found@.map_values(|c: Candidate| (c.a as int, c.b as int)) =~= rows.take(0).flatten());
    assert(keys@ =~= found@.map_values(|c: Candidate| c.both as i128));
    while i < n
        invariant
            i <= n,
            n == skills.len(),
            n == names.len(),
            n == lists@.len(),
            scope == w@,
            texts(skills@) == names,
            rows == pair_rows(events@, scope),
            pick == is_pair(events@, scope, names),
            names == skills_in(events@, scope),
            forall|i: int|
                0 <= i < n ==> texts((#[trigger] lists@[i])@) == users_of(events@, scope, names[i]),
            forall|i: int| 0 <= i < n ==> (#[trigger] lists@[i])@.len() <= events.len(),
            found@.map_values(|c: Candidate| (c.a as int, c.b as int)) == rows.take(i as int).flatten(),
            keys@ == found@.map_values(|c: Candidate| c.both as i128),
            forall|c: int|
                0 <= c < found@.len() ==> (#[trigger] found@[c]).a < n && found@[c].b < n
                    && found@[c].both == overlap(
                    events@,
                    scope,
                    names[found@[c].a as int],
                    names[found@[c].b as int],
                ),
        decreases n - i,
    {
        let ghost head = rows.take(i as int).flatten();
        let ghost line = pairs_from(n as int, i as int);
        let mut j: usize = 0;
        proof {
            reveal(Seq::filter);
            assert(line.take(0).filter(pick) =~= Seq::<(int, int)>::empty());
            assert(head + line.take(0).filter(pick) =~= head);
        }
        while j < n
            invariant
                i < n,
                j <= n,
                n == skills.len(),
                n == names.len(),
                n == lists@.len(),
                texts(skills@) == names,
                pick == is_pair(events@, scope, names),
                line == pairs_from(n as int, i as int),
                forall|i: int|
                    0 <= i < n ==> texts((#[trigger] lists@[i])@) == users_of(
                        events@,
                        scope,
                        names[i],
                    ),
                forall|i: int| 0 <= i < n ==> (#[trigger] lists@[i])@.len() <= events.len(),
                found@.map_values(|c: Candidate| (c.a as int, c.b as int)) == head + line.take(
                    j as int,
                ).filter(pick),
                keys@ == found@.map_values(|c: Candidate| c.both as i128),
                forall|c: int|
                    0 <= c < found@.len() ==> (#[trigger] found@[c]).a < n && found@[c].b < n
                        && found@[c].both == overlap(
                        events@,
                        scope,
                        names[found@[c].a as int],
                        names[found@[c].b as int],
                    ),
            decreases n - j,
        {
            proof {
                line.lemma_take_succ_push(j as int);
                line.take(j as int).lemma_filter_push(line[j as int], pick);
                assert(line[j as int] == (i as int, j as int));
                assert(names[i as int] == skills@[i as int]@);
                assert(names[j as int] == skills@[j as int]@);
            }
            let ghost before = found@;
            let ghost before_keys = keys@;
            if str_lt(skills[i].as_str(), skills[j].as_str()) {
                let both = count_common(&lists[i], &lists[j]);
                assert(both == overlap(events@, scope, names[i as int], names[j as int]));
                if both > 0 {
                    found.push(Candidate { a: i, b: j, both });
                    keys.push(both as i128);
                    proof {
                        assert(found@.map_values(|c: Candidate| (c.a as int, c.b as int))
                            =~= before.map_values(|c: Candidate| (c.a as int, c.b as int)).push(
                            (i as int, j as int),
                        ));
                        assert(keys@ =~= found@.map_values(|c: Candidate| c.both as i128));
                    }
                }
            }
            j = j + 1;
        }
        proof {
            line.lemma_take_len();
            rows.lemma_take_succ_push(i as int);
            rows.take(i as int).lemma_flatten_push(rows[i as int]);
            assert(rows[i as int] == line.filter(pick));
        }
        i = i + 1;
    }
    proof {
        rows.lemma_take_len();
    }
    let ghost pairs = skill_pairs(events@, scope);
    assert(found@.map_values(|c: Candidate| (c.a as int, c.b as int)) == pairs);
    proof {
        assert(keys@ =~= pair_keys(events@, scope)) by {
            assert forall|c: int| 0 <= c < keys@.len() implies keys@[c] == pair_keys(
                events@,
                scope,
            )[c] by {
                assert(found@.map_values(|c: Candidate| (c.a as int, c.b as int))[c] == (
                    found@[c].a as int,
                    found@[c].b as int,
                ));
                assert(keys@[c] == found@[c].both as i128);
            }
        }
    }
    let order = rank_descending(&keys);
    let take: usize = if found.len() > MAX_PAIRS {
        MAX_PAIRS
    } else {
        found.len()
    };
    let mut out: Vec<UserRetentionPair> = Vec::new();
    let mut t: usize = 0;
    while t < take
        invariant
            t <= take <= found@.len(),
            n == skills.len(),
            n == names.len(),
            n == lists@.len(),
            texts(skills@) == names,
            found@.len() == keys@.len(),
            is_ranking(keys@, order@),
            found@.map_values(|c: Candidate| (c.a as int, c.b as int)) == pairs,
            forall|i: int|
                0 <= i < n ==> texts((#[trigger] lists@[i])@) == users_of(events@, scope, names[i]),
            forall|i: int| 0 <= i < n ==> (#[trigger] lists@[i])@.len() <= events.len(),
            events.len() <= 0x7fff_ffff,
            forall|c: int|
                0 <= c < found@.len() ==> (#[trigger] found@[c]).a < n && found@[c].b < n
                    && found@[c].both == overlap(
                    events@,
                    scope,
                    names[found@[c].a as int],
                    names[found@[c].b as int],
                ),
            out@.len() == t,
            forall|i: int|
                0 <= i < t ==> describes_pair(
                    #[trigger] out@[i],
                    events@,
                    scope,
                    names[pairs[order@[i] as int].0],
                    names[pairs[order@[i] as int].1],
                ),
        decreases take - t,
    {
        let c = &found[order[t]];
        let of_a = lists[c.a].len();
        proof {
            let at = order@[t as int] as int;
            assert(found@.map_values(|c: Candidate| (c.a as int, c.b as int))[at] == (
                found@[at].a as int,
                found@[at].b as int,
            ));
            assert(names[c.a as int] == skills@[c.a as int]@);
            assert(names[c.b as int] == skills@[c.b as int]@);
            assert(texts(lists@[c.a as int]@) == users_of(events@, scope, names[c.a as int]));
            users_of(events@, scope, names[c.a as int]).lemma_filter_len(
                among(users_of(events@, scope, names[c.b as int])),
            );
        }
        out.push(
            UserRetentionPair {
                skill_a: skills[c.a].clone(),
                skill_b: skills[c.b].clone(),
                users_both: c.both as i64,
                users_a_only: of_a as i64 - c.both as i64,
                retention_rate: Ratio::of_counts(c.both as i64, of_a as i64),
            },
        );
        t = t + 1;
    }
    assert(is_user_retention(out@, events@, scope, order@));
    out
}

} // verus!
