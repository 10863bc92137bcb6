//! How a failure is told to the user, and how a path that the user typed
//! is read.

use vstd::prelude::*;
use crate::clock::unix_now_millis;
use crate::paths::{joined_path, path_join};
use crate::text::{
    lowercase, occurs_in, split_lines, split_once, split_once_text, str_contains, str_eq,
    str_starts_with, text_lines, to_lowercase, trim, trimmed,
};
use crate::distinct::texts;

verus! {

/// Whether a message begins with one of the marks that the user
/// interface acts on.
pub open spec fn is_marked(first: Seq<char>) -> bool {
    "MULTI_SKILLS|"@.is_prefix_of(first) || "TARGET_EXISTS|"@.is_prefix_of(first)
        || "TOOL_NOT_INSTALLED|"@.is_prefix_of(first)
}

/// The lines joined again, with a line feed between two lines.
pub open spec fn joined_lines(lines: Seq<Seq<char>>) -> Seq<char>
    decreases lines.len(),
{
    if lines.len() == 0 {
        Seq::empty()
    } else if lines.len() == 1 {
        lines[0]
    } else {
        joined_lines(lines.drop_last()) + "\n"@ + lines.last()
    }
}

/// The message without the temporary directory that a clone was made
/// into: where its first line begins with `clone ` and names a
/// directory after ` into `, the line ends before that.
pub open spec fn redacted(full: Seq<char>) -> Seq<char> {
    let lines = text_lines(full);
    if lines.len() == 0 || !"clone "@.is_prefix_of(lines[0]) {
        full
    } else {
        match split_once_text(lines[0], " into "@) {
            None => full,
            Some((head, _)) => {
                let short = head + " (已省略临时目录)"@;
                let rest = joined_lines(lines.drop_first());
                if rest.len() == 0 {
                    short
                } else {
                    short + "\n"@ + rest
                }
            },
        }
    }
}

/// Whether a message in lower case tells of a failure to fetch from
/// GitHub.
pub open spec fn is_github_failure(lower: Seq<char>) -> bool {
    occurs_in("github.com"@, lower) && (occurs_in("clone "@, lower) || occurs_in("remote"@, lower)
        || occurs_in("fetch"@, lower))
}

/// The advice that goes with a failure to fetch from GitHub.
pub open spec fn github_hint(lower: Seq<char>) -> Seq<char> {
    if occurs_in("authentication"@, lower) || occurs_in("permission denied"@, lower) || occurs_in(
        "credentials"@,
        lower,
    ) {
        "无法访问该仓库：可能是私有仓库/权限不足/需要鉴权。"@
    } else if occurs_in("not found"@, lower) {
        "仓库不存在或无权限访问（GitHub 返回 not found）。"@
    } else if occurs_in("failed to resolve"@, lower) || occurs_in("could not resolve"@, lower)
        || occurs_in("dns"@, lower) {
        "无法解析 GitHub 域名（DNS）。请检查网络/代理。"@
    } else if occurs_in("timed out"@, lower) || occurs_in("timeout"@, lower) {
        "连接 GitHub 超时。请检查网络/代理。"@
    } else if occurs_in("connection refused"@, lower) || occurs_in("connection reset"@, lower) {
        "连接 GitHub 失败（连接被拒绝/重置）。请检查网络/代理。"@
    } else {
        "无法从 GitHub 拉取仓库。请检查网络/代理，或稍后重试。"@
    }
}

/// What is said of a failure of the secure transport.
pub open spec fn transport_message(root: Seq<char>) -> Seq<char> {
    "无法从 GitHub 拉取仓库：TLS/证书校验失败（macOS SecureTransport）。\n\n建议：\n- 检查网络/代理是否拦截 HTTPS\n- 如在公司网络，可能需要安装公司根证书或使用可信代理\n- 也可在终端确认 `git clone https://github.com/<owner>/<repo>` 是否可用\n\n详细："@
        + root
}

/// What the user is told of a failure, given its message, its message
/// with all its causes, and its first cause.
pub open spec fn told(first: Seq<char>, full: Seq<char>, root: Seq<char>) -> Seq<char> {
    if is_marked(first) {
        first
    } else {
        let shown = redacted(full);
        let lower = lowercase(shown);
        if is_github_failure(lower) {
            if occurs_in("securetransport"@, lower) {
                transport_message(root)
            } else {
                github_hint(lower) + "\n\n详细："@ + root
            }
        } else {
            shown
        }
    }
}

fn join_lines(lines: &Vec<String>, from: usize) -> (r: String)
    requires
        from <= lines.len(),
    ensures
        r@ == joined_lines(texts(lines@).skip(from as int)),
{
    let ghost all = texts(lines@).skip(from as int);
    let mut out = String::new();
    let mut i: usize = from;
    assert(all.take(0) =~= Seq::<Seq<char>>::empty());
    while i < lines.len()
        invariant
            from <= i <= lines.len(),
            all == texts(lines@).skip(from as int),
            out@ == joined_lines(all.take(i - from)),
        decreases lines.len() - i,
    {
        proof {
            assert(all.take(i - from + 1).drop_last() =~= all.take(i - from));
            assert(all.take(i - from + 1).last() == lines@[i as int]@);
            if i > from {
                assert(all.take(i - from + 1)[0] == all[0]);
            }
        }
        let ghost before = out@;
        if i > from {
            out.append("\n");
        }
        out.append(lines[i].as_str());
        proof {
            if i == from {
                assert(before =~= Seq::<char>::empty());
                assert(out@ =~= lines@[i as int]@);
                assert(all.take(1)[0] == lines@[i as int]@);
            }
        }
        i = i + 1;
    }
    proof {
        assert(all.take(lines.len() - from) =~= all);
    }
    out
}

fn redact(full: &str) -> (r: String)
    ensures
        r@ == redacted(full@),
{
    let lines = split_lines(full);
    assert(texts(lines@) == text_lines(full@));
    if lines.len() == 0 {
        return full.to_string();
    }
    assert(texts(lines@)[0] == lines@[0]@);
    if !str_starts_with(lines[0].as_str(), "clone ") {
        return full.to_string();
    }
    match split_once(lines[0].as_str(), " into ") {
        None => full.to_string(),
        Some((head, _)) => {
            let mut short = head;
            short.append(" (已省略临时目录)");
            let rest = join_lines(&lines, 1);
            assert(texts(lines@).skip(1) =~= text_lines(full@).drop_first());
            if rest.as_str().unicode_len() == 0 {
                short
            } else {
                short.append("\n");
                short.append(rest.as_str());
                short
            }
        },
    }
}

/// What the user is told of a failure, given its message, its message
/// with all its causes, and its first cause.
pub fn format_anyhow_error(first: &str, full: &str, root: &str) -> (r: String)
    ensures
        r@ == told(first@, full@, root@),
{
    if str_starts_with(first, "MULTI_SKILLS|") || str_starts_with(first, "TARGET_EXISTS|")
        || str_starts_with(first, "TOOL_NOT_INSTALLED|") {
        return first.to_string();
    }
    let shown = redact(full);
    let lower = to_lowercase(shown.as_str());
    let lower = lower.as_str();
    if str_contains(lower, "github.com") && (str_contains(lower, "clone ") || str_contains(
        lower,
        "remote",
    ) || str_contains(lower, "fetch")) {
        if str_contains(lower, "securetransport") {
            let mut out = "无法从 GitHub 拉取仓库：TLS/证书校验失败（macOS SecureTransport）。\n\n建议：\n- 检查网络/代理是否拦截 HTTPS\n- 如在公司网络，可能需要安装公司根证书或使用可信代理\n- 也可在终端确认 `git clone https://github.com/<owner>/<repo>` 是否可用\n\n详细：".to_string();
            out.append(root);
            return out;
        }
        let hint = if str_contains(lower, "authentication") || str_contains(
            lower,
            "permission denied",
        ) || str_contains(lower, "credentials") {
            "无法访问该仓库：可能是私有仓库/权限不足/需要鉴权。"
        } else if str_contains(lower, "not found") {
            "仓库不存在或无权限访问（GitHub 返回 not found）。"
        } else if str_contains(lower, "failed to resolve") || str_contains(
            lower,
            "could not resolve",
        ) || str_contains(lower, "dns") {
            "无法解析 GitHub 域名（DNS）。请检查网络/代理。"
        } else if str_contains(lower, "timed out") || str_contains(lower, "timeout") {
            "连接 GitHub 超时。请检查网络/代理。"
        } else if str_contains(lower, "connection refused") || str_contains(
            lower,
            "connection reset",
        ) {
            "连接 GitHub 失败（连接被拒绝/重置）。请检查网络/代理。"
        } else {
            "无法从 GitHub 拉取仓库。请检查网络/代理，或稍后重试。"
        };
        let mut out = hint.to_string();
        out.append("\n\n详细：");
        out.append(root);
        return out;
    }
    shown
}

/// Why a path that the user typed could not be read.
#[derive(Clone, Copy, Debug, PartialEq, Eq, Structural)]
pub enum PathError {
    /// Nothing was typed.
    Empty,
    /// The path begins at the home directory, which is not known.
    NoHome,
}

/// The path that the user meant: what was typed without the white space
/// around it, with the home directory in the place of a tilde at its
/// beginning.
pub open spec fn expanded(input: Seq<char>, home: Option<Seq<char>>) -> Result<
    Seq<char>,
    PathError,
> {
    let typed = trimmed(input);
    if typed.len() == 0 {
        Err(PathError::Empty)
    } else if typed == "~"@ {
        match home {
            Some(h) => Ok(h),
            None => Err(PathError::NoHome),
        }
    } else if "~/"@.is_prefix_of(typed) {
        match home {
            Some(h) => Ok(joined_path(h, typed.skip(2))),
            None => Err(PathError::NoHome),
        }
    } else {
        Ok(typed)
    }
}

/// The path that the user meant, given the home directory where it is
/// known.
pub fn expand_home_path(input: &str, home: Option<&str>) -> (r: Result<String, PathError>)
    ensures
        match r {
            Ok(path) => expanded(
                input@,
                match home {
                    Some(h) => Some(h@),
                    None => None,
                },
            ) == Ok::<Seq<char>, PathError>(path@),
            Err(e) => expanded(
                input@,
                match home {
                    Some(h) => Some(h@),
                    None => None,
                },
            ) == Err::<Seq<char>, PathError>(e),
        },
{
    let typed = trim(input);
    let n = typed.as_str().unicode_len();
    if n == 0 {
        return Err(PathError::Empty);
    }
    if str_eq(typed.as_str(), "~") {
        return match home {
            Some(h) => Ok(h.to_string()),
            None => Err(PathError::NoHome),
        };
    }
    if str_starts_with(typed.as_str(), "~/") {
        proof {
            reveal_strlit("~/");
        }
        return match home {
            Some(h) => {
                let rest = typed.as_str().substring_char(2, n);
                assert(rest@ =~= typed@.skip(2));
                Ok(path_join(h, rest))
            },
            None => Err(PathError::NoHome),
        };
    }
    Ok(typed)
}

/// The time of the system clock in milliseconds since 1970, and zero
/// where the clock reads an earlier time.
pub fn now_ms() -> (r: i64)
    ensures
        r >= 0,
{
    match unix_now_millis() {
        Some(t) => t,
        None => 0,
    }
}

} // verus!
