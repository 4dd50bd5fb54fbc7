//! Which project a client works in.

use crate::args;
use crate::args::ParsedArgs;
use crate::text;
use crate::text::{join2, owned, same, skip, starts_with, starts_with_char};
use vstd::prelude::*;

verus! {

// ---------------------------------------------------------------------
// Paths
// ---------------------------------------------------------------------

/// The path that `std::path::Path::parent` gives.
pub uninterp spec fn parent_of(path: Seq<char>) -> Option<Seq<char>>;

/// `std::path::Path::parent`: the path without its final component, which is
/// shorter, and no path where there is no such component. What a component is
/// is left unsaid.
#[verifier::external_body]
fn parent_path(path: &str) -> (r: Option<String>)
    ensures
        text::opt_view(r) == parent_of(path@),
        r matches Some(p) ==> p@.len() < path@.len(),
{
    match std::path::Path::new(path).parent() {
        Some(p) => p.to_str().map(|s| s.to_string()),
        None => None,
    }
}

/// A relative path, seen from the directory `dir`.
pub open spec fn joined(dir: Seq<char>, rel: Seq<char>) -> Seq<char> {
    if dir.len() == 0 || dir.last() == '/' {
        dir + rel
    } else {
        dir + seq!['/'] + rel
    }
}

fn join_path(dir: &str, rel: &str) -> (r: String)
    ensures
        r@ == joined(dir@, rel@),
{
    let n: usize = dir.unicode_len();
    if n == 0 || dir.get_char(n - 1) == '/' {
        join2(dir, rel)
    } else {
        let mut out = owned(dir);
        out.push('/');
        out.append(rel);
        assert(out@ =~= joined(dir@, rel@));
        out
    }
}

// ---------------------------------------------------------------------
// Looking for a project
// ---------------------------------------------------------------------

/// `dirs` are `start` and the directories above it, to the last.
pub open spec fn is_chain(dirs: Seq<Seq<char>>, start: Seq<char>) -> bool {
    &&& dirs.len() > 0
    &&& dirs[0] == start
    &&& forall|i: int|
        0 <= i < dirs.len() ==> #[trigger] parent_of(dirs[i]) == if i + 1 < dirs.len() {
            Some(dirs[i + 1])
        } else {
            None
        }
}

/// The directories in which a project is looked for, from `start` upwards.
pub fn search_dirs(start: &str) -> (r: Vec<String>)
    ensures
        is_chain(text::views(r@), start@),
{
    let mut dirs: Vec<String> = Vec::new();
    let mut dir: String = owned(start);
    loop
        invariant_except_break
            dirs@.len() > 0 ==> dirs@[0]@ == start@,
            dirs@.len() == 0 ==> dir@ == start@,
            forall|i: int|
                0 <= i < dirs@.len() ==> parent_of((#[trigger] dirs@[i])@) == if i + 1
                    < dirs@.len() {
                    Some(dirs@[i + 1]@)
                } else {
                    Some(dir@)
                },
        ensures
            is_chain(text::views(dirs@), start@),
        decreases dir@.len(),
    {
        let above = parent_path(dir.as_str());
        let ghost here = dir@;
        let ghost before = dirs@;
        match above {
            Some(p) => {
                dirs.push(dir);
                dir = p;
                assert forall|i: int| 0 <= i < dirs@.len() implies parent_of(
                    (#[trigger] dirs@[i])@,
                ) == if i + 1 < dirs@.len() {
                    Some(dirs@[i + 1]@)
                } else {
                    Some(dir@)
                } by {
                    if i < before.len() {
                        assert(dirs@[i] == before[i]);
                    }
                }
            },
            None => {
                dirs.push(dir);
                proof {
                    let all = text::views(dirs@);
                    assert forall|i: int| 0 <= i < all.len() implies #[trigger] parent_of(all[i])
                        == if i + 1 < all.len() {
                        Some(all[i + 1])
                    } else {
                        None
                    } by {
                        if i < before.len() {
                            assert(dirs@[i] == before[i]);
                        }
                    }
                }
                break;
            },
        }
    }
    dirs
}

/// The file that makes a directory a project.
pub fn project_file(dir: &str) -> (r: String)
    ensures
        r@ == joined(dir@, "Project.toml"@),
{
    join_path(dir, "Project.toml")
}

/// The first of `dirs` that has a project.
pub fn find_project_toml<'a>(dirs: &'a [String], has_project: &[bool]) -> (r: Option<&'a str>)
    requires
        dirs@.len() == has_project@.len(),
    ensures
        match r {
            Some(d) => exists|i: int|
                0 <= i < dirs@.len() && has_project@[i] && d@ == (#[trigger] dirs@[i])@ && forall|
                    j: int,
                |
                    0 <= j < i ==> !has_project@[j],
            None => forall|i: int| 0 <= i < dirs@.len() ==> !has_project@[i],
        },
{
    let mut i: usize = 0;
    while i < dirs.len()
        invariant
            i <= dirs@.len(),
            dirs@.len() == has_project@.len(),
            forall|j: int| 0 <= j < i ==> !has_project@[j],
        decreases dirs@.len() - i,
    {
        if has_project[i] {
            assert(dirs@[i as int]@ == dirs@[i as int]@);
            return Some(dirs[i].as_str());
        }
        i = i + 1;
    }
    None
}

// ---------------------------------------------------------------------
// Which project
// ---------------------------------------------------------------------

/// `p` asks for the project found from the working directory upwards.
pub open spec fn asks_for_search(p: Seq<char>) -> bool {
    p.len() == 0 || p == "@."@
}

/// The project that the environment names, where it is no search: the home
/// directory stands for a tilde, and a relative path starts at the working
/// directory.
pub open spec fn env_project(p: Seq<char>, home: Seq<char>, cwd: Seq<char>) -> Seq<char> {
    if "~/"@.is_prefix_of(p) && home.len() > 0 {
        home + p.skip(1)
    } else if p.len() > 0 && p[0] == '/' {
        p
    } else {
        joined(cwd, p)
    }
}

/// The project of a client whose `--project` is `switch` and whose
/// environment names `named`; `found` is what a search gives. The switch comes
/// first.
pub open spec fn resolved(
    switch: Option<Seq<char>>,
    named: Option<Seq<char>>,
    home: Seq<char>,
    cwd: Seq<char>,
    found: Option<Seq<char>>,
) -> Option<Seq<char>> {
    match switch {
        Some(p) => if asks_for_search(p) {
            found
        } else {
            Some(p)
        },
        None => match named {
            Some(p) => if asks_for_search(p) {
                found
            } else {
                Some(env_project(p, home, cwd))
            },
            None => None,
        },
    }
}

/// Whether a search decides.
pub open spec fn search_decides(switch: Option<Seq<char>>, named: Option<Seq<char>>) -> bool {
    match switch {
        Some(p) => asks_for_search(p),
        None => named matches Some(p) && asks_for_search(p),
    }
}

fn is_search(p: &str) -> (r: bool)
    ensures
        r == asks_for_search(p@),
{
    p.unicode_len() == 0 || same(p, "@.")
}

/// Whether the directories above the working directory have to be looked at.
pub fn needs_search(parsed: &ParsedArgs, julia_project: Option<&str>) -> (r: bool)
    ensures
        r == search_decides(
            args::last_value(args::switch_views(parsed.switches@), "--project"@),
            text::opt_str(julia_project),
        ),
{
    match parsed.get_switch("--project") {
        Some(p) => is_search(p),
        None => match julia_project {
            Some(p) => is_search(p),
            None => false,
        },
    }
}

/// The project of a client. `found` is the project that a search from the
/// working directory upwards gives.
pub fn resolve(
    parsed: &ParsedArgs,
    julia_project: Option<&str>,
    home_dir: &str,
    cwd: &str,
    found: Option<&str>,
) -> (r: Option<String>)
    ensures
        text::opt_view(r) == resolved(
            args::last_value(args::switch_views(parsed.switches@), "--project"@),
            text::opt_str(julia_project),
            home_dir@,
            cwd@,
            text::opt_str(found),
        ),
{
    let found: Option<String> = match found {
        Some(d) => Some(owned(d)),
        None => None,
    };
    if let Some(project) = parsed.get_switch("--project") {
        if is_search(project) {
            return found;
        }
        return Some(owned(project));
    }
    if let Some(project) = julia_project {
        if is_search(project) {
            return found;
        }
        proof {
            reveal_strlit("~/");
        }
        if starts_with(project, "~/") && home_dir.unicode_len() > 0 {
            return Some(join2(home_dir, skip(project, 1)));
        }
        if !starts_with_char(project, '/') {
            return Some(join_path(cwd, project));
        }
        return Some(owned(project));
    }
    None
}

/// A search matters only where it is asked for.
pub proof fn law_search_only_where_asked(
    switch: Option<Seq<char>>,
    named: Option<Seq<char>>,
    home: Seq<char>,
    cwd: Seq<char>,
    found: Option<Seq<char>>,
    other: Option<Seq<char>>,
)
    requires
        !search_decides(switch, named),
    ensures
        resolved(switch, named, home, cwd, found) == resolved(switch, named, home, cwd, other),
{
}

/// The switch comes before the environment.
pub proof fn law_switch_comes_first(
    p: Seq<char>,
    named: Option<Seq<char>>,
    other: Option<Seq<char>>,
    home: Seq<char>,
    cwd: Seq<char>,
    found: Option<Seq<char>>,
)
    ensures
        resolved(Some(p), named, home, cwd, found) == resolved(Some(p), other, home, cwd, found),
{
}

} // verus!
