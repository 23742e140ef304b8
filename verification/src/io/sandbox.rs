//! The filesystem policy that is handed to an agent, and whether it can be enforced.

use crate::battery;
use crate::json;
use crate::json::Json;
use crate::paths;
use crate::program;
use crate::text;
use vstd::prelude::*;
use vstd::string::*;

verus! {

// ---------------------------------------------------------------------------
// Enforcement
// ---------------------------------------------------------------------------

/// The programs without which no sandbox is enforced.
pub open spec fn sandbox_binaries() -> Seq<Seq<char>> {
    seq!["bwrap"@, "socat"@]
}

/// Those of the programs that are not among the found ones.
pub open spec fn missing_from(found: Seq<Seq<char>>) -> Seq<Seq<char>> {
    let bwrap = if found.contains("bwrap"@) {
        Seq::<Seq<char>>::empty()
    } else {
        seq!["bwrap"@]
    };
    if found.contains("socat"@) {
        bwrap
    } else {
        bwrap.push("socat"@)
    }
}

/// A sandbox can be enforced where every program it needs is found.
pub open spec fn enforceable(found: Seq<Seq<char>>) -> bool {
    forall|i: int|
        0 <= i < sandbox_binaries().len() ==> found.contains(#[trigger] sandbox_binaries()[i])
}

/// The missing programs by name.
pub open spec fn missing_words(found: Seq<Seq<char>>) -> Seq<char> {
    let m = missing_from(found);
    if m.len() == 2 {
        m[0] + " and "@ + m[1]
    } else {
        m[0]
    }
}

/// The refusal of a sandbox that cannot be enforced.
pub open spec fn refusal(found: Seq<Seq<char>>) -> Seq<char> {
    "the agent sandbox cannot be enforced: "@ + missing_words(found)
        + " not on PATH.\n           "@ + program::title() + " would print a fail-open banner and run unsandboxed, so the graded oracle and every sibling work dir would be readable.\n           Install them (Amazon Linux 2023: `sudo dnf install -y bubblewrap socat`), or pass --allow-unsandboxed to proceed with artifacts stamped as unsandboxed."@
}

/// Whether the sandbox can be enforced, by the programs that were found.
pub fn is_enforceable(found: &[String]) -> (r: bool)
    ensures
        r == enforceable(text::views(found@)),
{
    let ghost all = text::views(found@);
    let bwrap = battery::holds(found, "bwrap");
    let socat = battery::holds(found, "socat");
    proof {
        assert(sandbox_binaries()[0] == "bwrap"@);
        assert(sandbox_binaries()[1] == "socat"@);
        if all.contains("bwrap"@) && all.contains("socat"@) {
            assert forall|i: int| 0 <= i < sandbox_binaries().len() implies all.contains(
                #[trigger] sandbox_binaries()[i],
            ) by {
                assert(i == 0 || i == 1);
            }
        }
    }
    bwrap && socat
}

/// Refuses a policy that cannot be enforced, naming the programs that are missing.
pub fn require_enforceable(found: &[String]) -> (r: Result<(), String>)
    ensures
        r is Ok <==> enforceable(text::views(found@)),
        r matches Err(e) ==> e@ == refusal(text::views(found@)),
{
    if is_enforceable(found) {
        return Ok(());
    }
    let ghost all = text::views(found@);
    let bwrap = battery::holds(found, "bwrap");
    let socat = battery::holds(found, "socat");
    let missing = if !bwrap && !socat {
        text::join3("bwrap", " and ", "socat")
    } else if !bwrap {
        text::copy("bwrap")
    } else {
        text::copy("socat")
    };
    assert(missing@ == missing_words(all)) by {
        if bwrap && socat {
            assert forall|i: int| 0 <= i < sandbox_binaries().len() implies all.contains(
                #[trigger] sandbox_binaries()[i],
            ) by {
                assert(i == 0 || i == 1);
            }
            assert(false);
        }
    }
    let head = text::join3(
        "the agent sandbox cannot be enforced: ",
        missing.as_str(),
        " not on PATH.\n           ",
    );
    Err(
        text::join3(
            head.as_str(),
            program::title_text().as_str(),
            " would print a fail-open banner and run unsandboxed, so the graded oracle and every sibling work dir would be readable.\n           Install them (Amazon Linux 2023: `sudo dnf install -y bubblewrap socat`), or pass --allow-unsandboxed to proceed with artifacts stamped as unsandboxed.",
        ),
    )
}

/// Whether the agent that ran was confined.
#[derive(Debug, Clone, Copy, PartialEq, Eq, Structural)]
pub enum Sandboxed {
    /// The program took the policy and could not run without it.
    Enforced,
    /// The program has no way to take a policy.
    NotSupportedByBackend,
}

impl Default for Sandboxed {
    /// What is not recorded was not enforced.
    fn default() -> (r: Sandboxed)
        ensures
            r == Sandboxed::NotSupportedByBackend,
    {
        Sandboxed::NotSupportedByBackend
    }
}

/// Whether a sandbox that cannot be enforced is fatal.
#[derive(Debug, Copy, Clone, PartialEq, Eq, Structural)]
pub enum Enforcement {
    /// Refuse to start unless the sandbox can be enforced.
    Required,
    /// Warn, stamp the artifacts, and go on.
    AllowUnsandboxed,
}

impl Enforcement {
    /// What the flag `--allow-unsandboxed` asks for.
    pub fn from_allow_unsandboxed_flag(flag: bool) -> (r: Enforcement)
        ensures
            r == (if flag {
                Enforcement::AllowUnsandboxed
            } else {
                Enforcement::Required
            }),
    {
        if flag {
            Enforcement::AllowUnsandboxed
        } else {
            Enforcement::Required
        }
    }
}

/// The warning of a run that is not confined.
pub open spec fn warning() -> Seq<char> {
    "⚠️  --allow-unsandboxed: [\"bwrap\", \"socat\"] missing, so the agent runs with the graded oracle readable. Artifacts are stamped unsandboxed."@
}

/// Whether an agent may be started under the policy: a refusal, or a warning to give, or neither.
pub fn may_start(enforcement: Enforcement, found: &[String]) -> (r: Result<Option<String>, String>)
    ensures
        match enforcement {
            Enforcement::Required => (r is Ok <==> enforceable(text::views(found@))) && (
            r matches Ok(w) ==> w is None) && (r matches Err(e) ==> e@ == refusal(
                text::views(found@),
            )),
            Enforcement::AllowUnsandboxed => r matches Ok(w) && (w is None <==> enforceable(
                text::views(found@),
            )) && (w matches Some(t) ==> t@ == warning()),
        },
{
    match enforcement {
        Enforcement::Required => match require_enforceable(found) {
            Ok(_) => Ok(None),
            Err(e) => Err(e),
        },
        Enforcement::AllowUnsandboxed => if is_enforceable(found) {
            Ok(None)
        } else {
            Ok(
                Some(
                    text::copy(
                        "⚠️  --allow-unsandboxed: [\"bwrap\", \"socat\"] missing, so the agent runs with the graded oracle readable. Artifacts are stamped unsandboxed.",
                    ),
                ),
            )
        },
    }
}

// ---------------------------------------------------------------------------
// The policy
// ---------------------------------------------------------------------------

/// The directories that no agent may read: the repository, the directory that all work trees are made
/// in, and the directory that holds the repository, where it is in one.
pub open spec fn denied(repo_root: Seq<char>, base: Seq<char>) -> Seq<Seq<char>> {
    match paths::parent_in(repo_root) {
        Some(parent) => seq![repo_root, base, parent],
        None => seq![repo_root, base],
    }
}

/// The directories that no agent may read, as they are named: the filesystem may resolve each to
/// another place.
pub fn roots_to_deny(repo_root: &str, base: &str) -> (r: Vec<String>)
    ensures
        text::views(r@) == denied(repo_root@, base@),
{
    let mut v: Vec<String> = Vec::new();
    v.push(text::copy(repo_root));
    v.push(text::copy(base));
    if let Some(parent) = paths::parent(repo_root) {
        v.push(parent);
    }
    assert(text::views(v@) =~= denied(repo_root@, base@));
    v
}

/// Directories, each where the filesystem resolves it to, and as it is named where it cannot be
/// resolved.
pub open spec fn resolved_roots(
    roots: Seq<Seq<char>>,
    resolved: Seq<Option<String>>,
) -> Seq<Seq<char>> {
    Seq::new(
        roots.len(),
        |i: int|
            if i < resolved.len() {
                match resolved[i] {
                    Some(p) => p@,
                    None => roots[i],
                }
            } else {
                roots[i]
            },
    )
}

/// What a policy denies: the directories that no agent may read, resolved.
pub open spec fn deny_list(
    repo_root: Seq<char>,
    base: Seq<char>,
    resolved: Seq<Option<String>>,
) -> Seq<Seq<char>> {
    resolved_roots(denied(repo_root, base), resolved)
}

/// The directories that no agent may read, each as the filesystem resolves it: a name that is a link
/// would not match the path that the agent uses. `resolved` holds, for each of [`roots_to_deny`],
/// where it leads, if anywhere.
pub fn denied_read_roots(repo_root: &str, base: &str, resolved: &[Option<String>]) -> (r: Vec<
    String,
>)
    ensures
        text::views(r@) == deny_list(repo_root@, base@, resolved@),
{
    let roots = roots_to_deny(repo_root, base);
    let ghost all = denied(repo_root@, base@);
    let mut out: Vec<String> = Vec::new();
    let mut i: usize = 0;
    while i < roots.len()
        invariant
            i <= roots.len(),
            all == text::views(roots@),
            all == denied(repo_root@, base@),
            out@.len() == i,
            forall|k: int|
                0 <= k < i ==> (#[trigger] out@[k])@ == deny_list(repo_root@, base@, resolved@)[k],
        decreases roots.len() - i,
    {
        assert(all[i as int] == roots@[i as int]@);
        let place = if i < resolved.len() {
            match &resolved[i] {
                Some(p) => text::copy(p.as_str()),
                None => text::copy(roots[i].as_str()),
            }
        } else {
            text::copy(roots[i].as_str())
        };
        out.push(place);
        i = i + 1;
    }
    assert(text::views(out@) =~= deny_list(repo_root@, base@, resolved@));
    out
}

/// The two roots that a policy is made of, and whether it must be enforced.
#[derive(Debug, Copy, Clone)]
pub struct Policy<'a> {
    pub repo_root: &'a str,
    /// The tree that the agent may read and write, and where the policy is written.
    pub work_root: &'a str,
    pub enforcement: Enforcement,
}

/// Texts as JSON values.
pub open spec fn text_values(s: Seq<Seq<char>>) -> Seq<json::JsonView> {
    s.map_values(|t: Seq<char>| json::JsonView::Text(t))
}

/// The filesystem part of the policy.
pub open spec fn filesystem_view(deny: Seq<Seq<char>>, work_root: Seq<char>) -> json::JsonView {
    json::JsonView::Object(
        Map::<Seq<char>, json::JsonView>::empty().insert(
            "denyRead"@,
            json::JsonView::List(text_values(deny)),
        ).insert("allowRead"@, json::JsonView::List(text_values(seq![work_root]))).insert(
            "allowWrite"@,
            json::JsonView::List(text_values(seq![work_root])),
        ),
    )
}

/// The policy as the agent reads it: on, never left, and refusing to start rather than running
/// without it.
pub open spec fn settings_view(deny: Seq<Seq<char>>, work_root: Seq<char>) -> json::JsonView {
    json::JsonView::Object(
        Map::<Seq<char>, json::JsonView>::empty().insert(
            "sandbox"@,
            json::JsonView::Object(
                Map::<Seq<char>, json::JsonView>::empty().insert(
                    "enabled"@,
                    json::JsonView::Bool(true),
                ).insert("allowUnsandboxedCommands"@, json::JsonView::Bool(false)).insert(
                    "failIfUnavailable"@,
                    json::JsonView::Bool(true),
                ).insert("filesystem"@, filesystem_view(deny, work_root)),
            ),
        ),
    )
}

fn text_list(v: &[String]) -> (r: Json)
    ensures
        r@ == json::JsonView::List(text_values(text::views(v@))),
{
    let mut out: Vec<Json> = Vec::new();
    let mut i: usize = 0;
    while i < v.len()
        invariant
            i <= v.len(),
            out@.len() == i,
            forall|k: int| 0 <= k < i ==> (#[trigger] out@[k])@ == json::JsonView::Text(v@[k]@),
        decreases v.len() - i,
    {
        out.push(json::words(v[i].as_str()));
        i = i + 1;
    }
    proof {
        json::lemma_meanings(out@);
        let l = json::meanings(out@);
        let t = text_values(text::views(v@));
        assert forall|k: int| 0 <= k < l.len() implies l[k] == #[trigger] t[k] by {
            assert(l[k] == out@[k]@);
        }
        assert(l =~= t);
    }
    Json::List(out)
}

/// The policy as the agent reads it: the work tree is granted, and what no agent may read is denied,
/// each directory as the filesystem resolves it.
pub fn settings_json(policy: &Policy, base: &str, resolved: &[Option<String>]) -> (r: Json)
    ensures
        r@ == settings_view(
            deny_list(policy.repo_root@, base@, resolved@),
            policy.work_root@,
        ),
{
    let work_root = policy.work_root;
    let deny = denied_read_roots(policy.repo_root, base, resolved);
    let mut own: Vec<String> = Vec::new();
    own.push(text::copy(work_root));
    assert(text::views(own@) =~= seq![work_root@]);
    let mut fs: Vec<(String, Json)> = Vec::new();
    json::set(&mut fs, "denyRead", text_list(deny.as_slice()));
    json::set(&mut fs, "allowRead", text_list(own.as_slice()));
    json::set(&mut fs, "allowWrite", text_list(own.as_slice()));
    let mut sandbox: Vec<(String, Json)> = Vec::new();
    json::set(&mut sandbox, "enabled", Json::Bool(true));
    json::set(&mut sandbox, "allowUnsandboxedCommands", Json::Bool(false));
    json::set(&mut sandbox, "failIfUnavailable", Json::Bool(true));
    json::set(&mut sandbox, "filesystem", Json::Object(fs));
    let mut all: Vec<(String, Json)> = Vec::new();
    json::set(&mut all, "sandbox", Json::Object(sandbox));
    Json::Object(all)
}

/// The file that the policy is written to: where the agent is started, and so where it looks.
pub open spec fn settings_file_in(work_root: Seq<char>) -> Seq<char> {
    paths::joined(paths::joined(work_root, program::settings_dir()), "settings.json"@)
}

/// What is written for an agent to read: the file and its text, behind a warning where it is not
/// confined; or the refusal to start one. `base` is where all work trees are made, and `resolved`
/// where the denied directories lead.
pub fn write_settings(
    policy: &Policy,
    found: &[String],
    base: &str,
    resolved: &[Option<String>],
) -> (r: Result<(String, String, Option<String>), String>)
    ensures
        r is Err <==> policy.enforcement == Enforcement::Required && !enforceable(
            text::views(found@),
        ),
        r matches Err(e) ==> e@ == refusal(text::views(found@)),
        r matches Ok(w) ==> {
            &&& w.0@ == settings_file_in(policy.work_root@)
            &&& w.1@ == json::compact_form(
                settings_view(
                    deny_list(policy.repo_root@, base@, resolved@),
                    policy.work_root@,
                ),
            )
            &&& w.2 is Some <==> !enforceable(text::views(found@))
            &&& w.2 matches Some(t) ==> t@ == warning()
        },
{
    match may_start(policy.enforcement, found) {
        Err(e) => Err(e),
        Ok(warned) => {
            let file = paths::join3(
                policy.work_root,
                program::settings_dir_name().as_str(),
                "settings.json",
            );
            let settings = settings_json(policy, base, resolved);
            Ok((file, json::compact(&settings), warned))
        },
    }
}

// ---------------------------------------------------------------------------
// Laws
// ---------------------------------------------------------------------------

/// The repository, the directory of all work trees and the directory that holds the repository are
/// denied.
pub proof fn law_the_deny_list_covers_the_repository_and_its_surroundings(
    repo_root: Seq<char>,
    base: Seq<char>,
)
    ensures
        denied(repo_root, base).contains(repo_root),
        denied(repo_root, base).contains(base),
        paths::parent_in(repo_root) matches Some(p) ==> denied(repo_root, base).contains(p),
{
    assert(denied(repo_root, base)[0] == repo_root);
    assert(denied(repo_root, base)[1] == base);
    if let Some(p) = paths::parent_in(repo_root) {
        assert(denied(repo_root, base)[2] == p);
    }
}

/// A policy denies the repository, where the filesystem resolves it to and as it is named otherwise,
/// and so the directory of all work trees, whatever else was resolved.
pub proof fn law_a_policy_denies_the_repository(
    repo_root: Seq<char>,
    base: Seq<char>,
    resolved: Seq<Option<String>>,
)
    ensures
        resolved.len() > 0 && resolved[0] is Some ==> deny_list(
            repo_root,
            base,
            resolved,
        ).contains(resolved[0]->0@),
        resolved.len() == 0 || resolved[0] is None ==> deny_list(
            repo_root,
            base,
            resolved,
        ).contains(repo_root),
        resolved.len() > 1 && resolved[1] is Some ==> deny_list(
            repo_root,
            base,
            resolved,
        ).contains(resolved[1]->0@),
        resolved.len() <= 1 || resolved[1] is None ==> deny_list(
            repo_root,
            base,
            resolved,
        ).contains(base),
{
    let d = deny_list(repo_root, base, resolved);
    assert(d.contains(d[0]));
    assert(d.contains(d[1]));
}

/// What a policy says under a name of its filesystem part.
pub open spec fn granted(settings: json::JsonView, name: Seq<char>) -> Option<json::JsonView> {
    match json::member(settings, "sandbox"@) {
        Some(s) => match json::member(s, "filesystem"@) {
            Some(f) => json::member(f, name),
            None => None,
        },
        None => None,
    }
}

/// The work tree is granted for reading and for writing, and nothing else is; what is denied is the
/// deny list, whatever the work tree.
pub proof fn law_a_policy_grants_the_work_tree_alone(deny: Seq<Seq<char>>, work_root: Seq<char>)
    ensures
        granted(settings_view(deny, work_root), "allowRead"@) == Some(
            json::JsonView::List(text_values(seq![work_root])),
        ),
        granted(settings_view(deny, work_root), "allowWrite"@) == Some(
            json::JsonView::List(text_values(seq![work_root])),
        ),
        granted(settings_view(deny, work_root), "denyRead"@) == Some(
            json::JsonView::List(text_values(deny)),
        ),
{
    reveal_strlit("denyRead");
    reveal_strlit("allowRead");
    reveal_strlit("allowWrite");
    reveal_strlit("enabled");
    reveal_strlit("filesystem");
    assert("denyRead"@.len() == 8);
    assert("allowRead"@.len() == 9);
    assert("allowWrite"@.len() == 10);
}

/// The sandbox can be enforced only where both of its programs are found; what is missing is named, and
/// nothing that is there.
pub proof fn law_a_sandbox_needs_both_of_its_programs(found: Seq<Seq<char>>)
    ensures
        enforceable(found) <==> found.contains("bwrap"@) && found.contains("socat"@),
        enforceable(found) <==> missing_from(found).len() == 0,
        missing_from(found).contains("bwrap"@) <==> !found.contains("bwrap"@),
        missing_from(found).contains("socat"@) <==> !found.contains("socat"@),
        !found.contains("bwrap"@) && !found.contains("socat"@) ==> missing_words(found)
            == "bwrap"@ + " and "@ + "socat"@,
        found.contains("bwrap"@) && !found.contains("socat"@) ==> missing_words(found) == "socat"@,
        !found.contains("bwrap"@) && found.contains("socat"@) ==> missing_words(found) == "bwrap"@,
        text::begins(
            refusal(found),
            "the agent sandbox cannot be enforced: "@ + missing_words(found) + " not on PATH."@,
        ),
{
    reveal_strlit("bwrap");
    reveal_strlit("socat");
    assert("bwrap"@[0] == 'b' && "socat"@[0] == 's');
    let b = sandbox_binaries();
    assert(b[0] == "bwrap"@ && b[1] == "socat"@);
    let m = missing_from(found);
    if !found.contains("bwrap"@) {
        assert(m[0] == "bwrap"@);
    }
    if !found.contains("socat"@) {
        assert(m[m.len() - 1] == "socat"@);
    }
    let cut = " not on PATH.\n           "@;
    reveal_strlit(" not on PATH.\n           ");
    reveal_strlit(" not on PATH.");
    let h = "the agent sandbox cannot be enforced: "@ + missing_words(found);
    let one = " not on PATH."@;
    let r = refusal(found);
    assert(cut.subrange(0, one.len() as int) =~= one);
    let first = h + one;
    assert(r.subrange(0, first.len() as int) =~= first) by {
        assert forall|i: int| 0 <= i < first.len() implies r[i] == first[i] by {
            if i >= h.len() {
                assert(r[i] == cut[i - h.len()]);
                assert(cut.subrange(0, one.len() as int)[i - h.len()] == one[i - h.len()]);
            }
        }
    }
}

/// The sandbox is on, runs no command outside of itself, and fails where it cannot be had.
pub proof fn law_a_policy_is_never_left(deny: Seq<Seq<char>>, work_root: Seq<char>)
    ensures
        ({
            let s = json::member(settings_view(deny, work_root), "sandbox"@);
            &&& s is Some
            &&& json::member(s->0, "enabled"@) == Some(json::JsonView::Bool(true))
            &&& json::member(s->0, "allowUnsandboxedCommands"@) == Some(
                json::JsonView::Bool(false),
            )
            &&& json::member(s->0, "failIfUnavailable"@) == Some(json::JsonView::Bool(true))
        }),
{
    reveal_strlit("enabled");
    reveal_strlit("allowUnsandboxedCommands");
    reveal_strlit("failIfUnavailable");
    reveal_strlit("filesystem");
    assert("enabled"@.len() == 7 && "allowUnsandboxedCommands"@.len() == 24
        && "failIfUnavailable"@.len() == 17 && "filesystem"@.len() == 10);
}

/// Each root is denied as it resolves, and as it is written where it does not; nothing else is denied.
pub proof fn law_nothing_but_the_roots_is_denied(
    repo_root: Seq<char>,
    base: Seq<char>,
    resolved: Seq<Option<String>>,
    i: int,
)
    ensures
        paths::parent_in(repo_root) matches Some(p) ==> denied(repo_root, base) == seq![
            repo_root,
            base,
            p,
        ],
        paths::parent_in(repo_root) is None ==> denied(repo_root, base) == seq![repo_root, base],
        deny_list(repo_root, base, resolved).len() == denied(repo_root, base).len(),
        0 <= i < denied(repo_root, base).len() && i < resolved.len() && resolved[i] is Some
            ==> deny_list(repo_root, base, resolved)[i] == resolved[i]->0@,
        0 <= i < denied(repo_root, base).len() && (i >= resolved.len() || resolved[i] is None)
            ==> deny_list(repo_root, base, resolved)[i] == denied(repo_root, base)[i],
        settings_file_in(repo_root) == paths::joined(
            paths::joined(repo_root, "."@ + program::program()),
            "settings.json"@,
        ),
{
}

/// What is denied is denied to be read, and only the work of the run may be read and written again.
pub proof fn law_only_the_work_is_given_back(deny: Seq<Seq<char>>, work_root: Seq<char>)
    ensures
        ({
            let s = json::member(settings_view(deny, work_root), "sandbox"@);
            let f = json::member(s->0, "filesystem"@);
            let own = seq![json::JsonView::Text(work_root)];
            &&& s is Some && f is Some
            &&& json::member(f->0, "denyRead"@) matches Some(json::JsonView::List(l)) && l.len()
                == deny.len() && forall|i: int|
                0 <= i < deny.len() ==> #[trigger] l[i] == json::JsonView::Text(deny[i])
            &&& json::member(f->0, "allowRead"@) == Some(json::JsonView::List(own))
            &&& json::member(f->0, "allowWrite"@) == Some(json::JsonView::List(own))
        }),
{
    reveal_strlit("enabled");
    reveal_strlit("allowUnsandboxedCommands");
    reveal_strlit("failIfUnavailable");
    reveal_strlit("filesystem");
    reveal_strlit("denyRead");
    reveal_strlit("allowRead");
    reveal_strlit("allowWrite");
    assert("enabled"@.len() == 7 && "allowUnsandboxedCommands"@.len() == 24
        && "failIfUnavailable"@.len() == 17 && "filesystem"@.len() == 10);
    assert("denyRead"@.len() == 8 && "allowRead"@.len() == 9 && "allowWrite"@.len() == 10);
    assert(text_values(seq![work_root]) =~= seq![json::JsonView::Text(work_root)]);
}

} // verus!
