//! What an agent is told about the skills and sub-agents it may use: the
//! skill selection (with its `*` wildcard) and the lines of the
//! `available_sub_agents` prompt value.
use vstd::prelude::*;
use crate::text::{cat, str_eq, owned, spec_starts_with, str_views};
use crate::agent_types::AgentError;
use crate::definition::RuntimeMode;

verus! {

/// A skill an agent may load.
pub struct AvailableSkill {
    pub id: String,
    pub name: String,
    pub description: Option<String>,
}

pub open spec fn is_wildcard_skill(s: AvailableSkill) -> bool {
    s.id@ == "*"@ || s.name@ == "*"@
}

/// Skills surfaced through the connections partial instead.
pub open spec fn is_connection_skill(s: AvailableSkill) -> bool {
    spec_starts_with(s.name@, "connection:"@)
}

pub open spec fn system_prefix() -> Seq<char> {
    "_system/"@
}

/// A built-in agent's name without its `_system/` prefix.
pub open spec fn short_name(n: Seq<char>) -> Seq<char> {
    if spec_starts_with(n, system_prefix()) {
        n.skip(system_prefix().len() as int)
    } else {
        n
    }
}

pub open spec fn builtin_line(name: Seq<char>, desc: Seq<char>) -> Seq<char> {
    "- **"@ + short_name(name) + "** — "@ + desc + " *(always available)*"@
}

pub open spec fn agent_line(name: Seq<char>, desc: Seq<char>) -> Seq<char> {
    "- **"@ + name + "** — "@ + desc
}

/// Lines of the always-available built-ins that exist, in order.
pub open spec fn builtin_lines(b: Seq<(String, Option<String>)>) -> Seq<Seq<char>>
    decreases b.len(),
{
    if b.len() == 0 {
        Seq::empty()
    } else {
        let rest = builtin_lines(b.drop_last());
        match b.last().1 {
            Some(d) => rest.push(builtin_line(b.last().0@, d@)),
            None => rest,
        }
    }
}

/// Listing state: the lines so far and the names already listed.
pub type Listing = (Seq<Seq<char>>, Set<Seq<char>>);

/// A `*` entry: every workspace agent but the agent itself and those
/// already listed, in workspace order.
pub open spec fn expand_all(all: Seq<(String, String)>, self_name: Seq<char>, st: Listing) -> Listing
    decreases all.len(),
{
    if all.len() == 0 {
        st
    } else {
        let prev = expand_all(all.drop_last(), self_name, st);
        let (n, d) = (all.last().0@, all.last().1@);
        if n == self_name || prev.1.contains(n) {
            prev
        } else {
            (prev.0.push(agent_line(n, d)), prev.1.insert(n))
        }
    }
}

/// The declared sub-agents, in order: `*` expands to the workspace's agents;
/// a name already listed is skipped; any other is listed with its
/// description, or `Sub-agent` when it is unknown.
pub open spec fn declared_listing(
    declared: Seq<String>,
    descs: Seq<Option<String>>,
    all: Seq<(String, String)>,
    self_name: Seq<char>,
    st: Listing,
) -> Listing
    decreases declared.len(),
{
    if declared.len() == 0 {
        st
    } else {
        let prev = declared_listing(declared.drop_last(), descs, all, self_name, st);
        let n = declared.last()@;
        if n == "*"@ {
            expand_all(all, self_name, prev)
        } else if prev.1.contains(n) {
            prev
        } else {
            let d = match descs[declared.len() - 1] {
                Some(x) => x@,
                None => "Sub-agent"@,
            };
            (prev.0.push(agent_line(n, d)), prev.1.insert(n))
        }
    }
}

/// The full list of sub-agent lines.
pub open spec fn spec_sub_agent_lines(
    builtins: Seq<(String, Option<String>)>,
    declared: Seq<String>,
    descs: Seq<Option<String>>,
    all: Seq<(String, String)>,
    self_name: Seq<char>,
) -> Seq<Seq<char>> {
    let names = builtins.map_values(|b: (String, Option<String>)| b.0@).to_set();
    declared_listing(declared, descs, all, self_name, (builtin_lines(builtins), names)).0
}

/// Whether the declared skills include the `*` wildcard (by id or name).
pub fn skills_wildcard(skills: &[AvailableSkill]) -> (res: bool)
    ensures
        res == exists|k: int| 0 <= k < skills@.len() && is_wildcard_skill(#[trigger] skills@[k]),
{
    let star = owned("*");
    let mut i: usize = 0;
    while i < skills.len()
        invariant
            i <= skills.len(),
            star@ == "*"@,
            forall|k: int| 0 <= k < i ==> !is_wildcard_skill(#[trigger] skills@[k]),
        decreases skills.len() - i,
    {
        if str_eq(skills[i].id.as_str(), star.as_str()) || str_eq(skills[i].name.as_str(), star.as_str()) {
            return true;
        }
        i = i + 1;
    }
    false
}

/// The skills to list, without `connection:` skills, in order.
pub fn visible_skills(skills: Vec<AvailableSkill>) -> (res: Vec<AvailableSkill>)
    ensures
        res@ == skills@.filter(|s: AvailableSkill| !is_connection_skill(s)),
{
    let ghost all = skills@;
    let ghost f = |s: AvailableSkill| !is_connection_skill(s);
    let prefix = crate::text::str_chars("connection:");
    let mut out: Vec<AvailableSkill> = Vec::new();
    let mut rest = skills;
    let total: usize = rest.len();
    let mut taken: usize = 0;
    proof {
        reveal_with_fuel(Seq::filter, 1);
        assert(all.take(0) =~= Seq::<AvailableSkill>::empty());
        assert(rest@ =~= all.skip(0));
    }
    while rest.len() > 0
        invariant
            taken + rest@.len() == all.len(),
            all.len() == total,
            rest@ == all.skip(taken as int),
            f == (|s: AvailableSkill| !is_connection_skill(s)),
            prefix@ == "connection:"@,
            out@ == all.take(taken as int).filter(f),
        decreases rest@.len(),
    {
        let s = rest.remove(0);
        proof {
            reveal_with_fuel(Seq::filter, 1);
            assert(all.take(taken + 1).drop_last() =~= all.take(taken as int));
            assert(all.take(taken + 1).last() == s);
            assert(rest@ =~= all.skip(taken + 1));
        }
        let name = crate::text::str_chars(s.name.as_str());
        if !crate::text::matches_at(name.as_slice(), prefix.as_slice(), 0) {
            out.push(s);
        }
        taken = taken + 1;
    }
    assert(all.take(taken as int) =~= all);
    out
}

fn short_name_of(n: &String) -> (res: String)
    ensures
        res@ == short_name(n@),
{
    let c = crate::text::str_chars(n.as_str());
    let p = crate::text::str_chars("_system/");
    proof {
        reveal_strlit("_system/");
    }
    if crate::text::matches_at(c.as_slice(), p.as_slice(), 0) {
        let tail = crate::text::slice_to_vec(c.as_slice(), p.len(), c.len());
        proof {
            assert(tail@ =~= n@.skip(8));
        }
        crate::text::string_from_chars(tail.as_slice())
    } else {
        n.clone()
    }
}

fn line_for(name: &str, desc: &str) -> (res: String)
    ensures
        res@ == agent_line(name@, desc@),
{
    let mut s = cat(owned("- **"), name);
    s = cat(s, "** — ");
    s = cat(s, desc);
    proof {
        assert(s@ =~= agent_line(name@, desc@));
    }
    s
}

fn in_listed(listed: &Vec<String>, n: &str) -> (res: bool)
    ensures
        res == str_views(listed@).contains(n@),
{
    let mut i: usize = 0;
    while i < listed.len()
        invariant
            i <= listed.len(),
            forall|k: int| 0 <= k < i ==> #[trigger] listed@[k]@ != n@,
        decreases listed.len() - i,
    {
        if str_eq(listed[i].as_str(), n) {
            assert(str_views(listed@)[i as int] == n@);
            return true;
        }
        i = i + 1;
    }
    proof {
        if str_views(listed@).contains(n@) {
            let k = choose|k: int| 0 <= k < str_views(listed@).len() && str_views(listed@)[k] == n@;
            assert(listed@[k]@ != n@);
        }
    }
    false
}

proof fn lemma_push_listed(listed: Seq<String>, s: String)
    ensures
        str_views(listed.push(s)).to_set() == str_views(listed).to_set().insert(s@),
{
    assert(str_views(listed.push(s)) =~= str_views(listed).push(s@));
    str_views(listed).lemma_push_to_set_commute(s@);
}

/// The `available_sub_agents` lines: the always-available built-ins that
/// exist (each with its description, as `(name, description)`), then the
/// declared sub-agents, where `descriptions[k]` is the description of
/// `declared[k]` when that agent exists, `workspace_agents` lists every
/// workspace agent with its description, and `self_name` is the agent's own
/// name.
pub fn sub_agent_lines(
    builtins: &[(String, Option<String>)],
    declared: &[String],
    descriptions: &[Option<String>],
    workspace_agents: &[(String, String)],
    self_name: &str,
) -> (res: Vec<String>)
    requires
        descriptions@.len() == declared@.len(),
    ensures
        str_views(res@) == spec_sub_agent_lines(builtins@, declared@, descriptions@, workspace_agents@, self_name@),
{
    let mut lines: Vec<String> = Vec::new();
    let mut listed: Vec<String> = Vec::new();
    let ghost names = builtins@.map_values(|b: (String, Option<String>)| b.0@);
    let mut i: usize = 0;
    proof {
        assert(str_views(listed@) =~= names.take(0));
    }
    while i < builtins.len()
        invariant
            i <= builtins.len(),
            names == builtins@.map_values(|b: (String, Option<String>)| b.0@),
            str_views(lines@) == builtin_lines(builtins@.take(i as int)),
            str_views(listed@) == names.take(i as int),
        decreases builtins.len() - i,
    {
        assert(builtins@.take(i + 1).drop_last() =~= builtins@.take(i as int));
        match &builtins[i].1 {
            Some(d) => {
                let short = short_name_of(&builtins[i].0);
                let mut s = cat(owned("- **"), short.as_str());
                s = cat(s, "** — ");
                s = cat(s, d.as_str());
                s = cat(s, " *(always available)*");
                proof {
                    assert(s@ =~= builtin_line(builtins@[i as int].0@, d@));
                }
                let ghost before = lines@;
                lines.push(s);
                assert(str_views(lines@) =~= str_views(before).push(builtin_line(builtins@[i as int].0@, d@)));
            },
            None => {},
        }
        let ghost lb = listed@;
        listed.push(builtins[i].0.clone());
        assert(str_views(listed@) =~= str_views(lb).push(builtins@[i as int].0@));
        assert(names.take(i + 1) =~= names.take(i as int).push(builtins@[i as int].0@));
        i = i + 1;
    }
    assert(builtins@.take(i as int) =~= builtins@);
    assert(names.take(i as int) =~= names);
    let ghost start: Listing = (builtin_lines(builtins@), names.to_set());
    let mut j: usize = 0;
    while j < declared.len()
        invariant
            j <= declared.len(),
            descriptions@.len() == declared@.len(),
            start == (builtin_lines(builtins@), names.to_set()),
            names == builtins@.map_values(|b: (String, Option<String>)| b.0@),
            (str_views(lines@), str_views(listed@).to_set()) == declared_listing(
                declared@.take(j as int),
                descriptions@,
                workspace_agents@,
                self_name@,
                start,
            ),
        decreases declared.len() - j,
    {
        proof {
            assert(declared@.take(j + 1).drop_last() =~= declared@.take(j as int));
            assert(declared@.take(j + 1).last() == declared@[j as int]);
            assert(declared@.take(j + 1).len() - 1 == j);
            lemma_declared_listing_descs(declared@, descriptions@, workspace_agents@, self_name@, start, j + 1);
        }
        let n = &declared[j];
        if str_eq(n.as_str(), "*") {
            let ghost st0: Listing = (str_views(lines@), str_views(listed@).to_set());
            let mut k: usize = 0;
            while k < workspace_agents.len()
                invariant
                    k <= workspace_agents.len(),
                    (str_views(lines@), str_views(listed@).to_set()) == expand_all(
                        workspace_agents@.take(k as int),
                        self_name@,
                        st0,
                    ),
                decreases workspace_agents.len() - k,
            {
                assert(workspace_agents@.take(k + 1).drop_last() =~= workspace_agents@.take(k as int));
                let an = &workspace_agents[k].0;
                let ad = &workspace_agents[k].1;
                let skip = str_eq(an.as_str(), self_name) || in_listed(&listed, an.as_str());
                if !skip {
                    let line = line_for(an.as_str(), ad.as_str());
                    let ghost lb = lines@;
                    let ghost sb = listed@;
                    lines.push(line);
                    listed.push(an.clone());
                    proof {
                        assert(str_views(lines@) =~= str_views(lb).push(agent_line(an@, ad@)));
                        lemma_push_listed(sb, *an);
                    }
                }
                k = k + 1;
            }
            assert(workspace_agents@.take(k as int) =~= workspace_agents@);
        } else if !in_listed(&listed, n.as_str()) {
            let line = match &descriptions[j] {
                Some(d) => line_for(n.as_str(), d.as_str()),
                None => line_for(n.as_str(), "Sub-agent"),
            };
            let ghost lb = lines@;
            let ghost sb = listed@;
            lines.push(line);
            listed.push(n.clone());
            proof {
                lemma_push_listed(sb, *n);
            }
        }
        j = j + 1;
    }
    assert(declared@.take(j as int) =~= declared@);
    lines
}

/// `declared_listing` reads the description list only at the positions of
/// the declared prefix it is given.
proof fn lemma_declared_listing_descs(
    declared: Seq<String>,
    descs: Seq<Option<String>>,
    all: Seq<(String, String)>,
    self_name: Seq<char>,
    st: Listing,
    j: int,
)
    requires
        0 < j <= declared.len(),
    ensures
        declared_listing(declared.take(j), descs, all, self_name, st) == {
            let prev = declared_listing(declared.take(j - 1), descs, all, self_name, st);
            let n = declared[j - 1]@;
            if n == "*"@ {
                expand_all(all, self_name, prev)
            } else if prev.1.contains(n) {
                prev
            } else {
                let d = match descs[j - 1] {
                    Some(x) => x@,
                    None => "Sub-agent"@,
                };
                (prev.0.push(agent_line(n, d)), prev.1.insert(n))
            }
        },
{
    assert(declared.take(j).drop_last() =~= declared.take(j - 1));
}

/// A runtime's name as `Debug` shows it.
pub open spec fn runtime_debug(r: RuntimeMode) -> Seq<char> {
    match r {
        RuntimeMode::Cli => "Cli"@,
        RuntimeMode::Cloud => "Cloud"@,
        RuntimeMode::Browser => "Browser"@,
    }
}

/// A list of runtimes as `Debug` shows it: `[Cli, Browser]`.
pub open spec fn runtimes_debug(rs: Seq<RuntimeMode>) -> Seq<char> {
    "["@ + crate::text::spec_join(rs.map_values(|r: RuntimeMode| runtime_debug(r)), ", "@) + "]"@
}

pub open spec fn forced_remote_msg(agent: Seq<char>) -> Seq<char> {
    "Agent '"@ + agent
        + "' was invoked with Executor::Force(Remote), but remote/sandbox execution has been removed. Every agent now runs in-process against the calling client's own runtime."@
}

pub open spec fn runtime_mismatch_msg(agent: Seq<char>, allowed: Seq<RuntimeMode>, parent: RuntimeMode) -> Seq<char> {
    "Agent '"@ + agent + "' requires runtime "@ + runtimes_debug(allowed) + " but the caller's runtime is "@
        + runtime_debug(parent)
        + ". Only a client that natively provides one of the required runtimes (the CLI for Cli, a browser tab for Browser) can run this agent — there is no remote execution fallback."@
}

fn runtime_name(r: RuntimeMode) -> (res: &'static str)
    ensures
        res@ == runtime_debug(r),
{
    match r {
        RuntimeMode::Cli => "Cli",
        RuntimeMode::Cloud => "Cloud",
        RuntimeMode::Browser => "Browser",
    }
}

/// Whether an agent may run for a caller: a forced remote executor is
/// refused; otherwise an agent that names runtimes runs only for a caller
/// on one of them. `allowed` is the agent's runtime constraint (empty when
/// it has none).
pub fn decide_dispatch(agent_name: &str, allowed: &[RuntimeMode], parent_runtime: RuntimeMode, force_remote: bool) -> (res:
    Result<(), AgentError>)
    ensures
        force_remote ==> (res matches Err(AgentError::Session(m)) && m@ == forced_remote_msg(agent_name@)),
        !force_remote && (allowed@.len() == 0 || allowed@.contains(parent_runtime)) ==> res is Ok,
        !force_remote && !(allowed@.len() == 0 || allowed@.contains(parent_runtime)) ==> (res matches Err(
            AgentError::Session(m),
        ) && m@ == runtime_mismatch_msg(agent_name@, allowed@, parent_runtime)),
{
    if force_remote {
        let mut m = cat(owned("Agent '"), agent_name);
        m = cat(
            m,
            "' was invoked with Executor::Force(Remote), but remote/sandbox execution has been removed. Every agent now runs in-process against the calling client's own runtime.",
        );
        return Err(AgentError::Session(m));
    }
    if allowed.len() == 0 {
        return Ok(());
    }
    let mut i: usize = 0;
    while i < allowed.len()
        invariant
            i <= allowed.len(),
            !force_remote,
            forall|k: int| 0 <= k < i ==> allowed@[k] != parent_runtime,
        decreases allowed.len() - i,
    {
        if allowed[i] == parent_runtime {
            assert(allowed@[i as int] == parent_runtime);
            return Ok(());
        }
        i = i + 1;
    }
    let mut names: Vec<String> = Vec::new();
    let mut k: usize = 0;
    while k < allowed.len()
        invariant
            k <= allowed.len(),
            str_views(names@) == allowed@.take(k as int).map_values(|r: RuntimeMode| runtime_debug(r)),
        decreases allowed.len() - k,
    {
        let ghost before = names@;
        assert(str_views(before).len() == k);
        let nm = owned(runtime_name(allowed[k]));
        names.push(nm);
        proof {
            let lhs = str_views(names@);
            let rhs = allowed@.take(k + 1).map_values(|r: RuntimeMode| runtime_debug(r));
            assert forall|j: int| 0 <= j < k + 1 implies lhs[j] == rhs[j] by {
                if j < k {
                    assert(str_views(before)[j] == allowed@.take(k as int).map_values(|r: RuntimeMode| runtime_debug(r))[j]);
                    assert(names@[j] == before[j]);
                }
            }
            assert(lhs =~= rhs);
        }
        k = k + 1;
    }
    assert(allowed@.take(k as int) =~= allowed@);
    let list = crate::text::join_strings(names.as_slice(), ", ");
    let mut m = cat(owned("Agent '"), agent_name);
    m = cat(m, "' requires runtime ");
    m = cat(m, "[");
    m = cat(m, list.as_str());
    m = cat(m, "]");
    m = cat(m, " but the caller's runtime is ");
    m = cat(m, runtime_name(parent_runtime));
    m = cat(
        m,
        ". Only a client that natively provides one of the required runtimes (the CLI for Cli, a browser tab for Browser) can run this agent — there is no remote execution fallback.",
    );
    proof {
        assert(m@ =~= runtime_mismatch_msg(agent_name@, allowed@, parent_runtime));
    }
    Err(AgentError::Session(m))
}

/// A wildcard expansion lists each agent at most once: every line it adds
/// names an agent not listed before, so lines and listed names grow alike.
pub proof fn lemma_expand_all_lists_once(all: Seq<(String, String)>, self_name: Seq<char>, st: Listing)
    requires
        st.1.finite(),
    ensures
        expand_all(all, self_name, st).1.finite(),
        st.1.subset_of(expand_all(all, self_name, st).1),
        expand_all(all, self_name, st).0.len() - st.0.len() == expand_all(all, self_name, st).1.len() - st.1.len(),
    decreases all.len(),
{
    if all.len() > 0 {
        lemma_expand_all_lists_once(all.drop_last(), self_name, st);
    }
}

/// The sub-agent listing names each agent at most once: every line it adds
/// names an agent not listed before (neither a built-in nor an earlier
/// entry), so lines and listed names grow alike.
pub proof fn lemma_declared_listing_lists_once(
    declared: Seq<String>,
    descs: Seq<Option<String>>,
    all: Seq<(String, String)>,
    self_name: Seq<char>,
    st: Listing,
)
    requires
        st.1.finite(),
    ensures
        declared_listing(declared, descs, all, self_name, st).1.finite(),
        st.1.subset_of(declared_listing(declared, descs, all, self_name, st).1),
        declared_listing(declared, descs, all, self_name, st).0.len() - st.0.len() == declared_listing(
            declared,
            descs,
            all,
            self_name,
            st,
        ).1.len() - st.1.len(),
    decreases declared.len(),
{
    if declared.len() > 0 {
        lemma_declared_listing_lists_once(declared.drop_last(), descs, all, self_name, st);
        let prev = declared_listing(declared.drop_last(), descs, all, self_name, st);
        if declared.last()@ == "*"@ {
            lemma_expand_all_lists_once(all, self_name, prev);
        }
    }
}

/// Appends each candidate name that is neither present nor appended
/// before it.
pub open spec fn append_missing(present: Seq<Seq<char>>, candidates: Seq<Seq<char>>) -> Seq<Seq<char>>
    decreases candidates.len(),
{
    if candidates.len() == 0 {
        Seq::empty()
    } else {
        let prev = append_missing(present, candidates.drop_last());
        let c = candidates.last();
        if present.contains(c) || prev.contains(c) {
            prev
        } else {
            prev.push(c)
        }
    }
}

/// The built-in tools an agent is given besides its configured ones, in
/// order: the TODO tool when TODOs are enabled, the final-answer tool, the
/// tool-search tool when some tools are deferred, and `invoke_agent` unless
/// the definition lists its built-ins explicitly.
pub open spec fn builtin_candidates(
    todos: Option<Seq<char>>,
    final_name: Seq<char>,
    search: Option<Seq<char>>,
    explicit_builtin: bool,
) -> Seq<Seq<char>> {
    let a: Seq<Seq<char>> = match todos {
        Some(t) => seq![t],
        None => Seq::empty(),
    };
    let b: Seq<Seq<char>> = match search {
        Some(s) => seq![s],
        None => Seq::empty(),
    };
    let c: Seq<Seq<char>> = if explicit_builtin {
        Seq::empty()
    } else {
        seq!["invoke_agent"@]
    };
    a + seq![final_name] + b + c
}

pub open spec fn opt_str(o: Option<&str>) -> Option<Seq<char>> {
    match o {
        Some(s) => Some(s@),
        None => None,
    }
}

/// The names of the built-in tools to add to an agent whose tools are
/// already named `present`: `todos` is the TODO tool's name when TODOs are
/// enabled, `search` the tool-search tool's name when some tools are
/// deferred; a tool already there is not added again.
pub fn builtin_tools_to_add(
    present: &[String],
    todos: Option<&str>,
    final_name: &str,
    search: Option<&str>,
    explicit_builtin: bool,
) -> (res: Vec<String>)
    ensures
        str_views(res@) == append_missing(
            str_views(present@),
            builtin_candidates(opt_str(todos), final_name@, opt_str(search), explicit_builtin),
        ),
{
    let mut cands: Vec<String> = Vec::new();
    match todos {
        Some(t) => cands.push(owned(t)),
        None => {},
    }
    cands.push(owned(final_name));
    match search {
        Some(s) => cands.push(owned(s)),
        None => {},
    }
    if !explicit_builtin {
        cands.push(owned("invoke_agent"));
    }
    proof {
        assert(str_views(cands@) =~= builtin_candidates(opt_str(todos), final_name@, opt_str(search), explicit_builtin));
    }
    let ghost cv = str_views(cands@);
    let ghost pv = str_views(present@);
    let mut out: Vec<String> = Vec::new();
    let mut i: usize = 0;
    while i < cands.len()
        invariant
            i <= cands.len(),
            cv == str_views(cands@),
            pv == str_views(present@),
            str_views(out@) == append_missing(pv, cv.take(i as int)),
        decreases cands.len() - i,
    {
        proof {
            assert(cv.take(i + 1).drop_last() =~= cv.take(i as int));
            assert(cv.take(i + 1).last() == cands@[i as int]@);
        }
        let name = cands[i].as_str();
        if !in_listed_slice(present, name) && !in_listed(&out, name) {
            let ghost before = out@;
            out.push(owned(name));
            assert(str_views(out@) =~= str_views(before).push(name@));
        }
        i = i + 1;
    }
    assert(cv.take(i as int) =~= cv);
    out
}

fn in_listed_slice(listed: &[String], n: &str) -> (res: bool)
    ensures
        res == str_views(listed@).contains(n@),
{
    let mut i: usize = 0;
    while i < listed.len()
        invariant
            i <= listed.len(),
            forall|k: int| 0 <= k < i ==> #[trigger] listed@[k]@ != n@,
        decreases listed.len() - i,
    {
        if str_eq(listed[i].as_str(), n) {
            assert(str_views(listed@)[i as int] == n@);
            return true;
        }
        i = i + 1;
    }
    proof {
        if str_views(listed@).contains(n@) {
            let k = choose|k: int| 0 <= k < str_views(listed@).len() && str_views(listed@)[k] == n@;
            assert(listed@[k]@ != n@);
        }
    }
    false
}

} // verus!
