//! Declared connections of an agent: matching each requirement against the
//! workspace's connections, checking OAuth scopes, and writing the lines the
//! `available_connections` and `available_providers` prompt values show.
//! Listing the workspace's connections and resolving credentials are outside
//! work; the decisions between them are made here.
use vstd::prelude::*;
use crate::text::{cat, opt_chars, str_eq, owned, spec_join, str_views, join_strings};
use crate::agent_types::AgentError;

verus! {

/// How a connection authenticates, as the matching rules read it.
pub enum ConnectionAuth {
    Oauth { provider: String, scopes: Vec<String> },
    Custom,
    DistriNative,
    NoAuth,
}

/// A workspace connection. `id` is the connection id's display text.
pub struct ConnectionInfo {
    pub id: String,
    pub name: String,
    /// Whether its status is `Connected`.
    pub connected: bool,
    pub auth: ConnectionAuth,
}

/// A connection an agent declares. `connection_id` is an id's display text.
pub struct ConnectionRequirement {
    pub provider: Option<String>,
    pub connection_id: Option<String>,
    pub scopes: Vec<String>,
    pub required: bool,
}

/// What to do after checking one requirement.
pub enum RequirementStep {
    /// Nothing more: the requirement was listed or reported missing.
    Done,
    /// Resolve credentials for the connection at this index.
    Resolve(usize),
    /// The connection at `index` lacks these requested scopes.
    ScopesMissing { index: usize, scopes: Vec<String> },
}

/// The prompt lines gathered so far.
pub struct ConnectionReport {
    pub connected_lines: Vec<String>,
    pub missing_lines: Vec<String>,
}

pub open spec fn is_wildcard(req: ConnectionRequirement) -> bool {
    opt_chars(req.provider) == Some("*"@)
}

/// Whether a connection serves a provider name: an OAuth connection by its
/// provider, a DistriNative one for `distri`, any other by its name.
pub open spec fn provider_matches(c: ConnectionInfo, p: Seq<char>) -> bool {
    match c.auth {
        ConnectionAuth::Oauth { provider, .. } => provider@ == p,
        ConnectionAuth::Custom => c.name@ == p,
        ConnectionAuth::DistriNative => p == "distri"@,
        ConnectionAuth::NoAuth => c.name@ == p,
    }
}

/// Whether connection `c` is the one a requirement names.
pub open spec fn requirement_matches(req: ConnectionRequirement, c: ConnectionInfo) -> bool {
    match req.connection_id {
        Some(id) => c.id@ == id@,
        None => match req.provider {
            Some(p) => provider_matches(c, p@),
            None => false,
        },
    }
}

pub proof fn lemma_first_match(req: ConnectionRequirement, cs: Seq<ConnectionInfo>, from: int)
    requires
        0 <= from,
    ensures
        first_match(req, cs, from) matches Some(i) ==> from <= i < cs.len() && requirement_matches(req, cs[i]),
    decreases cs.len() - from,
{
    if from < cs.len() && !requirement_matches(req, cs[from]) {
        lemma_first_match(req, cs, from + 1);
    }
}

/// Index of the first connection at or after `from` that a requirement names.
pub open spec fn first_match(req: ConnectionRequirement, cs: Seq<ConnectionInfo>, from: int) -> Option<int>
    decreases cs.len() - from,
{
    if from < 0 || from >= cs.len() {
        None
    } else if requirement_matches(req, cs[from]) {
        Some(from)
    } else {
        first_match(req, cs, from + 1)
    }
}

/// What a requirement is shown as: its provider, else its connection id.
pub open spec fn requirement_label(req: ConnectionRequirement) -> Seq<char> {
    match req.provider {
        Some(p) => p@,
        None => match req.connection_id {
            Some(id) => id@,
            None => Seq::empty(),
        },
    }
}

pub open spec fn oauth_scopes_text(scopes: Seq<String>) -> Seq<char> {
    spec_join(str_views(scopes), ", "@)
}

/// For an OAuth connection, its provider and granted scopes.
pub open spec fn provider_tag(c: ConnectionInfo) -> Seq<char> {
    match c.auth {
        ConnectionAuth::Oauth { provider, scopes } => ", provider: "@ + provider@ + ", scopes: ["@
            + oauth_scopes_text(scopes@) + "]"@,
        _ => Seq::empty(),
    }
}

/// For an OAuth connection, its granted scopes.
pub open spec fn scopes_tag(c: ConnectionInfo) -> Seq<char> {
    match c.auth {
        ConnectionAuth::Oauth { scopes, .. } => ", scopes: ["@ + oauth_scopes_text(scopes@) + "]"@,
        _ => Seq::empty(),
    }
}

/// Whether a wildcard requirement lists a connection: connected, and not
/// the system-seeded DistriNative one.
pub open spec fn listable(c: ConnectionInfo) -> bool {
    c.connected && !(c.auth is DistriNative)
}

pub open spec fn listed_line(c: ConnectionInfo) -> Seq<char> {
    "- **"@ + c.name@ + "** (id: `"@ + c.id@ + "`, status: connected"@ + provider_tag(c) + ")"@
}

pub open spec fn wildcard_lines(cs: Seq<ConnectionInfo>) -> Seq<Seq<char>>
    decreases cs.len(),
{
    if cs.len() == 0 {
        Seq::empty()
    } else if listable(cs.last()) {
        wildcard_lines(cs.drop_last()).push(listed_line(cs.last()))
    } else {
        wildcard_lines(cs.drop_last())
    }
}

pub open spec fn not_connected_line(req: ConnectionRequirement) -> Seq<char> {
    "- **"@ + requirement_label(req) + "** — not connected yet in this workspace"@
}

pub open spec fn resolved_line(c: ConnectionInfo, provider: Seq<char>) -> Seq<char> {
    "- **"@ + c.name@ + "** (id: `"@ + c.id@ + "`, provider: "@ + provider + scopes_tag(c) + ")"@
}

pub open spec fn resolve_error_line(c: ConnectionInfo, error: Seq<char>) -> Seq<char> {
    "- **"@ + c.name@ + "** — error resolving: "@ + error
}

pub open spec fn ready_line(provider: Seq<char>) -> Seq<char> {
    "- **"@ + provider + "** — ready to connect via OAuth"@
}

/// The requested scopes that were not granted, in request order.
pub open spec fn spec_missing_scopes(requested: Seq<Seq<char>>, granted: Seq<Seq<char>>) -> Seq<Seq<char>> {
    requested.filter(|s: Seq<char>| !granted.contains(s))
}

fn string_eq(a: &String, b: &String) -> (res: bool)
    ensures
        res == (a@ == b@),
{
    str_eq(a.as_str(), b.as_str())
}

fn matches_provider(c: &ConnectionInfo, p: &String) -> (res: bool)
    ensures
        res == provider_matches(*c, p@),
{
    match &c.auth {
        ConnectionAuth::Oauth { provider, .. } => string_eq(provider, p),
        ConnectionAuth::Custom => string_eq(&c.name, p),
        ConnectionAuth::DistriNative => str_eq(p.as_str(), "distri"),
        ConnectionAuth::NoAuth => string_eq(&c.name, p),
    }
}

fn scopes_text(scopes: &Vec<String>) -> (res: String)
    ensures
        res@ == oauth_scopes_text(scopes@),
{
    join_strings(scopes.as_slice(), ", ")
}

/// The line a wildcard requirement shows for a connection.
fn listed_line_of(c: &ConnectionInfo) -> (res: String)
    ensures
        res@ == listed_line(*c),
{
    let mut s = cat(owned("- **"), c.name.as_str());
    s = cat(s, "** (id: `");
    s = cat(s, c.id.as_str());
    s = cat(s, "`, status: connected");
    match &c.auth {
        ConnectionAuth::Oauth { provider, scopes } => {
            s = cat(s, ", provider: ");
            s = cat(s, provider.as_str());
            s = cat(s, ", scopes: [");
            let t = scopes_text(scopes);
            s = cat(s, t.as_str());
            s = cat(s, "]");
        },
        _ => {},
    }
    let res = cat(s, ")");
    proof {
        assert(res@ =~= listed_line(*c));
    }
    res
}

/// The lines a wildcard requirement adds: one per listable connection, in
/// workspace order.
pub fn wildcard_connection_lines(conns: &[ConnectionInfo]) -> (res: Vec<String>)
    ensures
        str_views(res@) == wildcard_lines(conns@),
{
    let mut out: Vec<String> = Vec::new();
    let mut i: usize = 0;
    while i < conns.len()
        invariant
            i <= conns.len(),
            str_views(out@) == wildcard_lines(conns@.take(i as int)),
        decreases conns.len() - i,
    {
        assert(conns@.take(i + 1).drop_last() =~= conns@.take(i as int));
        let c = &conns[i];
        let native = match &c.auth {
            ConnectionAuth::DistriNative => true,
            _ => false,
        };
        if c.connected && !native {
            let line = listed_line_of(c);
            let ghost before = out@;
            out.push(line);
            assert(str_views(out@) =~= str_views(before).push(listed_line(conns@[i as int])));
        }
        i = i + 1;
    }
    assert(conns@.take(i as int) =~= conns@);
    out
}

/// The index of the first workspace connection a requirement names (by id
/// when it gives one, else by provider); an error for a requirement that
/// gives neither.
pub fn find_connection(agent_name: &str, req: &ConnectionRequirement, conns: &[ConnectionInfo]) -> (res: Result<
    Option<usize>,
    AgentError,
>)
    ensures
        req.connection_id is None && req.provider is None <==> res is Err,
        res matches Err(AgentError::Validation(m)) ==> m@ == "Agent '"@ + agent_name@
            + "' has a connection requirement with neither provider nor connection_id"@,
        res is Err ==> res matches Err(AgentError::Validation(_)),
        res matches Ok(r) ==> match r {
            Some(i) => first_match(*req, conns@, 0) == Some(i as int),
            None => first_match(*req, conns@, 0) is None,
        },
{
    if req.connection_id.is_none() && req.provider.is_none() {
        let mut m = cat(owned("Agent '"), agent_name);
        m = cat(m, "' has a connection requirement with neither provider nor connection_id");
        return Err(AgentError::Validation(m));
    }
    let mut i: usize = 0;
    while i < conns.len()
        invariant
            i <= conns.len(),
            !(req.connection_id is None && req.provider is None),
            first_match(*req, conns@, 0) == first_match(*req, conns@, i as int),
        decreases conns.len() - i,
    {
        let hit = match &req.connection_id {
            Some(id) => string_eq(&conns[i].id, id),
            None => match &req.provider {
                Some(p) => matches_provider(&conns[i], p),
                None => false,
            },
        };
        if hit {
            return Ok(Some(i));
        }
        i = i + 1;
    }
    Ok(None)
}

/// The requested scopes missing from the granted ones, in request order.
pub fn missing_scopes(requested: &[String], granted: &[String]) -> (res: Vec<String>)
    ensures
        str_views(res@) == spec_missing_scopes(str_views(requested@), str_views(granted@)),
{
    let ghost req = str_views(requested@);
    let ghost gr = str_views(granted@);
    let ghost f = |s: Seq<char>| !gr.contains(s);
    let mut out: Vec<String> = Vec::new();
    let mut i: usize = 0;
    proof {
        reveal_with_fuel(Seq::filter, 1);
        assert(req.take(0) =~= Seq::<Seq<char>>::empty());
    }
    while i < requested.len()
        invariant
            i <= requested.len(),
            req == str_views(requested@),
            gr == str_views(granted@),
            f == (|s: Seq<char>| !gr.contains(s)),
            str_views(out@) == req.take(i as int).filter(f),
        decreases requested.len() - i,
    {
        proof {
            reveal_with_fuel(Seq::filter, 1);
            assert(req.take(i + 1).drop_last() =~= req.take(i as int));
        }
        let mut found = false;
        let mut j: usize = 0;
        while j < granted.len()
            invariant
                j <= granted.len(),
                i < requested.len(),
                gr == str_views(granted@),
                found == (exists|k: int| 0 <= k < j && gr[k] == requested@[i as int]@),
            decreases granted.len() - j,
        {
            assert(gr[j as int] == granted@[j as int]@);
            if string_eq(&granted[j], &requested[i]) {
                found = true;
            }
            j = j + 1;
        }
        proof {
            if found {
                let k = choose|k: int| 0 <= k < j && gr[k] == requested@[i as int]@;
                assert(gr.contains(gr[k]));
            }
            if gr.contains(requested@[i as int]@) {
                let k = choose|k: int| 0 <= k < gr.len() && gr[k] == requested@[i as int]@;
                assert(0 <= k < j && gr[k] == requested@[i as int]@);
            }
            assert(req.take(i + 1).last() == requested@[i as int]@);
        }
        if !found {
            let ghost before = out@;
            out.push(requested[i].clone());
            assert(str_views(out@) =~= str_views(before).push(requested@[i as int]@));
        }
        i = i + 1;
    }
    assert(req.take(i as int) =~= req);
    out
}

impl ConnectionReport {
    pub fn new() -> (res: Self)
        ensures
            res.connected_lines@.len() == 0,
            res.missing_lines@.len() == 0,
    {
        ConnectionReport { connected_lines: Vec::new(), missing_lines: Vec::new() }
    }

    /// Checks one declared requirement against the workspace's connections.
    /// A wildcard lists every listable connection. A requirement that names
    /// no connection is an error when required and a missing line when not.
    /// A matched OAuth connection that lacks requested scopes is reported
    /// with them; any other match goes on to credential resolution.
    pub fn check_requirement(&mut self, agent_name: &str, req: &ConnectionRequirement, conns: &[ConnectionInfo]) -> (res:
        Result<RequirementStep, AgentError>)
        ensures
            is_wildcard(*req) ==> (res matches Ok(RequirementStep::Done) && str_views(final(self).connected_lines@)
                == str_views(old(self).connected_lines@) + wildcard_lines(conns@) && final(self).missing_lines@
                == old(self).missing_lines@),
            !is_wildcard(*req) && req.connection_id is None && req.provider is None ==> res matches Err(
                AgentError::Validation(_),
            ),
            !is_wildcard(*req) && !(req.connection_id is None && req.provider is None) ==> {
                match first_match(*req, conns@, 0) {
                    None => if req.required {
                        res matches Err(AgentError::Validation(m)) && m@ == "Agent '"@ + agent_name@
                            + "' requires connection '"@ + requirement_label(*req)
                            + "' but none is connected in this workspace"@
                    } else {
                        res matches Ok(RequirementStep::Done) && str_views(final(self).missing_lines@) == str_views(
                            old(self).missing_lines@,
                        ).push(not_connected_line(*req))
                    },
                    Some(i) => {
                        let c = conns@[i];
                        let lacking = match c.auth {
                            ConnectionAuth::Oauth { scopes, .. } => if req.scopes@.len() > 0 {
                                spec_missing_scopes(str_views(req.scopes@), str_views(scopes@))
                            } else {
                                Seq::empty()
                            },
                            _ => Seq::empty(),
                        };
                        if lacking.len() > 0 {
                            res matches Ok(RequirementStep::ScopesMissing { index, scopes }) && index == i
                                && str_views(scopes@) == lacking
                        } else {
                            res matches Ok(RequirementStep::Resolve(index)) && index == i
                        }
                    },
                }
            },
            !is_wildcard(*req) ==> final(self).connected_lines@ == old(self).connected_lines@,
            !(res matches Ok(RequirementStep::Done)) ==> final(self).missing_lines@ == old(self).missing_lines@,
    {
        let wildcard = match &req.provider {
            Some(p) => str_eq(p.as_str(), "*"),
            None => false,
        };
        if wildcard {
            let lines = wildcard_connection_lines(conns);
            let ghost before = self.connected_lines@;
            let mut k: usize = 0;
            while k < lines.len()
                invariant
                    k <= lines.len(),
                    str_views(self.connected_lines@) == str_views(before) + str_views(lines@.take(k as int)),
                    self.missing_lines@ == old(self).missing_lines@,
                    before == old(self).connected_lines@,
                decreases lines.len() - k,
            {
                let ghost b = self.connected_lines@;
                self.connected_lines.push(lines[k].clone());
                proof {
                    assert(str_views(lines@.take(k + 1)) =~= str_views(lines@.take(k as int)).push(lines@[k as int]@));
                    assert(str_views(self.connected_lines@) =~= str_views(b).push(lines@[k as int]@));
                }
                k = k + 1;
            }
            assert(lines@.take(k as int) =~= lines@);
            return Ok(RequirementStep::Done);
        }
        let found = find_connection(agent_name, req, conns);
        let matched = match found {
            Err(e) => {
                return Err(e);
            },
            Ok(m) => m,
        };
        match matched {
            None => {
                let label = match &req.provider {
                    Some(p) => p.clone(),
                    None => match &req.connection_id {
                        Some(id) => id.clone(),
                        None => String::new(),
                    },
                };
                assert(label@ == requirement_label(*req));
                if req.required {
                    let mut m = cat(owned("Agent '"), agent_name);
                    m = cat(m, "' requires connection '");
                    m = cat(m, label.as_str());
                    m = cat(m, "' but none is connected in this workspace");
                    return Err(AgentError::Validation(m));
                }
                let mut line = cat(owned("- **"), label.as_str());
                line = cat(line, "** — not connected yet in this workspace");
                let ghost before = self.missing_lines@;
                self.missing_lines.push(line);
                assert(str_views(self.missing_lines@) =~= str_views(before).push(not_connected_line(*req)));
                Ok(RequirementStep::Done)
            },
            Some(i) => {
                proof {
                    lemma_first_match(*req, conns@, 0);
                }
                let c = &conns[i];
                if req.scopes.len() > 0 {
                    match &c.auth {
                        ConnectionAuth::Oauth { scopes, .. } => {
                            let lacking = missing_scopes(req.scopes.as_slice(), scopes.as_slice());
                            if lacking.len() > 0 {
                                return Ok(RequirementStep::ScopesMissing { index: i, scopes: lacking });
                            }
                        },
                        _ => {},
                    }
                }
                Ok(RequirementStep::Resolve(i))
            },
        }
    }

    /// Credentials for `c` were resolved by `provider`: list the connection.
    pub fn record_resolved(&mut self, c: &ConnectionInfo, provider: &str)
        ensures
            str_views(final(self).connected_lines@) == str_views(old(self).connected_lines@).push(
                resolved_line(*c, provider@),
            ),
            final(self).missing_lines@ == old(self).missing_lines@,
    {
        let mut s = cat(owned("- **"), c.name.as_str());
        s = cat(s, "** (id: `");
        s = cat(s, c.id.as_str());
        s = cat(s, "`, provider: ");
        s = cat(s, provider);
        match &c.auth {
            ConnectionAuth::Oauth { scopes, .. } => {
                s = cat(s, ", scopes: [");
                let t = scopes_text(scopes);
                s = cat(s, t.as_str());
                s = cat(s, "]");
            },
            _ => {},
        }
        let line = cat(s, ")");
        proof {
            assert(line@ =~= resolved_line(*c, provider@));
        }
        let ghost before = self.connected_lines@;
        self.connected_lines.push(line);
        assert(str_views(self.connected_lines@) =~= str_views(before).push(resolved_line(*c, provider@)));
    }

    /// Resolving credentials for `c` failed with `error`: an error when the
    /// requirement is required, else a missing line.
    pub fn record_resolution_failure(&mut self, required: bool, c: &ConnectionInfo, error: &str) -> (res: Result<
        (),
        AgentError,
    >)
        ensures
            required ==> (res matches Err(AgentError::Validation(m)) && m@ == "Failed to resolve connection '"@
                + c.name@ + "': "@ + error@),
            required ==> final(self).missing_lines@ == old(self).missing_lines@,
            !required ==> res is Ok && str_views(final(self).missing_lines@) == str_views(
                old(self).missing_lines@,
            ).push(resolve_error_line(*c, error@)),
            final(self).connected_lines@ == old(self).connected_lines@,
    {
        if required {
            let mut m = cat(owned("Failed to resolve connection '"), c.name.as_str());
            m = cat(m, "': ");
            m = cat(m, error);
            return Err(AgentError::Validation(m));
        }
        let mut line = cat(owned("- **"), c.name.as_str());
        line = cat(line, "** — error resolving: ");
        line = cat(line, error);
        let ghost before = self.missing_lines@;
        self.missing_lines.push(line);
        assert(str_views(self.missing_lines@) =~= str_views(before).push(resolve_error_line(*c, error@)));
        Ok(())
    }

    /// For a wildcard declaration: the registry's providers that no
    /// workspace connection is named after and that can be connected, each
    /// with whether it is available, in registry order.
    pub fn add_ready_providers(&mut self, conns: &[ConnectionInfo], providers: &[(String, bool)])
        ensures
            str_views(final(self).missing_lines@) == str_views(old(self).missing_lines@) + ready_lines(
                conns@,
                providers@,
            ),
            final(self).connected_lines@ == old(self).connected_lines@,
    {
        let ghost base = str_views(self.missing_lines@);
        let mut i: usize = 0;
        while i < providers.len()
            invariant
                i <= providers.len(),
                base == str_views(old(self).missing_lines@),
                str_views(self.missing_lines@) == base + ready_lines(conns@, providers@.take(i as int)),
                self.connected_lines@ == old(self).connected_lines@,
            decreases providers.len() - i,
        {
            assert(providers@.take(i + 1).drop_last() =~= providers@.take(i as int));
            let (name, available) = (&providers[i].0, providers[i].1);
            let mut named = false;
            let mut j: usize = 0;
            while j < conns.len()
                invariant
                    j <= conns.len(),
                    named == (exists|k: int| 0 <= k < j && conns@[k].name@ == name@),
                decreases conns.len() - j,
            {
                if string_eq(&conns[j].name, name) {
                    named = true;
                }
                j = j + 1;
            }
            if !named && available {
                let mut line = cat(owned("- **"), name.as_str());
                line = cat(line, "** — ready to connect via OAuth");
                let ghost before = self.missing_lines@;
                self.missing_lines.push(line);
                assert(str_views(self.missing_lines@) =~= str_views(before).push(ready_line(name@)));
            }
            proof {
                assert(named == is_connection_name(conns@, providers@[i as int].0@));
                assert(base + ready_lines(conns@, providers@.take(i + 1)) =~= if !named && available {
                    (base + ready_lines(conns@, providers@.take(i as int))).push(ready_line(name@))
                } else {
                    base + ready_lines(conns@, providers@.take(i as int))
                });
            }
            i = i + 1;
        }
        assert(providers@.take(i as int) =~= providers@);
    }

    /// The prompt values to merge: `available_connections` and
    /// `available_providers`, each the lines joined by newlines, each only
    /// when it has lines.
    pub fn dynamic_values(&self) -> (res: Vec<(String, String)>)
        ensures
            value_views(res@) == report_values(str_views(self.connected_lines@), str_views(self.missing_lines@)),
    {
        let mut out: Vec<(String, String)> = Vec::new();
        if self.connected_lines.len() > 0 {
            out.push((owned("available_connections"), join_strings(self.connected_lines.as_slice(), "\n")));
        }
        if self.missing_lines.len() > 0 {
            out.push((owned("available_providers"), join_strings(self.missing_lines.as_slice(), "\n")));
        }
        proof {
            assert(value_views(out@) =~= report_values(
                str_views(self.connected_lines@),
                str_views(self.missing_lines@),
            ));
        }
        out
    }
}

pub open spec fn is_connection_name(cs: Seq<ConnectionInfo>, name: Seq<char>) -> bool {
    exists|k: int| 0 <= k < cs.len() && cs[k].name@ == name
}

pub open spec fn ready_lines(cs: Seq<ConnectionInfo>, providers: Seq<(String, bool)>) -> Seq<Seq<char>>
    decreases providers.len(),
{
    if providers.len() == 0 {
        Seq::empty()
    } else {
        let p = providers.last();
        let rest = ready_lines(cs, providers.drop_last());
        if !is_connection_name(cs, p.0@) && p.1 {
            rest.push(ready_line(p.0@))
        } else {
            rest
        }
    }
}

pub open spec fn value_views(v: Seq<(String, String)>) -> Seq<(Seq<char>, Seq<char>)> {
    v.map_values(|p: (String, String)| (p.0@, p.1@))
}

pub open spec fn report_values(connected: Seq<Seq<char>>, missing: Seq<Seq<char>>) -> Seq<(Seq<char>, Seq<char>)> {
    let a: Seq<(Seq<char>, Seq<char>)> = if connected.len() > 0 {
        seq![("available_connections"@, spec_join(connected, "\n"@))]
    } else {
        Seq::empty()
    };
    let b: Seq<(Seq<char>, Seq<char>)> = if missing.len() > 0 {
        seq![("available_providers"@, spec_join(missing, "\n"@))]
    } else {
        Seq::empty()
    };
    a + b
}

/// Whether some declared requirement is the `*` wildcard.
pub fn has_wildcard_requirement(reqs: &[ConnectionRequirement]) -> (res: bool)
    ensures
        res == exists|k: int| 0 <= k < reqs@.len() && is_wildcard(#[trigger] reqs@[k]),
{
    let mut i: usize = 0;
    while i < reqs.len()
        invariant
            i <= reqs.len(),
            forall|k: int| 0 <= k < i ==> !is_wildcard(#[trigger] reqs@[k]),
        decreases reqs.len() - i,
    {
        let w = match &reqs[i].provider {
            Some(p) => str_eq(p.as_str(), "*"),
            None => false,
        };
        if w {
            assert(is_wildcard(reqs@[i as int]));
            return true;
        }
        i = i + 1;
    }
    false
}

pub open spec fn unused_label(req: ConnectionRequirement) -> Seq<char> {
    if req.provider is None && req.connection_id is None {
        "<unspecified>"@
    } else {
        requirement_label(req)
    }
}

/// How declared connections are named when a run used none of them.
pub fn declared_connection_labels(reqs: &[ConnectionRequirement]) -> (res: Vec<String>)
    ensures
        str_views(res@) == reqs@.map_values(|r: ConnectionRequirement| unused_label(r)),
{
    let mut out: Vec<String> = Vec::new();
    let mut i: usize = 0;
    while i < reqs.len()
        invariant
            i <= reqs.len(),
            str_views(out@) == reqs@.take(i as int).map_values(|r: ConnectionRequirement| unused_label(r)),
        decreases reqs.len() - i,
    {
        let label = match &reqs[i].provider {
            Some(p) => p.clone(),
            None => match &reqs[i].connection_id {
                Some(id) => id.clone(),
                None => owned("<unspecified>"),
            },
        };
        let ghost before = out@;
        assert(str_views(before).len() == i);
        out.push(label);
        proof {
            let lhs = str_views(out@);
            let rhs = reqs@.take(i + 1).map_values(|r: ConnectionRequirement| unused_label(r));
            assert forall|j: int| 0 <= j < i + 1 implies lhs[j] == rhs[j] by {
                if j < i {
                    assert(str_views(before)[j] == reqs@.take(i as int).map_values(|r: ConnectionRequirement| unused_label(r))[j]);
                    assert(out@[j] == before[j]);
                }
            }
            assert(lhs =~= rhs);
        }
        i = i + 1;
    }
    assert(reqs@.take(i as int) =~= reqs@);
    out
}

/// Which connections serve a provider name: an OAuth connection when its
/// provider is that name, a custom or unauthenticated one when its name is,
/// a DistriNative one for `distri` only.
pub proof fn lemma_provider_rules(c: ConnectionInfo, p: Seq<char>)
    ensures
        c.auth is NoAuth ==> (provider_matches(c, p) <==> c.name@ == p),
        c.auth is Custom ==> (provider_matches(c, p) <==> c.name@ == p),
        c.auth is DistriNative ==> (provider_matches(c, p) <==> p == "distri"@),
        c.auth matches ConnectionAuth::Oauth { provider, .. } ==> (provider_matches(c, p) <==> provider@ == p),
{
}

/// A requirement naming a provider (and no connection id) is served by the
/// first connection that serves that provider; in particular a connection
/// without auth whose name is the provider, when none before it serves it.
pub proof fn lemma_provider_first_served(req: ConnectionRequirement, cs: Seq<ConnectionInfo>, i: int)
    requires
        req.connection_id is None,
        req.provider is Some,
        0 <= i < cs.len(),
        cs[i].auth is NoAuth,
        cs[i].name@ == req.provider->0@,
        forall|j: int| 0 <= j < i ==> !provider_matches(#[trigger] cs[j], req.provider->0@),
    ensures
        first_match(req, cs, 0) == Some(i),
{
    lemma_first_match_upto(req, cs, 0, i);
}

proof fn lemma_first_match_upto(req: ConnectionRequirement, cs: Seq<ConnectionInfo>, from: int, i: int)
    requires
        req.connection_id is None,
        req.provider is Some,
        0 <= from <= i < cs.len(),
        requirement_matches(req, cs[i]) || (cs[i].auth is NoAuth && cs[i].name@ == req.provider->0@),
        forall|j: int| 0 <= j < i ==> !provider_matches(#[trigger] cs[j], req.provider->0@),
    ensures
        first_match(req, cs, from) == Some(i),
    decreases i - from,
{
    if from < i {
        assert(!provider_matches(cs[from], req.provider->0@));
        lemma_first_match_upto(req, cs, from + 1, i);
    }
}

} // verus!
