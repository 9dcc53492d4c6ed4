//! Prompt validation utilities for agent templates, and the validation
//! report (its table rendered by `comfy_table`).
use vstd::prelude::*;
use crate::definition::StandardDefinition;
use crate::model_log::{decimal, usize_to_decimal};
use comfy_table::{Attribute, Cell, Color, Table};
use crate::skill_tracker::string_views;
use crate::text::{
    chars_eq, chars_lt, contains, lex_lt, matches_at, owned, skip_whitespace, skip_ws, spec_contains,
    str_chars, string_from_chars, join_strings, spec_join, str_views, lemma_lex_lt_irreflexive, lemma_lex_lt_total, lemma_lex_lt_transitive,
    lemma_skip_ws_bounds,
};

verus! {

#[derive(PartialEq, Eq, Structural, Clone, Copy, Debug)]
pub enum Criticality {
    Critical,
    Medium,
    Low,
}

pub open spec fn spec_criticality_name(c: Criticality) -> Seq<char> {
    match c {
        Criticality::Critical => "CRITICAL"@,
        Criticality::Medium => "MEDIUM"@,
        Criticality::Low => "LOW"@,
    }
}

impl Criticality {
    pub fn as_str(&self) -> (res: &'static str)
        ensures
            res@ == spec_criticality_name(*self),
    {
        match self {
            Criticality::Critical => "CRITICAL",
            Criticality::Medium => "MEDIUM",
            Criticality::Low => "LOW",
        }
    }
}

#[derive(Debug)]
pub struct ValidationIssue {
    pub category: String,
    pub missing_items: Vec<String>,
    pub description: String,
    pub criticality: Criticality,
}

/// The content of a validation issue.
pub struct IssueView {
    pub category: Seq<char>,
    pub missing_items: Seq<Seq<char>>,
    pub description: Seq<char>,
    pub criticality: Criticality,
}

impl View for ValidationIssue {
    type V = IssueView;

    open spec fn view(&self) -> IssueView {
        IssueView {
            category: self.category@,
            missing_items: string_views(self.missing_items@),
            description: self.description@,
            criticality: self.criticality,
        }
    }
}

pub open spec fn issue_views(v: Seq<ValidationIssue>) -> Seq<IssueView> {
    v.map_values(|i: ValidationIssue| i@)
}

pub open spec fn partial_description(c: Criticality) -> Seq<char> {
    match c {
        Criticality::Critical => "Essential for agent functionality"@,
        Criticality::Medium => "Important for proper agent behavior"@,
        Criticality::Low => "Recommended for better user experience"@,
    }
}

pub open spec fn variable_description(c: Criticality) -> Seq<char> {
    match c {
        Criticality::Critical => "Required for agent execution"@,
        Criticality::Medium => "Important for agent context"@,
        Criticality::Low => "Optional but recommended"@,
    }
}

/// A single-item issue, present only when `marker` does not occur in `t`.
pub open spec fn issue_if_absent(
    t: Seq<char>,
    marker: Seq<char>,
    category: Seq<char>,
    item: Seq<char>,
    criticality: Criticality,
    description: Seq<char>,
) -> Seq<IssueView> {
    if spec_contains(t, marker) {
        Seq::empty()
    } else {
        seq![IssueView { category, missing_items: seq![item], description, criticality }]
    }
}

pub open spec fn missing_partial(t: Seq<char>, marker: Seq<char>, name: Seq<char>, c: Criticality) -> Seq<IssueView> {
    issue_if_absent(t, marker, "Missing Partial"@, name, c, partial_description(c))
}

pub open spec fn missing_variable(t: Seq<char>, marker: Seq<char>, name: Seq<char>, c: Criticality) -> Seq<IssueView> {
    issue_if_absent(t, marker, "Missing Variable"@, name, c, variable_description(c))
}

pub open spec fn best_practice_issues(t: Seq<char>) -> Seq<IssueView> {
    if spec_contains(t, "{{max_steps}}"@) && !spec_contains(t, "{{remaining_steps}}"@) {
        seq![
            IssueView {
                category: "Best Practice"@,
                missing_items: seq!["remaining_steps"@],
                description: "Consider using remaining_steps alongside max_steps for better step tracking"@,
                criticality: Criticality::Low,
            },
        ]
    } else {
        Seq::empty()
    }
}

/// The issues reported for a custom template, in report order: missing
/// partials, then missing variables, then the best-practice hint.
pub open spec fn custom_prompt_issues(t: Seq<char>) -> Seq<IssueView> {
    missing_partial(t, "{{> core_instructions}}"@, "core_instructions"@, Criticality::Medium)
        + missing_partial(t, "{{> communication}}"@, "communication"@, Criticality::Low)
        + missing_partial(t, "{{> tools_xml}}"@, "tools_xml"@, Criticality::Medium)
        + missing_partial(t, "{{> tools_json}}"@, "tools_json"@, Criticality::Medium)
        + missing_partial(t, "{{> reasoning}}"@, "reasoning"@, Criticality::Medium)
        + missing_variable(t, "{{task}}"@, "task"@, Criticality::Critical)
        + missing_variable(t, "{{available_tools}}"@, "available_tools"@, Criticality::Critical)
        + missing_variable(t, "{{scratchpad}}"@, "scratchpad"@, Criticality::Medium)
        + best_practice_issues(t)
}

fn single_item(item: &str) -> (res: Vec<String>)
    ensures
        string_views(res@) == seq![item@],
{
    let mut v: Vec<String> = Vec::new();
    v.push(owned(item));
    assert(string_views(v@) =~= seq![item@]);
    v
}

fn push_issue_if_absent(
    issues: &mut Vec<ValidationIssue>,
    t: &[char],
    marker: &str,
    category: &str,
    item: &str,
    criticality: Criticality,
    description: &str,
)
    ensures
        issue_views(final(issues)@) == issue_views(old(issues)@) + issue_if_absent(
            t@,
            marker@,
            category@,
            item@,
            criticality,
            description@,
        ),
{
    let m = str_chars(marker);
    if !contains(t, m.as_slice()) {
        let issue = ValidationIssue {
            category: owned(category),
            missing_items: single_item(item),
            description: owned(description),
            criticality,
        };
        issues.push(issue);
        assert(issue_views(issues@) =~= issue_views(old(issues)@) + seq![issue@]);
    } else {
        assert(issue_views(issues@) =~= issue_views(old(issues)@) + Seq::<IssueView>::empty());
    }
}

fn partial_description_text(c: Criticality) -> (res: &'static str)
    ensures
        res@ == partial_description(c),
{
    match c {
        Criticality::Critical => "Essential for agent functionality",
        Criticality::Medium => "Important for proper agent behavior",
        Criticality::Low => "Recommended for better user experience",
    }
}

fn variable_description_text(c: Criticality) -> (res: &'static str)
    ensures
        res@ == variable_description(c),
{
    match c {
        Criticality::Critical => "Required for agent execution",
        Criticality::Medium => "Important for agent context",
        Criticality::Low => "Optional but recommended",
    }
}

/// Validate custom prompt for missing essential partials and variables
pub fn validate_custom_prompt(template: &str, _agent_def: &StandardDefinition) -> (res: Vec<ValidationIssue>)
    ensures
        issue_views(res@) == custom_prompt_issues(template@),
{
    let t = str_chars(template);
    let t = t.as_slice();
    let mut issues: Vec<ValidationIssue> = Vec::new();
    let ghost start = issue_views(issues@);
    assert(start =~= Seq::<IssueView>::empty());

    // Essential partials, each with its criticality.
    push_issue_if_absent(&mut issues, t, "{{> core_instructions}}", "Missing Partial", "core_instructions",
        Criticality::Medium, partial_description_text(Criticality::Medium));
    push_issue_if_absent(&mut issues, t, "{{> communication}}", "Missing Partial", "communication",
        Criticality::Low, partial_description_text(Criticality::Low));
    push_issue_if_absent(&mut issues, t, "{{> tools_xml}}", "Missing Partial", "tools_xml",
        Criticality::Medium, partial_description_text(Criticality::Medium));
    push_issue_if_absent(&mut issues, t, "{{> tools_json}}", "Missing Partial", "tools_json",
        Criticality::Medium, partial_description_text(Criticality::Medium));
    push_issue_if_absent(&mut issues, t, "{{> reasoning}}", "Missing Partial", "reasoning",
        Criticality::Medium, partial_description_text(Criticality::Medium));

    // Variables the template should include (system variables such as
    // tool_format or max_steps are always provided).
    push_issue_if_absent(&mut issues, t, "{{task}}", "Missing Variable", "task",
        Criticality::Critical, variable_description_text(Criticality::Critical));
    push_issue_if_absent(&mut issues, t, "{{available_tools}}", "Missing Variable", "available_tools",
        Criticality::Critical, variable_description_text(Criticality::Critical));
    push_issue_if_absent(&mut issues, t, "{{scratchpad}}", "Missing Variable", "scratchpad",
        Criticality::Medium, variable_description_text(Criticality::Medium));

    // Best practice: pair max_steps with remaining_steps.
    let ghost before = issue_views(issues@);
    let max_steps = str_chars("{{max_steps}}");
    let remaining = str_chars("{{remaining_steps}}");
    if contains(t, max_steps.as_slice()) && !contains(t, remaining.as_slice()) {
        let issue = ValidationIssue {
            category: owned("Best Practice"),
            missing_items: single_item("remaining_steps"),
            description: owned("Consider using remaining_steps alongside max_steps for better step tracking"),
            criticality: Criticality::Low,
        };
        issues.push(issue);
        assert(issue_views(issues@) =~= before + seq![issue@]);
    } else {
        assert(issue_views(issues@) =~= before + Seq::<IssueView>::empty());
    }
    issues
}

/// Validate agent prompt based on its strategy (returns detailed issues)
pub fn validate_agent_prompt(agent_def: &StandardDefinition) -> (res: Vec<ValidationIssue>)
    ensures
        issue_views(res@) == (if agent_def.append_default_instructions.unwrap_or(true) {
            Seq::<IssueView>::empty()
        } else {
            custom_prompt_issues(agent_def.instructions@)
        }),
{
    let append = match agent_def.append_default_instructions {
        Some(b) => b,
        None => true,
    };
    if append {
        // The standard template is used: nothing to check.
        let res: Vec<ValidationIssue> = Vec::new();
        assert(issue_views(res@) =~= Seq::<IssueView>::empty());
        res
    } else {
        validate_custom_prompt(agent_def.instructions.as_str(), agent_def)
    }
}

// ── Partial references: `{{> name}}` ──────────────────────────────────────

pub open spec fn is_name_start(c: char) -> bool {
    let u = c as u32;
    (0x61 <= u <= 0x7A) || (0x41 <= u <= 0x5A) || u == 0x5F
}

pub open spec fn is_name_char(c: char) -> bool {
    let u = c as u32;
    is_name_start(c) || (0x30 <= u <= 0x39) || u == 0x2D
}

/// End of the run of name characters starting at `from`.
pub open spec fn skip_name(s: Seq<char>, from: int) -> int
    decreases s.len() - from,
{
    if 0 <= from < s.len() && is_name_char(s[from]) {
        skip_name(s, from + 1)
    } else {
        from
    }
}

/// The partial name referenced by a `{{>` that starts at `i`, matching
/// `\{\{>\s*([a-zA-Z_][a-zA-Z0-9_-]*)\s*\}\}`.
pub open spec fn partial_name_at(s: Seq<char>, i: int) -> Option<Seq<char>> {
    if occurs_at_open(s, i) {
        let a = skip_ws(s, i + 3, s.len() as int);
        if a < s.len() && is_name_start(s[a]) {
            let b = skip_name(s, a + 1);
            let c = skip_ws(s, b, s.len() as int);
            if c + 2 <= s.len() && s[c] == '}' && s[c + 1] == '}' {
                Some(s.subrange(a, b))
            } else {
                None
            }
        } else {
            None
        }
    } else {
        None
    }
}

pub open spec fn occurs_at_open(s: Seq<char>, i: int) -> bool {
    0 <= i && i + 3 <= s.len() && s[i] == '{' && s[i + 1] == '{' && s[i + 2] == '>'
}

/// The set of partial names referenced by a template.
pub open spec fn referenced_partials(s: Seq<char>) -> Set<Seq<char>> {
    Set::new(|name: Seq<char>| exists|i: int| 0 <= i < s.len() && #[trigger] partial_name_at(s, i) == Some(name))
}

fn is_name_start_char(c: char) -> (res: bool)
    ensures
        res == is_name_start(c),
{
    let u = c as u32;
    (0x61 <= u && u <= 0x7A) || (0x41 <= u && u <= 0x5A) || u == 0x5F
}

fn is_name_char_exec(c: char) -> (res: bool)
    ensures
        res == is_name_char(c),
{
    let u = c as u32;
    is_name_start_char(c) || (0x30 <= u && u <= 0x39) || u == 0x2D
}

proof fn lemma_skip_name_bounds(s: Seq<char>, from: int)
    requires
        0 <= from <= s.len(),
    ensures
        from <= skip_name(s, from) <= s.len(),
    decreases s.len() - from,
{
    if from < s.len() && is_name_char(s[from]) {
        lemma_skip_name_bounds(s, from + 1);
    }
}

/// Bounds of the partial name referenced at `i`, if any.
fn partial_name_bounds(s: &[char], i: usize) -> (res: Option<(usize, usize)>)
    ensures
        match res {
            Some((a, b)) => a <= b <= s.len() && partial_name_at(s@, i as int) == Some(s@.subrange(a as int, b as int)),
            None => partial_name_at(s@, i as int) is None,
        },
{
    if i >= s.len() || s.len() - i < 3 || s[i] != '{' || s[i + 1] != '{' || s[i + 2] != '>' {
        return None;
    }
    let a = skip_whitespace(s, i + 3, s.len());
    if a >= s.len() || !is_name_start_char(s[a]) {
        return None;
    }
    let mut b = a + 1;
    proof {
        lemma_skip_name_bounds(s@, (a + 1) as int);
    }
    while b < s.len() && is_name_char_exec(s[b])
        invariant
            a + 1 <= b <= s.len(),
            skip_name(s@, b as int) == skip_name(s@, (a + 1) as int),
        decreases s.len() - b,
    {
        b = b + 1;
    }
    let c = skip_whitespace(s, b, s.len());
    if c < s.len() && s.len() - c >= 2 && s[c] == '}' && s[c + 1] == '}' {
        Some((a, b))
    } else {
        None
    }
}

/// Position of `name` among `names`, if present.
fn position_of(names: &Vec<Vec<char>>, name: &[char]) -> (res: Option<usize>)
    ensures
        match res {
            Some(k) => k < names@.len() && names@[k as int]@ == name@,
            None => forall|k: int| 0 <= k < names@.len() ==> #[trigger] names@[k]@ != name@,
        },
{
    let mut k: usize = 0;
    while k < names.len()
        invariant
            k <= names.len(),
            forall|m: int| 0 <= m < k ==> #[trigger] names@[m]@ != name@,
        decreases names.len() - k,
    {
        if chars_eq(names[k].as_slice(), name) {
            return Some(k);
        }
        k = k + 1;
    }
    None
}

pub open spec fn char_views(v: Seq<Vec<char>>) -> Seq<Seq<char>> {
    v.map_values(|x: Vec<char>| x@)
}

/// The names referenced by partials, without duplicates, as character vectors.
fn referenced_names(t: &[char]) -> (res: Vec<Vec<char>>)
    ensures
        char_views(res@).no_duplicates(),
        char_views(res@).to_set() == referenced_partials(t@),
{
    let mut names: Vec<Vec<char>> = Vec::new();
    let mut i: usize = 0;
    while i < t.len()
        invariant
            i <= t.len(),
            char_views(names@).no_duplicates(),
            forall|name: Seq<char>| char_views(names@).contains(name) <==> exists|j: int|
                0 <= j < i && #[trigger] partial_name_at(t@, j) == Some(name),
        decreases t.len() - i,
    {
        let ghost old_names = char_views(names@);
        match partial_name_bounds(t, i) {
            Some((a, b)) => {
                let name = crate::text::slice_to_vec(t, a, b);
                match position_of(&names, name.as_slice()) {
                    Some(k) => {
                        assert(old_names[k as int] == name@);
                        assert forall|n: Seq<char>| char_views(names@).contains(n) <==> exists|j: int|
                            0 <= j < i + 1 && #[trigger] partial_name_at(t@, j) == Some(n) by {
                            if n == name@ {
                                assert(partial_name_at(t@, i as int) == Some(n));
                            }
                            if exists|j: int| 0 <= j < i + 1 && #[trigger] partial_name_at(t@, j) == Some(n) {
                                let j = choose|j: int| 0 <= j < i + 1 && #[trigger] partial_name_at(t@, j) == Some(n);
                                if j == i {
                                    assert(old_names[k as int] == n);
                                }
                            }
                        }
                    },
                    None => {
                        names.push(name);
                        proof {
                            assert(char_views(names@) =~= old_names.push(name@));
                            assert forall|x: int, y: int|
                                0 <= x < y < char_views(names@).len() implies char_views(names@)[x]
                                != char_views(names@)[y] by {
                                if y == old_names.len() {
                                    assert(names@[x]@ != name@);
                                }
                            }
                            assert forall|n: Seq<char>| char_views(names@).contains(n) <==> exists|j: int|
                                0 <= j < i + 1 && #[trigger] partial_name_at(t@, j) == Some(n) by {
                                if n == name@ {
                                    assert(char_views(names@)[old_names.len() as int] == n);
                                    assert(partial_name_at(t@, i as int) == Some(n));
                                }
                                if char_views(names@).contains(n) && n != name@ {
                                    let m = choose|m: int| 0 <= m < char_views(names@).len() && char_views(names@)[m] == n;
                                    assert(old_names[m] == n);
                                    assert(old_names.contains(n));
                                }
                                if exists|j: int| 0 <= j < i + 1 && #[trigger] partial_name_at(t@, j) == Some(n) {
                                    let j = choose|j: int| 0 <= j < i + 1 && #[trigger] partial_name_at(t@, j) == Some(n);
                                    if j < i {
                                        assert(old_names.contains(n));
                                        let m = choose|m: int| 0 <= m < old_names.len() && old_names[m] == n;
                                        assert(char_views(names@)[m] == n);
                                    } else {
                                        assert(n == name@);
                                        assert(char_views(names@)[old_names.len() as int] == n);
                                    }
                                }
                            }
                        }
                    },
                }
            },
            None => {
                assert forall|n: Seq<char>| char_views(names@).contains(n) <==> exists|j: int|
                    0 <= j < i + 1 && #[trigger] partial_name_at(t@, j) == Some(n) by {
                    if exists|j: int| 0 <= j < i + 1 && #[trigger] partial_name_at(t@, j) == Some(n) {
                        let j = choose|j: int| 0 <= j < i + 1 && #[trigger] partial_name_at(t@, j) == Some(n);
                        assert(j < i);
                    }
                }
            },
        }
        i = i + 1;
    }
    assert(char_views(names@).to_set() =~= referenced_partials(t@)) by {
        assert forall|n: Seq<char>| char_views(names@).to_set().contains(n) <==> referenced_partials(t@).contains(n) by {
            if referenced_partials(t@).contains(n) {
                let j = choose|j: int| 0 <= j < t@.len() && #[trigger] partial_name_at(t@, j) == Some(n);
            }
        }
    }
    names
}

fn strings_of(v: &Vec<Vec<char>>) -> (res: Vec<String>)
    ensures
        string_views(res@) == char_views(v@),
{
    let mut res: Vec<String> = Vec::new();
    let mut i: usize = 0;
    while i < v.len()
        invariant
            i <= v.len(),
            res@.len() == i,
            forall|k: int| 0 <= k < i ==> #[trigger] res@[k]@ == v@[k]@,
        decreases v.len() - i,
    {
        res.push(string_from_chars(v[i].as_slice()));
        i = i + 1;
    }
    assert(string_views(res@) =~= char_views(v@));
    res
}

/// Extract all partial references from a handlebars template: the names in
/// `{{> partial_name}}` or `{{>partial_name}}`, each once.
pub fn extract_partial_references(template: &str) -> (res: Vec<String>)
    ensures
        string_views(res@).no_duplicates(),
        string_views(res@).to_set() == referenced_partials(template@),
{
    let t = str_chars(template);
    let names = referenced_names(t.as_slice());
    strings_of(&names)
}

pub open spec fn spec_builtin_partials() -> Seq<Seq<char>> {
    seq![
        "core_instructions"@,
        "communication"@,
        "todo_instructions"@,
        "tools_xml"@,
        "tools_json"@,
        "reasoning"@,
    ]
}

/// Built-in partials that are always available (registered by default)
pub fn builtin_partials() -> (res: Vec<String>)
    ensures
        string_views(res@) == spec_builtin_partials(),
{
    let mut v: Vec<String> = Vec::new();
    v.push(owned("core_instructions"));
    v.push(owned("communication"));
    v.push(owned("todo_instructions"));
    v.push(owned("tools_xml"));
    v.push(owned("tools_json"));
    v.push(owned("reasoning"));
    assert(string_views(v@) =~= spec_builtin_partials());
    v
}

/// Names referenced in the template that are neither built in nor registered.
pub open spec fn unregistered_partials(t: Seq<char>, registered: Seq<Seq<char>>) -> Set<Seq<char>> {
    referenced_partials(t).filter(
        |n: Seq<char>| !spec_builtin_partials().contains(n) && !registered.contains(n),
    )
}

/// Strictly increasing in code-point lexicographic order.
pub open spec fn lex_sorted(s: Seq<Seq<char>>) -> bool {
    forall|i: int, j: int| 0 <= i < j < s.len() ==> lex_lt(#[trigger] s[i], #[trigger] s[j])
}

fn contains_string(v: &[String], name: &[char]) -> (res: bool)
    ensures
        res == string_views(v@).contains(name@),
{
    let mut k: usize = 0;
    while k < v.len()
        invariant
            k <= v.len(),
            forall|m: int| 0 <= m < k ==> #[trigger] v@[m]@ != name@,
        decreases v.len() - k,
    {
        let c = str_chars(v[k].as_str());
        if chars_eq(c.as_slice(), name) {
            assert(string_views(v@)[k as int] == name@);
            return true;
        }
        k = k + 1;
    }
    assert forall|m: int| 0 <= m < string_views(v@).len() implies string_views(v@)[m] != name@ by {
        assert(v@[m]@ != name@);
    }
    false
}

/// Inserts `x` into a strictly sorted vector that does not contain it.
fn insert_sorted(v: &mut Vec<Vec<char>>, x: Vec<char>)
    requires
        lex_sorted(char_views(old(v)@)),
        !char_views(old(v)@).contains(x@),
    ensures
        lex_sorted(char_views(final(v)@)),
        char_views(final(v)@).to_set() == char_views(old(v)@).to_set().insert(x@),
        char_views(final(v)@).len() == char_views(old(v)@).len() + 1,
{
    let ghost xs = x@;
    let mut j: usize = v.len();
    while j > 0 && chars_lt(x.as_slice(), v[j - 1].as_slice())
        invariant
            j <= v.len(),
            v@ == old(v)@,
            x@ == xs,
            forall|k: int| j <= k < v.len() ==> lex_lt(xs, #[trigger] v@[k]@),
        decreases j,
    {
        j = j - 1;
    }
    let ghost before = char_views(v@);
    proof {
        if j > 0 {
            lemma_lex_lt_total(xs, v@[j - 1]@);
            assert(before[j - 1] != xs);
        }
    }
    v.insert(j, x);
    proof {
        let after = char_views(v@);
        assert(after =~= before.insert(j as int, xs));
        assert forall|a: int, b: int| 0 <= a < b < after.len() implies lex_lt(#[trigger] after[a], #[trigger] after[b]) by {
            if b < j {
                assert(after[a] == before[a] && after[b] == before[b]);
            } else if b == j {
                assert(after[b] == xs);
                assert(after[a] == before[a]);
                if a < j - 1 {
                    assert(lex_lt(before[a], before[j - 1]));
                    lemma_lex_lt_transitive(before[a], before[j - 1], xs);
                }
            } else if a == j {
                assert(after[b] == before[b - 1]);
            } else if a < j {
                assert(after[a] == before[a] && after[b] == before[b - 1]);
            } else {
                assert(after[a] == before[a - 1] && after[b] == before[b - 1]);
            }
        }
        assert forall|n: Seq<char>| after.to_set().contains(n) <==> before.to_set().insert(xs).contains(n) by {
            if after.contains(n) {
                let m = choose|m: int| 0 <= m < after.len() && after[m] == n;
                if m < j {
                    assert(before[m] == n);
                } else if m > j {
                    assert(before[m - 1] == n);
                }
            }
            if before.contains(n) {
                let m = choose|m: int| 0 <= m < before.len() && before[m] == n;
                if m < j {
                    assert(after[m] == n);
                } else {
                    assert(after[m + 1] == n);
                }
            }
            if n == xs {
                assert(after[j as int] == n);
            }
        }
        assert(after.to_set() =~= before.to_set().insert(xs));
    }
}

/// Validate that all partials referenced in the template are registered.
/// Returns one issue listing the missing custom partials (sorted), if any.
pub fn validate_partial_references(template: &str, registered_partials: &[String]) -> (res: Vec<ValidationIssue>)
    ensures
        unregistered_partials(template@, string_views(registered_partials@)).is_empty() ==> res@.len() == 0,
        !unregistered_partials(template@, string_views(registered_partials@)).is_empty() ==> {
            &&& res@.len() == 1
            &&& res@[0]@.category == "Missing Custom Partial"@
            &&& res@[0]@.description
                == "Custom partial referenced but not registered. Ensure the partial file exists with .hbs extension in the partials directory."@
            &&& res@[0]@.criticality == Criticality::Critical
            &&& lex_sorted(res@[0]@.missing_items)
            &&& res@[0]@.missing_items.to_set() == unregistered_partials(
                template@,
                string_views(registered_partials@),
            )
        },
{
    let t = str_chars(template);
    let referenced = referenced_names(t.as_slice());
    let builtin = builtin_partials();
    let ghost registered = string_views(registered_partials@);
    let ghost wanted = unregistered_partials(template@, registered);

    let mut missing: Vec<Vec<char>> = Vec::new();
    let mut i: usize = 0;
    while i < referenced.len()
        invariant
            i <= referenced.len(),
            t@ == template@,
            string_views(builtin@) == spec_builtin_partials(),
            char_views(referenced@).no_duplicates(),
            char_views(referenced@).to_set() == referenced_partials(template@),
            registered == string_views(registered_partials@),
            lex_sorted(char_views(missing@)),
            forall|n: Seq<char>| #[trigger] char_views(missing@).contains(n) <==> (exists|k: int|
                0 <= k < i && char_views(referenced@)[k] == n) && !spec_builtin_partials().contains(n)
                && !registered.contains(n),
        decreases referenced.len() - i,
    {
        let name = &referenced[i];
        let is_builtin = contains_string(builtin.as_slice(), name.as_slice());
        let is_registered = contains_string(registered_partials, name.as_slice());
        let ghost nv = name@;
        let ghost old_missing = char_views(missing@);
        if !is_builtin && !is_registered {
            proof {
                if old_missing.contains(nv) {
                    let k = choose|k: int| 0 <= k < i && char_views(referenced@)[k] == nv;
                    assert(char_views(referenced@)[i as int] == nv);
                }
            }
            let copy = crate::text::slice_to_vec(name.as_slice(), 0, name.len());
            assert(name@.subrange(0, name@.len() as int) =~= name@);
            insert_sorted(&mut missing, copy);
            proof {
                assert forall|n: Seq<char>| #[trigger] char_views(missing@).contains(n) <==> (exists|k: int|
                    0 <= k < i + 1 && char_views(referenced@)[k] == n) && !spec_builtin_partials().contains(n)
                    && !registered.contains(n) by {
                    assert(char_views(missing@).to_set().contains(n) == char_views(missing@).contains(n));
                    assert(old_missing.to_set().contains(n) == old_missing.contains(n));
                    if n == nv {
                        assert(char_views(referenced@)[i as int] == n);
                    }
                    if exists|k: int| 0 <= k < i + 1 && char_views(referenced@)[k] == n {
                        let k = choose|k: int| 0 <= k < i + 1 && char_views(referenced@)[k] == n;
                        if k == i {
                            assert(n == nv);
                        }
                    }
                }
            }
        } else {
            assert forall|n: Seq<char>| #[trigger] char_views(missing@).contains(n) <==> (exists|k: int|
                0 <= k < i + 1 && char_views(referenced@)[k] == n) && !spec_builtin_partials().contains(n)
                && !registered.contains(n) by {
                if exists|k: int| 0 <= k < i + 1 && char_views(referenced@)[k] == n {
                    let k = choose|k: int| 0 <= k < i + 1 && char_views(referenced@)[k] == n;
                    if k == i {
                        assert(n == nv);
                    }
                }
            }
        }
        i = i + 1;
    }
    proof {
        assert forall|n: Seq<char>| char_views(missing@).to_set().contains(n) <==> wanted.contains(n) by {
            if wanted.contains(n) {
                assert(char_views(referenced@).to_set().contains(n));
                let k = choose|k: int| 0 <= k < char_views(referenced@).len() && char_views(referenced@)[k] == n;
            }
        }
        assert(char_views(missing@).to_set() =~= wanted);
    }

    let mut issues: Vec<ValidationIssue> = Vec::new();
    if missing.len() > 0 {
        let items = strings_of(&missing);
        issues.push(
            ValidationIssue {
                category: owned("Missing Custom Partial"),
                missing_items: items,
                description: owned(
                    "Custom partial referenced but not registered. Ensure the partial file exists with .hbs extension in the partials directory.",
                ),
                criticality: Criticality::Critical,
            },
        );
    } else {
        proof {
            assert(char_views(missing@) =~= Seq::<Seq<char>>::empty());
            assert(wanted =~= Set::<Seq<char>>::empty());
        }
    }
    proof {
        if missing.len() > 0 {
            assert(wanted.contains(char_views(missing@)[0]));
        }
    }
    issues
}

/// Validate agent prompt with registry context (checks custom partials)
pub fn validate_agent_prompt_with_partials(agent_def: &StandardDefinition, registered_partials: &[String]) -> (res: Vec<
    ValidationIssue,
>)
    ensures
        agent_def.append_default_instructions.unwrap_or(true) ==> res@.len() == 0,
        !agent_def.append_default_instructions.unwrap_or(true) ==> {
            let base = custom_prompt_issues(agent_def.instructions@);
            let wanted = unregistered_partials(agent_def.instructions@, string_views(registered_partials@));
            &&& issue_views(res@).take(base.len() as int) == base
            &&& res@.len() == base.len() + (if wanted.is_empty() { 0int } else { 1int })
            &&& !wanted.is_empty() ==> {
                let last = res@[base.len() as int]@;
                &&& last.category == "Missing Custom Partial"@
                &&& last.criticality == Criticality::Critical
                &&& lex_sorted(last.missing_items)
                &&& last.missing_items.to_set() == wanted
            }
        },
{
    let mut issues = validate_agent_prompt(agent_def);
    let append = match agent_def.append_default_instructions {
        Some(b) => b,
        None => true,
    };
    if !append {
        let ghost base = issue_views(issues@);
        let mut extra = validate_partial_references(agent_def.instructions.as_str(), registered_partials);
        let ghost extra_v = extra@;
        issues.append(&mut extra);
        proof {
            assert(issue_views(issues@).take(base.len() as int) =~= base);
        }
    }
    issues
}

/// Orders issues most severe first, keeping the given order among issues of
/// the same criticality.
pub fn sort_issues_by_criticality(issues: Vec<ValidationIssue>) -> (res: Vec<ValidationIssue>)
    ensures
        res@ == issues@.filter(|i: ValidationIssue| i.criticality == Criticality::Critical) + issues@.filter(
            |i: ValidationIssue| i.criticality == Criticality::Medium,
        ) + issues@.filter(|i: ValidationIssue| i.criticality == Criticality::Low),
{
    let ghost orig = issues@;
    let ghost pc = |i: ValidationIssue| i.criticality == Criticality::Critical;
    let ghost pm = |i: ValidationIssue| i.criticality == Criticality::Medium;
    let ghost pl = |i: ValidationIssue| i.criticality == Criticality::Low;
    let mut critical: Vec<ValidationIssue> = Vec::new();
    let mut medium: Vec<ValidationIssue> = Vec::new();
    let mut low: Vec<ValidationIssue> = Vec::new();
    let mut rest = issues;
    let mut taken: usize = 0;
    // Move the issues into three buckets, preserving their relative order.
    let ghost n = orig.len();
    assert(n == rest.len());
    while rest.len() > 0
        invariant
            taken + rest@.len() == n,
            n <= usize::MAX,
            n == orig.len(),
            rest@ == orig.skip(taken as int),
            critical@ == orig.take(taken as int).filter(pc),
            medium@ == orig.take(taken as int).filter(pm),
            low@ == orig.take(taken as int).filter(pl),
            pc == (|i: ValidationIssue| i.criticality == Criticality::Critical),
            pm == (|i: ValidationIssue| i.criticality == Criticality::Medium),
            pl == (|i: ValidationIssue| i.criticality == Criticality::Low),
        decreases rest@.len(),
    {
        let issue = rest.remove(0);
        proof {
            reveal_with_fuel(Seq::filter, 1);
            assert(orig.take(taken + 1).drop_last() =~= orig.take(taken as int));
            assert(orig.take(taken + 1).last() == issue);
            assert(orig.skip(taken + 1) =~= orig.skip(taken as int).remove(0));
        }
        match issue.criticality {
            Criticality::Critical => critical.push(issue),
            Criticality::Medium => medium.push(issue),
            Criticality::Low => low.push(issue),
        }
        taken = taken + 1;
    }
    assert(orig.take(taken as int) =~= orig);
    critical.append(&mut medium);
    critical.append(&mut low);
    critical
}

/// Number of issues of each criticality: (critical, medium, low).
pub fn count_by_criticality(issues: &[ValidationIssue]) -> (res: (usize, usize, usize))
    ensures
        res.0 == issues@.filter(|i: ValidationIssue| i.criticality == Criticality::Critical).len(),
        res.1 == issues@.filter(|i: ValidationIssue| i.criticality == Criticality::Medium).len(),
        res.2 == issues@.filter(|i: ValidationIssue| i.criticality == Criticality::Low).len(),
{
    let ghost pc = |i: ValidationIssue| i.criticality == Criticality::Critical;
    let ghost pm = |i: ValidationIssue| i.criticality == Criticality::Medium;
    let ghost pl = |i: ValidationIssue| i.criticality == Criticality::Low;
    let mut c: usize = 0;
    let mut m: usize = 0;
    let mut l: usize = 0;
    let mut k: usize = 0;
    while k < issues.len()
        invariant
            k <= issues.len(),
            c == issues@.take(k as int).filter(pc).len(),
            m == issues@.take(k as int).filter(pm).len(),
            l == issues@.take(k as int).filter(pl).len(),
            c + m + l == k,
            pc == (|i: ValidationIssue| i.criticality == Criticality::Critical),
            pm == (|i: ValidationIssue| i.criticality == Criticality::Medium),
            pl == (|i: ValidationIssue| i.criticality == Criticality::Low),
        decreases issues.len() - k,
    {
        proof {
            reveal_with_fuel(Seq::filter, 1);
            assert(issues@.take(k + 1).drop_last() =~= issues@.take(k as int));
        }
        match issues[k].criticality {
            Criticality::Critical => c = c + 1,
            Criticality::Medium => m = m + 1,
            Criticality::Low => l = l + 1,
        }
        k = k + 1;
    }
    assert(issues@.take(k as int) =~= issues@);
    (c, m, l)
}

/// The colour a criticality is shown in.
#[derive(PartialEq, Eq, Structural, Clone, Copy, Debug)]
pub enum CellColor {
    Red,
    Yellow,
    Blue,
}

pub open spec fn spec_criticality_color(c: Criticality) -> CellColor {
    match c {
        Criticality::Critical => CellColor::Red,
        Criticality::Medium => CellColor::Yellow,
        Criticality::Low => CellColor::Blue,
    }
}

impl Criticality {
    /// Red for critical, yellow for medium, blue for low.
    pub fn color(&self) -> (res: CellColor)
        ensures
            res == spec_criticality_color(*self),
    {
        match self {
            Criticality::Critical => CellColor::Red,
            Criticality::Medium => CellColor::Yellow,
            Criticality::Low => CellColor::Blue,
        }
    }
}

/// A row of the issue table: category, missing items, criticality (shown
/// bold in its colour) and description.
pub struct IssueRow {
    pub category: String,
    pub missing_items: String,
    pub criticality: String,
    pub color: CellColor,
    pub description: String,
}

/// The row that shows an issue: its missing items joined by `", "`.
pub open spec fn row_shows(r: IssueRow, i: ValidationIssue) -> bool {
    &&& r.category@ == i.category@
    &&& r.missing_items@ == spec_join(str_views(i.missing_items@), ", "@)
    &&& r.criticality@ == spec_criticality_name(i.criticality)
    &&& r.color == spec_criticality_color(i.criticality)
    &&& r.description@ == i.description@
}

pub open spec fn rows_show(rows: Seq<IssueRow>, issues: Seq<ValidationIssue>) -> bool {
    &&& rows.len() == issues.len()
    &&& forall|k: int| 0 <= k < rows.len() ==> #[trigger] row_shows(rows[k], issues[k])
}

pub open spec fn of_criticality(c: Criticality) -> spec_fn(ValidationIssue) -> bool {
    |i: ValidationIssue| i.criticality == c
}

/// The issues most severe first, keeping their order within a criticality.
pub open spec fn issues_by_severity(s: Seq<ValidationIssue>) -> Seq<ValidationIssue> {
    s.filter(of_criticality(Criticality::Critical)) + s.filter(of_criticality(Criticality::Medium)) + s.filter(
        of_criticality(Criticality::Low),
    )
}

fn issue_row(issue: &ValidationIssue) -> (res: IssueRow)
    ensures
        row_shows(res, *issue),
{
    IssueRow {
        category: issue.category.clone(),
        missing_items: join_strings(issue.missing_items.as_slice(), ", "),
        criticality: owned(issue.criticality.as_str()),
        color: issue.criticality.color(),
        description: issue.description.clone(),
    }
}

fn push_rows_of(rows: &mut Vec<IssueRow>, issues: &[ValidationIssue], c: Criticality)
    ensures
        final(rows)@.len() >= old(rows)@.len(),
        final(rows)@.take(old(rows)@.len() as int) == old(rows)@,
        rows_show(final(rows)@.skip(old(rows)@.len() as int), issues@.filter(of_criticality(c))),
{
    let ghost base = rows@;
    let ghost p = of_criticality(c);
    let mut k: usize = 0;
    while k < issues.len()
        invariant
            k <= issues.len(),
            p == of_criticality(c),
            rows@.take(base.len() as int) == base,
            rows@.len() >= base.len(),
            rows_show(rows@.skip(base.len() as int), issues@.take(k as int).filter(p)),
        decreases issues.len() - k,
    {
        proof {
            reveal_with_fuel(Seq::filter, 1);
            assert(issues@.take(k + 1).drop_last() =~= issues@.take(k as int));
            assert(issues@.take(k + 1).last() == issues@[k as int]);
        }
        let ghost before = rows@;
        if issues[k].criticality == c {
            let r = issue_row(&issues[k]);
            rows.push(r);
            proof {
                assert(rows@.take(base.len() as int) =~= before.take(base.len() as int));
                let tail = rows@.skip(base.len() as int);
                let ft = issues@.take(k + 1).filter(p);
                assert(ft == issues@.take(k as int).filter(p).push(issues@[k as int]));
                assert forall|j: int| 0 <= j < tail.len() implies #[trigger] row_shows(tail[j], ft[j]) by {
                    if j < tail.len() - 1 {
                        assert(tail[j] == before.skip(base.len() as int)[j]);
                    }
                }
            }
        } else {
            proof {
                assert(issues@.take(k + 1).filter(p) == issues@.take(k as int).filter(p));
            }
        }
        k = k + 1;
    }
    assert(issues@.take(k as int) =~= issues@);
}

/// The rows of the issue table, most severe issues first.
pub fn issue_rows(issues: &[ValidationIssue]) -> (res: Vec<IssueRow>)
    ensures
        rows_show(res@, issues_by_severity(issues@)),
{
    let mut rows: Vec<IssueRow> = Vec::new();
    push_rows_of(&mut rows, issues, Criticality::Critical);
    let ghost r1 = rows@;
    push_rows_of(&mut rows, issues, Criticality::Medium);
    let ghost r2 = rows@;
    push_rows_of(&mut rows, issues, Criticality::Low);
    proof {
        let fc = issues@.filter(of_criticality(Criticality::Critical));
        let fm = issues@.filter(of_criticality(Criticality::Medium));
        let fl = issues@.filter(of_criticality(Criticality::Low));
        let all = issues_by_severity(issues@);
        assert(r1.skip(0) =~= r1);
        assert(r1.len() == fc.len());
        assert(r2.len() == r1.len() + fm.len());
        assert(rows@.len() == r2.len() + fl.len());
        assert(all.len() == rows@.len());
        assert forall|k: int| 0 <= k < rows@.len() implies #[trigger] row_shows(rows@[k], all[k]) by {
            if k < r1.len() {
                assert(rows@[k] == rows@.take(r2.len() as int)[k]);
                assert(r2[k] == r2.take(r1.len() as int)[k]);
                assert(all[k] == fc[k]);
                assert(row_shows(r1.skip(0)[k], fc[k]));
            } else if k < r2.len() {
                assert(rows@[k] == rows@.take(r2.len() as int)[k]);
                assert(r2[k] == r2.skip(r1.len() as int)[k - r1.len()]);
                assert(all[k] == fm[k - fc.len()]);
            } else {
                assert(rows@[k] == rows@.skip(r2.len() as int)[k - r2.len()]);
                assert(all[k] == fl[k - fc.len() - fm.len()]);
            }
        }
    }
    rows
}

/// `comfy_table::Table`: a table with the given header, in bold, and rows,
/// the criticality cell bold in its colour, as `Table::to_string` renders
/// it. Whether colours and the terminal width are applied depends on
/// whether the output is a terminal, so the text is not named; what holds
/// of every outcome is that it is not empty (the default style draws a top
/// border, and a header gives the table columns).
#[verifier::external_body]
fn render_issue_table(header: Vec<String>, rows: Vec<IssueRow>) -> (res: String)
    requires
        header@.len() > 0,
    ensures
        res@.len() > 0,
{
    let mut table = Table::new();
    table.set_header(header.into_iter().map(|h| Cell::new(h).add_attribute(Attribute::Bold)).collect::<Vec<_>>());
    for r in rows {
        let color = match r.color {
            CellColor::Red => Color::Red,
            CellColor::Yellow => Color::Yellow,
            CellColor::Blue => Color::Blue,
        };
        let crit = Cell::new(r.criticality).fg(color).add_attribute(Attribute::Bold);
        table.add_row(vec![Cell::new(r.category), Cell::new(r.missing_items), crit, Cell::new(r.description)]);
    }
    table.to_string()
}

/// The column titles of the issue table.
pub fn issue_table_header() -> (res: Vec<String>)
    ensures
        res@.len() == 4,
        res@[0]@ == "Category"@,
        res@[1]@ == "Missing Item"@,
        res@[2]@ == "Criticality"@,
        res@[3]@ == "Description"@,
{
    vec![owned("Category"), owned("Missing Item"), owned("Criticality"), owned("Description")]
}

pub open spec fn passed_text(agent: Seq<char>) -> Seq<char> {
    "✅ Agent '"@ + agent + "' prompt validation passed - no issues found"@
}

/// The summary above the table: the number of issues and of each
/// criticality.
pub open spec fn summary_text(agent: Seq<char>, n: nat, c: nat, m: nat, l: nat) -> Seq<char> {
    "⚠️  Agent '"@ + agent + "' prompt validation found "@ + decimal(n) + " issue(s): "@ + decimal(c)
        + " critical, "@ + decimal(m) + " medium, "@ + decimal(l) + " low\n\n"@
}

/// The summary of `issues` for the agent.
pub open spec fn issues_summary(agent: Seq<char>, issues: Seq<ValidationIssue>) -> Seq<char> {
    summary_text(
        agent,
        issues.len(),
        issues.filter(of_criticality(Criticality::Critical)).len(),
        issues.filter(of_criticality(Criticality::Medium)).len(),
        issues.filter(of_criticality(Criticality::Low)).len(),
    )
}

fn push_str_chars(out: &mut Vec<char>, s: &str)
    ensures
        final(out)@ == old(out)@ + s@,
{
    let mut c = str_chars(s);
    out.append(&mut c);
}

fn push_decimal(out: &mut Vec<char>, n: usize)
    ensures
        final(out)@ == old(out)@ + decimal(n as nat),
{
    let mut d = usize_to_decimal(n);
    out.append(&mut d);
}

/// The validation report around a rendered table: a line saying the prompt
/// passed when there are no issues; otherwise the summary of the counts
/// followed by the table.
pub fn validation_report(agent_name: &str, issues: &[ValidationIssue], table: &str) -> (res: String)
    ensures
        issues@.len() == 0 ==> res@ == passed_text(agent_name@),
        issues@.len() > 0 ==> res@ == issues_summary(agent_name@, issues@) + table@,
{
    let mut out: Vec<char> = Vec::new();
    if issues.len() == 0 {
        push_str_chars(&mut out, "✅ Agent '");
        push_str_chars(&mut out, agent_name);
        push_str_chars(&mut out, "' prompt validation passed - no issues found");
        return string_from_chars(out.as_slice());
    }
    let (c, m, l) = count_by_criticality(issues);
    proof {
        assert(of_criticality(Criticality::Critical) =~= (|i: ValidationIssue| i.criticality == Criticality::Critical));
        assert(of_criticality(Criticality::Medium) =~= (|i: ValidationIssue| i.criticality == Criticality::Medium));
        assert(of_criticality(Criticality::Low) =~= (|i: ValidationIssue| i.criticality == Criticality::Low));
    }
    push_str_chars(&mut out, "⚠️  Agent '");
    push_str_chars(&mut out, agent_name);
    push_str_chars(&mut out, "' prompt validation found ");
    push_decimal(&mut out, issues.len());
    push_str_chars(&mut out, " issue(s): ");
    push_decimal(&mut out, c);
    push_str_chars(&mut out, " critical, ");
    push_decimal(&mut out, m);
    push_str_chars(&mut out, " medium, ");
    push_decimal(&mut out, l);
    push_str_chars(&mut out, " low\n\n");
    let ghost head = out@;
    assert(head =~= issues_summary(agent_name@, issues@));
    push_str_chars(&mut out, table);
    string_from_chars(out.as_slice())
}

/// The validation report: a line saying the prompt passed when there are no
/// issues; otherwise the summary of the counts followed by the table of the
/// issues (columns from `issue_table_header`, rows from `issue_rows`, most
/// severe first) as `comfy_table` renders it.
pub fn format_validation_table(agent_name: &str, issues: &[ValidationIssue]) -> (res: String)
    ensures
        issues@.len() == 0 ==> res@ == passed_text(agent_name@),
        issues@.len() > 0 ==> exists|table: Seq<char>|
            table.len() > 0 && res@ == issues_summary(agent_name@, issues@) + table,
{
    if issues.len() == 0 {
        return validation_report(agent_name, issues, "");
    }
    let table = render_issue_table(issue_table_header(), issue_rows(issues));
    let res = validation_report(agent_name, issues, table.as_str());
    assert(table@.len() > 0 && res@ == issues_summary(agent_name@, issues@) + table@);
    res
}

pub open spec fn required_variable_issue(name: Seq<char>) -> IssueView {
    IssueView {
        category: "Missing Variable"@,
        missing_items: seq![name],
        description: "Required for agent execution"@,
        criticality: Criticality::Critical,
    }
}

proof fn lemma_in_concat(a: Seq<IssueView>, b: Seq<IssueView>, x: IssueView)
    requires
        b.contains(x),
    ensures
        (a + b).contains(x),
{
    let j = choose|j: int| 0 <= j < b.len() && b[j] == x;
    assert((a + b)[a.len() + j] == x);
}

proof fn lemma_in_concat_left(a: Seq<IssueView>, b: Seq<IssueView>, x: IssueView)
    requires
        a.contains(x),
    ensures
        (a + b).contains(x),
{
    let j = choose|j: int| 0 <= j < a.len() && a[j] == x;
    assert((a + b)[j] == x);
}

/// A custom template without `{{task}}` or without `{{available_tools}}`
/// is reported with a critical "Missing Variable" issue naming it
/// ("Required for agent execution").
pub proof fn lemma_required_variables_critical(t: Seq<char>)
    ensures
        !spec_contains(t, "{{task}}"@) ==> custom_prompt_issues(t).contains(required_variable_issue("task"@)),
        !spec_contains(t, "{{available_tools}}"@) ==> custom_prompt_issues(t).contains(
            required_variable_issue("available_tools"@),
        ),
{
    let p = missing_partial(t, "{{> core_instructions}}"@, "core_instructions"@, Criticality::Medium)
        + missing_partial(t, "{{> communication}}"@, "communication"@, Criticality::Low)
        + missing_partial(t, "{{> tools_xml}}"@, "tools_xml"@, Criticality::Medium)
        + missing_partial(t, "{{> tools_json}}"@, "tools_json"@, Criticality::Medium)
        + missing_partial(t, "{{> reasoning}}"@, "reasoning"@, Criticality::Medium);
    let vt = missing_variable(t, "{{task}}"@, "task"@, Criticality::Critical);
    let va = missing_variable(t, "{{available_tools}}"@, "available_tools"@, Criticality::Critical);
    let vs = missing_variable(t, "{{scratchpad}}"@, "scratchpad"@, Criticality::Medium);
    let bp = best_practice_issues(t);
    assert(custom_prompt_issues(t) == p + vt + va + vs + bp);
    if !spec_contains(t, "{{task}}"@) {
        assert(vt[0] == required_variable_issue("task"@));
        lemma_in_concat(p, vt, required_variable_issue("task"@));
        lemma_in_concat_left(p + vt, va, required_variable_issue("task"@));
        lemma_in_concat_left(p + vt + va, vs, required_variable_issue("task"@));
        lemma_in_concat_left(p + vt + va + vs, bp, required_variable_issue("task"@));
    }
    if !spec_contains(t, "{{available_tools}}"@) {
        assert(va[0] == required_variable_issue("available_tools"@));
        lemma_in_concat(p + vt, va, required_variable_issue("available_tools"@));
        lemma_in_concat_left(p + vt + va, vs, required_variable_issue("available_tools"@));
        lemma_in_concat_left(p + vt + va + vs, bp, required_variable_issue("available_tools"@));
    }
}

} // verus!
