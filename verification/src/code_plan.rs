//! Extraction of code plans (fenced TypeScript/JavaScript blocks and the
//! surrounding prose) from model output.
use vstd::prelude::*;
use crate::definition::{AgentStrategy, StandardDefinition};
use crate::agent_types::AgentError;
use crate::message::Part;
use crate::prompt_validation::char_views;
use crate::text::{
    find_first, first_occ, join_chars, line_bounds, matches_at, occurs_at, opt_usize_to_int, slice_to_vec,
    spec_join, spec_lines, spec_starts_with, spec_trim, str_chars, string_from_chars, trim_bounds,
    lemma_first_occ,
};

verus! {

/// Language of the generated code.
#[derive(PartialEq, Eq, Structural, Clone, Copy, Debug)]
pub enum CodeLanguage {
    TypeScript,
}

/// Planner that generates executable code steps.
pub struct CodePlanner {
    pub language: CodeLanguage,
    pub agent_def: StandardDefinition,
    pub strategy: AgentStrategy,
}

pub struct CodePlan {
    pub code: String,
    pub thought: Option<String>,
}

pub open spec fn ts_fence() -> Seq<char> {
    "```typescript\n"@
}

pub open spec fn ts_short_fence() -> Seq<char> {
    "```ts\n"@
}

pub open spec fn js_fence() -> Seq<char> {
    "```javascript\n"@
}

pub open spec fn js_short_fence() -> Seq<char> {
    "```js\n"@
}

pub open spec fn close_fence() -> Seq<char> {
    "```"@
}

/// Keeps the earlier of a candidate opening and a new occurrence (the
/// candidate wins ties).
pub open spec fn earlier(best: Option<(int, int)>, occ: Option<int>, len: int) -> Option<(int, int)> {
    match occ {
        Some(x) => match best {
            None => Some((x, len)),
            Some(b) => if x < b.0 {
                Some((x, len))
            } else {
                best
            },
        },
        None => best,
    }
}

/// Start and length of the earliest opening fence at or after `pos`.
pub open spec fn earliest_open(s: Seq<char>, pos: int) -> Option<(int, int)> {
    earlier(
        earlier(
            earlier(
                earlier(None, first_occ(s, ts_fence(), pos), ts_fence().len() as int),
                first_occ(s, ts_short_fence(), pos),
                ts_short_fence().len() as int,
            ),
            first_occ(s, js_fence(), pos),
            js_fence().len() as int,
        ),
        first_occ(s, js_short_fence(), pos),
        js_short_fence().len() as int,
    )
}

/// The trimmed, non-empty code blocks found scanning from `pos`.
pub open spec fn code_blocks(s: Seq<char>, pos: int) -> Seq<Seq<char>>
    decreases s.len() - pos,
{
    if pos < 0 || pos >= s.len() {
        Seq::empty()
    } else {
        match earliest_open(s, pos) {
            None => Seq::empty(),
            Some(open) => {
                let cs = open.0 + open.1;
                if cs < 0 {
                    Seq::empty()
                } else {
                    match first_occ(s, close_fence(), cs) {
                        None => Seq::empty(),
                        Some(e) => {
                            let code = spec_trim(s.subrange(cs, e));
                            proof {
                                lemma_earliest_open(s, pos);
                                lemma_first_occ(s, close_fence(), cs);
                            }
                            if e + 3 <= s.len() && e + 3 > pos {
                                (if code.len() > 0 {
                                    seq![code]
                                } else {
                                    Seq::empty()
                                }) + code_blocks(s, e + 3)
                            } else {
                                Seq::empty()
                            }
                        },
                    }
                }
            },
        }
    }
}

pub proof fn lemma_earliest_open(s: Seq<char>, pos: int)
    requires
        0 <= pos,
    ensures
        earliest_open(s, pos) matches Some(o) ==> pos <= o.0 && o.1 > 0 && occurs_at(
            s,
            s.subrange(o.0, o.0 + o.1),
            o.0,
        ) && o.0 + o.1 <= s.len(),
{
    lemma_first_occ(s, ts_fence(), pos);
    lemma_first_occ(s, ts_short_fence(), pos);
    lemma_first_occ(s, js_fence(), pos);
    lemma_first_occ(s, js_short_fence(), pos);
    assert(ts_fence().len() == 14) by {
        reveal_strlit("```typescript\n");
    }
    assert(ts_short_fence().len() == 6) by {
        reveal_strlit("```ts\n");
    }
    assert(js_fence().len() == 14) by {
        reveal_strlit("```javascript\n");
    }
    assert(js_short_fence().len() == 6) by {
        reveal_strlit("```js\n");
    }
}

pub open spec fn is_code_fence_open(t: Seq<char>) -> bool {
    ||| spec_starts_with(t, "```typescript"@)
    ||| spec_starts_with(t, "```ts"@)
    ||| spec_starts_with(t, "```javascript"@)
    ||| spec_starts_with(t, "```js"@)
}

pub open spec fn is_marker_line(t: Seq<char>) -> bool {
    t.len() > 0 && (t[0] == '#' || t[0] == '*' || t[0] == '-')
}

/// Trimmed prose lines outside code fences, skipping headings and list markers.
pub open spec fn thoughts_from(lines: Seq<Seq<char>>, in_code: bool) -> Seq<Seq<char>>
    decreases lines.len(),
{
    if lines.len() == 0 {
        Seq::empty()
    } else {
        let t = spec_trim(lines[0]);
        let rest = lines.drop_first();
        if is_code_fence_open(t) {
            thoughts_from(rest, true)
        } else if t == close_fence() && in_code {
            thoughts_from(rest, false)
        } else if !in_code && t.len() > 0 && !is_marker_line(t) {
            seq![t] + thoughts_from(rest, in_code)
        } else {
            thoughts_from(rest, in_code)
        }
    }
}

pub open spec fn spec_thoughts(s: Seq<char>) -> Option<Seq<char>> {
    let th = thoughts_from(spec_lines(s), false);
    if th.len() == 0 {
        None
    } else {
        Some(spec_join(th, " "@))
    }
}

pub open spec fn opt_string_view(o: Option<String>) -> Option<Seq<char>> {
    match o {
        Some(s) => Some(s@),
        None => None,
    }
}

/// Keeps the earlier of `best` and the first occurrence of `pat` from `pos`.
fn consider_fence(best: Option<(usize, usize)>, s: &[char], pat: &str, pos: usize) -> (res: Option<(usize, usize)>)
    requires
        best matches Some(b) ==> b.0 + b.1 <= s@.len(),
    ensures
        res matches Some(r) ==> r.0 + r.1 <= s@.len(),
        opt_pair(res) == earlier(opt_pair(best), first_occ(s@, pat@, pos as int), pat@.len() as int),
{
    let p = str_chars(pat);
    match find_first(s, p.as_slice(), pos) {
        Some(x) => match best {
            None => Some((x, p.len())),
            Some(b) => if x < b.0 {
                Some((x, p.len()))
            } else {
                best
            },
        },
        None => best,
    }
}

pub open spec fn opt_pair(o: Option<(usize, usize)>) -> Option<(int, int)> {
    match o {
        Some(p) => Some((p.0 as int, p.1 as int)),
        None => None,
    }
}

impl CodePlanner {
    pub fn new(language: CodeLanguage, agent_def: StandardDefinition, strategy: AgentStrategy) -> (res: Self)
        ensures
            res.language == language,
            res.agent_def == agent_def,
            res.strategy == strategy,
    {
        CodePlanner { language, agent_def, strategy }
    }

    /// Parse TypeScript/JavaScript code blocks from content. The code is the
    /// trimmed, non-empty blocks joined by blank lines; the thought is the
    /// prose around them.
    pub fn parse_typescript_from_content(content: &str) -> (res: Option<CodePlan>)
        ensures
            code_blocks(content@, 0).len() == 0 ==> res is None,
            code_blocks(content@, 0).len() > 0 ==> (res matches Some(plan) && plan.code@ == spec_join(
                code_blocks(content@, 0),
                "\n\n"@,
            ) && opt_string_view(plan.thought) == spec_thoughts(content@)),
    {
        let cv = str_chars(content);
        let s = cv.as_slice();
        let close = str_chars("```");
        let mut codes: Vec<Vec<char>> = Vec::new();
        let mut pos: usize = 0;
        proof {
            assert(close@.len() == 3) by {
                reveal_strlit("```");
            }
        }
        while pos < s.len()
            invariant_except_break
                code_blocks(s@, 0) == char_views(codes@) + code_blocks(s@, pos as int),
            invariant
                close@ == close_fence(),
                close@.len() == 3,
                pos <= s.len() + 3,
            ensures
                code_blocks(s@, 0) == char_views(codes@),
            decreases s.len() - pos,
        {
            let ghost p0 = pos;
            let mut found: Option<(usize, usize)> = None;
            found = consider_fence(found, s, "```typescript\n", pos);
            found = consider_fence(found, s, "```ts\n", pos);
            found = consider_fence(found, s, "```javascript\n", pos);
            found = consider_fence(found, s, "```js\n", pos);
            proof {
                lemma_earliest_open(s@, pos as int);
            }
            match found {
                Some((start, plen)) => {
                    let cs = start + plen;
                    match find_first(s, close.as_slice(), cs) {
                        Some(e) => {
                            proof {
                                lemma_first_occ(s@, close_fence(), cs as int);
                            }
                            let raw = slice_to_vec(s, cs, e);
                            let (a, b) = trim_bounds(raw.as_slice());
                            let code = slice_to_vec(raw.as_slice(), a, b);
                            let ghost old_codes = char_views(codes@);
                            if code.len() > 0 {
                                codes.push(code);
                                assert(char_views(codes@) =~= old_codes + seq![code@]);
                            }
                            proof {
                                let rest = code_blocks(s@, e + 3);
                                if code@.len() > 0 {
                                    assert(code_blocks(s@, pos as int) == seq![code@] + rest);
                                    assert(old_codes + (seq![code@] + rest) =~= char_views(codes@) + rest);
                                } else {
                                    assert(code_blocks(s@, pos as int) =~= rest);
                                }
                            }
                            pos = e + 3;
                            if pos >= s.len() {
                                assert(code_blocks(s@, pos as int) =~= Seq::<Seq<char>>::empty());
                                assert(char_views(codes@) + Seq::<Seq<char>>::empty() =~= char_views(codes@));
                                break;
                            }
                        },
                        None => {
                            assert(char_views(codes@) + Seq::<Seq<char>>::empty() =~= char_views(codes@));
                            break;
                        },
                    }
                },
                None => {
                    assert(char_views(codes@) + Seq::<Seq<char>>::empty() =~= char_views(codes@));
                    break;
                },
            }
        }
        if codes.len() == 0 {
            None
        } else {
            let sep = str_chars("\n\n");
            let joined = join_chars(&codes, sep.as_slice());
            let thought = Self::extract_thoughts_from_content(content);
            Some(CodePlan { code: string_from_chars(joined.as_slice()), thought })
        }
    }

    /// Prose lines outside code fences, trimmed and joined by spaces;
    /// headings (`#`) and list markers (`*`, `-`) are skipped.
    pub fn extract_thoughts_from_content(content: &str) -> (res: Option<String>)
        ensures
            opt_string_view(res) == spec_thoughts(content@),
    {
        let cv = str_chars(content);
        let s = cv.as_slice();
        let bounds = line_bounds(s);
        let ghost lines = spec_lines(s@);
        let ts = str_chars("```typescript");
        let ts_short = str_chars("```ts");
        let js = str_chars("```javascript");
        let js_short = str_chars("```js");
        let close = str_chars("```");
        let mut thoughts: Vec<Vec<char>> = Vec::new();
        let mut in_code = false;
        let mut k: usize = 0;
        assert(lines.skip(0) =~= lines);
        assert(char_views(thoughts@) + thoughts_from(lines, false) =~= thoughts_from(lines, false));
        while k < bounds.len()
            invariant
                k <= bounds.len(),
                bounds@.len() == lines.len(),
                lines == spec_lines(s@),
                forall|m: int|
                    0 <= m < bounds@.len() ==> (#[trigger] bounds@[m]).0 <= bounds@[m].1 <= s@.len()
                        && s@.subrange(bounds@[m].0 as int, bounds@[m].1 as int) == lines[m],
                thoughts_from(lines, false) == char_views(thoughts@) + thoughts_from(lines.skip(k as int), in_code),
                ts@ == "```typescript"@,
                ts_short@ == "```ts"@,
                js@ == "```javascript"@,
                js_short@ == "```js"@,
                close@ == close_fence(),
            decreases bounds.len() - k,
        {
            let (lo, hi) = bounds[k];
            let line = slice_to_vec(s, lo, hi);
            let (a, b) = trim_bounds(line.as_slice());
            let t = slice_to_vec(line.as_slice(), a, b);
            let tt = t.as_slice();
            let ghost rest = lines.skip(k as int);
            assert(rest[0] == lines[k as int]);
            assert(rest.drop_first() =~= lines.skip(k + 1));
            let ghost old_thoughts = char_views(thoughts@);
            if matches_at(tt, ts.as_slice(), 0) || matches_at(tt, ts_short.as_slice(), 0) || matches_at(
                tt,
                js.as_slice(),
                0,
            ) || matches_at(tt, js_short.as_slice(), 0) {
                in_code = true;
            } else if in_code && crate::text::chars_eq(tt, close.as_slice()) {
                in_code = false;
            } else if !in_code && t.len() > 0 && !(t[0] == '#' || t[0] == '*' || t[0] == '-') {
                thoughts.push(t);
                assert(char_views(thoughts@) =~= old_thoughts.push(tt@));
                assert(old_thoughts + (seq![tt@] + thoughts_from(lines.skip(k + 1), in_code)) =~= char_views(
                    thoughts@,
                ) + thoughts_from(lines.skip(k + 1), in_code));
            }
            k = k + 1;
        }
        assert(lines.skip(k as int) =~= Seq::<Seq<char>>::empty());
        assert(char_views(thoughts@) + Seq::<Seq<char>>::empty() =~= char_views(thoughts@));
        if thoughts.len() == 0 {
            None
        } else {
            let sep = str_chars(" ");
            let joined = join_chars(&thoughts, sep.as_slice());
            Some(string_from_chars(joined.as_slice()))
        }
    }
}

pub open spec fn code_failure_msg(content: Seq<char>) -> Seq<char> {
    "ERROR: Failed to get code from response: "@ + content
}

/// The plan made of a model response: one code step holding the response's
/// code (in `language`, by name) and the prose around it; a planning error
/// quoting the response when it holds no code block. The step's id is fresh.
pub fn plan_from_response(content: &str, language: &str) -> (res: Result<crate::planning::PlanStep, AgentError>)
    ensures
        code_blocks(content@, 0).len() == 0 <==> res is Err,
        res matches Err(e) ==> (e matches AgentError::Planning(m) && m@ == code_failure_msg(content@)),
        res matches Ok(step) ==> match step.action {
            crate::planning::Action::Code { code, language: lang } => code@ == spec_join(
                code_blocks(content@, 0),
                "\n\n"@,
            ) && lang@ == language@ && opt_string_view(step.thought) == spec_thoughts(content@),
            _ => false,
        },
{
    match CodePlanner::parse_typescript_from_content(content) {
        Some(plan) => Ok(
            crate::planning::PlanStep {
                id: crate::planning::new_uuid(),
                thought: plan.thought,
                action: crate::planning::Action::Code { code: plan.code, language: crate::text::owned(language) },
            },
        ),
        None => {
            let mut m = crate::text::owned("ERROR: Failed to get code from response: ");
            m.append(content);
            Err(AgentError::Planning(m))
        },
    }
}

/// The parts of the task message shown to the code planner: its images.
pub fn retain_image_parts(parts: Vec<Part>) -> (res: Vec<Part>)
    ensures
        res@ == parts@.filter(|p: Part| p is Image),
{
    let ghost all = parts@;
    let ghost f = |p: Part| p is Image;
    let mut out: Vec<Part> = Vec::new();
    let mut rest = parts;
    let total: usize = rest.len();
    let mut taken: usize = 0;
    proof {
        reveal_with_fuel(Seq::filter, 1);
        assert(all.take(0) =~= Seq::<Part>::empty());
        assert(rest@ =~= all.skip(0));
    }
    while rest.len() > 0
        invariant
            taken + rest@.len() == all.len(),
            all.len() == total,
            rest@ == all.skip(taken as int),
            f == (|p: Part| p is Image),
            out@ == all.take(taken as int).filter(f),
        decreases rest@.len(),
    {
        let p = rest.remove(0);
        proof {
            reveal_with_fuel(Seq::filter, 1);
            assert(all.take(taken + 1).drop_last() =~= all.take(taken as int));
            assert(all.take(taken + 1).last() == p);
            assert(rest@ =~= all.skip(taken + 1));
        }
        let keep = match &p {
            Part::Image(_) => true,
            _ => false,
        };
        if keep {
            out.push(p);
        }
        taken = taken + 1;
    }
    assert(all.take(taken as int) =~= all);
    out
}

} // verus!
