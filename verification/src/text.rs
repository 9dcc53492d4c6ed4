//! Character-level text helpers shared by the parsers and validators.
use vstd::prelude::*;

verus! {

/// The characters of a string slice.
pub fn str_chars(s: &str) -> (res: Vec<char>)
    ensures
        res@ == s@,
{
    let mut res: Vec<char> = Vec::new();
    for c in it: s.chars()
        invariant
            res@ == it.seq().take(it.index() as int),
    {
        res.push(c);
    }
    res
}

/// Builds a `String` from characters (`String::from_iter`).
#[verifier::external_body]
pub(crate) fn string_from_chars(chars: &[char]) -> (res: String)
    ensures
        res@ == chars@,
{
    chars.iter().collect()
}

/// A `String` holding the characters of a string slice.
pub fn owned(s: &str) -> (res: String)
    ensures
        res@ == s@,
{
    s.to_owned()
}

/// Unicode `White_Space` property (what `char::is_whitespace` and the
/// regex class `\s` test).
pub open spec fn spec_is_whitespace(c: char) -> bool {
    let u = c as u32;
    ||| 0x09 <= u <= 0x0D
    ||| u == 0x20
    ||| u == 0x85
    ||| u == 0xA0
    ||| u == 0x1680
    ||| 0x2000 <= u <= 0x200A
    ||| u == 0x2028
    ||| u == 0x2029
    ||| u == 0x202F
    ||| u == 0x205F
    ||| u == 0x3000
}

pub fn is_whitespace(c: char) -> (res: bool)
    ensures
        res == spec_is_whitespace(c),
{
    let u = c as u32;
    (0x09 <= u && u <= 0x0D) || u == 0x20 || u == 0x85 || u == 0xA0 || u == 0x1680 || (0x2000
        <= u && u <= 0x200A) || u == 0x2028 || u == 0x2029 || u == 0x202F || u == 0x205F || u
        == 0x3000
}

/// `pat` occurs in `s` starting at index `i`.
pub open spec fn occurs_at(s: Seq<char>, pat: Seq<char>, i: int) -> bool {
    0 <= i && i + pat.len() <= s.len() && s.subrange(i, i + pat.len()) == pat
}

/// `pat` occurs somewhere in `s`.
pub open spec fn spec_contains(s: Seq<char>, pat: Seq<char>) -> bool {
    exists|i: int| #[trigger] occurs_at(s, pat, i)
}

/// `s` begins with `pat`.
pub open spec fn spec_starts_with(s: Seq<char>, pat: Seq<char>) -> bool {
    occurs_at(s, pat, 0)
}

/// Whether `pat` occurs in `s` at `i`.
pub fn matches_at(s: &[char], pat: &[char], i: usize) -> (res: bool)
    ensures
        res == occurs_at(s@, pat@, i as int),
{
    if i > s.len() || pat.len() > s.len() - i {
        return false;
    }
    let mut k: usize = 0;
    while k < pat.len()
        invariant
            k <= pat.len(),
            i + pat.len() <= s.len(),
            forall|m: int| 0 <= m < k ==> s@[i + m] == pat@[m],
        decreases pat.len() - k,
    {
        if s[i + k] != pat[k] {
            assert(s@.subrange(i as int, i + pat.len())[k as int] != pat@[k as int]);
            return false;
        }
        k = k + 1;
    }
    assert(s@.subrange(i as int, i + pat.len()) =~= pat@);
    true
}

/// The first index at or after `from` where `pat` occurs in `s`.
pub fn find_from(s: &[char], pat: &[char], from: usize) -> (res: Option<usize>)
    ensures
        match res {
            Some(i) => from <= i && occurs_at(s@, pat@, i as int) && forall|j: int|
                from <= j < i ==> !#[trigger] occurs_at(s@, pat@, j),
            None => forall|j: int| from <= j ==> !#[trigger] occurs_at(s@, pat@, j),
        },
{
    if from > s.len() {
        return None;
    }
    let mut i: usize = from;
    loop
        invariant
            from <= i <= s.len(),
            forall|j: int| from <= j < i ==> !#[trigger] occurs_at(s@, pat@, j),
        decreases s.len() - i,
    {
        if matches_at(s, pat, i) {
            return Some(i);
        }
        if i == s.len() {
            return None;
        }
        i = i + 1;
    }
}

/// Whether `pat` occurs anywhere in `s`.
pub fn contains(s: &[char], pat: &[char]) -> (res: bool)
    ensures
        res == spec_contains(s@, pat@),
{
    match find_from(s, pat, 0) {
        Some(i) => true,
        None => false,
    }
}

/// Whether a string slice contains a pattern.
pub fn str_contains(s: &str, pat: &str) -> (res: bool)
    ensures
        res == spec_contains(s@, pat@),
{
    let sc = str_chars(s);
    let pc = str_chars(pat);
    contains(sc.as_slice(), pc.as_slice())
}

/// Index of the first non-whitespace character at or after `from` (or `end`).
pub open spec fn skip_ws(s: Seq<char>, from: int, end: int) -> int
    decreases end - from,
{
    if from < end && from < s.len() && spec_is_whitespace(s[from]) {
        skip_ws(s, from + 1, end)
    } else {
        from
    }
}

/// Index one past the last non-whitespace character before `to` (or `start`).
pub open spec fn skip_ws_back(s: Seq<char>, start: int, to: int) -> int
    decreases to - start,
{
    if start < to && 0 < to <= s.len() && spec_is_whitespace(s[to - 1]) {
        skip_ws_back(s, start, to - 1)
    } else {
        to
    }
}

/// `s` without leading and trailing whitespace (`str::trim`).
pub open spec fn spec_trim(s: Seq<char>) -> Seq<char> {
    let a = skip_ws(s, 0, s.len() as int);
    let b = skip_ws_back(s, a, s.len() as int);
    s.subrange(a, b)
}

pub proof fn lemma_skip_ws_bounds(s: Seq<char>, from: int, end: int)
    requires
        0 <= from <= end <= s.len(),
    ensures
        from <= skip_ws(s, from, end) <= end,
        forall|k: int| from <= k < skip_ws(s, from, end) ==> spec_is_whitespace(#[trigger] s[k]),
        skip_ws(s, from, end) < end ==> !spec_is_whitespace(s[skip_ws(s, from, end)]),
    decreases end - from,
{
    if from < end && spec_is_whitespace(s[from]) {
        lemma_skip_ws_bounds(s, from + 1, end);
    }
}

pub proof fn lemma_skip_ws_back_bounds(s: Seq<char>, start: int, to: int)
    requires
        0 <= start <= to <= s.len(),
    ensures
        start <= skip_ws_back(s, start, to) <= to,
        forall|k: int| skip_ws_back(s, start, to) <= k < to ==> spec_is_whitespace(#[trigger] s[k]),
        start < skip_ws_back(s, start, to) ==> !spec_is_whitespace(s[skip_ws_back(s, start, to) - 1]),
    decreases to - start,
{
    if start < to && spec_is_whitespace(s[to - 1]) {
        lemma_skip_ws_back_bounds(s, start, to - 1);
    }
}

/// `skip_ws` computed from `from`, never going past `end`.
pub fn skip_whitespace(s: &[char], from: usize, end: usize) -> (res: usize)
    requires
        from <= end <= s.len(),
    ensures
        res == skip_ws(s@, from as int, end as int),
        from <= res <= end,
{
    let mut i = from;
    proof {
        lemma_skip_ws_bounds(s@, from as int, end as int);
    }
    while i < end && is_whitespace(s[i])
        invariant
            from <= i <= end <= s.len(),
            skip_ws(s@, i as int, end as int) == skip_ws(s@, from as int, end as int),
        decreases end - i,
    {
        i = i + 1;
    }
    i
}

/// `skip_ws_back` computed from `to`, never going before `start`.
pub fn skip_whitespace_back(s: &[char], start: usize, to: usize) -> (res: usize)
    requires
        start <= to <= s.len(),
    ensures
        res == skip_ws_back(s@, start as int, to as int),
        start <= res <= to,
{
    let mut j = to;
    proof {
        lemma_skip_ws_back_bounds(s@, start as int, to as int);
    }
    while j > start && is_whitespace(s[j - 1])
        invariant
            start <= j <= to <= s.len(),
            skip_ws_back(s@, start as int, j as int) == skip_ws_back(s@, start as int, to as int),
        decreases j,
    {
        j = j - 1;
    }
    j
}

/// The bounds of `spec_trim(s)` within `s`.
pub fn trim_bounds(s: &[char]) -> (res: (usize, usize))
    ensures
        res.0 <= res.1 <= s.len(),
        s@.subrange(res.0 as int, res.1 as int) == spec_trim(s@),
        res.0 == skip_ws(s@, 0, s@.len() as int),
{
    let a = skip_whitespace(s, 0, s.len());
    let b = skip_whitespace_back(s, a, s.len());
    (a, b)
}

/// Sub-slice of characters as a new vector.
pub fn slice_to_vec(s: &[char], a: usize, b: usize) -> (res: Vec<char>)
    requires
        a <= b <= s.len(),
    ensures
        res@ == s@.subrange(a as int, b as int),
{
    let mut res: Vec<char> = Vec::new();
    let mut k = a;
    while k < b
        invariant
            a <= k <= b <= s.len(),
            res@ == s@.subrange(a as int, k as int),
        decreases b - k,
    {
        res.push(s[k]);
        k = k + 1;
        assert(res@ =~= s@.subrange(a as int, k as int));
    }
    res
}

/// Whether two character slices are equal.
pub fn chars_eq(a: &[char], b: &[char]) -> (res: bool)
    ensures
        res == (a@ == b@),
{
    if a.len() != b.len() {
        return false;
    }
    let r = matches_at(a, b, 0);
    proof {
        if r {
            assert(a@.subrange(0, b@.len() as int) =~= a@);
        } else {
            assert(a@.subrange(0, b@.len() as int) =~= a@);
        }
    }
    r
}

/// The characters of an optional string.
pub open spec fn opt_chars(o: Option<String>) -> Option<Seq<char>> {
    match o {
        Some(s) => Some(s@),
        None => None,
    }
}

/// The characters of an optional string slice.
pub open spec fn opt_str_chars(o: Option<&str>) -> Option<Seq<char>> {
    match o {
        Some(s) => Some(s@),
        None => None,
    }
}

/// `a` followed by `b`.
pub fn cat(a: String, b: &str) -> (res: String)
    ensures
        res@ == a@ + b@,
{
    let mut a = a;
    a.append(b);
    a
}

/// Whether two strings hold the same characters.
pub fn str_eq(a: &str, b: &str) -> (res: bool)
    ensures
        res == (a@ == b@),
{
    let x = str_chars(a);
    let y = str_chars(b);
    chars_eq(x.as_slice(), y.as_slice())
}

/// Lexicographic order on characters by code point, which is the order of
/// `str`/`String` comparison (UTF-8 byte order agrees with code point order).
pub open spec fn lex_lt(a: Seq<char>, b: Seq<char>) -> bool
    decreases a.len(),
{
    if a.len() == 0 {
        b.len() > 0
    } else if b.len() == 0 {
        false
    } else if (a[0] as u32) < (b[0] as u32) {
        true
    } else if a[0] == b[0] {
        lex_lt(a.drop_first(), b.drop_first())
    } else {
        false
    }
}

pub fn chars_lt(a: &[char], b: &[char]) -> (res: bool)
    ensures
        res == lex_lt(a@, b@),
{
    let mut k: usize = 0;
    assert(a@.skip(0) =~= a@);
    assert(b@.skip(0) =~= b@);
    while k < a.len() && k < b.len()
        invariant
            k <= a.len(),
            k <= b.len(),
            a@.subrange(0, k as int) == b@.subrange(0, k as int),
            lex_lt(a@, b@) == lex_lt(a@.skip(k as int), b@.skip(k as int)),
        decreases a.len() - k,
    {
        let ca = a[k] as u32;
        let cb = b[k] as u32;
        if ca < cb {
            return true;
        }
        if ca != cb {
            return false;
        }
        proof {
            vstd::utf8::char_u32_cast(a@[k as int], ca);
            vstd::utf8::char_u32_cast(b@[k as int], cb);
        }
        assert(a@.skip(k as int).drop_first() =~= a@.skip(k + 1));
        assert(b@.skip(k as int).drop_first() =~= b@.skip(k + 1));
        assert(a@.subrange(0, k + 1) =~= a@.subrange(0, k as int).push(a@[k as int]));
        assert(b@.subrange(0, k + 1) =~= b@.subrange(0, k as int).push(b@[k as int]));
        k = k + 1;
    }
    k < b.len()
}

pub proof fn lemma_lex_lt_irreflexive(a: Seq<char>)
    ensures
        !lex_lt(a, a),
    decreases a.len(),
{
    if a.len() > 0 {
        lemma_lex_lt_irreflexive(a.drop_first());
    }
}

pub proof fn lemma_lex_lt_total(a: Seq<char>, b: Seq<char>)
    ensures
        a != b ==> lex_lt(a, b) || lex_lt(b, a),
        !(lex_lt(a, b) && lex_lt(b, a)),
    decreases a.len(),
{
    if a.len() > 0 && b.len() > 0 {
        lemma_lex_lt_total(a.drop_first(), b.drop_first());
        if a != b && a[0] == b[0] {
            assert(a.drop_first() != b.drop_first()) by {
                if a.drop_first() == b.drop_first() {
                    assert(a =~= seq![a[0]] + a.drop_first());
                    assert(b =~= seq![b[0]] + b.drop_first());
                }
            }
        }
        if (a[0] as u32) == (b[0] as u32) {
            vstd::utf8::char_u32_cast(a[0], a[0] as u32);
            vstd::utf8::char_u32_cast(b[0], b[0] as u32);
        }
    } else if a.len() == 0 && b.len() == 0 {
        assert(a =~= b);
    }
}

pub proof fn lemma_lex_lt_transitive(a: Seq<char>, b: Seq<char>, c: Seq<char>)
    requires
        lex_lt(a, b),
        lex_lt(b, c),
    ensures
        lex_lt(a, c),
    decreases a.len(),
{
    if a.len() > 0 && b.len() > 0 && c.len() > 0 && a[0] == b[0] && b[0] == c[0] {
        lemma_lex_lt_transitive(a.drop_first(), b.drop_first(), c.drop_first());
    }
}

/// Concatenation of `parts` separated by `sep` (`[T]::join`).
pub open spec fn spec_join(parts: Seq<Seq<char>>, sep: Seq<char>) -> Seq<char>
    decreases parts.len(),
{
    if parts.len() == 0 {
        Seq::empty()
    } else if parts.len() == 1 {
        parts[0]
    } else {
        spec_join(parts.drop_last(), sep) + sep + parts.last()
    }
}

/// The character views of a sequence of strings.
pub open spec fn str_views(s: Seq<String>) -> Seq<Seq<char>> {
    s.map_values(|x: String| x@)
}

/// Joins strings with a separator (`[String]::join`).
pub fn join_strings(parts: &[String], sep: &str) -> (res: String)
    ensures
        res@ == spec_join(str_views(parts@), sep@),
{
    let mut chunks: Vec<Vec<char>> = Vec::new();
    let mut i: usize = 0;
    while i < parts.len()
        invariant
            i <= parts.len(),
            chunks@.map_values(|p: Vec<char>| p@) == str_views(parts@.take(i as int)),
        decreases parts.len() - i,
    {
        let ghost before = chunks@;
        assert(before.map_values(|p: Vec<char>| p@).len() == i);
        let piece = str_chars(parts[i].as_str());
        chunks.push(piece);
        proof {
            assert(chunks@ == before.push(piece));
            let lhs = chunks@.map_values(|p: Vec<char>| p@);
            let rhs = str_views(parts@.take(i + 1));
            assert forall|j: int| 0 <= j < i + 1 implies lhs[j] == rhs[j] by {
                if j < i {
                    assert(before.map_values(|p: Vec<char>| p@)[j] == str_views(parts@.take(i as int))[j]);
                    assert(chunks@[j] == before[j]);
                }
            }
            assert(lhs =~= rhs);
        }
        i = i + 1;
    }
    assert(parts@.take(i as int) =~= parts@);
    let sc = str_chars(sep);
    let joined = join_chars(&chunks, sc.as_slice());
    string_from_chars(joined.as_slice())
}

/// Joins character sequences with a separator.
pub fn join_chars(parts: &Vec<Vec<char>>, sep: &[char]) -> (res: Vec<char>)
    ensures
        res@ == spec_join(parts@.map_values(|p: Vec<char>| p@), sep@),
{
    let ghost views = parts@.map_values(|p: Vec<char>| p@);
    let mut res: Vec<char> = Vec::new();
    let mut i: usize = 0;
    while i < parts.len()
        invariant
            i <= parts.len(),
            views == parts@.map_values(|p: Vec<char>| p@),
            res@ == spec_join(views.take(i as int), sep@),
        decreases parts.len() - i,
    {
        let ghost before = res@;
        if i > 0 {
            let mut k: usize = 0;
            while k < sep.len()
                invariant
                    k <= sep.len(),
                    res@ == before + sep@.take(k as int),
                decreases sep.len() - k,
            {
                res.push(sep[k]);
                k = k + 1;
                assert(res@ =~= before + sep@.take(k as int));
            }
        }
        let ghost mid = res@;
        let p = &parts[i];
        let mut k: usize = 0;
        while k < p.len()
            invariant
                k <= p.len(),
                res@ == mid + p@.take(k as int),
            decreases p.len() - k,
        {
            res.push(p[k]);
            k = k + 1;
            assert(res@ =~= mid + p@.take(k as int));
        }
        proof {
            assert(views.take(i + 1).drop_last() =~= views.take(i as int));
            assert(views.take(i + 1).last() == p@);
            assert(sep@.take(sep@.len() as int) =~= sep@);
            assert(p@.take(p@.len() as int) =~= p@);
            if i == 0 {
                assert(before =~= Seq::<char>::empty());
                assert(res@ =~= p@);
            }
        }
        i = i + 1;
    }
    assert(views.take(i as int) =~= views);
    res
}

/// The first index at or after `from` where `pat` occurs in `s`.
pub open spec fn first_occ(s: Seq<char>, pat: Seq<char>, from: int) -> Option<int>
    decreases s.len() + 1 - from,
{
    if from < 0 || from > s.len() {
        None
    } else if occurs_at(s, pat, from) {
        Some(from)
    } else {
        first_occ(s, pat, from + 1)
    }
}

pub proof fn lemma_first_occ(s: Seq<char>, pat: Seq<char>, from: int)
    requires
        0 <= from,
    ensures
        first_occ(s, pat, from) matches Some(i) ==> from <= i && occurs_at(s, pat, i) && forall|j: int|
            from <= j < i ==> !#[trigger] occurs_at(s, pat, j),
        first_occ(s, pat, from) is None ==> forall|j: int| from <= j ==> !#[trigger] occurs_at(s, pat, j),
    decreases s.len() + 1 - from,
{
    if from <= s.len() && !occurs_at(s, pat, from) {
        lemma_first_occ(s, pat, from + 1);
    }
}

pub open spec fn opt_usize_to_int(o: Option<usize>) -> Option<int> {
    match o {
        Some(i) => Some(i as int),
        None => None,
    }
}

/// `find_from`, stated as `first_occ`.
pub fn find_first(s: &[char], pat: &[char], from: usize) -> (res: Option<usize>)
    ensures
        opt_usize_to_int(res) == first_occ(s@, pat@, from as int),
        res matches Some(i) ==> from <= i && i + pat@.len() <= s@.len(),
{
    let r = find_from(s, pat, from);
    proof {
        lemma_first_occ(s@, pat@, from as int);
        match r {
            Some(i) => {
                match first_occ(s@, pat@, from as int) {
                    Some(k) => {
                        if k < i {
                        } else if k > i {
                        }
                    },
                    None => {},
                }
            },
            None => {},
        }
    }
    r
}

/// Splits at `\n`, removing a `\r` that precedes it, as `str::lines` does;
/// a final line ending does not start another line.
pub open spec fn lines_from(s: Seq<char>, pos: int) -> Seq<Seq<char>>
    decreases s.len() - pos,
{
    if pos < 0 || pos >= s.len() {
        Seq::empty()
    } else {
        let e = line_end(s, pos);
        let raw = s.subrange(pos, e);
        let line = if e < s.len() && raw.len() > 0 && raw.last() == '\r' {
            raw.drop_last()
        } else {
            raw
        };
        proof {
            lemma_line_end(s, pos);
        }
        if e < s.len() {
            seq![line] + lines_from(s, e + 1)
        } else {
            seq![line]
        }
    }
}

/// Index of the first `\n` at or after `pos`, or the length of `s`.
pub open spec fn line_end(s: Seq<char>, pos: int) -> int
    decreases s.len() - pos,
{
    if pos < 0 || pos >= s.len() {
        s.len() as int
    } else if s[pos] == '\n' {
        pos
    } else {
        line_end(s, pos + 1)
    }
}

pub proof fn lemma_line_end(s: Seq<char>, pos: int)
    requires
        0 <= pos <= s.len(),
    ensures
        pos <= line_end(s, pos) <= s.len(),
        line_end(s, pos) < s.len() ==> s[line_end(s, pos)] == '\n',
        forall|k: int| pos <= k < line_end(s, pos) ==> #[trigger] s[k] != '\n',
    decreases s.len() - pos,
{
    if pos < s.len() && s[pos] != '\n' {
        lemma_line_end(s, pos + 1);
    }
}

pub open spec fn spec_lines(s: Seq<char>) -> Seq<Seq<char>> {
    lines_from(s, 0)
}

/// The lines of `s` (`str::lines`), as bounds into `s`.
pub fn line_bounds(s: &[char]) -> (res: Vec<(usize, usize)>)
    ensures
        res@.len() == spec_lines(s@).len(),
        forall|k: int|
            0 <= k < res@.len() ==> (#[trigger] res@[k]).0 <= res@[k].1 <= s@.len() && s@.subrange(
                res@[k].0 as int,
                res@[k].1 as int,
            ) == spec_lines(s@)[k],
{
    let mut res: Vec<(usize, usize)> = Vec::new();
    let mut pos: usize = 0;
    while pos < s.len()
        invariant
            pos <= s.len(),
            spec_lines(s@) == res@.map_values(|b: (usize, usize)| s@.subrange(b.0 as int, b.1 as int))
                + lines_from(s@, pos as int),
            forall|k: int| 0 <= k < res@.len() ==> (#[trigger] res@[k]).0 <= res@[k].1 <= s@.len(),
        decreases s.len() - pos,
    {
        let mut e = pos;
        proof {
            lemma_line_end(s@, pos as int);
        }
        while e < s.len() && s[e] != '\n'
            invariant
                pos <= e <= s.len(),
                line_end(s@, e as int) == line_end(s@, pos as int),
            decreases s.len() - e,
        {
            e = e + 1;
        }
        let mut stop = e;
        if e < s.len() && e > pos && s[e - 1] == '\r' {
            stop = e - 1;
        }
        let ghost prev = res@;
        res.push((pos, stop));
        proof {
            let f = |b: (usize, usize)| s@.subrange(b.0 as int, b.1 as int);
            let raw = s@.subrange(pos as int, e as int);
            if e < s@.len() && raw.len() > 0 && raw.last() == '\r' {
                assert(raw.drop_last() =~= s@.subrange(pos as int, stop as int));
            }
            assert(res@.map_values(f) =~= prev.map_values(f).push(s@.subrange(pos as int, stop as int)));
            if e < s@.len() {
                assert(lines_from(s@, pos as int) =~= seq![s@.subrange(pos as int, stop as int)] + lines_from(s@, e + 1));
            } else {
                assert(lines_from(s@, pos as int) =~= seq![s@.subrange(pos as int, stop as int)] + lines_from(s@, e as int));
            }
        }
        if e == s.len() {
            pos = e;
        } else {
            pos = e + 1;
        }
    }
    assert(lines_from(s@, pos as int) =~= Seq::<Seq<char>>::empty());
    proof {
        let f = |b: (usize, usize)| s@.subrange(b.0 as int, b.1 as int);
        assert(res@.map_values(f) + Seq::<Seq<char>>::empty() =~= res@.map_values(f));
    }
    res
}

} // verus!
