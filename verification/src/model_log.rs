//! The debug logger's switch and the truncation it applies to long tool
//! inputs and outputs before showing them. Lengths here are UTF-8 byte
//! lengths, as `str::len` counts them.
use vstd::prelude::*;
use crate::text::{first_occ, occurs_at, find_first, matches_at, str_chars, string_from_chars};

verus! {

/// Bytes in the UTF-8 encoding of a character.
pub open spec fn char_utf8_len(c: char) -> nat {
    let u = c as u32;
    if u < 0x80 {
        1
    } else if u < 0x800 {
        2
    } else if u < 0x10000 {
        3
    } else {
        4
    }
}

/// Bytes in the UTF-8 encoding of a string.
pub open spec fn utf8_len(s: Seq<char>) -> nat
    decreases s.len(),
{
    if s.len() == 0 {
        0
    } else {
        utf8_len(s.drop_last()) + char_utf8_len(s.last())
    }
}

/// Byte offset `b` falls between two characters of `s` (or at an end).
pub open spec fn is_char_boundary(s: Seq<char>, b: int) -> bool {
    exists|i: int| 0 <= i <= s.len() && #[trigger] utf8_len(s.take(i)) == b
}

/// The number of characters before byte offset `b`.
pub open spec fn boundary_index(s: Seq<char>, b: int) -> int {
    choose|i: int| 0 <= i <= s.len() && #[trigger] utf8_len(s.take(i)) == b
}

/// Non-overlapping occurrences of a non-empty `pat` in `s` at or after
/// `pos`, taken from the left (what `str::matches(..).count()` counts).
pub open spec fn count_matches(s: Seq<char>, pat: Seq<char>, pos: int) -> nat
    decreases s.len() - pos,
{
    if pat.len() == 0 || pos < 0 || pos + pat.len() > s.len() {
        0
    } else if occurs_at(s, pat, pos) {
        1 + count_matches(s, pat, pos + pat.len())
    } else {
        count_matches(s, pat, pos + 1)
    }
}

/// Decimal digits of a natural number.
pub open spec fn decimal(n: nat) -> Seq<char>
    decreases n,
{
    if n < 10 {
        seq![digit_char(n)]
    } else {
        decimal(n / 10).push(digit_char(n % 10))
    }
}

pub open spec fn digit_char(d: nat) -> char {
    if d == 0 {
        '0'
    } else if d == 1 {
        '1'
    } else if d == 2 {
        '2'
    } else if d == 3 {
        '3'
    } else if d == 4 {
        '4'
    } else if d == 5 {
        '5'
    } else if d == 6 {
        '6'
    } else if d == 7 {
        '7'
    } else if d == 8 {
        '8'
    } else {
        '9'
    }
}

pub open spec fn fence() -> Seq<char> {
    "```"@
}

/// Where the kept text ends: at `max_len` bytes; inside an unclosed code
/// block, just after the block's closing fence; and then, unless that text
/// ends a line, just after the first line break past `max_len`.
pub open spec fn truncation_end(t: Seq<char>, max_len: int) -> int {
    let k = boundary_index(t, max_len);
    let e1 = if count_matches(t.take(k), fence(), 0) % 2 == 1 {
        match first_occ(t, fence(), k) {
            Some(p) => p + 3,
            None => k,
        }
    } else {
        k
    };
    if e1 > 0 && t[e1 - 1] == '\n' {
        e1
    } else {
        match first_occ(t, seq!['\n'], k) {
            Some(q) => q + 1,
            None => e1,
        }
    }
}

/// A text of at most `max_len` bytes, unchanged; a longer one cut by
/// `truncation_end` and followed by a note giving its full length in bytes.
pub open spec fn spec_truncate(t: Seq<char>, max_len: int) -> Seq<char> {
    if utf8_len(t) <= max_len {
        t
    } else {
        t.take(truncation_end(t, max_len)) + "\n\n[Content truncated - "@ + decimal(utf8_len(t))
            + " chars total]"@
    }
}

proof fn lemma_utf8_len_take_step(s: Seq<char>, i: int)
    requires
        0 <= i < s.len(),
    ensures
        utf8_len(s.take(i + 1)) == utf8_len(s.take(i)) + char_utf8_len(s[i]),
{
    assert(s.take(i + 1).drop_last() =~= s.take(i));
}

proof fn lemma_utf8_len_take_mono(s: Seq<char>, i: int, j: int)
    requires
        0 <= i < j <= s.len(),
    ensures
        utf8_len(s.take(i)) < utf8_len(s.take(j)),
    decreases j - i,
{
    lemma_utf8_len_take_step(s, j - 1);
    if i < j - 1 {
        lemma_utf8_len_take_mono(s, i, j - 1);
    }
}

proof fn lemma_boundary_index(s: Seq<char>, b: int, k: int)
    requires
        0 <= k <= s.len(),
        utf8_len(s.take(k)) == b,
    ensures
        is_char_boundary(s, b),
        boundary_index(s, b) == k,
{
    let c = boundary_index(s, b);
    if c < k {
        lemma_utf8_len_take_mono(s, c, k);
    } else if c > k {
        lemma_utf8_len_take_mono(s, k, c);
    }
}

/// A truncated text keeps a prefix of the full text that is at least
/// `max_len` bytes long: the cut never falls inside the first `max_len`
/// bytes, and what follows the kept text is only the length note.
pub proof fn lemma_truncation_keeps_prefix(t: Seq<char>, max_len: int)
    requires
        utf8_len(t) > max_len >= 0,
        is_char_boundary(t, max_len),
    ensures
        boundary_index(t, max_len) <= truncation_end(t, max_len) <= t.len(),
        utf8_len(t.take(boundary_index(t, max_len))) == max_len,
        spec_truncate(t, max_len).take(truncation_end(t, max_len)) == t.take(truncation_end(t, max_len)),
{
    let k = boundary_index(t, max_len);
    crate::text::lemma_first_occ(t, fence(), k);
    crate::text::lemma_first_occ(t, seq!['\n'], k);
    assert(fence().len() == 3) by {
        reveal_strlit("```");
    }
    let e = truncation_end(t, max_len);
    assert((t.take(e) + "\n\n[Content truncated - "@ + decimal(utf8_len(t)) + " chars total]"@).take(e) =~= t.take(e));
}

fn char_len(c: char) -> (res: usize)
    ensures
        res == char_utf8_len(c),
{
    let u = c as u32;
    if u < 0x80 {
        1
    } else if u < 0x800 {
        2
    } else if u < 0x10000 {
        3
    } else {
        4
    }
}

/// UTF-8 length of a character sequence.
fn utf8_length(t: &[char]) -> (res: usize)
    requires
        utf8_len(t@) <= usize::MAX,
    ensures
        res == utf8_len(t@),
{
    let mut n: usize = 0;
    let mut i: usize = 0;
    while i < t.len()
        invariant
            i <= t.len(),
            n == utf8_len(t@.take(i as int)),
            utf8_len(t@) <= usize::MAX,
        decreases t.len() - i,
    {
        proof {
            lemma_utf8_len_take_step(t@, i as int);
            if i + 1 < t.len() {
                lemma_utf8_len_take_mono(t@, i + 1, t@.len() as int);
            }
            assert(t@.take(t@.len() as int) =~= t@);
        }
        n = n + char_len(t[i]);
        i = i + 1;
    }
    assert(t@.take(i as int) =~= t@);
    n
}

/// UTF-8 length of a character sequence, in a type wide enough for any.
pub fn utf8_length_wide(t: &[char]) -> (res: u128)
    ensures
        res == utf8_len(t@),
{
    let mut n: u128 = 0;
    let mut i: usize = 0;
    while i < t.len()
        invariant
            i <= t.len(),
            n == utf8_len(t@.take(i as int)),
            n <= 4 * i,
        decreases t.len() - i,
    {
        proof {
            lemma_utf8_len_take_step(t@, i as int);
        }
        n = n + char_len(t[i]) as u128;
        i = i + 1;
    }
    assert(t@.take(i as int) =~= t@);
    n
}

fn count_fences(s: &[char], pat: &[char]) -> (res: usize)
    requires
        pat@.len() > 0,
    ensures
        res == count_matches(s@, pat@, 0),
{
    let mut c: usize = 0;
    let mut i: usize = 0;
    while pat.len() <= s.len() - i
        invariant
            pat@.len() > 0,
            c + count_matches(s@, pat@, i as int) == count_matches(s@, pat@, 0),
            c <= i,
            i <= s.len(),
        decreases s.len() - i,
    {
        if matches_at(s, pat, i) {
            c = c + 1;
            i = i + pat.len();
        } else {
            i = i + 1;
        }
    }
    c
}

/// Decimal rendering of an unsigned number (`usize`'s `Display`).
pub fn usize_to_decimal(n: usize) -> (res: Vec<char>)
    ensures
        res@ == decimal(n as nat),
    decreases n,
{
    let d = n % 10;
    let c = if d == 0 {
        '0'
    } else if d == 1 {
        '1'
    } else if d == 2 {
        '2'
    } else if d == 3 {
        '3'
    } else if d == 4 {
        '4'
    } else if d == 5 {
        '5'
    } else if d == 6 {
        '6'
    } else if d == 7 {
        '7'
    } else if d == 8 {
        '8'
    } else {
        '9'
    };
    if n < 10 {
        let mut v: Vec<char> = Vec::new();
        v.push(c);
        proof {
            assert(v@ =~= seq![digit_char(n as nat)]);
        }
        v
    } else {
        let mut v = usize_to_decimal(n / 10);
        v.push(c);
        v
    }
}

/// Logs model calls and tool executions as tables when verbose.
pub struct ModelLogger {
    verbose: bool,
}

impl ModelLogger {
    /// Verbose when asked to be, or, when nothing is asked, when the
    /// `DISTRI_LOG_MESSAGES` variable is set (`env_set`, read by the caller).
    pub fn new(verbose: Option<bool>, env_set: bool) -> (res: Self)
        ensures
            res.is_verbose_spec() == match verbose {
                Some(v) => v,
                None => env_set,
            },
    {
        let verbose = match verbose {
            Some(v) => v,
            None => env_set,
        };
        ModelLogger { verbose }
    }

    pub closed spec fn is_verbose_spec(&self) -> bool {
        self.verbose
    }

    pub fn is_verbose(&self) -> (res: bool)
        ensures
            res == self.is_verbose_spec(),
    {
        self.verbose
    }

    /// Truncates a long text for display while keeping code blocks and the
    /// current line whole. Byte offset `max_len` must fall between two
    /// characters of a text longer than it (slicing there would panic).
    pub fn truncate_preserving_formatting(&self, text: &str, max_len: usize) -> (res: String)
        requires
            utf8_len(text@) <= usize::MAX,
            utf8_len(text@) > max_len ==> is_char_boundary(text@, max_len as int),
        ensures
            res@ == spec_truncate(text@, max_len as int),
    {
        let t = str_chars(text);
        let total = utf8_length(t.as_slice());
        if total <= max_len {
            return crate::text::owned(text);
        }
        let mut k: usize = 0;
        let mut b: usize = 0;
        while b < max_len
            invariant
                k <= t@.len(),
                b == utf8_len(t@.take(k as int)),
                b <= max_len,
                total == utf8_len(t@),
                total > max_len,
                t@ == text@,
                is_char_boundary(t@, max_len as int),
            decreases max_len - b,
        {
            proof {
                if k == t@.len() {
                    assert(t@.take(k as int) =~= t@);
                }
                lemma_utf8_len_take_step(t@, k as int);
                assert(t@.take(t@.len() as int) =~= t@);
                if k + 1 < t@.len() {
                    lemma_utf8_len_take_mono(t@, k + 1, t@.len() as int);
                }
            }
            let step = char_len(t[k]);
            if step > max_len - b {
                proof {
                    let c = choose|i: int| 0 <= i <= t@.len() && #[trigger] utf8_len(t@.take(i)) == max_len;
                    if c <= k {
                        if c < k {
                            lemma_utf8_len_take_mono(t@, c, k as int);
                        }
                    } else {
                        if k + 1 < c {
                            lemma_utf8_len_take_mono(t@, k + 1, c);
                        }
                    }
                }
                assert(false);
            }
            b = b + step;
            assert(k < t.len());
            k = k + 1;
        }
        proof {
            lemma_boundary_index(t@, max_len as int, k as int);
        }
        let head = crate::text::slice_to_vec(t.as_slice(), 0, k);
        let fence_chars = str_chars("```");
        proof {
            reveal_strlit("```");
            assert(head@ =~= t@.take(k as int));
        }
        let mut end: usize = k;
        if count_fences(head.as_slice(), fence_chars.as_slice()) % 2 == 1 {
            match find_first(t.as_slice(), fence_chars.as_slice(), k) {
                Some(p) => {
                    assert(fence_chars@.len() == 3);
                    assert(p + fence_chars@.len() <= t.len());
                    end = p + 3;
                },
                None => {},
            }
        }
        let ends_line = end > 0 && t[end - 1] == '\n';
        if !ends_line {
            let nl = str_chars("\n");
            proof {
                reveal_strlit("\n");
                assert(nl@ =~= seq!['\n']);
            }
            match find_first(t.as_slice(), nl.as_slice(), k) {
                Some(q) => {
                    assert(q + nl@.len() <= t.len());
                    end = q + 1;
                },
                None => {},
            }
        }
        let mut out = crate::text::slice_to_vec(t.as_slice(), 0, end);
        let ghost kept = out@;
        let a = str_chars("\n\n[Content truncated - ");
        let digits = usize_to_decimal(total);
        let z = str_chars(" chars total]");
        let mut i: usize = 0;
        let ghost o0 = out@;
        while i < a.len()
            invariant
                i <= a.len(),
                out@ == o0 + a@.take(i as int),
            decreases a.len() - i,
        {
            out.push(a[i]);
            proof {
                assert(a@.take(i + 1) =~= a@.take(i as int).push(a@[i as int]));
            }
            i = i + 1;
        }
        let ghost o1 = out@;
        i = 0;
        while i < digits.len()
            invariant
                i <= digits.len(),
                out@ == o1 + digits@.take(i as int),
            decreases digits.len() - i,
        {
            out.push(digits[i]);
            proof {
                assert(digits@.take(i + 1) =~= digits@.take(i as int).push(digits@[i as int]));
            }
            i = i + 1;
        }
        let ghost o2 = out@;
        i = 0;
        while i < z.len()
            invariant
                i <= z.len(),
                out@ == o2 + z@.take(i as int),
            decreases z.len() - i,
        {
            out.push(z[i]);
            proof {
                assert(z@.take(i + 1) =~= z@.take(i as int).push(z@[i as int]));
            }
            i = i + 1;
        }
        proof {
            assert(a@.take(a@.len() as int) =~= a@);
            assert(digits@.take(digits@.len() as int) =~= digits@);
            assert(z@.take(z@.len() as int) =~= z@);
            assert(kept =~= t@.take(truncation_end(text@, max_len as int)));
            assert(out@ =~= spec_truncate(text@, max_len as int));
        }
        string_from_chars(out.as_slice())
    }

    /// `truncate_preserving_formatting` for a text longer than `max_len`;
    /// a shorter text is shown whole.
    pub fn truncate_for_display(&self, text: &str, max_len: usize) -> (res: String)
        requires
            utf8_len(text@) <= usize::MAX,
            utf8_len(text@) > max_len ==> is_char_boundary(text@, max_len as int),
        ensures
            res@ == spec_truncate(text@, max_len as int),
    {
        self.truncate_preserving_formatting(text, max_len)
    }
}

} // verus!
