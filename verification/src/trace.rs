//! Trace identity of agent runs: the (trace id, span id) pair an agent's root
//! span nests under, either parsed from an inbound W3C trace context or
//! derived deterministically from the thread id.
use vstd::prelude::*;
use sha2::Digest;
use crate::text::str_chars;

verus! {

/// SHA-256 digest of a byte sequence.
pub uninterp spec fn sha256(data: Seq<u8>) -> Seq<u8>;

/// `sha2::Sha256::digest`: the 32-byte SHA-256 digest of `data`.
#[verifier::external_body]
fn sha256_digest(data: &[u8]) -> (res: Vec<u8>)
    ensures
        res@ == sha256(data@),
        res@.len() == 32,
{
    sha2::Sha256::digest(data).to_vec()
}

/// An inbound trace context: W3C hex trace id and parent span id.
pub struct TraceContext {
    pub trace_id: String,
    pub parent_span_id: String,
}

pub open spec fn pow256(n: nat) -> int
    decreases n,
{
    if n == 0 {
        1
    } else {
        256 * pow256((n - 1) as nat)
    }
}

/// Big-endian value of a byte sequence.
pub open spec fn be_value(bytes: Seq<u8>) -> int
    decreases bytes.len(),
{
    if bytes.len() == 0 {
        0
    } else {
        be_value(bytes.drop_last()) * 256 + bytes.last()
    }
}

/// The bytes, with the last one set to 1 when they are all zero (an all-zero
/// id is invalid).
pub open spec fn nonzero_id(bytes: Seq<u8>) -> Seq<u8> {
    if bytes.len() > 0 && forall|i: int| 0 <= i < bytes.len() ==> #[trigger] bytes[i] == 0 {
        bytes.update(bytes.len() - 1, 1)
    } else {
        bytes
    }
}

/// Trace and span ids derived from a thread id: the first 16 bytes of the
/// SHA-256 of its UTF-8 encoding form the trace id, the next 8 the span id.
pub open spec fn spec_thread_trace_ids(thread_id: Seq<char>) -> (int, int) {
    let digest = sha256(vstd::utf8::encode_utf8(thread_id));
    (be_value(nonzero_id(digest.subrange(0, 16))), be_value(nonzero_id(digest.subrange(16, 24))))
}

proof fn lemma_pow256_mono(a: nat, b: nat)
    requires
        a <= b,
    ensures
        1 <= pow256(a) <= pow256(b),
    decreases b,
{
    if b > a {
        lemma_pow256_mono(a, (b - 1) as nat);
    } else {
        lemma_pow256_pos(a);
    }
}

proof fn lemma_pow256_pos(n: nat)
    ensures
        pow256(n) >= 1,
    decreases n,
{
    if n > 0 {
        lemma_pow256_pos((n - 1) as nat);
    }
}

proof fn lemma_be_value_bound(bytes: Seq<u8>)
    ensures
        0 <= be_value(bytes) < pow256(bytes.len()),
    decreases bytes.len(),
{
    if bytes.len() > 0 {
        lemma_be_value_bound(bytes.drop_last());
    }
}

/// Big-endian value of at most 16 bytes.
fn be_u128(bytes: &[u8]) -> (res: u128)
    requires
        bytes@.len() <= 16,
    ensures
        res == be_value(bytes@),
{
    proof {
        reveal_with_fuel(pow256, 17);
        lemma_pow256_mono(bytes@.len() as nat, 16);
    }
    let mut v: u128 = 0;
    let mut k: usize = 0;
    assert(bytes@.take(0) =~= Seq::<u8>::empty());
    while k < bytes.len()
        invariant
            k <= bytes.len() <= 16,
            v == be_value(bytes@.take(k as int)),
            pow256(bytes@.len() as nat) <= pow256(16),
            pow256(16) == 0x1_0000_0000_0000_0000_0000_0000_0000_0000int,
        decreases bytes.len() - k,
    {
        proof {
            lemma_be_value_bound(bytes@.take(k + 1));
            lemma_pow256_mono((k + 1) as nat, bytes@.len() as nat);
            assert(bytes@.take(k + 1).drop_last() =~= bytes@.take(k as int));
        }
        v = v * 256 + bytes[k] as u128;
        k = k + 1;
    }
    assert(bytes@.take(k as int) =~= bytes@);
    v
}

/// Copies `bytes[a..b]`, setting the last byte to 1 when all are zero.
fn nonzero_slice(bytes: &[u8], a: usize, b: usize) -> (res: Vec<u8>)
    requires
        a < b <= bytes@.len(),
    ensures
        res@ == nonzero_id(bytes@.subrange(a as int, b as int)),
{
    let mut res: Vec<u8> = Vec::new();
    let mut all_zero = true;
    let mut k = a;
    while k < b
        invariant
            a <= k <= b <= bytes@.len(),
            res@ == bytes@.subrange(a as int, k as int),
            all_zero == forall|i: int| a <= i < k ==> #[trigger] bytes@[i] == 0,
        decreases b - k,
    {
        res.push(bytes[k]);
        if bytes[k] != 0 {
            all_zero = false;
        }
        k = k + 1;
        assert(res@ =~= bytes@.subrange(a as int, k as int));
    }
    proof {
        let sub = bytes@.subrange(a as int, b as int);
        if all_zero {
            assert forall|i: int| 0 <= i < sub.len() implies #[trigger] sub[i] == 0 by {
                assert(sub[i] == bytes@[a + i]);
            }
        } else {
            let w = choose|i: int| a <= i < b && bytes@[i] != 0;
            assert(sub[w - a] == bytes@[w]);
        }
    }
    if all_zero {
        let n = res.len();
        res.set(n - 1, 1);
    }
    res
}

/// Deterministically derive a (trace id, span id) pair from the thread id;
/// neither id is zero (zero ids are invalid in OpenTelemetry).
pub fn derive_trace_ids_from_thread(thread_id: &str) -> (res: (u128, u64))
    ensures
        res.0 == spec_thread_trace_ids(thread_id@).0,
        res.1 == spec_thread_trace_ids(thread_id@).1,
        res.0 > 0,
        res.1 > 0,
{
    let digest = sha256_digest(thread_id.as_bytes());
    let trace_bytes = nonzero_slice(digest.as_slice(), 0, 16);
    let span_bytes = nonzero_slice(digest.as_slice(), 16, 24);
    let trace = be_u128(trace_bytes.as_slice());
    let span = be_u128(span_bytes.as_slice());
    proof {
        lemma_be_value_bound(span_bytes@);
        reveal_with_fuel(pow256, 9);
        lemma_thread_trace_ids_nonzero(thread_id@, digest@);
    }
    (trace, span as u64)
}

// ── Hex ids (`u128::from_str_radix(hex, 16)`, as the OTel id parsers use) ──

pub open spec fn hex_digit_value(c: char) -> int {
    let u = c as u32;
    if 0x30 <= u <= 0x39 {
        u - 0x30
    } else if 0x61 <= u <= 0x66 {
        u - 0x61 + 10
    } else if 0x41 <= u <= 0x46 {
        u - 0x41 + 10
    } else {
        -1
    }
}

pub open spec fn hex_value(d: Seq<char>) -> int
    decreases d.len(),
{
    if d.len() == 0 {
        0
    } else {
        hex_value(d.drop_last()) * 16 + hex_digit_value(d.last())
    }
}

pub open spec fn all_hex(d: Seq<char>) -> bool {
    forall|i: int| 0 <= i < d.len() ==> #[trigger] hex_digit_value(d[i]) >= 0
}

/// The digits after an optional leading `+`.
pub open spec fn hex_digits(s: Seq<char>) -> Seq<char> {
    if s.len() > 0 && s[0] == '+' {
        s.drop_first()
    } else {
        s
    }
}

/// The number a hex string denotes when it is one below `limit`.
pub open spec fn spec_parse_hex(s: Seq<char>, limit: int) -> Option<int> {
    let d = hex_digits(s);
    if d.len() > 0 && all_hex(d) && hex_value(d) < limit {
        Some(hex_value(d))
    } else {
        None
    }
}

proof fn lemma_hex_value_mono(d: Seq<char>, k: int)
    requires
        all_hex(d),
        0 <= k <= d.len(),
    ensures
        0 <= hex_value(d.take(k)) <= hex_value(d),
    decreases d.len(),
{
    if k < d.len() {
        assert(all_hex(d.drop_last()));
        lemma_hex_value_mono(d.drop_last(), k);
        assert(d.drop_last().take(k) =~= d.take(k));
    } else {
        assert(d.take(k) =~= d);
        if d.len() > 0 {
            assert(all_hex(d.drop_last()));
            lemma_hex_value_mono(d.drop_last(), k - 1);
            assert(d.drop_last().take(k - 1) =~= d.drop_last());
        }
    }
}

fn hex_digit(c: char) -> (res: Option<u8>)
    ensures
        match res {
            Some(v) => hex_digit_value(c) == v as int && 0 <= v < 16,
            None => hex_digit_value(c) < 0,
        },
{
    let u = c as u32;
    if 0x30 <= u && u <= 0x39 {
        Some((u - 0x30) as u8)
    } else if 0x61 <= u && u <= 0x66 {
        Some((u - 0x61 + 10) as u8)
    } else if 0x41 <= u && u <= 0x46 {
        Some((u - 0x41 + 10) as u8)
    } else {
        None
    }
}

/// Parses an unsigned hexadecimal number below `2^128`.
pub fn parse_hex_u128(s: &str) -> (res: Option<u128>)
    ensures
        match res {
            Some(v) => spec_parse_hex(s@, 0x1_0000_0000_0000_0000_0000_0000_0000_0000int) == Some(v as int),
            None => spec_parse_hex(s@, 0x1_0000_0000_0000_0000_0000_0000_0000_0000int) is None,
        },
{
    let c = str_chars(s);
    let start: usize = if c.len() > 0 && c[0] == '+' {
        1
    } else {
        0
    };
    let ghost d = hex_digits(s@);
    assert(d =~= c@.skip(start as int));
    if start >= c.len() {
        return None;
    }
    let mut v: u128 = 0;
    let mut k: usize = start;
    // Every character must be a digit.
    while k < c.len()
        invariant
            start <= k <= c.len(),
            c@ == s@,
            d == hex_digits(s@),
            d == c@.skip(start as int),
            forall|i: int| 0 <= i < k - start ==> #[trigger] hex_digit_value(d[i]) >= 0,
        decreases c.len() - k,
    {
        match hex_digit(c[k]) {
            Some(_) => {},
            None => {
                assert(hex_digit_value(d[k - start]) < 0);
                return None;
            },
        }
        k = k + 1;
    }
    assert(all_hex(d));
    k = start;
    assert(d.take(0) =~= Seq::<char>::empty());
    while k < c.len()
        invariant
            start <= k <= c.len(),
            c@ == s@,
            d == hex_digits(s@),
            d == c@.skip(start as int),
            all_hex(d),
            v == hex_value(d.take(k - start)),
        decreases c.len() - k,
    {
        let dv = match hex_digit(c[k]) {
            Some(x) => x,
            None => {
                assert(hex_digit_value(d[k - start]) >= 0);
                return None;
            },
        };
        assert(d.take(k - start + 1).drop_last() =~= d.take(k - start));
        assert(d.take(k - start + 1).last() == c@[k as int]);
        let m = match v.checked_mul(16) {
            Some(m) => m,
            None => {
                proof {
                    lemma_hex_value_mono(d, k - start + 1);
                }
                return None;
            },
        };
        let n = match m.checked_add(dv as u128) {
            Some(n) => n,
            None => {
                proof {
                    lemma_hex_value_mono(d, k - start + 1);
                }
                return None;
            },
        };
        v = n;
        k = k + 1;
    }
    assert(d.take(k - start) =~= d);
    Some(v)
}

/// Parses an unsigned hexadecimal number below `2^64`.
pub fn parse_hex_u64(s: &str) -> (res: Option<u64>)
    ensures
        match res {
            Some(v) => spec_parse_hex(s@, 0x1_0000_0000_0000_0000int) == Some(v as int),
            None => spec_parse_hex(s@, 0x1_0000_0000_0000_0000int) is None,
        },
{
    match parse_hex_u128(s) {
        Some(v) => {
            if v <= 0xFFFF_FFFF_FFFF_FFFF {
                Some(v as u64)
            } else {
                None
            }
        },
        None => {
            proof {
                let d = hex_digits(s@);
                if d.len() > 0 && all_hex(d) && hex_value(d) < 0x1_0000_0000_0000_0000 {
                    assert(hex_value(d) < 0x1_0000_0000_0000_0000_0000_0000_0000_0000int);
                }
            }
            None
        },
    }
}

/// The ids a run's root span nests under: parsed from the inbound trace
/// context when there is one (`None` when it is malformed), otherwise derived
/// from the thread id.
pub fn remote_parent_ids(trace_context: &Option<TraceContext>, thread_id: &str) -> (res: Option<(u128, u64)>)
    ensures
        match trace_context {
            Some(tc) => match (
                spec_parse_hex(tc.trace_id@, 0x1_0000_0000_0000_0000_0000_0000_0000_0000int),
                spec_parse_hex(tc.parent_span_id@, 0x1_0000_0000_0000_0000int),
            ) {
                (Some(t), Some(s)) => res == Some((t as u128, s as u64)),
                _ => res is None,
            },
            None => res == Some(
                (spec_thread_trace_ids(thread_id@).0 as u128, spec_thread_trace_ids(thread_id@).1 as u64),
            ),
        },
{
    match trace_context {
        Some(tc) => {
            let t = match parse_hex_u128(tc.trace_id.as_str()) {
                Some(t) => t,
                None => return None,
            };
            let s = match parse_hex_u64(tc.parent_span_id.as_str()) {
                Some(s) => s,
                None => return None,
            };
            Some((t, s))
        },
        None => Some(derive_trace_ids_from_thread(thread_id)),
    }
}

/// Derived ids are never zero (zero ids are invalid in OpenTelemetry).
pub proof fn lemma_thread_trace_ids_nonzero(thread_id: Seq<char>, digest: Seq<u8>)
    requires
        digest == sha256(vstd::utf8::encode_utf8(thread_id)),
        digest.len() == 32,
    ensures
        spec_thread_trace_ids(thread_id).0 > 0,
        spec_thread_trace_ids(thread_id).1 > 0,
{
    lemma_nonzero_id_value(digest.subrange(0, 16));
    lemma_nonzero_id_value(digest.subrange(16, 24));
}

proof fn lemma_be_value_positive(bytes: Seq<u8>, i: int)
    requires
        0 <= i < bytes.len(),
        bytes[i] != 0,
    ensures
        be_value(bytes) > 0,
    decreases bytes.len(),
{
    lemma_be_value_bound(bytes.drop_last());
    if i < bytes.len() - 1 {
        lemma_be_value_positive(bytes.drop_last(), i);
    }
}

proof fn lemma_nonzero_id_value(bytes: Seq<u8>)
    requires
        bytes.len() > 0,
    ensures
        be_value(nonzero_id(bytes)) > 0,
{
    let n = nonzero_id(bytes);
    if forall|i: int| 0 <= i < bytes.len() ==> #[trigger] bytes[i] == 0 {
        lemma_be_value_positive(n, bytes.len() - 1);
    } else {
        let w = choose|i: int| 0 <= i < bytes.len() && bytes[i] != 0;
        lemma_be_value_positive(n, w);
    }
}

/// A span name of at most `max` characters: longer names keep their first
/// `max` characters and end in an ellipsis.
pub fn truncate_span_name(s: &str, max: usize) -> (res: String)
    ensures
        res@ == if s@.len() <= max {
            s@
        } else {
            s@.take(max as int).push('…')
        },
{
    let chars = str_chars(s);
    if chars.len() <= max {
        return crate::text::owned(s);
    }
    let mut kept = crate::text::slice_to_vec(chars.as_slice(), 0, max);
    kept.push('…');
    proof {
        assert(kept@ =~= s@.take(max as int).push('…'));
    }
    crate::text::string_from_chars(kept.as_slice())
}

/// The first line that is not blank, trimmed.
pub open spec fn first_nonblank(lines: Seq<Seq<char>>) -> Option<Seq<char>>
    decreases lines.len(),
{
    if lines.len() == 0 {
        None
    } else if crate::text::spec_trim(lines[0]).len() > 0 {
        Some(crate::text::spec_trim(lines[0]))
    } else {
        first_nonblank(lines.drop_first())
    }
}

pub open spec fn spec_truncate_name(s: Seq<char>, max: int) -> Seq<char> {
    if s.len() <= max {
        s
    } else {
        s.take(max).push('…')
    }
}

/// The display name of a run's agent span: the context's span name when it
/// is not blank, else the message's first non-blank line (trimmed, at most
/// 80 characters).
pub open spec fn spec_span_name(span_name: Option<Seq<char>>, text: Seq<char>) -> Option<Seq<char>> {
    match span_name {
        Some(n) if crate::text::spec_trim(n).len() > 0 => Some(n),
        _ => match first_nonblank(crate::text::spec_lines(text)) {
            Some(l) => Some(spec_truncate_name(l, 80)),
            None => None,
        },
    }
}

pub open spec fn opt_seq(o: Option<String>) -> Option<Seq<char>> {
    match o {
        Some(s) => Some(s@),
        None => None,
    }
}

pub fn span_name_override(span_name: Option<String>, text: &str) -> (res: Option<String>)
    ensures
        opt_seq(res) == spec_span_name(opt_seq(span_name), text@),
{
    match span_name {
        Some(n) => {
            let nc = str_chars(n.as_str());
            let (a, b) = crate::text::trim_bounds(nc.as_slice());
            if a < b {
                return Some(n);
            }
        },
        None => {},
    }
    let tc = str_chars(text);
    let bounds = crate::text::line_bounds(tc.as_slice());
    let ghost lines = crate::text::spec_lines(text@);
    let mut i: usize = 0;
    assert(lines.skip(0) =~= lines);
    while i < bounds.len()
        invariant
            i <= bounds.len(),
            opt_seq(span_name) matches Some(n) ==> crate::text::spec_trim(n).len() == 0,
            tc@ == text@,
            lines == crate::text::spec_lines(text@),
            bounds@.len() == lines.len(),
            forall|k: int|
                0 <= k < bounds@.len() ==> (#[trigger] bounds@[k]).0 <= bounds@[k].1 <= tc@.len() && tc@.subrange(
                    bounds@[k].0 as int,
                    bounds@[k].1 as int,
                ) == lines[k],
            first_nonblank(lines) == first_nonblank(lines.skip(i as int)),
        decreases bounds.len() - i,
    {
        let (a, b) = bounds[i];
        let line = crate::text::slice_to_vec(tc.as_slice(), a, b);
        let (x, y) = crate::text::trim_bounds(line.as_slice());
        proof {
            assert(line@ == lines[i as int]);
            assert(lines.skip(i as int)[0] == lines[i as int]);
            assert(lines.skip(i as int).drop_first() =~= lines.skip(i + 1));
        }
        if x < y {
            let trimmed = crate::text::slice_to_vec(line.as_slice(), x, y);
            assert(trimmed@ == crate::text::spec_trim(lines[i as int]));
            let name = crate::text::string_from_chars(trimmed.as_slice());
            return Some(truncate_span_name(name.as_str(), 80));
        }
        i = i + 1;
    }
    proof {
        assert(lines.skip(i as int) =~= Seq::<Seq<char>>::empty());
    }
    None
}

/// The input recorded on a run's agent span: the message text, followed by
/// the names of the run's external tools when there are any (`None` when
/// the tool list could not be read); nothing when that is empty.
pub fn agent_input_value(text: &str, tool_names: Option<&[String]>) -> (res: Option<String>)
    ensures
        ({
            let extra = match tool_names {
                Some(n) => if n@.len() > 0 {
                    "\n[external_tools: "@ + crate::text::spec_join(crate::text::str_views(n@), ", "@) + "]"@
                } else {
                    Seq::<char>::empty()
                },
                None => Seq::<char>::empty(),
            };
            let combined = text@ + extra;
            &&& combined.len() == 0 ==> res is None
            &&& combined.len() > 0 ==> (res is Some && res->0@ == combined)
        }),
{
    let mut s = crate::text::owned(text);
    match tool_names {
        Some(n) => {
            if n.len() > 0 {
                s.append("\n[external_tools: ");
                let j = crate::text::join_strings(n, ", ");
                s.append(j.as_str());
                s.append("]");
            }
        },
        None => {},
    }
    let sc = str_chars(s.as_str());
    if sc.len() == 0 {
        None
    } else {
        Some(s)
    }
}

} // verus!
