//! Which pricing entry a model name uses, and the token counts it is
//! charged for. (The prices themselves are floating point and applied by
//! the caller.)
use vstd::prelude::*;
use crate::text::{spec_contains, str_chars, str_views};
use crate::model_log::{utf8_len, utf8_length_wide};

verus! {

pub open spec fn exact_at(keys: Seq<Seq<char>>, model: Seq<char>, i: int) -> bool {
    0 <= i < keys.len() && keys[i] == model
}

pub open spec fn fits(keys: Seq<Seq<char>>, model: Seq<char>, i: int) -> bool {
    0 <= i < keys.len() && spec_contains(model, keys[i])
}

/// Entry `i` is the last of the longest keys (by UTF-8 length) that the
/// model name contains.
pub open spec fn last_longest_fit(keys: Seq<Seq<char>>, model: Seq<char>, i: int) -> bool {
    &&& fits(keys, model, i)
    &&& forall|j: int| #[trigger] fits(keys, model, j) ==> utf8_len(keys[j]) <= utf8_len(keys[i])
    &&& forall|j: int| i < j && #[trigger] fits(keys, model, j) ==> utf8_len(keys[j]) < utf8_len(keys[i])
}

/// The pricing entry for a model, among entries with the given keys (in the
/// order the table is walked): the entry named exactly like the model, else
/// the last of the longest keys that occur in the model's name.
pub fn select_pricing_key(model: &str, keys: &[String]) -> (res: Option<usize>)
    ensures
        ({
            let ks = str_views(keys@);
            &&& (exists|i: int| exact_at(ks, model@, i)) ==> (res matches Some(i) && exact_at(ks, model@, i as int))
            &&& !(exists|i: int| exact_at(ks, model@, i)) ==> match res {
                Some(i) => last_longest_fit(ks, model@, i as int),
                None => forall|j: int| !#[trigger] fits(ks, model@, j),
            }
        }),
{
    let ghost ks = str_views(keys@);
    let mc = str_chars(model);
    let mut i: usize = 0;
    while i < keys.len()
        invariant
            i <= keys.len(),
            ks == str_views(keys@),
            mc@ == model@,
            forall|j: int| 0 <= j < i ==> !exact_at(ks, model@, j),
        decreases keys.len() - i,
    {
        let kc = str_chars(keys[i].as_str());
        if crate::text::chars_eq(kc.as_slice(), mc.as_slice()) {
            assert(exact_at(ks, model@, i as int));
            return Some(i);
        }
        i = i + 1;
    }
    let mut best: Option<usize> = None;
    let mut j: usize = 0;
    while j < keys.len()
        invariant
            j <= keys.len(),
            ks == str_views(keys@),
            mc@ == model@,
            forall|m: int| !exact_at(ks, model@, m),
            match best {
                Some(b) => b < j && fits(ks, model@, b as int) && (forall|m: int|
                    0 <= m < j && #[trigger] fits(ks, model@, m) ==> utf8_len(ks[m]) <= utf8_len(ks[b as int])) && (forall|
                    m: int,
                | b < m < j && #[trigger] fits(ks, model@, m) ==> utf8_len(ks[m]) < utf8_len(ks[b as int])),
                None => forall|m: int| 0 <= m < j ==> !#[trigger] fits(ks, model@, m),
            },
        decreases keys.len() - j,
    {
        let kc = str_chars(keys[j].as_str());
        assert(kc@ == ks[j as int]);
        if crate::text::contains(mc.as_slice(), kc.as_slice()) {
            let better = match best {
                None => true,
                Some(b) => {
                    let bc = str_chars(keys[b].as_str());
                    assert(bc@ == ks[b as int]);
                    utf8_length_wide(kc.as_slice()) >= utf8_length_wide(bc.as_slice())
                },
            };
            if better {
                best = Some(j);
            }
        }
        j = j + 1;
    }
    best
}

/// Input tokens charged at the full rate: those not served from the cache.
pub fn non_cached_input(input_tokens: u32, cached_tokens: u32) -> (res: u32)
    ensures
        res == if cached_tokens > input_tokens {
            0
        } else {
            input_tokens - cached_tokens
        },
{
    if cached_tokens > input_tokens {
        0
    } else {
        input_tokens - cached_tokens
    }
}

} // verus!
