//! The verifier: compares submitted answers to accepted ones.
//!
//! Normalization policy, fixed here and used for every comparison: a
//! submitted answer matches an accepted alternative when the two are equal
//! after dropping leading and trailing whitespace (space, tab, newline,
//! carriage return) and folding ASCII letters to lower case. A blank is
//! correct when its submitted answer matches any of its accepted
//! alternatives. Fewer submitted answers than blanks never fails the call:
//! each missing answer counts as incorrect.
//!
//! The fraction of correct blanks maps linearly onto the discrete quality
//! scale `0 ..= QUALITY_MAX` (rounded down); an item with no blank at all
//! grades at the top of the scale.

use vstd::prelude::*;
use crate::schedule::QUALITY_MAX;

verus! {

/// Whitespace stripped by the normalization policy.
pub open spec fn is_ws(c: char) -> bool {
    c == ' ' || c == '\t' || c == '\n' || c == '\r'
}

/// Code point of `c` with ASCII upper-case letters folded to lower case.
pub open spec fn lower_val(c: char) -> int {
    if 65 <= c as int && c as int <= 90 {
        c as int + 32
    } else {
        c as int
    }
}

/// Pointwise case-insensitive equality of two character sequences.
pub open spec fn chars_match(a: Seq<char>, b: Seq<char>) -> bool {
    a.len() == b.len() && forall|i: int|
        0 <= i < a.len() ==> #[trigger] lower_val(a[i]) == lower_val(b[i])
}

/// `s` without its leading whitespace.
pub open spec fn trim_start(s: Seq<char>) -> Seq<char>
    decreases s.len(),
{
    if s.len() > 0 && is_ws(s[0]) {
        trim_start(s.skip(1))
    } else {
        s
    }
}

/// `s` without its trailing whitespace.
pub open spec fn trim_end(s: Seq<char>) -> Seq<char>
    decreases s.len(),
{
    if s.len() > 0 && is_ws(s.last()) {
        trim_end(s.drop_last())
    } else {
        s
    }
}

/// `s` without leading and trailing whitespace.
pub open spec fn trimmed(s: Seq<char>) -> Seq<char> {
    trim_end(trim_start(s))
}

/// The normalized-equality relation of the verifier.
pub open spec fn answer_matches(sub: Seq<char>, accepted: Seq<char>) -> bool {
    chars_match(trimmed(sub), trimmed(accepted))
}

/// A blank is correct when its submitted answer matches some accepted
/// alternative.
pub open spec fn spec_blank_correct(sub: Seq<char>, accepted: Seq<Seq<char>>) -> bool {
    exists|j: int| 0 <= j < accepted.len() && answer_matches(sub, #[trigger] accepted[j])
}

/// Correctness of blank `i`: an answer must have been submitted for it and
/// must match one of its accepted alternatives.
pub open spec fn blank_result(
    expected: Seq<Seq<Seq<char>>>,
    submitted: Seq<Seq<char>>,
    i: int,
) -> bool {
    i < submitted.len() && spec_blank_correct(submitted[i], expected[i])
}

/// Number of correct blanks among the first `n`.
pub open spec fn correct_up_to(
    expected: Seq<Seq<Seq<char>>>,
    submitted: Seq<Seq<char>>,
    n: int,
) -> int
    decreases n,
{
    if n <= 0 {
        0
    } else {
        correct_up_to(expected, submitted, n - 1) + if blank_result(expected, submitted, n - 1) {
            1int
        } else {
            0int
        }
    }
}

/// Number of correct blanks.
pub open spec fn correct_count(expected: Seq<Seq<Seq<char>>>, submitted: Seq<Seq<char>>) -> int {
    correct_up_to(expected, submitted, expected.len() as int)
}

/// Quality of `correct` correct blanks out of `total`: the fraction mapped
/// linearly onto `0 ..= QUALITY_MAX`, rounded down; the top of the scale
/// when there is nothing to answer.
pub open spec fn quality_of(correct: int, total: int) -> int {
    if total == 0 {
        QUALITY_MAX as int
    } else {
        correct * QUALITY_MAX as int / total
    }
}

/// The count of correct blanks never exceeds the number of blanks.
pub proof fn lemma_correct_up_to_bounded(
    expected: Seq<Seq<Seq<char>>>,
    submitted: Seq<Seq<char>>,
    n: int,
)
    ensures
        0 <= correct_up_to(expected, submitted, n) <= if n <= 0 {
            0int
        } else {
            n
        },
    decreases n,
{
    if n > 0 {
        lemma_correct_up_to_bounded(expected, submitted, n - 1);
    }
}

/// Tests a single character for the whitespace the policy strips.
fn is_ws_char(c: char) -> (r: bool)
    ensures
        r == is_ws(c),
{
    c == ' ' || c == '\t' || c == '\n' || c == '\r'
}

/// Case-folded code point of a character.
fn lower_u32(c: char) -> (r: u32)
    ensures
        r as int == lower_val(c),
{
    let v: u32 = c as u32;
    if 65 <= v && v <= 90 {
        v + 32
    } else {
        v
    }
}

/// If everything before `k` is whitespace and `k` is not (or is the end),
/// trimming from the start drops exactly `k` characters.
proof fn lemma_trim_start_skip(s: Seq<char>, k: int)
    requires
        0 <= k <= s.len(),
        forall|m: int| 0 <= m < k ==> is_ws(#[trigger] s[m]),
        k < s.len() ==> !is_ws(s[k]),
    ensures
        trim_start(s) == s.skip(k),
    decreases k,
{
    if k == 0 {
        assert(s.skip(0) =~= s);
    } else {
        lemma_trim_start_skip(s.skip(1), k - 1);
        assert(s.skip(1).skip(k - 1) =~= s.skip(k));
    }
}

/// If everything from `k` on is whitespace and `k - 1` is not (or `k` is
/// the start), trimming from the end keeps exactly `k` characters.
proof fn lemma_trim_end_take(s: Seq<char>, k: int)
    requires
        0 <= k <= s.len(),
        forall|m: int| k <= m < s.len() ==> is_ws(#[trigger] s[m]),
        k > 0 ==> !is_ws(s[k - 1]),
    ensures
        trim_end(s) == s.take(k),
    decreases s.len(),
{
    if k == s.len() {
        assert(s.take(k) =~= s);
    } else {
        lemma_trim_end_take(s.drop_last(), k);
        assert(s.drop_last().take(k) =~= s.take(k));
    }
}

/// Computes the bounds of the trimmed middle of `s`: `trimmed(s@)` is
/// exactly `s@` between the two returned character indices.
fn trim_bounds(s: &str) -> (r: (usize, usize))
    ensures
        r.0 <= r.1 <= s@.len(),
        trimmed(s@) == s@.subrange(r.0 as int, r.1 as int),
{
    let n: usize = s.unicode_len();
    let mut lo: usize = 0;
    while lo < n && is_ws_char(s.get_char(lo))
        invariant
            0 <= lo <= n,
            n == s@.len(),
            forall|m: int| 0 <= m < lo ==> is_ws(#[trigger] s@[m]),
        decreases n - lo,
    {
        lo = lo + 1;
    }
    proof {
        lemma_trim_start_skip(s@, lo as int);
    }
    let mut hi: usize = n;
    while hi > lo && is_ws_char(s.get_char(hi - 1))
        invariant
            lo <= hi <= n,
            n == s@.len(),
            forall|m: int| hi <= m < n ==> is_ws(#[trigger] s@[m]),
        decreases hi,
    {
        hi = hi - 1;
    }
    proof {
        let t = s@.skip(lo as int);
        lemma_trim_end_take(t, hi - lo);
        assert(t.take(hi - lo) =~= s@.subrange(lo as int, hi as int));
    }
    (lo, hi)
}

/// Tests one submitted answer against one accepted alternative under the
/// normalization policy: trim both, fold ASCII case, compare.
pub fn check_answer(submitted: &str, accepted: &str) -> (r: bool)
    ensures
        r == answer_matches(submitted@, accepted@),
{
    let (alo, ahi) = trim_bounds(submitted);
    let (blo, bhi) = trim_bounds(accepted);
    if ahi - alo != bhi - blo {
        return false;
    }
    let len: usize = ahi - alo;
    let mut i: usize = 0;
    while i < len
        invariant
            0 <= i <= len,
            len == ahi - alo == bhi - blo,
            alo <= ahi <= submitted@.len(),
            blo <= bhi <= accepted@.len(),
            trimmed(submitted@) == submitted@.subrange(alo as int, ahi as int),
            trimmed(accepted@) == accepted@.subrange(blo as int, bhi as int),
            forall|m: int|
                0 <= m < i ==> #[trigger] lower_val(trimmed(submitted@)[m]) == lower_val(
                    trimmed(accepted@)[m],
                ),
        decreases len - i,
    {
        let ca: u32 = lower_u32(submitted.get_char(alo + i));
        let cb: u32 = lower_u32(accepted.get_char(blo + i));
        if ca != cb {
            assert(lower_val(trimmed(submitted@)[i as int]) != lower_val(
                trimmed(accepted@)[i as int],
            ));
            return false;
        }
        i = i + 1;
    }
    true
}

/// Checks every blank of an item: `expected` holds the accepted
/// alternatives per blank, `submitted` the user's answers in blank order.
/// Returns the per-blank correctness and the overall quality.
pub fn verify_answers(expected: &Vec<Vec<String>>, submitted: &Vec<String>) -> (r: (Vec<bool>, u8))
    ensures
        r.0@.len() == expected@.len(),
        forall|i: int|
            0 <= i < expected@.len() ==> r.0@[i] == blank_result(
                expected.deep_view(),
                submitted.deep_view(),
                i,
            ),
        r.1 as int == quality_of(
            correct_count(expected.deep_view(), submitted.deep_view()),
            expected@.len() as int,
        ),
{
    let ghost e = expected.deep_view();
    let ghost s = submitted.deep_view();
    let total: usize = expected.len();
    let mut results: Vec<bool> = Vec::new();
    let mut cnt: usize = 0;
    let mut i: usize = 0;
    while i < total
        invariant
            0 <= i <= total,
            total == e.len(),
            e == expected.deep_view(),
            s == submitted.deep_view(),
            results@.len() == i,
            forall|m: int| 0 <= m < i ==> results@[m] == blank_result(e, s, m),
            cnt == correct_up_to(e, s, i as int),
            cnt <= i,
        decreases total - i,
    {
        let correct: bool = if i < submitted.len() {
            let sub: &String = &submitted[i];
            let alts: &Vec<String> = &expected[i];
            let mut found: bool = false;
            let mut j: usize = 0;
            while j < alts.len()
                invariant
                    0 <= j <= alts@.len(),
                    e == expected.deep_view(),
                    s == submitted.deep_view(),
                    0 <= i < e.len(),
                    i < s.len(),
                    alts@ == expected@[i as int]@,
                    sub@ == submitted@[i as int]@,
                    found == exists|m: int|
                        0 <= m < j && answer_matches(s[i as int], #[trigger] e[i as int][m]),
                decreases alts@.len() - j,
            {
                if check_answer(sub.as_str(), alts[j].as_str()) {
                    assert(answer_matches(s[i as int], e[i as int][j as int]));
                    found = true;
                }
                j = j + 1;
            }
            found
        } else {
            false
        };
        assert(correct == blank_result(e, s, i as int));
        results.push(correct);
        if correct {
            cnt = cnt + 1;
        }
        i = i + 1;
    }
    let quality: u8 = if total == 0 {
        QUALITY_MAX
    } else {
        proof {
            lemma_correct_up_to_bounded(e, s, total as int);
        }
        let wide: u128 = (cnt as u128) * (QUALITY_MAX as u128) / (total as u128);
        assert(wide as int == correct_count(e, s) * QUALITY_MAX as int / total as int);
        assert(wide <= QUALITY_MAX as u128) by {
            vstd::arithmetic::div_mod::lemma_div_is_ordered(
                cnt as int * QUALITY_MAX as int,
                total as int * QUALITY_MAX as int,
                total as int,
            );
            assert(cnt as int * QUALITY_MAX as int <= total as int * QUALITY_MAX as int)
                by (nonlinear_arith)
                requires
                    0 <= cnt as int <= total as int,
            ;
            assert(total as int * QUALITY_MAX as int / total as int == QUALITY_MAX as int) by {
                vstd::arithmetic::div_mod::lemma_div_multiples_vanish(
                    QUALITY_MAX as int,
                    total as int,
                );
            }
        }
        wide as u8
    };
    (results, quality)
}

} // verus!
