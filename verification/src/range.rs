//! The range-specification parser: turns the optional command-line token
//! into a selection policy (default top ten, a custom count, or an
//! inclusive rank range), and derives the line window that the upstream
//! pipeline is asked for.
use vstd::prelude::*;

use crate::decimal::{all_digits, dec_digits, dec_val, is_digit, parse_usize_digits,
    usize_to_string};

verus! {

/// How the displayed window of ranks was chosen. Both bounds of a custom
/// range are stored after the increment that accounts for the header line
/// of the enumerator's output, so `head` is at least 1.
#[derive(Clone, Copy, PartialEq, Eq, Structural, Debug)]
pub enum SelectionPolicy {
    DefaultRange,
    CustomTail { count: usize },
    CustomRange { head: usize, tail: usize },
}

/// The invariant a parsed policy satisfies: a custom range keeps
/// `1 <= head <= tail`.
pub open spec fn policy_wf(p: SelectionPolicy) -> bool {
    match p {
        SelectionPolicy::CustomRange { head, tail } => 1 <= head <= tail,
        _ => true,
    }
}

/// A malformed or contradictory range specification.
#[derive(Clone, Copy, PartialEq, Eq, Structural, Debug)]
pub struct RangeError;

/// Whether `c` counts as whitespace when the count token is trimmed
/// (the whitespace characters of the ASCII range).
pub open spec fn is_space(c: char) -> bool {
    (c as u32) == 32 || (9 <= (c as u32) && (c as u32) <= 13)
}

/// `s` without its leading whitespace.
pub open spec fn trim_front(s: Seq<char>) -> Seq<char>
    decreases s.len(),
{
    if s.len() > 0 && is_space(s[0]) {
        trim_front(s.drop_first())
    } else {
        s
    }
}

/// `s` without its trailing whitespace.
pub open spec fn trim_back(s: Seq<char>) -> Seq<char>
    decreases s.len(),
{
    if s.len() > 0 && is_space(s.last()) {
        trim_back(s.drop_last())
    } else {
        s
    }
}

/// `s` without leading and trailing whitespace.
pub open spec fn trimmed(s: Seq<char>) -> Seq<char> {
    trim_back(trim_front(s))
}

proof fn lemma_trim_front_skip(s: Seq<char>, a: int)
    requires
        0 <= a <= s.len(),
        forall|j: int| 0 <= j < a ==> is_space(#[trigger] s[j]),
    ensures
        trim_front(s) == trim_front(s.skip(a)),
    decreases a,
{
    if a == 0 {
        assert(s.skip(0) =~= s);
    } else {
        assert(is_space(s[0]));
        assert(s.drop_first() =~= s.skip(1));
        assert(forall|j: int| 0 <= j < a - 1 ==> is_space(#[trigger] s.skip(1)[j]));
        lemma_trim_front_skip(s.skip(1), a - 1);
        assert(s.skip(1).skip(a - 1) =~= s.skip(a));
    }
}

proof fn lemma_trim_back_take(s: Seq<char>, b: int)
    requires
        0 <= b <= s.len(),
        forall|j: int| b <= j < s.len() ==> is_space(#[trigger] s[j]),
    ensures
        trim_back(s) == trim_back(s.take(b)),
    decreases s.len() - b,
{
    if b == s.len() {
        assert(s.take(b) =~= s);
    } else {
        assert(is_space(s.last()));
        assert(forall|j: int| b <= j < s.drop_last().len() ==> is_space(#[trigger] s.drop_last()[j]));
        lemma_trim_back_take(s.drop_last(), b);
        assert(s.drop_last().take(b) =~= s.take(b));
    }
}

/// Whether `c` counts as whitespace for trimming.
pub fn is_space_char(c: char) -> (r: bool)
    ensures
        r == is_space(c),
{
    let u = c as u32;
    u == 32 || (9 <= u && u <= 13)
}

/// Strips leading and trailing whitespace from a token.
pub fn trim_spaces(s: &str) -> (r: &str)
    ensures
        r@ == trimmed(s@),
{
    let len = s.unicode_len();
    let mut a: usize = 0;
    while a < len && is_space_char(s.get_char(a))
        invariant
            0 <= a <= len,
            len == s@.len(),
            forall|j: int| 0 <= j < a ==> is_space(#[trigger] s@[j]),
        decreases len - a,
    {
        a = a + 1;
    }
    let mut b: usize = len;
    while b > a && is_space_char(s.get_char(b - 1))
        invariant
            a <= b <= len,
            len == s@.len(),
            forall|j: int| b <= j < len ==> is_space(#[trigger] s@[j]),
        decreases b,
    {
        b = b - 1;
    }
    let r = s.substring_char(a, b);
    proof {
        lemma_trim_front_skip(s@, a as int);
        let t = s@.skip(a as int);
        assert(t.len() == len - a);
        if a < len {
            assert(t[0] == s@[a as int]);
            assert(!is_space(t[0]));
        }
        assert(trim_front(s@) == t);
        assert(forall|j: int| b - a <= j < t.len() ==> is_space(#[trigger] t[j])) by {
            assert(forall|j: int| b - a <= j < t.len() ==> #[trigger] t[j] == s@[j + a]);
        }
        lemma_trim_back_take(t, b as int - a as int);
        let u = t.take(b as int - a as int);
        assert(u.len() == b - a);
        if b > a {
            assert(u.last() == s@[b as int - 1]);
            assert(!is_space(u.last()));
        }
        assert(trim_back(t) == u);
        assert(u =~= s@.subrange(a as int, b as int));
        assert(r@ == trimmed(s@));
    }
    r
}

/// The digit part of a count token: the trimmed token, less one optional
/// leading plus sign.
pub open spec fn count_token(s: Seq<char>) -> Seq<char> {
    let t = trimmed(s);
    if t.len() > 0 && t[0] == '+' {
        t.drop_first()
    } else {
        t
    }
}

/// Whether the token is syntactically a non-negative integer: after
/// trimming and an optional plus sign, one or more decimal digits.
pub open spec fn count_token_ok(s: Seq<char>) -> bool {
    count_token(s).len() > 0 && all_digits(count_token(s))
}

/// Parses a token as a plain non-negative count. Returns `None` when the
/// token is not an integer, or its value does not fit the machine word.
pub fn parse_count(s: &str) -> (r: Option<usize>)
    ensures
        match r {
            Some(n) => count_token_ok(s@) && n == dec_val(count_token(s@)),
            None => !count_token_ok(s@) || dec_val(count_token(s@)) > usize::MAX,
        },
{
    let t = trim_spaces(s);
    let tlen = t.unicode_len();
    let d: &str = if tlen > 0 && t.get_char(0) == '+' {
        let sub = t.substring_char(1, tlen);
        proof {
            assert(sub@ =~= trimmed(s@).drop_first());
        }
        sub
    } else {
        t
    };
    proof {
        assert(d@ == count_token(s@));
    }
    parse_usize_digits(d)
}

/// Whether position `k` splits `s` into a well-formed `head-tail` range
/// token: the only dash of the token stands at `k`, with at least one
/// digit on each side and nothing but digits elsewhere.
pub open spec fn range_form_at(s: Seq<char>, k: int) -> bool {
    &&& 1 <= k
    &&& k + 1 < s.len()
    &&& s[k] == '-'
    &&& forall|j: int| 0 <= j < s.len() && j != k ==> s[j] != '-'
    &&& all_digits(s.subrange(0, k))
    &&& all_digits(s.subrange(k + 1, s.len() as int))
}

/// Whether `s` is a well-formed `head-tail` range token.
pub open spec fn is_range_form(s: Seq<char>) -> bool {
    exists|k: int| range_form_at(s, k)
}

/// The value of the digits before the dash of a range token.
pub open spec fn range_head(s: Seq<char>) -> nat {
    let k = choose|k: int| range_form_at(s, k);
    dec_val(s.subrange(0, k))
}

/// The value of the digits after the dash of a range token.
pub open spec fn range_tail(s: Seq<char>) -> nat {
    let k = choose|k: int| range_form_at(s, k);
    dec_val(s.subrange(k + 1, s.len() as int))
}

/// Why a well-formed range token is still rejected: its head values above
/// its tail, or a bound does not fit the machine word once incremented.
pub open spec fn range_values_bad(s: Seq<char>) -> bool {
    range_head(s) > range_tail(s) || range_tail(s) + 1 > usize::MAX
}

proof fn lemma_range_form_unique(s: Seq<char>, k1: int, k2: int)
    requires
        range_form_at(s, k1),
        range_form_at(s, k2),
    ensures
        k1 == k2,
{
    if k1 != k2 {
        assert(s[k2] != '-');
    }
}

/// Parses a `head-tail` range token, returning both bounds incremented by
/// one to account for the enumerator's header line. Fails on any token
/// that is not digits-dash-digits, on a head above the tail, and on a
/// bound too large for the machine word.
pub fn retrieve_head_tail(s: &str) -> (r: Result<(usize, usize), RangeError>)
    ensures
        match r {
            Ok(ht) => {
                &&& is_range_form(s@)
                &&& !range_values_bad(s@)
                &&& ht.0 == range_head(s@) + 1
                &&& ht.1 == range_tail(s@) + 1
            },
            Err(_) => !is_range_form(s@) || range_values_bad(s@),
        },
{
    let len = s.unicode_len();
    let mut dash: Option<usize> = None;
    let mut i: usize = 0;
    while i < len
        invariant
            0 <= i <= len,
            len == s@.len(),
            match dash {
                Some(k) => k < i && s@[k as int] == '-' && forall|j: int|
                    0 <= j < i && j != k ==> is_digit(#[trigger] s@[j]),
                None => forall|j: int| 0 <= j < i ==> is_digit(#[trigger] s@[j]),
            },
        decreases len - i,
    {
        let c = s.get_char(i);
        if c == '-' {
            if let Some(k0) = dash {
                proof {
                    assert forall|k: int| !range_form_at(s@, k) by {
                        if range_form_at(s@, k) {
                            if k != k0 {
                                assert(s@[k0 as int] != '-');
                            } else {
                                assert(s@[i as int] != '-');
                            }
                        }
                    }
                }
                return Err(RangeError);
            }
            dash = Some(i);
        } else if !((('0' as u32) <= (c as u32)) && ((c as u32) <= ('9' as u32))) {
            proof {
                let bad = i as int;
                assert(!is_digit(s@[bad]));
                assert(s@[bad] != '-');
                assert forall|k: int| !range_form_at(s@, k) by {
                    if range_form_at(s@, k) {
                        if bad < k {
                            assert(is_digit(s@.subrange(0, k)[bad]));
                        } else if bad > k {
                            assert(is_digit(s@.subrange(k + 1, s@.len() as int)[bad - k - 1]));
                        }
                    }
                }
            }
            return Err(RangeError);
        }
        i = i + 1;
    }
    let k = match dash {
        Some(k) => k,
        None => {
            proof {
                assert forall|k: int| !range_form_at(s@, k) by {
                    if range_form_at(s@, k) {
                        assert(is_digit(s@[k]));
                    }
                }
            }
            return Err(RangeError);
        },
    };
    if k == 0 || k + 1 >= len {
        proof {
            let k0 = k as int;
            assert forall|kk: int| !range_form_at(s@, kk) by {
                if range_form_at(s@, kk) {
                    if kk != k0 {
                        assert(s@[k0] != '-');
                    }
                }
            }
        }
        return Err(RangeError);
    }
    proof {
        assert(all_digits(s@.subrange(0, k as int))) by {
            assert(forall|j: int| 0 <= j < k ==> #[trigger] s@.subrange(0, k as int)[j] == s@[j]);
        }
        assert(all_digits(s@.subrange(k as int + 1, len as int))) by {
            assert(forall|j: int|
                0 <= j < len - k - 1 ==> #[trigger] s@.subrange(k as int + 1, len as int)[j] == s@[
                    j + k + 1
                ]);
        }
        assert(range_form_at(s@, k as int));
        let kc = choose|kk: int| range_form_at(s@, kk);
        lemma_range_form_unique(s@, kc, k as int);
        assert(range_head(s@) == dec_val(s@.subrange(0, k as int)));
        assert(range_tail(s@) == dec_val(s@.subrange(k as int + 1, len as int)));
    }
    let head_str = s.substring_char(0, k);
    let tail_str = s.substring_char(k + 1, len);
    let head_val = match parse_usize_digits(head_str) {
        Some(v) => v,
        None => {
            // the digits value above the machine word: the head then also
            // values above the tail, or the tail is itself too large
            return Err(RangeError);
        },
    };
    let tail_val = match parse_usize_digits(tail_str) {
        Some(v) => v,
        None => {
            return Err(RangeError);
        },
    };
    if head_val > tail_val {
        return Err(RangeError);
    }
    if tail_val == usize::MAX {
        return Err(RangeError);
    }
    Ok((head_val + 1, tail_val + 1))
}

/// Parses the optional range token into the selection policy: an absent
/// token keeps the default window, an integer token keeps ranks one
/// through the count, and a `head-tail` token keeps that inclusive range.
pub fn parse_range_spec(token: Option<&str>) -> (r: Result<SelectionPolicy, RangeError>)
    ensures
        match token {
            None => r == Ok::<SelectionPolicy, RangeError>(SelectionPolicy::DefaultRange),
            Some(s) => {
                if count_token_ok(s@) && dec_val(count_token(s@)) <= usize::MAX {
                    r == Ok::<SelectionPolicy, RangeError>(
                        SelectionPolicy::CustomTail { count: dec_val(count_token(s@)) as usize },
                    )
                } else {
                    match r {
                        Ok(p) => {
                            &&& is_range_form(s@)
                            &&& !range_values_bad(s@)
                            &&& p == SelectionPolicy::CustomRange {
                                head: (range_head(s@) + 1) as usize,
                                tail: (range_tail(s@) + 1) as usize,
                            }
                        },
                        Err(_) => !is_range_form(s@) || range_values_bad(s@),
                    }
                }
            },
        },
        r matches Ok(p) ==> policy_wf(p),
{
    match token {
        None => Ok(SelectionPolicy::DefaultRange),
        Some(s) => {
            match parse_count(s) {
                Some(n) => Ok(SelectionPolicy::CustomTail { count: n }),
                None => {
                    match retrieve_head_tail(s) {
                        Ok((head, tail)) => Ok(SelectionPolicy::CustomRange { head, tail }),
                        Err(e) => Err(e),
                    }
                },
            }
        },
    }
}

/// The one-based inclusive line window the upstream pipeline is asked
/// for. Line one of that output is the enumerator's header and is always
/// skipped, so the default window and a custom count start at line two.
pub fn line_window(policy: &SelectionPolicy) -> (w: (usize, usize))
    requires
        policy matches SelectionPolicy::CustomTail { count } ==> count < usize::MAX,
    ensures
        match *policy {
            SelectionPolicy::DefaultRange => w.0 == 2 && w.1 == 11,
            SelectionPolicy::CustomTail { count } => w.0 == 2 && w.1 == count + 1,
            SelectionPolicy::CustomRange { head, tail } => w.0 == head && w.1 == tail,
        },
{
    match *policy {
        SelectionPolicy::DefaultRange => (2, 11),
        SelectionPolicy::CustomTail { count } => (2, count + 1),
        SelectionPolicy::CustomRange { head, tail } => (head, tail),
    }
}

/// Writes a one-based inclusive line window as the print expression the
/// line filter takes, as in `2,11p`.
pub fn sed_range_arg(first: usize, last: usize) -> (r: String)
    ensures
        r@ == dec_digits(first as nat) + seq![','] + dec_digits(last as nat) + seq!['p'],
{
    let mut s = usize_to_string(first);
    s.append(",");
    let last_digits = usize_to_string(last);
    s.append(last_digits.as_str());
    s.append("p");
    proof {
        reveal_strlit(",");
        reveal_strlit("p");
        assert(","@ =~= seq![',']);
        assert("p"@ =~= seq!['p']);
        assert(s@ =~= dec_digits(first as nat) + seq![','] + dec_digits(last as nat) + seq!['p']);
    }
    s
}

} // verus!
