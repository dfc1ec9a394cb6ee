//! The record window selector and result renderer: parses the lines the
//! upstream pipeline returned, computes the rank printed beside each
//! entry, and builds the final output lines, smallest entry first with
//! rank numbers descending.
use vstd::prelude::*;

use crate::decimal::{all_digits, dec_signed, dec_val, parse_u64_digits, i128_to_string};
use crate::range::{SelectionPolicy, is_space, is_space_char, policy_wf};
use crate::units::{get_size_with_unit, spec_size_with_unit};

verus! {

/// One measured record: a byte count and the path it belongs to.
#[derive(Debug)]
pub struct SizeEntry {
    pub size: u64,
    pub path: String,
}

/// A line of the pipeline's output that does not hold a byte count and a
/// path.
#[derive(Clone, Copy, PartialEq, Eq, Structural, Debug)]
pub struct MalformedLine;

/// The first position at or after `i` that does not hold whitespace.
pub open spec fn skip_spaces_from(s: Seq<char>, i: int) -> int
    decreases s.len() - i,
{
    if i >= s.len() {
        i
    } else if is_space(s[i]) {
        skip_spaces_from(s, i + 1)
    } else {
        i
    }
}

/// The first position at or after `i` that holds whitespace (or the end).
pub open spec fn token_end_from(s: Seq<char>, i: int) -> int
    decreases s.len() - i,
{
    if i >= s.len() {
        i
    } else if !is_space(s[i]) {
        token_end_from(s, i + 1)
    } else {
        i
    }
}

/// Whether a record line is well formed: its first whitespace-separated
/// token is decimal digits whose value fits a byte count, and a second
/// token follows.
pub open spec fn line_ok(s: Seq<char>) -> bool {
    let a = skip_spaces_from(s, 0);
    let b = token_end_from(s, a);
    let c = skip_spaces_from(s, b);
    let d = token_end_from(s, c);
    a < b && all_digits(s.subrange(a, b)) && dec_val(s.subrange(a, b)) <= u64::MAX && c < d
}

/// The byte count of a well-formed record line.
pub open spec fn line_size(s: Seq<char>) -> nat {
    let a = skip_spaces_from(s, 0);
    let b = token_end_from(s, a);
    dec_val(s.subrange(a, b))
}

/// The path token of a well-formed record line.
pub open spec fn line_path(s: Seq<char>) -> Seq<char> {
    let a = skip_spaces_from(s, 0);
    let b = token_end_from(s, a);
    let c = skip_spaces_from(s, b);
    let d = token_end_from(s, c);
    s.subrange(c, d)
}

/// Parses one record line of the pipeline's output: the byte count, then
/// the path. Anything after the path token is ignored.
pub fn parse_size_line(line: &str) -> (r: Option<SizeEntry>)
    ensures
        match r {
            Some(e) => line_ok(line@) && e.size == line_size(line@) && e.path@ == line_path(line@),
            None => !line_ok(line@),
        },
{
    let len = line.unicode_len();
    let mut a: usize = 0;
    while a < len && is_space_char(line.get_char(a))
        invariant
            0 <= a <= len,
            len == line@.len(),
            skip_spaces_from(line@, 0) == skip_spaces_from(line@, a as int),
        decreases len - a,
    {
        a = a + 1;
    }
    proof {
        assert(skip_spaces_from(line@, 0) == a as int);
    }
    let mut b: usize = a;
    while b < len && !is_space_char(line.get_char(b))
        invariant
            a <= b <= len,
            len == line@.len(),
            token_end_from(line@, a as int) == token_end_from(line@, b as int),
        decreases len - b,
    {
        b = b + 1;
    }
    proof {
        assert(token_end_from(line@, a as int) == b as int);
    }
    let mut c: usize = b;
    while c < len && is_space_char(line.get_char(c))
        invariant
            b <= c <= len,
            len == line@.len(),
            skip_spaces_from(line@, b as int) == skip_spaces_from(line@, c as int),
        decreases len - c,
    {
        c = c + 1;
    }
    proof {
        assert(skip_spaces_from(line@, b as int) == c as int);
    }
    let mut d: usize = c;
    while d < len && !is_space_char(line.get_char(d))
        invariant
            c <= d <= len,
            len == line@.len(),
            token_end_from(line@, c as int) == token_end_from(line@, d as int),
        decreases len - d,
    {
        d = d + 1;
    }
    proof {
        assert(token_end_from(line@, c as int) == d as int);
    }
    if a == b {
        return None;
    }
    let num_str = line.substring_char(a, b);
    let size = match parse_u64_digits(num_str) {
        Some(v) => v,
        None => {
            return None;
        },
    };
    if c == d {
        return None;
    }
    let path_str = line.substring_char(c, d);
    Some(SizeEntry { size, path: path_str.to_owned() })
}

/// The rank of the last displayed entry: the number of returned lines,
/// clamped for a custom range to the requested tail.
pub open spec fn spec_last_rank(p: SelectionPolicy, n: int) -> int {
    match p {
        SelectionPolicy::CustomRange { head, tail } => if n <= tail - 1 {
            n
        } else {
            tail - 1
        },
        _ => n,
    }
}

/// The offset added to every displayed rank: for a custom range it undoes
/// the header-line increment applied while parsing, so the printed ranks
/// match the user's one-based request.
pub open spec fn spec_first_offset(p: SelectionPolicy) -> int {
    match p {
        SelectionPolicy::CustomRange { head, .. } => head - 2,
        _ => 0,
    }
}

/// The rank printed beside the entry `i` positions from the end of the
/// returned window (`i == 0` is the smallest entry shown).
pub open spec fn spec_display_rank(p: SelectionPolicy, n: int, i: int) -> int {
    spec_last_rank(p, n) - i + spec_first_offset(p)
}

/// Computes the displayed rank for the entry `i` positions from the end
/// of a window of `n_lines` returned lines.
pub fn display_rank(policy: &SelectionPolicy, n_lines: usize, i: usize) -> (r: i128)
    requires
        policy_wf(*policy),
    ensures
        r == spec_display_rank(*policy, n_lines as int, i as int),
{
    let last: usize = match *policy {
        SelectionPolicy::CustomRange { head: _, tail } => {
            let t1 = tail - 1;
            if n_lines <= t1 {
                n_lines
            } else {
                t1
            }
        },
        _ => n_lines,
    };
    let off: i128 = match *policy {
        SelectionPolicy::CustomRange { head, tail: _ } => (head as i128) - 2,
        _ => 0,
    };
    (last as i128) - (i as i128) + off
}

/// Displayed ranks are contiguous and strictly descending in emission
/// order: the entry one position closer to the start of the window ranks
/// exactly one higher than its successor in the output.
pub proof fn lemma_display_ranks_contiguous(p: SelectionPolicy, n: int, i: int)
    ensures
        spec_display_rank(p, n, i + 1) + 1 == spec_display_rank(p, n, i),
{
}

/// When the pipeline returns exactly the requested window, the displayed
/// ranks match the user's own one-based request: they run from the
/// user's tail (the stored tail less the header increment) down to the
/// user's head.
pub proof fn lemma_full_window_ranks(head: usize, tail: usize, n: int)
    requires
        2 <= head <= tail,
        n == tail - head + 1,
    ensures
        spec_display_rank(SelectionPolicy::CustomRange { head, tail }, n, 0) == tail - 1,
        spec_display_rank(SelectionPolicy::CustomRange { head, tail }, n, n - 1) == head - 1,
{
}

/// The views of a list of owned lines.
pub open spec fn line_views(s: Seq<String>) -> Seq<Seq<char>> {
    Seq::new(s.len(), |i: int| s[i]@)
}

/// The output line built for the entry `i` positions from the end of the
/// returned window: its rank, its quoted path, and its scaled size.
pub open spec fn spec_render_line(p: SelectionPolicy, lines: Seq<Seq<char>>, i: int) -> Seq<char>
    recommends
        0 <= i < lines.len(),
{
    let l = lines[lines.len() - 1 - i];
    dec_signed(spec_display_rank(p, lines.len() as int, i)) + seq![')', ' ', '"'] + line_path(l)
        + seq!['"', ':', ' '] + spec_size_with_unit(line_size(l))
}

/// Builds the final output lines from the window of lines the pipeline
/// returned (largest entry first) and the selection policy: one line per
/// entry, smallest entry first, rank numbers descending. Fails when some
/// line is not a record.
pub fn render_results(lines: &Vec<String>, policy: &SelectionPolicy) -> (r: Result<
    Vec<String>,
    MalformedLine,
>)
    requires
        policy_wf(*policy),
    ensures
        match r {
            Ok(out) => {
                &&& forall|j: int| 0 <= j < lines@.len() ==> line_ok(#[trigger] lines@[j]@)
                &&& out@.len() == lines@.len()
                &&& forall|j: int|
                    0 <= j < out@.len() ==> #[trigger] out@[j]@ == spec_render_line(
                        *policy,
                        line_views(lines@),
                        j,
                    )
            },
            Err(_) => exists|j: int| 0 <= j < lines@.len() && !line_ok(#[trigger] lines@[j]@),
        },
{
    let n = lines.len();
    let mut out: Vec<String> = Vec::new();
    let mut i: usize = 0;
    while i < n
        invariant
            policy_wf(*policy),
            n == lines@.len(),
            0 <= i <= n,
            out@.len() == i,
            forall|j: int| n - i <= j < n ==> line_ok(#[trigger] lines@[j]@),
            forall|j: int|
                0 <= j < i ==> #[trigger] out@[j]@ == spec_render_line(
                    *policy,
                    line_views(lines@),
                    j,
                ),
        decreases n - i,
    {
        let idx = n - 1 - i;
        let entry = match parse_size_line(lines[idx].as_str()) {
            Some(e) => e,
            None => {
                proof {
                    assert(!line_ok(lines@[idx as int]@));
                }
                return Err(MalformedLine);
            },
        };
        let rank = display_rank(policy, n, i);
        let mut line = i128_to_string(rank);
        line.append(") \"");
        line.append(entry.path.as_str());
        line.append("\": ");
        let sz = get_size_with_unit(entry.size);
        line.append(sz.as_str());
        proof {
            reveal_strlit(") \"");
            reveal_strlit("\": ");
            assert(") \""@ =~= seq![')', ' ', '"']);
            assert("\": "@ =~= seq!['"', ':', ' ']);
            assert(line_views(lines@)[idx as int] == lines@[idx as int]@);
            assert(line@ =~= spec_render_line(*policy, line_views(lines@), i as int));
        }
        out.push(line);
        i = i + 1;
    }
    Ok(out)
}

} // verus!
