//! The option parser: collects the recognized single-letter flags from the
//! argument list and removes the flag arguments in place, so positional
//! arguments keep their indices.
use vstd::prelude::*;

verus! {

/// The recognized command-line flags: a closed set with a single member,
/// include-all-files.
#[derive(Clone, Copy, PartialEq, Eq, Structural, Debug)]
pub struct CmdOptions {
    pub list_all_files: bool,
}

/// Whether an argument is a flag argument: nonempty and led by a dash.
pub open spec fn is_flag_arg(a: Seq<char>) -> bool {
    a.len() > 0 && a[0] == '-'
}

/// The first unrecognized option character of a flag argument at or after
/// position `j` (position 0 holds the dash).
pub open spec fn first_bad_in_arg(a: Seq<char>, j: int) -> Option<char>
    decreases a.len() - j,
{
    if j >= a.len() {
        None
    } else if a[j] != 'a' {
        Some(a[j])
    } else {
        first_bad_in_arg(a, j + 1)
    }
}

/// The first unrecognized option character over the flag arguments at or
/// after index `i`, in scan order.
pub open spec fn first_bad_option(args: Seq<String>, i: int) -> Option<char>
    decreases args.len() - i,
{
    if i >= args.len() {
        None
    } else if is_flag_arg(args[i]@) && first_bad_in_arg(args[i]@, 1) is Some {
        first_bad_in_arg(args[i]@, 1)
    } else {
        first_bad_option(args, i + 1)
    }
}

/// Whether a flag argument carries the include-all-files letter.
pub open spec fn arg_has_all_flag(a: Seq<char>) -> bool {
    exists|j: int| 1 <= j < a.len() && a[j] == 'a'
}

/// Whether any flag argument of the list carries the include-all-files
/// letter.
pub open spec fn any_all_flag(args: Seq<String>) -> bool {
    exists|i: int| 0 <= i < args.len() && is_flag_arg(#[trigger] args[i]@) && arg_has_all_flag(
        args[i]@,
    )
}

/// The argument list with every flag argument removed, order kept.
pub open spec fn without_flag_args(args: Seq<String>) -> Seq<String>
    decreases args.len(),
{
    if args.len() == 0 {
        Seq::empty()
    } else if is_flag_arg(args.first()@) {
        without_flag_args(args.drop_first())
    } else {
        seq![args.first()] + without_flag_args(args.drop_first())
    }
}

/// Scans every argument that starts with a dash, accumulating the
/// recognized flags; fails on the first unrecognized option character.
/// On success the flag arguments are removed from the list in place; on
/// failure the list is left as it was.
pub fn parse_options(args: &mut Vec<String>) -> (r: Result<CmdOptions, char>)
    ensures
        match r {
            Ok(opts) => {
                &&& first_bad_option(old(args)@, 0) is None
                &&& opts.list_all_files == any_all_flag(old(args)@)
                &&& final(args)@ == without_flag_args(old(args)@)
            },
            Err(c) => {
                &&& first_bad_option(old(args)@, 0) == Some(c)
                &&& final(args)@ == old(args)@
            },
        },
{
    let ghost orig = args@;
    let n = args.len();
    let mut list_all = false;
    let mut i: usize = 0;
    while i < n
        invariant
            args@ == orig,
            n == orig.len(),
            0 <= i <= n,
            first_bad_option(orig, 0) == first_bad_option(orig, i as int),
            list_all == exists|ii: int|
                0 <= ii < i && is_flag_arg(#[trigger] orig[ii]@) && arg_has_all_flag(orig[ii]@),
        decreases n - i,
    {
        let a = args[i].as_str();
        let alen = a.unicode_len();
        if alen > 0 && a.get_char(0) == '-' {
            let mut has = false;
            let mut j: usize = 1;
            while j < alen
                invariant
                    args@ == orig,
                    first_bad_option(orig, 0) == first_bad_option(orig, i as int),
                    0 <= i < n,
                    n == orig.len(),
                    a@ == orig[i as int]@,
                    is_flag_arg(a@),
                    1 <= j <= alen,
                    alen == a@.len(),
                    first_bad_in_arg(a@, 1) == first_bad_in_arg(a@, j as int),
                    has == exists|jj: int| 1 <= jj < j && a@[jj] == 'a',
                decreases alen - j,
            {
                let c = a.get_char(j);
                if c == 'a' {
                    has = true;
                    proof {
                        assert(a@[j as int] == 'a');
                    }
                } else {
                    proof {
                        assert(first_bad_in_arg(a@, j as int) == Some(c));
                        assert(is_flag_arg(orig[i as int]@));
                        assert(first_bad_option(orig, i as int) == Some(c));
                    }
                    return Err(c);
                }
                j = j + 1;
            }
            proof {
                assert(first_bad_in_arg(a@, alen as int) is None);
                assert(has == arg_has_all_flag(a@));
                assert(first_bad_option(orig, i as int) == first_bad_option(orig, i as int + 1));
            }
            if has {
                list_all = true;
            }
        } else {
            proof {
                assert(!is_flag_arg(orig[i as int]@));
                assert(first_bad_option(orig, i as int) == first_bad_option(orig, i as int + 1));
            }
        }
        i = i + 1;
    }
    proof {
        assert(first_bad_option(orig, n as int) is None);
        assert(list_all == any_all_flag(orig));
    }
    let mut kept: Vec<String> = Vec::new();
    proof {
        assert(orig.skip(0) =~= orig);
        assert(kept@ + without_flag_args(orig) =~= without_flag_args(orig));
    }
    let mut k: usize = 0;
    while k < n
        invariant
            args@ == orig,
            n == orig.len(),
            0 <= k <= n,
            without_flag_args(orig) == kept@ + without_flag_args(orig.skip(k as int)),
        decreases n - k,
    {
        let a = args[k].as_str();
        let alen = a.unicode_len();
        proof {
            let rest = orig.skip(k as int);
            assert(rest.len() == n - k);
            assert(rest.first() == orig[k as int]);
            assert(rest.drop_first() =~= orig.skip(k as int + 1));
        }
        if !(alen > 0 && a.get_char(0) == '-') {
            let item = args[k].clone();
            kept.push(item);
            proof {
                let rest = orig.skip(k as int);
                assert(without_flag_args(rest) == seq![orig[k as int]] + without_flag_args(
                    orig.skip(k as int + 1),
                ));
                assert(kept@ + without_flag_args(orig.skip(k as int + 1)) =~= without_flag_args(
                    orig,
                ));
            }
        } else {
            proof {
                let rest = orig.skip(k as int);
                assert(without_flag_args(rest) == without_flag_args(orig.skip(k as int + 1)));
            }
        }
        k = k + 1;
    }
    proof {
        assert(orig.skip(n as int) =~= Seq::<String>::empty());
        assert(without_flag_args(orig) =~= kept@);
    }
    *args = kept;
    Ok(CmdOptions { list_all_files: list_all })
}

} // verus!
