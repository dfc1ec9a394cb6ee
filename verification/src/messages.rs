//! The diagnostic texts that carry a value: built here so their exact
//! content is part of the library's contract.
use vstd::prelude::*;

verus! {

/// Relies on String::push: appends the given character to the end of the
/// string.
pub assume_specification[ String::push ](s: &mut String, c: char)
    ensures
        final(s)@ == old(s)@.push(c),
;

/// The diagnostic for an unrecognized option character.
pub fn invalid_option_message(c: char) -> (r: String)
    ensures
        r@ == "invalid option '"@ + seq![c] + "'"@,
{
    let mut s = "invalid option '".to_owned();
    s.push(c);
    s.append("'");
    proof {
        assert(s@ =~= "invalid option '"@ + seq![c] + "'"@);
    }
    s
}

/// The diagnostic for a path that does not name a directory.
pub fn not_a_directory_message(path: &str) -> (r: String)
    ensures
        r@ == seq!['\''] + path@ + "' is not a directory"@,
{
    let mut s = "'".to_owned();
    s.append(path);
    s.append("' is not a directory");
    proof {
        reveal_strlit("'");
        assert("'"@ =~= seq!['\'']);
        assert(s@ =~= seq!['\''] + path@ + "' is not a directory"@);
    }
    s
}

} // verus!
