//! The text that is handed to the clipboard tool of the system.

use vstd::prelude::*;
use vstd::string::{StrSliceExecFns, StringExecFns};

verus! {

/// The text with every single quote doubled.
pub open spec fn escaped(s: Seq<char>) -> Seq<char>
    decreases s.len(),
{
    if s.len() == 0 {
        s
    } else if s.last() == '\'' {
        escaped(s.drop_last()) + seq!['\'', '\'']
    } else {
        escaped(s.drop_last()).push(s.last())
    }
}

/// The text between single quotes, with every single quote in it doubled.
pub open spec fn quoted(s: Seq<char>) -> Seq<char> {
    seq!['\''] + escaped(s) + seq!['\'']
}

/// Quote and apply character escapes for powershell
pub fn powershell_quote(s: &str) -> (r: String)
    ensures
        r@ == quoted(s@),
{
    let n = s.unicode_len();
    proof {
        reveal_strlit("'");
    }
    let mut out = String::from_str("'");
    assert(out@ =~= seq!['\''] + escaped(s@.take(0)));
    let mut i: usize = 0;
    while i < n
        invariant
            i <= n,
            n == s@.len(),
            out@ == seq!['\''] + escaped(s@.take(i as int)),
        decreases n - i,
    {
        let c = s.get_char(i);
        proof {
            assert(s@.take(i + 1).drop_last() =~= s@.take(i as int));
            assert(s@.take(i + 1).last() == s@[i as int]);
        }
        if c == '\'' {
            out.append("''");
            proof {
                reveal_strlit("''");
            }
            assert("''"@ =~= seq!['\'', '\'']);
            assert(out@ =~= seq!['\''] + escaped(s@.take(i + 1)));
        } else {
            out.append(s.substring_char(i, i + 1));
            assert(s@.subrange(i as int, i + 1) =~= seq![s@[i as int]]);
            assert(out@ =~= seq!['\''] + escaped(s@.take(i + 1)));
        }
        i += 1;
    }
    assert(s@.take(n as int) =~= s@);
    out.append("'");
    assert("'"@ =~= seq!['\'']);
    out
}

} // verus!
