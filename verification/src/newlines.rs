//! Line ends.

use vstd::prelude::*;
use vstd::string::*;

use crate::text::{chars_of, string_of};

verus! {

/// A text with every line end, `\r\n` or `\r` alone, written as `\n`.
pub open spec fn unix(s: Seq<char>) -> Seq<char>
    decreases s.len(),
{
    if s.len() == 0 {
        Seq::empty()
    } else if s[0] != '\r' {
        seq![s[0]] + unix(s.skip(1))
    } else if s.len() > 1 && s[1] == '\n' {
        seq!['\n'] + unix(s.skip(2))
    } else {
        seq!['\n'] + unix(s.skip(1))
    }
}

/// A text with every line end written as `\n`.
pub fn unix_newlines(s: &str) -> (r: String)
    ensures
        r@ == unix(s@),
{
    let v = chars_of(s);
    let n: usize = v.len();
    let mut out: Vec<char> = Vec::new();
    let mut i: usize = 0;
    assert(v@.skip(0) =~= v@);
    assert(out@ + unix(v@) =~= unix(v@));
    while i < n
        invariant
            0 <= i <= n == v@.len(),
            out@ + unix(v@.skip(i as int)) == unix(v@),
        decreases n - i,
    {
        let ghost rest = v@.skip(i as int);
        let ghost before = out@;
        assert(rest.skip(1) =~= v@.skip(i + 1));
        if v[i] != '\r' {
            out.push(v[i]);
            assert(out@ + unix(v@.skip(i + 1)) =~= before + unix(rest));
            i += 1;
        } else if 1 < n - i && v[i + 1] == '\n' {
            assert(rest.skip(2) =~= v@.skip(i + 2));
            out.push('\n');
            assert(out@ + unix(v@.skip(i + 2)) =~= before + unix(rest));
            i += 2;
        } else {
            out.push('\n');
            assert(out@ + unix(v@.skip(i + 1)) =~= before + unix(rest));
            i += 1;
        }
    }
    assert(v@.skip(n as int) =~= Seq::empty());
    assert(out@ + unix(v@.skip(n as int)) =~= out@);
    string_of(&out)
}

/// No carriage return is left, and a text without one is left as it is.
pub proof fn law_no_return_left(s: Seq<char>)
    ensures
        !unix(s).contains('\r'),
        !s.contains('\r') ==> unix(s) == s,
    decreases s.len(),
{
    if s.len() > 0 {
        let k: int = if s[0] == '\r' && s.len() > 1 && s[1] == '\n' {
            2
        } else {
            1
        };
        let rest = s.skip(k);
        law_no_return_left(rest);
        let c = if s[0] == '\r' {
            '\n'
        } else {
            s[0]
        };
        assert(unix(s) == seq![c] + unix(rest));
        assert forall|i: int| 0 <= i < unix(s).len() implies unix(s)[i] != '\r' by {
            if i > 0 {
                assert(unix(s)[i] == unix(rest)[i - 1]);
                assert(unix(rest).contains(unix(rest)[i - 1]));
            }
        }
        if !s.contains('\r') {
            assert(s[0] != '\r') by {
                assert(s.contains(s[0]));
            }
            assert forall|i: int| 0 <= i < rest.len() implies rest[i] != '\r' by {
                assert(s.contains(s[i + 1]));
            }
            assert(s =~= seq![s[0]] + s.skip(1));
        }
    }
}

/// Writing the line ends twice is writing them once.
pub proof fn law_unix_idempotent(s: Seq<char>)
    ensures
        unix(unix(s)) == unix(s),
{
    law_no_return_left(s);
    law_no_return_left(unix(s));
}

} // verus!
