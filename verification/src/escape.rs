//! Escaping of literal braces in text destined for a curly-brace template:
//! each `{` or `}` is doubled, everything else is kept as it is.

use vstd::prelude::*;
use vstd::string::StrSliceExecFns;
use vstd::string::StringExecFns;

verus! {

/// What one character contributes to the escaped text.
pub open spec fn escape_char(c: char) -> Seq<char> {
    if c == '{' {
        seq!['{', '{']
    } else if c == '}' {
        seq!['}', '}']
    } else {
        seq![c]
    }
}

/// The escaped form of a text: every brace doubled, in order.
pub open spec fn escape_spec(s: Seq<char>) -> Seq<char>
    decreases s.len(),
{
    if s.len() == 0 {
        Seq::empty()
    } else {
        escape_spec(s.drop_last()) + escape_char(s.last())
    }
}

/// Doubles every `{` and `}` of the text, leaving all other characters
/// unchanged and in order.
#[verifier::loop_isolation(false)]
pub fn escape_text(text: &str) -> (r: String)
    ensures
        r@ == escape_spec(text@),
{
    let n = text.unicode_len();
    let mut r = String::new();
    let mut i: usize = 0;
    while i < n
        invariant
            i <= n,
            r@ == escape_spec(text@.take(i as int)),
        decreases n - i,
    {
        let c = text.get_char(i);
        if c == '{' {
            r.append("{{");
            proof {
                reveal_strlit("{{");
                assert(("{{")@ =~= seq!['{', '{']);
            }
        } else if c == '}' {
            r.append("}}");
            proof {
                reveal_strlit("}}");
                assert(("}}")@ =~= seq!['}', '}']);
            }
        } else {
            let piece = text.substring_char(i, i + 1);
            r.append(piece);
            proof {
                assert(text@.subrange(i as int, i as int + 1) =~= seq![text@[i as int]]);
            }
        }
        proof {
            assert(text@.take(i as int + 1).drop_last() =~= text@.take(i as int));
            assert(text@.take(i as int + 1).last() == text@[i as int]);
        }
        i += 1;
    }
    proof {
        assert(text@.take(n as int) =~= text@);
    }
    r
}

} // verus!
