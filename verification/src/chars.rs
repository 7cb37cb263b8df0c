//! Conversions between text and its character sequence.

use vstd::prelude::*;
use vstd::string::StrSliceExecFns;

verus! {

/// The characters of `s`, in order, as a vector.
pub(crate) fn chars_of(s: &str) -> (r: Vec<char>)
    ensures
        r@ == s@,
{
    let n = s.unicode_len();
    let mut out: Vec<char> = Vec::new();
    let mut i: usize = 0;
    while i < n
        invariant
            i <= n,
            n == s@.len(),
            out@ == s@.take(i as int),
        decreases n - i,
    {
        let c = s.get_char(i);
        proof {
            assert(s@.take(i as int).push(s@[i as int]) =~= s@.take(i as int + 1));
        }
        out.push(c);
        i = i + 1;
    }
    proof {
        assert(s@.take(n as int) =~= s@);
    }
    out
}

/// Relies on `String: FromIterator<char>` (through `Iterator::collect`): the
/// collected string consists of exactly the iterated characters, in order.
#[verifier::external_body]
pub(crate) fn string_of(cs: Vec<char>) -> (r: String)
    ensures
        r@ == cs@,
{
    cs.into_iter().collect()
}

/// `src` appended to `out`, character by character.
pub(crate) fn append_chars(out: &mut Vec<char>, src: &Vec<char>)
    ensures
        final(out)@ == old(out)@ + src@,
{
    let mut t: usize = 0;
    while t < src.len()
        invariant
            t <= src@.len(),
            out@ == old(out)@ + src@.take(t as int),
        decreases src@.len() - t,
    {
        let c = src[t];
        proof {
            assert((old(out)@ + src@.take(t as int)).push(src@[t as int]) =~= old(out)@
                + src@.take(t as int + 1));
        }
        out.push(c);
        t = t + 1;
    }
    proof {
        assert(src@.take(src@.len() as int) =~= src@);
    }
}

} // verus!
