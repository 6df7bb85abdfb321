//! Character-level helpers: the library does its text work on `Vec<char>`,
//! converting from and to `String` at the public boundary.

use vstd::prelude::*;
use vstd::string::*;

verus! {

/// Turns a string slice into its sequence of characters.
pub fn str_to_chars(s: &str) -> (r: Vec<char>)
    ensures
        r@ == s@,
{
    let n = s.unicode_len();
    let mut r: Vec<char> = Vec::new();
    let mut i: usize = 0;
    while i < n
        invariant
            n == s@.len(),
            i <= n,
            r@ == s@.subrange(0, i as int),
        decreases n - i,
    {
        let c = s.get_char(i);
        r.push(c);
        i += 1;
        proof {
            assert(r@ =~= s@.subrange(0, i as int));
        }
    }
    proof {
        assert(s@.subrange(0, n as int) =~= s@);
    }
    r
}

/// Relies on `String: FromIterator<char>` (through `Iterator::collect`): the
/// collected string holds exactly the given characters, in order.
#[verifier::external_body]
pub fn chars_to_string(v: &Vec<char>) -> (r: String)
    ensures
        r@ == v@,
{
    v.iter().collect()
}

/// Character-for-character equality of two character vectors.
pub fn chars_eq(a: &Vec<char>, b: &Vec<char>) -> (r: bool)
    ensures
        r <==> a@ == b@,
{
    if a.len() != b.len() {
        return false;
    }
    let mut i: usize = 0;
    while i < a.len()
        invariant
            a@.len() == b@.len(),
            i <= a@.len(),
            forall|j: int| 0 <= j < i ==> a@[j] == b@[j],
        decreases a@.len() - i,
    {
        if a[i] != b[i] {
            return false;
        }
        i += 1;
    }
    proof {
        assert(a@ =~= b@);
    }
    true
}

/// A fresh vector with the same characters.
pub fn copy_chars(s: &Vec<char>) -> (r: Vec<char>)
    ensures
        r@ == s@,
{
    let mut r: Vec<char> = Vec::new();
    let mut i: usize = 0;
    while i < s.len()
        invariant
            i <= s@.len(),
            r@ == s@.subrange(0, i as int),
        decreases s@.len() - i,
    {
        r.push(s[i]);
        proof {
            assert(r@ =~= s@.subrange(0, i + 1));
        }
        i += 1;
    }
    proof {
        assert(s@.subrange(0, s@.len() as int) =~= s@);
    }
    r
}

/// Appends all characters of `c`.
pub fn push_all(out: &mut Vec<char>, c: &Vec<char>)
    ensures
        final(out)@ == old(out)@ + c@,
{
    let mut k: usize = 0;
    while k < c.len()
        invariant
            k <= c@.len(),
            out@ == old(out)@ + c@.subrange(0, k as int),
        decreases c@.len() - k,
    {
        out.push(c[k]);
        proof {
            assert(out@ =~= old(out)@ + c@.subrange(0, k + 1));
        }
        k += 1;
    }
    proof {
        assert(old(out)@ + c@.subrange(0, c@.len() as int) =~= old(out)@ + c@);
    }
}

/// Whether `p` stands in `s` at position `i`.
pub fn window_eq(s: &Vec<char>, p: &Vec<char>, i: usize) -> (r: bool)
    requires
        i + p@.len() <= s@.len(),
    ensures
        r <==> s@.subrange(i as int, i as int + p@.len() as int) == p@,
{
    let n = s.len();
    let mut k: usize = 0;
    while k < p.len()
        invariant
            n == s@.len(),
            k <= p@.len(),
            i + p@.len() <= s@.len(),
            forall|j: int| 0 <= j < k ==> s@[i + j] == p@[j],
        decreases p@.len() - k,
    {
        let idx = i + k;
        if s[idx] != p[k] {
            proof {
                assert(s@.subrange(i as int, i as int + p@.len() as int)[k as int] != p@[k as int]);
            }
            return false;
        }
        k += 1;
    }
    proof {
        assert(s@.subrange(i as int, i as int + p@.len() as int) =~= p@);
    }
    true
}

/// Turns each token string into its characters.
pub fn strings_to_charvecs(tokens: &Vec<String>) -> (r: Vec<Vec<char>>)
    ensures
        r@.len() == tokens@.len(),
        forall|i: int| 0 <= i < tokens@.len() ==> r@[i]@ == tokens@[i]@,
{
    let mut r: Vec<Vec<char>> = Vec::new();
    let mut i: usize = 0;
    while i < tokens.len()
        invariant
            i <= tokens@.len(),
            r@.len() == i,
            forall|j: int| 0 <= j < i ==> r@[j]@ == tokens@[j]@,
        decreases tokens@.len() - i,
    {
        let cs = str_to_chars(tokens[i].as_str());
        r.push(cs);
        i += 1;
    }
    r
}

/// Turns each character token back into a string.
pub fn charvecs_to_strings(toks: &Vec<Vec<char>>) -> (r: Vec<String>)
    ensures
        r@.len() == toks@.len(),
        forall|i: int| 0 <= i < toks@.len() ==> r@[i]@ == toks@[i]@,
{
    let mut r: Vec<String> = Vec::new();
    let mut i: usize = 0;
    while i < toks.len()
        invariant
            i <= toks@.len(),
            r@.len() == i,
            forall|j: int| 0 <= j < i ==> r@[j]@ == toks@[j]@,
        decreases toks@.len() - i,
    {
        let st = chars_to_string(&toks[i]);
        r.push(st);
        i += 1;
    }
    r
}

} // verus!
