//! The concrete decoding strategies. Each is a pure transformation of an
//! ordered sequence of character tokens, stated by a spec function and proved
//! of the executable `apply` method. The dispatch layer in `decoders` forwards
//! to these without pre- or post-processing.

use vstd::prelude::*;
use crate::chars::{chars_eq, copy_chars, push_all, str_to_chars, window_eq};

verus! {

/// The character sequences of a sequence of character tokens.
pub open spec fn tok_views(toks: Seq<Vec<char>>) -> Seq<Seq<char>> {
    Seq::new(toks.len(), |i: int| toks[i]@)
}

/// The character sequences of a sequence of token strings.
pub open spec fn str_views(toks: Seq<String>) -> Seq<Seq<char>> {
    Seq::new(toks.len(), |i: int| toks[i]@)
}

/// Replacement of every non-overlapping, leftmost-first occurrence of `p` in
/// `s` by `c`. An empty pattern replaces nothing.
pub open spec fn replace_all(s: Seq<char>, p: Seq<char>, c: Seq<char>) -> Seq<char>
    decreases s.len(),
{
    if p.len() == 0 || s.len() < p.len() {
        s
    } else if s.subrange(0, p.len() as int) == p {
        c + replace_all(s.skip(p.len() as int), p, c)
    } else {
        seq![s[0]] + replace_all(s.skip(1), p, c)
    }
}

/// Replaces every non-overlapping, leftmost-first occurrence of `p` by `c`.
#[verifier::loop_isolation(false)]
pub fn replace_all_chars(s: &Vec<char>, p: &Vec<char>, c: &Vec<char>) -> (r: Vec<char>)
    ensures
        r@ == replace_all(s@, p@, c@),
{
    if p.len() == 0 {
        return copy_chars(s);
    }
    let mut out: Vec<char> = Vec::new();
    let mut i: usize = 0;
    proof {
        assert(s@.skip(0) =~= s@);
    }
    while i < s.len()
        invariant
            i <= s@.len(),
            replace_all(s@, p@, c@) == out@ + replace_all(s@.skip(i as int), p@, c@),
        decreases s@.len() - i,
    {
        let ghost rest = s@.skip(i as int);
        proof {
            assert(rest.len() == s@.len() - i);
            assert(forall|j: int| 0 <= j < rest.len() ==> rest[j] == s@[i + j]);
        }
        if p.len() <= s.len() - i && window_eq(s, p, i) {
            proof {
                assert(rest.subrange(0, p@.len() as int) =~= s@.subrange(
                    i as int,
                    i as int + p@.len() as int,
                ));
                assert(replace_all(rest, p@, c@) == c@ + replace_all(
                    rest.skip(p@.len() as int),
                    p@,
                    c@,
                ));
                assert(rest.skip(p@.len() as int) =~= s@.skip(i as int + p@.len() as int));
            }
            push_all(&mut out, c);
            i += p.len();
        } else {
            if p.len() <= s.len() - i {
                proof {
                    assert(rest.subrange(0, p@.len() as int) =~= s@.subrange(
                        i as int,
                        i as int + p@.len() as int,
                    ));
                    assert(rest.subrange(0, p@.len() as int) != p@);
                    assert(replace_all(rest, p@, c@) == seq![rest[0]] + replace_all(
                        rest.skip(1),
                        p@,
                        c@,
                    ));
                }
            } else {
                proof {
                    assert(rest.len() < p@.len());
                    assert(replace_all(rest, p@, c@) == rest);
                    assert(rest.skip(1).len() < p@.len());
                    assert(replace_all(rest.skip(1), p@, c@) == rest.skip(1));
                    assert(rest =~= seq![rest[0]] + rest.skip(1));
                }
            }
            out.push(s[i]);
            proof {
                assert(rest.skip(1) =~= s@.skip(i + 1));
            }
            i += 1;
        }
    }
    proof {
        assert(s@.skip(s@.len() as int) =~= Seq::<char>::empty());
        assert(replace_all(Seq::<char>::empty(), p@, c@) == Seq::<char>::empty());
        assert(out@ =~= out@ + Seq::<char>::empty());
    }
    out
}

/// `replace_all` applied to each token.
pub open spec fn map_replace(toks: Seq<Seq<char>>, p: Seq<char>, c: Seq<char>) -> Seq<Seq<char>> {
    Seq::new(toks.len(), |i: int| replace_all(toks[i], p, c))
}

/// Applies `replace_all` to each token.
#[verifier::loop_isolation(false)]
pub fn map_replace_chars(toks: &Vec<Vec<char>>, p: &Vec<char>, c: &Vec<char>) -> (r: Vec<
    Vec<char>,
>)
    ensures
        tok_views(r@) == map_replace(tok_views(toks@), p@, c@),
{
    let mut r: Vec<Vec<char>> = Vec::new();
    let mut i: usize = 0;
    while i < toks.len()
        invariant
            i <= toks@.len(),
            r@.len() == i,
            forall|j: int| 0 <= j < i ==> r@[j]@ == replace_all(toks@[j]@, p@, c@),
        decreases toks@.len() - i,
    {
        let t = replace_all_chars(&toks[i], p, c);
        r.push(t);
        i += 1;
    }
    proof {
        assert(tok_views(r@) =~= map_replace(tok_views(toks@), p@, c@));
    }
    r
}

/// The concatenation of the tokens from `i` on.
pub open spec fn concat_all(toks: Seq<Seq<char>>, i: int) -> Seq<char>
    decreases toks.len() - i,
{
    if i < 0 || i >= toks.len() {
        Seq::empty()
    } else {
        toks[i] + concat_all(toks, i + 1)
    }
}

/// What fusing does: nothing stays nothing; anything else becomes the one
/// token holding every character in order.
pub open spec fn fuse_tokens(toks: Seq<Seq<char>>) -> Seq<Seq<char>> {
    if toks.len() == 0 {
        Seq::empty()
    } else {
        seq![concat_all(toks, 0)]
    }
}

/// Up to `n` leading characters equal to `c` removed.
pub open spec fn strip_leading(s: Seq<char>, c: char, n: int) -> Seq<char>
    decreases s.len(),
{
    if n <= 0 || s.len() == 0 || s[0] != c {
        s
    } else {
        strip_leading(s.skip(1), c, n - 1)
    }
}

/// Up to `n` trailing characters equal to `c` removed.
pub open spec fn strip_trailing(s: Seq<char>, c: char, n: int) -> Seq<char>
    decreases s.len(),
{
    if n <= 0 || s.len() == 0 || s[s.len() - 1] != c {
        s
    } else {
        strip_trailing(s.take(s.len() - 1), c, n - 1)
    }
}

/// What stripping does to one token.
pub open spec fn strip_token(s: Seq<char>, c: char, start: int, stop: int) -> Seq<char> {
    strip_trailing(strip_leading(s, c, start), c, stop)
}

/// What stripping does: each token loses up to `start` leading and up to
/// `stop` trailing copies of the content character.
pub open spec fn strip_tokens(toks: Seq<Seq<char>>, c: char, start: int, stop: int) -> Seq<
    Seq<char>,
> {
    Seq::new(toks.len(), |i: int| strip_token(toks[i], c, start, stop))
}

/// A run of `a` leading copies of `c`, ended by the bound, the end of the
/// string, or another character, is what `strip_leading` removes.
pub proof fn lemma_strip_leading(s: Seq<char>, c: char, n: int, a: int)
    requires
        0 <= a <= s.len(),
        a <= n,
        forall|j: int| 0 <= j < a ==> s[j] == c,
        a == n || a == s.len() || s[a] != c,
    ensures
        strip_leading(s, c, n) == s.skip(a),
    decreases a,
{
    if a == 0 {
        assert(s.skip(0) =~= s);
    } else {
        lemma_strip_leading(s.skip(1), c, n - 1, a - 1);
        assert(s.skip(1).skip(a - 1) =~= s.skip(a));
    }
}

/// The matching fact for the trailing side.
pub proof fn lemma_strip_trailing(s: Seq<char>, c: char, n: int, b: int)
    requires
        0 <= b <= s.len(),
        b <= n,
        forall|j: int| 0 <= j < b ==> #[trigger] s[s.len() - 1 - j] == c,
        b == n || b == s.len() || s[s.len() - 1 - b] != c,
    ensures
        strip_trailing(s, c, n) == s.take(s.len() - b),
    decreases b,
{
    if b == 0 {
        assert(s.take(s.len() as int) =~= s);
    } else {
        let t = s.take(s.len() - 1);
        assert(s[s.len() - 1 - 0] == c);
        assert forall|j: int| 0 <= j < b - 1 implies #[trigger] t[t.len() - 1 - j] == c by {
            assert(s[s.len() - 1 - (j + 1)] == c);
            assert(t[t.len() - 1 - j] == s[s.len() - 1 - (j + 1)]);
        }
        if b < s.len() && b != n {
            assert(t[t.len() - 1 - (b - 1)] == s[s.len() - 1 - b]);
        }
        lemma_strip_trailing(t, c, n - 1, b - 1);
        assert(t.take(t.len() - (b - 1)) =~= s.take(s.len() - b));
    }
}

/// The characters of `s` from `from` to `to`.
pub fn sub_chars(s: &Vec<char>, from: usize, to: usize) -> (r: Vec<char>)
    requires
        from <= to <= s@.len(),
    ensures
        r@ == s@.subrange(from as int, to as int),
{
    let mut r: Vec<char> = Vec::new();
    let mut i: usize = from;
    while i < to
        invariant
            from <= i <= to <= s@.len(),
            r@ == s@.subrange(from as int, i as int),
        decreases to - i,
    {
        r.push(s[i]);
        proof {
            assert(r@ =~= s@.subrange(from as int, i + 1));
        }
        i += 1;
    }
    r
}

/// Strips one token: up to `start` leading and `stop` trailing copies of `c`.
#[verifier::loop_isolation(false)]
pub fn strip_token_chars(t: &Vec<char>, c: char, start: usize, stop: usize) -> (r: Vec<char>)
    ensures
        r@ == strip_token(t@, c, start as int, stop as int),
{
    let mut a: usize = 0;
    while a < t.len() && a < start && t[a] == c
        invariant
            a <= t@.len(),
            a <= start,
            forall|j: int| 0 <= j < a ==> t@[j] == c,
        decreases t@.len() - a,
    {
        a += 1;
    }
    proof {
        lemma_strip_leading(t@, c, start as int, a as int);
    }
    let u = sub_chars(t, a, t.len());
    let mut b: usize = 0;
    while b < u.len() && b < stop && u[u.len() - 1 - b] == c
        invariant
            b <= u@.len(),
            b <= stop,
            forall|j: int| 0 <= j < b ==> #[trigger] u@[u@.len() - 1 - j] == c,
        decreases u@.len() - b,
    {
        b += 1;
    }
    proof {
        lemma_strip_trailing(u@, c, stop as int, b as int);
    }
    let r = sub_chars(&u, 0, u.len() - b);
    proof {
        assert(t@.skip(a as int) == u@);
        assert(u@.take(u@.len() - b) =~= u@.subrange(0, u@.len() - b));
    }
    r
}

/// Consecutive equal tokens collapsed to one, counted from index `i` against
/// the token before it.
pub open spec fn dedup_from(toks: Seq<Seq<char>>, i: int) -> Seq<Seq<char>>
    decreases toks.len() - i,
{
    if i < 1 || i >= toks.len() {
        Seq::empty()
    } else if toks[i] == toks[i - 1] {
        dedup_from(toks, i + 1)
    } else {
        seq![toks[i]] + dedup_from(toks, i + 1)
    }
}

/// Consecutive equal tokens collapsed to one.
pub open spec fn dedup_tokens(toks: Seq<Seq<char>>) -> Seq<Seq<char>> {
    if toks.len() == 0 {
        Seq::empty()
    } else {
        seq![toks[0]] + dedup_from(toks, 1)
    }
}

/// Every token equal to `x` removed, from index `i` on.
pub open spec fn filter_ne_from(toks: Seq<Seq<char>>, x: Seq<char>, i: int) -> Seq<Seq<char>>
    decreases toks.len() - i,
{
    if i < 0 || i >= toks.len() {
        Seq::empty()
    } else if toks[i] == x {
        filter_ne_from(toks, x, i + 1)
    } else {
        seq![toks[i]] + filter_ne_from(toks, x, i + 1)
    }
}

/// Collapses consecutive equal tokens.
#[verifier::loop_isolation(false)]
pub fn dedup_chars(toks: &Vec<Vec<char>>) -> (r: Vec<Vec<char>>)
    ensures
        tok_views(r@) == dedup_tokens(tok_views(toks@)),
{
    let ghost tv = tok_views(toks@);
    let mut r: Vec<Vec<char>> = Vec::new();
    if toks.len() == 0 {
        proof {
            assert(tok_views(r@) =~= dedup_tokens(tv));
        }
        return r;
    }
    let first = copy_chars(&toks[0]);
    r.push(first);
    let mut i: usize = 1;
    proof {
        assert(tok_views(r@) =~= seq![tv[0]]);
    }
    while i < toks.len()
        invariant
            1 <= i <= toks@.len(),
            dedup_tokens(tv) == tok_views(r@) + dedup_from(tv, i as int),
        decreases toks@.len() - i,
    {
        if !chars_eq(&toks[i], &toks[i - 1]) {
            let t = copy_chars(&toks[i]);
            let ghost r0 = r@;
            r.push(t);
            proof {
                assert(tok_views(r@) =~= tok_views(r0) + seq![tv[i as int]]);
            }
        }
        i += 1;
    }
    proof {
        assert(tok_views(r@) =~= tok_views(r@) + dedup_from(tv, toks@.len() as int));
    }
    r
}

/// Removes every token equal to `x`.
#[verifier::loop_isolation(false)]
pub fn filter_ne_chars(toks: &Vec<Vec<char>>, x: &Vec<char>) -> (r: Vec<Vec<char>>)
    ensures
        tok_views(r@) == filter_ne_from(tok_views(toks@), x@, 0),
{
    let ghost tv = tok_views(toks@);
    let mut r: Vec<Vec<char>> = Vec::new();
    let mut i: usize = 0;
    proof {
        assert(tok_views(r@) =~= Seq::<Seq<char>>::empty());
    }
    while i < toks.len()
        invariant
            i <= toks@.len(),
            filter_ne_from(tv, x@, 0) == tok_views(r@) + filter_ne_from(tv, x@, i as int),
        decreases toks@.len() - i,
    {
        if !chars_eq(&toks[i], x) {
            let t = copy_chars(&toks[i]);
            let ghost r0 = r@;
            r.push(t);
            proof {
                assert(tok_views(r@) =~= tok_views(r0) + seq![tv[i as int]]);
            }
        }
        i += 1;
    }
    proof {
        assert(tok_views(r@) =~= tok_views(r@) + filter_ne_from(tv, x@, toks@.len() as int));
    }
    r
}

/// Every occurrence of `from` turned into `to`.
pub open spec fn swap_chars(s: Seq<char>, from: char, to: char) -> Seq<char> {
    Seq::new(s.len(), |i: int| if s[i] == from { to } else { s[i] })
}

/// Turns every occurrence of `from` into `to`.
#[verifier::loop_isolation(false)]
pub fn swap_chars_exec(t: &Vec<char>, from: char, to: char) -> (r: Vec<char>)
    ensures
        r@ == swap_chars(t@, from, to),
{
    let mut r: Vec<char> = Vec::new();
    let mut i: usize = 0;
    while i < t.len()
        invariant
            i <= t@.len(),
            r@ == swap_chars(t@, from, to).subrange(0, i as int),
        decreases t@.len() - i,
    {
        let c = t[i];
        if c == from {
            r.push(to);
        } else {
            r.push(c);
        }
        proof {
            assert(r@ =~= swap_chars(t@, from, to).subrange(0, i + 1));
        }
        i += 1;
    }
    proof {
        assert(swap_chars(t@, from, to).subrange(0, t@.len() as int) =~= swap_chars(t@, from, to));
    }
    r
}

/// When the prefix-space scheme asks for work on the first token.
#[derive(Clone, Copy, Debug, PartialEq, Eq, Structural)]
pub enum PrependScheme {
    Always,
    First,
    Never,
}

/// Whether the scheme touches the first token at all.
pub open spec fn prepend_active(scheme: PrependScheme) -> bool {
    !(scheme is Never)
}

/// What the metaspace strategy does to one token: the replacement character
/// becomes a space; on the first token, one leading space is dropped unless
/// the scheme says never.
pub open spec fn metaspace_token(
    s: Seq<char>,
    repl: char,
    first: bool,
    scheme: PrependScheme,
) -> Seq<char> {
    let m = swap_chars(s, repl, ' ');
    if first && prepend_active(scheme) && m.len() > 0 && m[0] == ' ' {
        m.skip(1)
    } else {
        m
    }
}

/// The metaspace strategy over a whole token sequence.
pub open spec fn metaspace_tokens(toks: Seq<Seq<char>>, repl: char, scheme: PrependScheme) -> Seq<
    Seq<char>,
> {
    Seq::new(toks.len(), |i: int| metaspace_token(toks[i], repl, i == 0, scheme))
}

/// What the word-piece strategy does to one token: the first stays; a later
/// one loses the continuation prefix, or gains the space that separates words.
pub open spec fn wordpiece_token(s: Seq<char>, prefix: Seq<char>, first: bool) -> Seq<char> {
    if first {
        s
    } else if prefix.len() <= s.len() && s.subrange(0, prefix.len() as int) == prefix {
        s.skip(prefix.len() as int)
    } else {
        seq![' '] + s
    }
}

/// The cleanup pass: the space the joining put before a period is removed.
pub open spec fn wordpiece_clean(s: Seq<char>) -> Seq<char> {
    replace_all(s, seq![' ', '.'], seq!['.'])
}

/// The word-piece strategy over a whole token sequence.
pub open spec fn wordpiece_tokens(toks: Seq<Seq<char>>, prefix: Seq<char>, cleanup: bool) -> Seq<
    Seq<char>,
> {
    Seq::new(
        toks.len(),
        |i: int|
            if cleanup {
                wordpiece_clean(wordpiece_token(toks[i], prefix, i == 0))
            } else {
                wordpiece_token(toks[i], prefix, i == 0)
            },
    )
}

/// The value of one hexadecimal digit character.
pub open spec fn hex_char_val(c: char) -> Option<u8> {
    if c == '0' { Some(0u8) }
    else if c == '1' { Some(1u8) }
    else if c == '2' { Some(2u8) }
    else if c == '3' { Some(3u8) }
    else if c == '4' { Some(4u8) }
    else if c == '5' { Some(5u8) }
    else if c == '6' { Some(6u8) }
    else if c == '7' { Some(7u8) }
    else if c == '8' { Some(8u8) }
    else if c == '9' { Some(9u8) }
    else if c == 'a' || c == 'A' { Some(10u8) }
    else if c == 'b' || c == 'B' { Some(11u8) }
    else if c == 'c' || c == 'C' { Some(12u8) }
    else if c == 'd' || c == 'D' { Some(13u8) }
    else if c == 'e' || c == 'E' { Some(14u8) }
    else if c == 'f' || c == 'F' { Some(15u8) }
    else { None }
}

/// The byte named by a token of the shape `<0xHH>`, if it has that shape.
pub open spec fn byte_of_token(s: Seq<char>) -> Option<u8> {
    if s.len() == 6 && s[0] == '<' && s[1] == '0' && s[2] == 'x' && s[5] == '>'
        && hex_char_val(s[3]) is Some && hex_char_val(s[4]) is Some {
        Some((hex_char_val(s[3])->0 * 16 + hex_char_val(s[4])->0) as u8)
    } else {
        None
    }
}

/// What the byte-fallback strategy does to one token: a byte token below 0x80
/// becomes the character it names, any other byte token becomes the
/// replacement character, everything else stays.
pub open spec fn byte_fallback_token(s: Seq<char>) -> Seq<char> {
    match byte_of_token(s) {
        Some(b) => if b < 128 {
            seq![b as char]
        } else {
            seq!['\u{fffd}']
        },
        None => s,
    }
}

/// The byte-fallback strategy over a whole token sequence.
pub open spec fn byte_fallback_tokens(toks: Seq<Seq<char>>) -> Seq<Seq<char>> {
    Seq::new(toks.len(), |i: int| byte_fallback_token(toks[i]))
}

/// The value of one hexadecimal digit character.
pub fn hex_val_exec(c: char) -> (r: Option<u8>)
    ensures
        r == hex_char_val(c),
{
    if c == '0' { Some(0u8) }
    else if c == '1' { Some(1u8) }
    else if c == '2' { Some(2u8) }
    else if c == '3' { Some(3u8) }
    else if c == '4' { Some(4u8) }
    else if c == '5' { Some(5u8) }
    else if c == '6' { Some(6u8) }
    else if c == '7' { Some(7u8) }
    else if c == '8' { Some(8u8) }
    else if c == '9' { Some(9u8) }
    else if c == 'a' || c == 'A' { Some(10u8) }
    else if c == 'b' || c == 'B' { Some(11u8) }
    else if c == 'c' || c == 'C' { Some(12u8) }
    else if c == 'd' || c == 'D' { Some(13u8) }
    else if c == 'e' || c == 'E' { Some(14u8) }
    else if c == 'f' || c == 'F' { Some(15u8) }
    else { None }
}

/// Applies the byte-fallback rule to one token.
pub fn byte_fallback_token_chars(t: &Vec<char>) -> (r: Vec<char>)
    ensures
        r@ == byte_fallback_token(t@),
{
    if t.len() == 6 && t[0] == '<' && t[1] == '0' && t[2] == 'x' && t[5] == '>' {
        let h = hex_val_exec(t[3]);
        let l = hex_val_exec(t[4]);
        match (h, l) {
            (Some(hv), Some(lv)) => {
                let b: u8 = hv * 16 + lv;
                let mut r: Vec<char> = Vec::new();
                if b < 128 {
                    r.push(b as char);
                } else {
                    r.push('\u{fffd}');
                }
                proof {
                    assert(r@ =~= byte_fallback_token(t@));
                }
                return r;
            },
            _ => {
                return copy_chars(t);
            },
        }
    }
    copy_chars(t)
}

/// What the connectionist-temporal-classification strategy does: consecutive
/// repeats collapsed, pad tokens dropped, and, under cleanup, the word
/// delimiter turned into a space.
pub open spec fn ctc_tokens(
    toks: Seq<Seq<char>>,
    pad: Seq<char>,
    delim: Seq<char>,
    cleanup: bool,
) -> Seq<Seq<char>> {
    let kept = filter_ne_from(dedup_tokens(toks), pad, 0);
    if cleanup {
        map_replace(kept, delim, seq![' '])
    } else {
        kept
    }
}

/// Fresh copies of all tokens.
pub fn copy_tokens(toks: &Vec<Vec<char>>) -> (r: Vec<Vec<char>>)
    ensures
        tok_views(r@) == tok_views(toks@),
{
    let mut r: Vec<Vec<char>> = Vec::new();
    let mut i: usize = 0;
    while i < toks.len()
        invariant
            i <= toks@.len(),
            r@.len() == i,
            forall|j: int| 0 <= j < i ==> r@[j]@ == toks@[j]@,
        decreases toks@.len() - i,
    {
        let t = copy_chars(&toks[i]);
        r.push(t);
        i += 1;
    }
    proof {
        assert(tok_views(r@) =~= tok_views(toks@));
    }
    r
}

/// Sub-word suffix removal, the byte-pair-encoding convention: every
/// occurrence of the suffix in a token becomes a space.
#[derive(Clone, Debug)]
pub struct BPEDecoder {
    pub suffix: Vec<char>,
}

impl BPEDecoder {
    /// A decoder with the given sub-word suffix.
    pub fn new(suffix: &str) -> (r: BPEDecoder)
        ensures
            r.suffix@ == suffix@,
    {
        BPEDecoder { suffix: str_to_chars(suffix) }
    }

    /// Replaces the suffix by a space in every token.
    pub fn apply(&self, toks: &Vec<Vec<char>>) -> (r: Vec<Vec<char>>)
        ensures
            tok_views(r@) == map_replace(tok_views(toks@), self.suffix@, seq![' ']),
    {
        let mut sp: Vec<char> = Vec::new();
        sp.push(' ');
        proof {
            assert(sp@ =~= seq![' ']);
        }
        map_replace_chars(toks, &self.suffix, &sp)
    }
}

/// Byte-level pass-through. The byte-to-unicode remapping that usually backs
/// this strategy is outside this dispatch core; here the tokens pass
/// unchanged, and the flags are carried for the configuration format alone.
#[derive(Clone, Debug)]
pub struct ByteLevel {
    pub add_prefix_space: bool,
    pub trim_offsets: bool,
    pub use_regex: bool,
}

impl ByteLevel {
    /// A byte-level strategy with the given flags.
    pub fn new(add_prefix_space: bool, trim_offsets: bool, use_regex: bool) -> (r: ByteLevel)
        ensures
            r.add_prefix_space == add_prefix_space,
            r.trim_offsets == trim_offsets,
            r.use_regex == use_regex,
    {
        ByteLevel { add_prefix_space, trim_offsets, use_regex }
    }

    /// Hands the tokens on unchanged.
    pub fn apply(&self, toks: &Vec<Vec<char>>) -> (r: Vec<Vec<char>>)
        ensures
            tok_views(r@) == tok_views(toks@),
    {
        copy_tokens(toks)
    }
}

/// Word-piece joining: the continuation prefix is removed, other continuation
/// tokens gain the separating space, and cleanup removes the space the joining
/// put before a period.
#[derive(Clone, Debug)]
pub struct WordPiece {
    pub prefix: Vec<char>,
    pub cleanup: bool,
}

impl WordPiece {
    /// A word-piece strategy with the given continuation prefix.
    pub fn new(prefix: &str, cleanup: bool) -> (r: WordPiece)
        ensures
            r.prefix@ == prefix@,
            r.cleanup == cleanup,
    {
        WordPiece { prefix: str_to_chars(prefix), cleanup }
    }

    /// Joins word pieces.
    #[verifier::loop_isolation(false)]
    pub fn apply(&self, toks: &Vec<Vec<char>>) -> (r: Vec<Vec<char>>)
        ensures
            tok_views(r@) == wordpiece_tokens(tok_views(toks@), self.prefix@, self.cleanup),
    {
        let ghost tv = tok_views(toks@);
        let mut sp_dot: Vec<char> = Vec::new();
        sp_dot.push(' ');
        sp_dot.push('.');
        let mut dot: Vec<char> = Vec::new();
        dot.push('.');
        proof {
            assert(sp_dot@ =~= seq![' ', '.']);
            assert(dot@ =~= seq!['.']);
        }
        let mut r: Vec<Vec<char>> = Vec::new();
        let mut i: usize = 0;
        while i < toks.len()
            invariant
                i <= toks@.len(),
                r@.len() == i,
                sp_dot@ == seq![' ', '.'],
                dot@ == seq!['.'],
                forall|j: int| 0 <= j < i ==> r@[j]@ == (if self.cleanup {
                    wordpiece_clean(wordpiece_token(tv[j], self.prefix@, j == 0))
                } else {
                    wordpiece_token(tv[j], self.prefix@, j == 0)
                }),
            decreases toks@.len() - i,
        {
            let t = &toks[i];
            let w: Vec<char> = if i == 0 {
                copy_chars(t)
            } else if self.prefix.len() <= t.len() && window_eq(t, &self.prefix, 0) {
                proof {
                    assert(t@.subrange(0, self.prefix@.len() as int) == self.prefix@);
                    assert(t@.subrange(self.prefix@.len() as int, t@.len() as int) =~= t@.skip(
                        self.prefix@.len() as int,
                    ));
                }
                sub_chars(t, self.prefix.len(), t.len())
            } else {
                let mut v: Vec<char> = Vec::new();
                v.push(' ');
                push_all(&mut v, t);
                proof {
                    assert(v@ =~= seq![' '] + t@);
                }
                v
            };
            proof {
                assert(w@ == wordpiece_token(tv[i as int], self.prefix@, i == 0));
            }
            let w2: Vec<char> = if self.cleanup {
                replace_all_chars(&w, &sp_dot, &dot)
            } else {
                w
            };
            r.push(w2);
            i += 1;
        }
        proof {
            assert(tok_views(r@) =~= wordpiece_tokens(tv, self.prefix@, self.cleanup));
        }
        r
    }
}

/// Metaspace decoding: the replacement character becomes a space, and the
/// leading space of the first token is dropped unless the scheme says never.
/// The split flag is carried for the configuration format alone.
#[derive(Clone, Debug)]
pub struct Metaspace {
    pub replacement: char,
    pub prepend_scheme: PrependScheme,
    pub split: bool,
}

impl Metaspace {
    /// A metaspace strategy with the given replacement character and scheme.
    pub fn new(replacement: char, prepend_scheme: PrependScheme, split: bool) -> (r: Metaspace)
        ensures
            r.replacement == replacement,
            r.prepend_scheme == prepend_scheme,
            r.split == split,
    {
        Metaspace { replacement, prepend_scheme, split }
    }

    /// Turns replacement characters back into spaces.
    #[verifier::loop_isolation(false)]
    pub fn apply(&self, toks: &Vec<Vec<char>>) -> (r: Vec<Vec<char>>)
        ensures
            tok_views(r@) == metaspace_tokens(tok_views(toks@), self.replacement, self.prepend_scheme),
    {
        let ghost tv = tok_views(toks@);
        let active: bool = match self.prepend_scheme {
            PrependScheme::Never => false,
            _ => true,
        };
        let mut r: Vec<Vec<char>> = Vec::new();
        let mut i: usize = 0;
        while i < toks.len()
            invariant
                i <= toks@.len(),
                r@.len() == i,
                active == prepend_active(self.prepend_scheme),
                forall|j: int| 0 <= j < i ==> r@[j]@ == metaspace_token(
                    tv[j],
                    self.replacement,
                    j == 0,
                    self.prepend_scheme,
                ),
            decreases toks@.len() - i,
        {
            let m = swap_chars_exec(&toks[i], self.replacement, ' ');
            let w: Vec<char> = if i == 0 && active && m.len() > 0 && m[0] == ' ' {
                proof {
                    assert(m@.subrange(1, m@.len() as int) =~= m@.skip(1));
                }
                sub_chars(&m, 1, m.len())
            } else {
                m
            };
            proof {
                assert(w@ == metaspace_token(tv[i as int], self.replacement, i == 0, self.prepend_scheme));
            }
            r.push(w);
            i += 1;
        }
        proof {
            assert(tok_views(r@) =~= metaspace_tokens(tv, self.replacement, self.prepend_scheme));
        }
        r
    }
}

/// Connectionist-temporal-classification decoding: consecutive repeats
/// collapsed, pad tokens dropped, and, under cleanup, the word delimiter
/// turned into a space.
#[derive(Clone, Debug)]
pub struct CTC {
    pub pad_token: Vec<char>,
    pub word_delimiter_token: Vec<char>,
    pub cleanup: bool,
}

impl CTC {
    /// A strategy with the given pad and word-delimiter tokens.
    pub fn new(pad_token: &str, word_delimiter_token: &str, cleanup: bool) -> (r: CTC)
        ensures
            r.pad_token@ == pad_token@,
            r.word_delimiter_token@ == word_delimiter_token@,
            r.cleanup == cleanup,
    {
        CTC {
            pad_token: str_to_chars(pad_token),
            word_delimiter_token: str_to_chars(word_delimiter_token),
            cleanup,
        }
    }

    /// Collapses repeats, drops pads, and cleans the delimiter.
    pub fn apply(&self, toks: &Vec<Vec<char>>) -> (r: Vec<Vec<char>>)
        ensures
            tok_views(r@) == ctc_tokens(
                tok_views(toks@),
                self.pad_token@,
                self.word_delimiter_token@,
                self.cleanup,
            ),
    {
        let deduped = dedup_chars(toks);
        let kept = filter_ne_chars(&deduped, &self.pad_token);
        if self.cleanup {
            let mut sp: Vec<char> = Vec::new();
            sp.push(' ');
            proof {
                assert(sp@ =~= seq![' ']);
            }
            map_replace_chars(&kept, &self.word_delimiter_token, &sp)
        } else {
            kept
        }
    }
}

/// Substring replacement: every occurrence of the pattern becomes the content.
#[derive(Clone, Debug)]
pub struct Replace {
    pub pattern: Vec<char>,
    pub content: Vec<char>,
}

impl Replace {
    /// A replacement of `pattern` by `content`.
    pub fn new(pattern: &str, content: &str) -> (r: Replace)
        ensures
            r.pattern@ == pattern@,
            r.content@ == content@,
    {
        Replace { pattern: str_to_chars(pattern), content: str_to_chars(content) }
    }

    /// Replaces the pattern in every token.
    pub fn apply(&self, toks: &Vec<Vec<char>>) -> (r: Vec<Vec<char>>)
        ensures
            tok_views(r@) == map_replace(tok_views(toks@), self.pattern@, self.content@),
    {
        map_replace_chars(toks, &self.pattern, &self.content)
    }
}

/// Token fusion: every token melts into one.
#[derive(Clone, Debug)]
pub struct Fuse {
}

impl Fuse {
    /// The fusing strategy.
    pub fn new() -> (r: Fuse) {
        Fuse {  }
    }

    /// Fuses all tokens into one; nothing stays nothing.
    #[verifier::loop_isolation(false)]
    pub fn apply(&self, toks: &Vec<Vec<char>>) -> (r: Vec<Vec<char>>)
        ensures
            tok_views(r@) == fuse_tokens(tok_views(toks@)),
    {
        let ghost tv = tok_views(toks@);
        let mut r: Vec<Vec<char>> = Vec::new();
        if toks.len() == 0 {
            proof {
                assert(tok_views(r@) =~= fuse_tokens(tv));
            }
            return r;
        }
        let mut acc: Vec<char> = Vec::new();
        let mut i: usize = 0;
        proof {
            assert(acc@ =~= Seq::<char>::empty());
        }
        while i < toks.len()
            invariant
                i <= toks@.len(),
                concat_all(tv, 0) == acc@ + concat_all(tv, i as int),
            decreases toks@.len() - i,
        {
            push_all(&mut acc, &toks[i]);
            i += 1;
        }
        proof {
            assert(concat_all(tv, toks@.len() as int) == Seq::<char>::empty());
            assert(acc@ =~= acc@ + Seq::<char>::empty());
        }
        r.push(acc);
        proof {
            assert(tok_views(r@) =~= fuse_tokens(tv));
        }
        r
    }
}

/// Stripping: up to `start` leading and up to `stop` trailing copies of the
/// content character leave every token.
#[derive(Clone, Debug)]
pub struct Strip {
    pub content: char,
    pub start: usize,
    pub stop: usize,
}

impl Strip {
    /// A stripping strategy for the given character and bounds.
    pub fn new(content: char, start: usize, stop: usize) -> (r: Strip)
        ensures
            r.content == content,
            r.start == start,
            r.stop == stop,
    {
        Strip { content, start, stop }
    }

    /// Strips every token.
    #[verifier::loop_isolation(false)]
    pub fn apply(&self, toks: &Vec<Vec<char>>) -> (r: Vec<Vec<char>>)
        ensures
            tok_views(r@) == strip_tokens(
                tok_views(toks@),
                self.content,
                self.start as int,
                self.stop as int,
            ),
    {
        let ghost tv = tok_views(toks@);
        let mut r: Vec<Vec<char>> = Vec::new();
        let mut i: usize = 0;
        while i < toks.len()
            invariant
                i <= toks@.len(),
                r@.len() == i,
                forall|j: int| 0 <= j < i ==> r@[j]@ == strip_token(
                    tv[j],
                    self.content,
                    self.start as int,
                    self.stop as int,
                ),
            decreases toks@.len() - i,
        {
            let t = strip_token_chars(&toks[i], self.content, self.start, self.stop);
            r.push(t);
            i += 1;
        }
        proof {
            assert(tok_views(r@) =~= strip_tokens(tv, self.content, self.start as int, self.stop as int));
        }
        r
    }
}

/// Byte fallback: a token naming a byte becomes that character, or the
/// replacement character for a byte outside the single-character range.
#[derive(Clone, Debug)]
pub struct ByteFallback {
}

impl ByteFallback {
    /// The byte-fallback strategy.
    pub fn new() -> (r: ByteFallback) {
        ByteFallback {  }
    }

    /// Rewrites byte tokens.
    #[verifier::loop_isolation(false)]
    pub fn apply(&self, toks: &Vec<Vec<char>>) -> (r: Vec<Vec<char>>)
        ensures
            tok_views(r@) == byte_fallback_tokens(tok_views(toks@)),
    {
        let ghost tv = tok_views(toks@);
        let mut r: Vec<Vec<char>> = Vec::new();
        let mut i: usize = 0;
        while i < toks.len()
            invariant
                i <= toks@.len(),
                r@.len() == i,
                forall|j: int| 0 <= j < i ==> r@[j]@ == byte_fallback_token(tv[j]),
            decreases toks@.len() - i,
        {
            let t = byte_fallback_token_chars(&toks[i]);
            r.push(t);
            i += 1;
        }
        proof {
            assert(tok_views(r@) =~= byte_fallback_tokens(tv));
        }
        r
    }
}

} // verus!
