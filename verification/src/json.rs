//! The configuration format: a JSON-shaped value model, its one canonical
//! textual rendering, a serializer proved to emit exactly that rendering, and
//! a parser proved to accept a text only when it is the canonical rendering of
//! the value returned.
//!
//! The format uses booleans, unsigned integers, strings, arrays and objects;
//! an object keeps its fields in the order they were written. The canonical
//! rendering has no whitespace between tokens, writes integers in decimal with
//! no leading zero, and escapes only the quote and the backslash inside
//! strings.

use vstd::prelude::*;

verus! {

/// Mathematical model of a configuration value.
pub enum JVal {
    Bool(bool),
    Int(u64),
    Str(Seq<char>),
    Arr(Seq<JVal>),
    Obj(Seq<(Seq<char>, JVal)>),
}

/// A configuration value as held at run time; strings are kept as their
/// characters. Its view is the corresponding `JVal`.
pub enum JsonValue {
    Bool(bool),
    Int(u64),
    Str(Vec<char>),
    Arr(Vec<JsonValue>),
    Obj(Vec<(Vec<char>, JsonValue)>),
}

pub open spec fn jval_of(v: JsonValue) -> JVal
    decreases v, 2int, 0int,
{
    match v {
        JsonValue::Bool(b) => JVal::Bool(b),
        JsonValue::Int(n) => JVal::Int(n),
        JsonValue::Str(s) => JVal::Str(s@),
        JsonValue::Arr(elems) => JVal::Arr(jvals_of(elems@, 0)),
        JsonValue::Obj(pairs) => JVal::Obj(jpairs_of(pairs@, 0)),
    }
}

pub open spec fn jvals_of(elems: Seq<JsonValue>, i: int) -> Seq<JVal>
    decreases elems, 1int, elems.len() - i,
{
    if i < 0 || i >= elems.len() {
        Seq::empty()
    } else {
        seq![jval_of(elems[i])] + jvals_of(elems, i + 1)
    }
}

pub open spec fn jpairs_of(pairs: Seq<(Vec<char>, JsonValue)>, i: int) -> Seq<(Seq<char>, JVal)>
    decreases pairs, 1int, pairs.len() - i,
{
    if i < 0 || i >= pairs.len() {
        Seq::empty()
    } else {
        seq![(pairs[i].0@, jval_of(pairs[i].1))] + jpairs_of(pairs, i + 1)
    }
}

impl View for JsonValue {
    type V = JVal;

    open spec fn view(&self) -> JVal {
        jval_of(*self)
    }
}

/// The decimal digit character for `d` (`d < 10`).
pub open spec fn digit_char(d: u64) -> char {
    if d == 0 { '0' }
    else if d == 1 { '1' }
    else if d == 2 { '2' }
    else if d == 3 { '3' }
    else if d == 4 { '4' }
    else if d == 5 { '5' }
    else if d == 6 { '6' }
    else if d == 7 { '7' }
    else if d == 8 { '8' }
    else { '9' }
}

/// Decimal rendering of `n`, most significant digit first, no leading zero.
pub open spec fn dec_chars(n: u64) -> Seq<char>
    decreases n,
{
    if n < 10 {
        seq![digit_char(n)]
    } else {
        dec_chars(n / 10).push(digit_char(n % 10))
    }
}

/// How one character of a string is rendered: quote and backslash get a
/// backslash before them, every other character stands as itself.
pub open spec fn esc_char(c: char) -> Seq<char> {
    if c == '"' || c == '\\' {
        seq!['\\', c]
    } else {
        seq![c]
    }
}

/// Rendering of the characters of a string from index `i` on.
pub open spec fn ser_str_body(s: Seq<char>, i: int) -> Seq<char>
    decreases s.len() - i,
{
    if i < 0 || i >= s.len() {
        Seq::empty()
    } else {
        esc_char(s[i]) + ser_str_body(s, i + 1)
    }
}

/// Rendering of a string: its escaped characters between quotes.
pub open spec fn ser_str(s: Seq<char>) -> Seq<char> {
    seq!['"'] + ser_str_body(s, 0) + seq!['"']
}

/// The canonical rendering of a configuration value.
pub open spec fn ser(v: JVal) -> Seq<char>
    decreases v, 2int, 0int,
{
    match v {
        JVal::Bool(b) => if b { seq!['t', 'r', 'u', 'e'] } else { seq!['f', 'a', 'l', 's', 'e'] },
        JVal::Int(n) => dec_chars(n),
        JVal::Str(s) => ser_str(s),
        JVal::Arr(elems) => seq!['['] + ser_elems(elems, 0) + seq![']'],
        JVal::Obj(pairs) => seq!['{'] + ser_pairs(pairs, 0) + seq!['}'],
    }
}

/// Rendering of the elements of an array from index `i` on, comma-separated.
pub open spec fn ser_elems(elems: Seq<JVal>, i: int) -> Seq<char>
    decreases elems, 1int, elems.len() - i,
{
    if i < 0 || i >= elems.len() {
        Seq::empty()
    } else if i + 1 < elems.len() {
        ser(elems[i]) + seq![','] + ser_elems(elems, i + 1)
    } else {
        ser(elems[i])
    }
}

/// Rendering of one field of an object: quoted key, colon, value.
pub open spec fn ser_pair(p: (Seq<char>, JVal)) -> Seq<char>
    decreases p, 3int, 0int,
{
    ser_str(p.0) + seq![':'] + ser(p.1)
}

/// Rendering of the fields of an object from index `i` on, comma-separated.
pub open spec fn ser_pairs(pairs: Seq<(Seq<char>, JVal)>, i: int) -> Seq<char>
    decreases pairs, 1int, pairs.len() - i,
{
    if i < 0 || i >= pairs.len() {
        Seq::empty()
    } else if i + 1 < pairs.len() {
        ser_pair(pairs[i]) + seq![','] + ser_pairs(pairs, i + 1)
    } else {
        ser_pair(pairs[i])
    }
}

/// `jvals_of(elems, i)` models the elements of `elems` from `i` on, one each.
pub proof fn lemma_jvals_of(elems: Seq<JsonValue>, i: int)
    requires
        0 <= i <= elems.len(),
    ensures
        jvals_of(elems, i).len() == elems.len() - i,
        forall|j: int| 0 <= j < elems.len() - i ==> jvals_of(elems, i)[j] == jval_of(elems[i + j]),
    decreases elems.len() - i,
{
    if i < elems.len() {
        lemma_jvals_of(elems, i + 1);
    }
}

/// `jpairs_of(pairs, i)` models the fields of `pairs` from `i` on, one each.
pub proof fn lemma_jpairs_of(pairs: Seq<(Vec<char>, JsonValue)>, i: int)
    requires
        0 <= i <= pairs.len(),
    ensures
        jpairs_of(pairs, i).len() == pairs.len() - i,
        forall|j: int| 0 <= j < pairs.len() - i ==> jpairs_of(pairs, i)[j] == (
            pairs[i + j].0@,
            jval_of(pairs[i + j].1),
        ),
    decreases pairs.len() - i,
{
    if i < pairs.len() {
        lemma_jpairs_of(pairs, i + 1);
    }
}

/// First field of the object with the given key, from index `i` on.
pub open spec fn jlookup_from(pairs: Seq<(Seq<char>, JVal)>, k: Seq<char>, i: int) -> Option<JVal>
    decreases pairs.len() - i,
{
    if i < 0 || i >= pairs.len() {
        None
    } else if pairs[i].0 == k {
        Some(pairs[i].1)
    } else {
        jlookup_from(pairs, k, i + 1)
    }
}

/// First field of the object with the given key.
pub open spec fn jlookup(pairs: Seq<(Seq<char>, JVal)>, k: Seq<char>) -> Option<JVal> {
    jlookup_from(pairs, k, 0)
}

/// The decimal digit character for `d`.
pub fn digit_of(d: u64) -> (c: char)
    requires
        d < 10,
    ensures
        c == digit_char(d),
{
    if d == 0 { '0' }
    else if d == 1 { '1' }
    else if d == 2 { '2' }
    else if d == 3 { '3' }
    else if d == 4 { '4' }
    else if d == 5 { '5' }
    else if d == 6 { '6' }
    else if d == 7 { '7' }
    else if d == 8 { '8' }
    else { '9' }
}

/// Appends the decimal rendering of `n`.
pub fn write_int(n: u64, out: &mut Vec<char>)
    ensures
        final(out)@ == old(out)@ + dec_chars(n),
    decreases n,
{
    if n < 10 {
        let c = digit_of(n);
        out.push(c);
        proof {
            assert(out@ =~= old(out)@ + dec_chars(n));
        }
    } else {
        write_int(n / 10, out);
        let c = digit_of(n % 10);
        out.push(c);
        proof {
            assert(out@ =~= old(out)@ + dec_chars(n));
        }
    }
}

/// Appends the rendering of a string: its escaped characters between quotes.
pub fn write_str(s: &Vec<char>, out: &mut Vec<char>)
    ensures
        final(out)@ == old(out)@ + ser_str(s@),
{
    out.push('"');
    let mut i: usize = 0;
    while i < s.len()
        invariant
            i <= s@.len(),
            out@ + ser_str_body(s@, i as int) + seq!['"'] == old(out)@ + ser_str(s@),
        decreases s@.len() - i,
    {
        let c = s[i];
        if c == '"' || c == '\\' {
            out.push('\\');
            out.push(c);
        } else {
            out.push(c);
        }
        proof {
            assert(out@ + ser_str_body(s@, i + 1) + seq!['"'] =~= old(out)@ + ser_str(s@));
        }
        i += 1;
    }
    out.push('"');
    proof {
        assert(out@ =~= old(out)@ + ser_str(s@));
    }
}

/// Appends the canonical rendering of `v`.
#[verifier::loop_isolation(false)]
pub fn write_value(v: &JsonValue, out: &mut Vec<char>)
    ensures
        final(out)@ == old(out)@ + ser(v@),
    decreases *v,
{
    match v {
        JsonValue::Bool(b) => {
            if *b {
                out.push('t');
                out.push('r');
                out.push('u');
                out.push('e');
            } else {
                out.push('f');
                out.push('a');
                out.push('l');
                out.push('s');
                out.push('e');
            }
            proof {
                assert(out@ =~= old(out)@ + ser(v@));
            }
        },
        JsonValue::Int(n) => {
            write_int(*n, out);
        },
        JsonValue::Str(s) => {
            write_str(s, out);
        },
        JsonValue::Arr(elems) => {
            out.push('[');
            let ghost s = jvals_of(elems@, 0);
            proof {
                lemma_jvals_of(elems@, 0);
            }
            let mut i: usize = 0;
            while i < elems.len()
                invariant
                    i <= elems@.len(),
                    s == jvals_of(elems@, 0),
                    s.len() == elems@.len(),
                    forall|j: int| 0 <= j < elems@.len() ==> s[j] == jval_of(elems@[j]),
                    v@ == JVal::Arr(s),
                    out@ + ser_elems(s, i as int) + seq![']'] == old(out)@ + ser(v@),
                decreases elems@.len() - i,
            {
                proof {
                    assert(decreases_to!(*v => v->Arr_0));
                    assert(decreases_to!(*elems => elems[i as int]));
                }
                write_value(&elems[i], out);
                if i + 1 < elems.len() {
                    out.push(',');
                }
                proof {
                    assert(out@ + ser_elems(s, i + 1) + seq![']'] =~= old(out)@ + ser(v@));
                }
                i += 1;
            }
            out.push(']');
            proof {
                assert(out@ =~= old(out)@ + ser(v@));
            }
        },
        JsonValue::Obj(pairs) => {
            out.push('{');
            let ghost s = jpairs_of(pairs@, 0);
            proof {
                lemma_jpairs_of(pairs@, 0);
            }
            let mut i: usize = 0;
            while i < pairs.len()
                invariant
                    i <= pairs@.len(),
                    s == jpairs_of(pairs@, 0),
                    s.len() == pairs@.len(),
                    forall|j: int| 0 <= j < pairs@.len() ==> s[j] == (
                        pairs@[j].0@,
                        jval_of(pairs@[j].1),
                    ),
                    v@ == JVal::Obj(s),
                    out@ + ser_pairs(s, i as int) + seq!['}'] == old(out)@ + ser(v@),
                decreases pairs@.len() - i,
            {
                write_str(&pairs[i].0, out);
                out.push(':');
                proof {
                    assert(decreases_to!(*v => v->Obj_0));
                    assert(decreases_to!(*pairs => pairs[i as int]));
                    assert(decreases_to!(pairs[i as int] => pairs[i as int].1));
                }
                write_value(&pairs[i].1, out);
                if i + 1 < pairs.len() {
                    out.push(',');
                }
                proof {
                    assert(s[i as int] == (pairs@[i as int].0@, jval_of(pairs@[i as int].1)));
                    assert(ser_pair(s[i as int]) == ser_str(s[i as int].0) + seq![':'] + ser(
                        s[i as int].1,
                    ));
                    assert(out@ + ser_pairs(s, i + 1) + seq!['}'] =~= old(out)@ + ser(v@));
                }
                i += 1;
            }
            out.push('}');
            proof {
                assert(out@ =~= old(out)@ + ser(v@));
            }
        },
    }
}

/// A subrange splits at any midpoint into two adjacent subranges.
pub proof fn lemma_sub_glue(s: Seq<char>, a: int, b: int, c: int)
    requires
        0 <= a <= b <= c <= s.len(),
    ensures
        s.subrange(a, c) == s.subrange(a, b) + s.subrange(b, c),
{
    assert(s.subrange(a, c) =~= s.subrange(a, b) + s.subrange(b, c));
}

/// Appending a character to a string appends its escape to the rendering of
/// the string's body.
pub proof fn lemma_ser_str_body_snoc(t: Seq<char>, c: char, k: int)
    requires
        0 <= k <= t.len(),
    ensures
        ser_str_body(t.push(c), k) == ser_str_body(t, k) + esc_char(c),
    decreases t.len() - k,
{
    if k == t.len() {
        assert(ser_str_body(t.push(c), k + 1) =~= Seq::<char>::empty());
        assert(t.push(c)[k] == c);
        assert(ser_str_body(t.push(c), k) =~= ser_str_body(t, k) + esc_char(c));
    } else {
        lemma_ser_str_body_snoc(t, c, k + 1);
        assert(t.push(c)[k] == t[k]);
        assert(ser_str_body(t.push(c), k) =~= ser_str_body(t, k) + esc_char(c));
    }
}

/// Appending an element appends its model.
pub proof fn lemma_jvals_push(elems: Seq<JsonValue>, x: JsonValue)
    ensures
        jvals_of(elems.push(x), 0) == jvals_of(elems, 0).push(jval_of(x)),
{
    lemma_jvals_of(elems.push(x), 0);
    lemma_jvals_of(elems, 0);
    assert forall|j: int| 0 <= j < elems.len() + 1 implies jvals_of(elems.push(x), 0)[j]
        == jvals_of(elems, 0).push(jval_of(x))[j] by {
        assert(jvals_of(elems.push(x), 0)[j] == jval_of(elems.push(x)[0 + j]));
        if j < elems.len() {
            assert(jvals_of(elems, 0)[j] == jval_of(elems[0 + j]));
        }
    }
    assert(jvals_of(elems.push(x), 0) =~= jvals_of(elems, 0).push(jval_of(x)));
}

/// Appending a field appends its model.
pub proof fn lemma_jpairs_push(pairs: Seq<(Vec<char>, JsonValue)>, x: (Vec<char>, JsonValue))
    ensures
        jpairs_of(pairs.push(x), 0) == jpairs_of(pairs, 0).push((x.0@, jval_of(x.1))),
{
    lemma_jpairs_of(pairs.push(x), 0);
    lemma_jpairs_of(pairs, 0);
    assert forall|j: int| 0 <= j < pairs.len() + 1 implies jpairs_of(pairs.push(x), 0)[j]
        == jpairs_of(pairs, 0).push((x.0@, jval_of(x.1)))[j] by {
        assert(jpairs_of(pairs.push(x), 0)[j] == (
            pairs.push(x)[0 + j].0@,
            jval_of(pairs.push(x)[0 + j].1),
        ));
        if j < pairs.len() {
            assert(jpairs_of(pairs, 0)[j] == (pairs[0 + j].0@, jval_of(pairs[0 + j].1)));
        }
    }
    assert(jpairs_of(pairs.push(x), 0) =~= jpairs_of(pairs, 0).push((x.0@, jval_of(x.1))));
}

/// Rendering of the elements from `k` on, each followed by a comma: the shape
/// of an array's text left of an element that is not the last.
pub open spec fn ser_elems_done(elems: Seq<JVal>, k: int) -> Seq<char>
    decreases elems.len() - k,
{
    if k < 0 || k >= elems.len() {
        Seq::empty()
    } else {
        ser(elems[k]) + seq![','] + ser_elems_done(elems, k + 1)
    }
}

/// Rendering of the fields from `k` on, each followed by a comma.
pub open spec fn ser_pairs_done(pairs: Seq<(Seq<char>, JVal)>, k: int) -> Seq<char>
    decreases pairs.len() - k,
{
    if k < 0 || k >= pairs.len() {
        Seq::empty()
    } else {
        ser_pair(pairs[k]) + seq![','] + ser_pairs_done(pairs, k + 1)
    }
}

/// The rendering of an array with one element appended: the renderings of the
/// earlier elements, each with its comma, then the last element.
pub proof fn lemma_ser_elems_snoc(elems: Seq<JVal>, v: JVal, k: int)
    requires
        0 <= k <= elems.len(),
    ensures
        ser_elems(elems.push(v), k) == ser_elems_done(elems, k) + ser(v),
    decreases elems.len() - k,
{
    if k == elems.len() {
        assert(ser_elems(elems.push(v), k) =~= ser_elems_done(elems, k) + ser(v));
    } else {
        lemma_ser_elems_snoc(elems, v, k + 1);
        assert(elems.push(v)[k] == elems[k]);
        assert(ser_elems(elems.push(v), k) =~= ser_elems_done(elems, k) + ser(v));
    }
}

/// The rendering of an object with one field appended.
pub proof fn lemma_ser_pairs_snoc(pairs: Seq<(Seq<char>, JVal)>, p: (Seq<char>, JVal), k: int)
    requires
        0 <= k <= pairs.len(),
    ensures
        ser_pairs(pairs.push(p), k) == ser_pairs_done(pairs, k) + ser_pair(p),
    decreases pairs.len() - k,
{
    if k == pairs.len() {
        assert(ser_pairs(pairs.push(p), k) =~= ser_pairs_done(pairs, k) + ser_pair(p));
    } else {
        lemma_ser_pairs_snoc(pairs, p, k + 1);
        assert(pairs.push(p)[k] == pairs[k]);
        assert(ser_pairs(pairs.push(p), k) =~= ser_pairs_done(pairs, k) + ser_pair(p));
    }
}


/// Rendering of elements from `k` on, each with its comma, grows at the end
/// when an element is appended.
pub proof fn lemma_ser_elems_done_snoc(elems: Seq<JVal>, v: JVal, k: int)
    requires
        0 <= k <= elems.len(),
    ensures
        ser_elems_done(elems.push(v), k) == ser_elems_done(elems, k) + ser(v) + seq![','],
    decreases elems.len() - k,
{
    if k == elems.len() {
        assert(ser_elems_done(elems.push(v), k + 1) =~= Seq::<char>::empty());
        assert(ser_elems_done(elems.push(v), k) =~= ser_elems_done(elems, k) + ser(v) + seq![',']);
    } else {
        lemma_ser_elems_done_snoc(elems, v, k + 1);
        assert(elems.push(v)[k] == elems[k]);
        assert(ser_elems_done(elems.push(v), k) =~= ser_elems_done(elems, k) + ser(v) + seq![',']);
    }
}

/// Rendering of fields from `k` on, each with its comma, grows at the end when
/// a field is appended.
pub proof fn lemma_ser_pairs_done_snoc(pairs: Seq<(Seq<char>, JVal)>, p: (Seq<char>, JVal), k: int)
    requires
        0 <= k <= pairs.len(),
    ensures
        ser_pairs_done(pairs.push(p), k) == ser_pairs_done(pairs, k) + ser_pair(p) + seq![','],
    decreases pairs.len() - k,
{
    if k == pairs.len() {
        assert(ser_pairs_done(pairs.push(p), k + 1) =~= Seq::<char>::empty());
        assert(ser_pairs_done(pairs.push(p), k) =~= ser_pairs_done(pairs, k) + ser_pair(p) + seq![
            ',',
        ]);
    } else {
        lemma_ser_pairs_done_snoc(pairs, p, k + 1);
        assert(pairs.push(p)[k] == pairs[k]);
        assert(ser_pairs_done(pairs.push(p), k) =~= ser_pairs_done(pairs, k) + ser_pair(p) + seq![
            ',',
        ]);
    }
}

/// Whether `c` is a decimal digit character.
pub open spec fn is_digit_char(c: char) -> bool {
    c == '0' || c == '1' || c == '2' || c == '3' || c == '4' || c == '5' || c == '6' || c == '7'
        || c == '8' || c == '9'
}

/// A digit's character is a digit character.
pub proof fn lemma_digit_char_is_digit(d: u64)
    requires
        d < 10,
    ensures
        is_digit_char(digit_char(d)),
{
}

/// Digit characters name their digits apart.
pub proof fn lemma_digit_char_inj(a: u64, b: u64)
    requires
        a < 10,
        b < 10,
        digit_char(a) == digit_char(b),
    ensures
        a == b,
{
}

/// Every character of a decimal rendering is a digit.
pub proof fn lemma_dec_chars_digits(n: u64, k: int)
    requires
        0 <= k < dec_chars(n).len(),
    ensures
        is_digit_char(dec_chars(n)[k]),
    decreases n,
{
    if n >= 10 {
        if k < dec_chars(n / 10).len() {
            lemma_dec_chars_digits(n / 10, k);
        }
    }
}

/// A decimal rendering is one digit exactly for values below ten.
pub proof fn lemma_dec_chars_len(n: u64)
    ensures
        dec_chars(n).len() >= 1,
        (n < 10) <==> (dec_chars(n).len() == 1),
    decreases n,
{
    if n >= 10 {
        lemma_dec_chars_len(n / 10);
    }
}

/// A decimal rendering starts with a zero only for the value zero.
pub proof fn lemma_dec_chars_lead(n: u64)
    ensures
        dec_chars(n)[0] == '0' ==> n == 0,
    decreases n,
{
    if n >= 10 {
        lemma_dec_chars_len(n / 10);
        lemma_dec_chars_lead(n / 10);
        assert(dec_chars(n)[0] == dec_chars(n / 10)[0]);
    }
}

/// Equal decimal renderings name the same value.
pub proof fn lemma_dec_chars_inj(m: u64, n: u64)
    requires
        dec_chars(m) == dec_chars(n),
    ensures
        m == n,
    decreases n,
{
    lemma_dec_chars_len(m);
    lemma_dec_chars_len(n);
    if m < 10 && n < 10 {
        assert(dec_chars(m)[0] == digit_char(m));
        assert(dec_chars(n)[0] == digit_char(n));
        assert(digit_char(m) == digit_char(n));
        lemma_digit_char_inj(m, n);
    } else if m >= 10 && n >= 10 {
        assert(dec_chars(m) == dec_chars(m / 10).push(digit_char(m % 10)));
        assert(dec_chars(n) == dec_chars(n / 10).push(digit_char(n % 10)));
        assert(dec_chars(m).last() == digit_char(m % 10));
        assert(dec_chars(n).last() == digit_char(n % 10));
        lemma_digit_char_inj(m % 10, n % 10);
        assert(dec_chars(m).drop_last() =~= dec_chars(m / 10));
        assert(dec_chars(n).drop_last() =~= dec_chars(n / 10));
        lemma_dec_chars_inj(m / 10, n / 10);
        assert(m == (m / 10) * 10 + (m % 10)) by (nonlinear_arith);
        assert(n == (n / 10) * 10 + (n % 10)) by (nonlinear_arith);
    }
}

/// Extending a rendering by one digit keeps it below any value whose rendering
/// it still prefixes.
pub proof fn lemma_dec_prefix_step(acc: u64, d: u64, n: u64)
    requires
        d < 10,
        dec_chars(acc).push(digit_char(d)).is_prefix_of(dec_chars(n)),
    ensures
        acc * 10 + d <= n,
    decreases n,
{
    let p = dec_chars(acc).push(digit_char(d));
    lemma_dec_chars_len(acc);
    lemma_dec_chars_len(n);
    if n < 10 {
        assert(false);
    } else if p.len() == dec_chars(n).len() {
        assert(p =~= dec_chars(n));
        assert(dec_chars(n) == dec_chars(n / 10).push(digit_char(n % 10)));
        assert(p.last() == digit_char(d));
        assert(dec_chars(n).last() == digit_char(n % 10));
        lemma_digit_char_inj(d, n % 10);
        assert(p.drop_last() =~= dec_chars(acc));
        assert(dec_chars(n).drop_last() =~= dec_chars(n / 10));
        lemma_dec_chars_inj(acc, n / 10);
        assert(n == (n / 10) * 10 + (n % 10)) by (nonlinear_arith);
    } else {
        assert(p =~= dec_chars(n / 10).subrange(0, p.len() as int));
        lemma_dec_prefix_step(acc, d, n / 10);
        assert(n / 10 <= n);
    }
}

/// The digit value of a decimal digit character.
pub fn digit_val(c: char) -> (r: Option<u64>)
    ensures
        r matches Some(d) ==> d < 10 && c == digit_char(d),
        r is None ==> !is_digit_char(c),
{
    if c == '0' { Some(0) }
    else if c == '1' { Some(1) }
    else if c == '2' { Some(2) }
    else if c == '3' { Some(3) }
    else if c == '4' { Some(4) }
    else if c == '5' { Some(5) }
    else if c == '6' { Some(6) }
    else if c == '7' { Some(7) }
    else if c == '8' { Some(8) }
    else if c == '9' { Some(9) }
    else { None }
}

/// Reads an unsigned integer written canonically: what is accepted is exactly
/// the decimal rendering of the result.
#[verifier::loop_isolation(false)]
pub open spec fn num_target(s: Seq<char>, i: int, n: u64, j: int) -> bool {
    i < j <= s.len() && s.subrange(i, j) == dec_chars(n) && (j == s.len() || !is_digit_char(s[j]))
}

pub fn parse_number(s: &Vec<char>, i: usize) -> (r: Option<(u64, usize)>)
    requires
        i < s@.len(),
    ensures
        r matches Some((n, j)) ==> i < j <= s@.len() && s@.subrange(i as int, j as int)
            == dec_chars(n),
        forall|n: u64, j: int| num_target(s@, i as int, n, j) ==> (r matches Some(p) && p.0 == n
            && p.1 == j),
{
    let end = s.len();
    let d0 = match digit_val(s[i]) {
        Some(d) => d,
        None => {
            proof {
                assert forall|n: u64, j: int| num_target(s@, i as int, n, j) implies false by {
                    lemma_dec_chars_len(n);
                    lemma_dec_chars_digits(n, 0);
                    assert(s@[i as int] == dec_chars(n)[0]);
                }
            }
            return None;
        },
    };
    proof {
        assert(s@.subrange(i as int, i as int + 1) =~= seq![s@[i as int]]);
    }
    if d0 == 0 {
        proof {
            assert(s@[i as int] == '0');
            assert forall|n: u64, j: int| num_target(s@, i as int, n, j) implies n == 0 && j == i
                + 1 by {
                assert(s@[i as int] == dec_chars(n)[0]);
                lemma_dec_chars_lead(n);
                lemma_dec_chars_len(n);
            }
        }
        return Some((0, i + 1));
    }
    let mut acc: u64 = d0;
    let mut cur: usize = i + 1;
    proof {
        assert(end == s@.len());
        assert forall|n: u64, j: int| num_target(s@, i as int, n, j) implies j >= cur by {}
    }
    loop
        invariant
            i < cur <= s@.len(),
            1 <= acc,
            s@.subrange(i as int, cur as int) == dec_chars(acc),
            forall|n: u64, j: int| num_target(s@, i as int, n, j) ==> j >= cur,
        decreases s@.len() - cur,
    {
        if cur >= s.len() {
            proof {
                assert forall|n: u64, j: int| num_target(s@, i as int, n, j) implies n == acc && j
                    == cur by {
                    assert(j == cur);
                    lemma_dec_chars_inj(n, acc);
                }
            }
            return Some((acc, cur));
        }
        let d = match digit_val(s[cur]) {
            Some(d) => d,
            None => {
                proof {
                    assert forall|n: u64, j: int| num_target(s@, i as int, n, j) implies n == acc
                        && j == cur by {
                        if j > cur {
                            lemma_dec_chars_digits(n, cur - i);
                            assert(s@[cur as int] == dec_chars(n)[cur - i]);
                            assert(false);
                        }
                        lemma_dec_chars_inj(n, acc);
                    }
                }
                return Some((acc, cur));
            },
        };
        if acc > (u64::MAX - d) / 10 {
            proof {
                lemma_digit_char_is_digit(d);
                assert forall|n: u64, j: int| num_target(s@, i as int, n, j) implies false by {
                    assert(j != cur);
                    assert(s@.subrange(i as int, cur as int + 1) =~= dec_chars(acc).push(
                        digit_char(d),
                    ));
                    assert(dec_chars(acc).push(digit_char(d)) =~= dec_chars(n).subrange(
                        0,
                        cur + 1 - i,
                    ));
                    assert(dec_chars(acc).push(digit_char(d)).is_prefix_of(dec_chars(n)));
                    lemma_dec_prefix_step(acc, d, n);
                    assert(acc * 10 + d > u64::MAX) by (nonlinear_arith)
                        requires
                            d < 10,
                            acc > (u64::MAX - d) / 10,
                    ;
                }
            }
            return None;
        }
        proof {
            lemma_digit_char_is_digit(d);
            assert forall|n: u64, j: int| num_target(s@, i as int, n, j) implies j >= cur + 1 by {
                assert(j != cur);
            }
        }
        proof {
            assert(acc * 10 + d <= u64::MAX) by (nonlinear_arith)
                requires
                    d < 10,
                    acc <= (u64::MAX - d) / 10,
            ;
        }
        let ghost acc0 = acc;
        acc = acc * 10 + d;
        proof {
            assert(acc as int == acc0 * 10 + d);
            assert(acc / 10 == acc0 && acc % 10 == d) by (nonlinear_arith)
                requires
                    acc == acc0 * 10 + d,
                    0 <= d < 10,
                    acc0 >= 1,
            ;
            assert(acc >= 10);
            assert(dec_chars(acc) == dec_chars(acc0).push(digit_char(d)));
            assert(s@.subrange(i as int, cur as int + 1) =~= s@.subrange(
                i as int,
                cur as int,
            ).push(s@[cur as int]));
        }
        cur = cur + 1;
    }
}

/// Reads a string written canonically: what is accepted is exactly the
/// rendering of the result, quotes and escapes included.
#[verifier::loop_isolation(false)]
pub open spec fn str_target(s: Seq<char>, i: int, q: Seq<char>, j: int) -> bool {
    i < j <= s.len() && s.subrange(i, j) == ser_str(q)
}

/// Inside a string target, what stands after the opening quote is the body
/// and the closing quote.
proof fn lemma_unquote(s: Seq<char>, i: int, j: int, q: Seq<char>)
    requires
        0 <= i,
        str_target(s, i, q, j),
    ensures
        j - i == ser_str_body(q, 0).len() + 2,
        s[i] == '"',
        s.subrange(i + 1, j) == ser_str_body(q, 0) + seq!['"'],
{
    assert(ser_str(q) =~= seq!['"'] + (ser_str_body(q, 0) + seq!['"']));
    assert(s[i] == s.subrange(i, j)[0]);
    assert forall|k: int| 0 <= k < j - i - 1 implies #[trigger] (s.subrange(i + 1, j)[k]) == (
    ser_str_body(q, 0) + seq!['"'])[k] by {
        assert(s.subrange(i + 1, j)[k] == s[i + 1 + k]);
        assert(s[i + 1 + k] == s.subrange(i, j)[k + 1]);
        assert((seq!['"'] + (ser_str_body(q, 0) + seq!['"']))[k + 1] == (ser_str_body(q, 0)
            + seq!['"'])[k]);
    }
    assert(s.subrange(i + 1, j) =~= ser_str_body(q, 0) + seq!['"']);
}

#[verifier::loop_isolation(false)]
pub fn parse_string(s: &Vec<char>, i: usize) -> (r: Option<(Vec<char>, usize)>)
    requires
        i <= s@.len(),
    ensures
        r matches Some((t, j)) ==> i < j <= s@.len() && s@.subrange(i as int, j as int) == ser_str(
            t@,
        ),
        forall|q: Seq<char>, j: int| str_target(s@, i as int, q, j) ==> (r matches Some(p)
            && p.0@ == q && p.1 == j),
{
    if i >= s.len() || s[i] != '"' {
        proof {
            assert forall|q: Seq<char>, j: int| str_target(s@, i as int, q, j) implies false by {
                lemma_unquote(s@, i as int, j, q);
            }
        }
        return None;
    }
    let mut t: Vec<char> = Vec::new();
    let mut cur: usize = i + 1;
    proof {
        assert(s@.subrange(i as int + 1, cur as int) =~= ser_str_body(t@, 0));
        assert forall|q: Seq<char>, j: int| str_target(s@, i as int, q, j) implies t@.is_prefix_of(
            q,
        ) && cur <= j && s@.subrange(cur as int, j) == ser_str_body(q, t@.len() as int) + seq![
            '"',
        ] by {
            lemma_unquote(s@, i as int, j, q);
            assert(t@.is_prefix_of(q));
        }
    }
    loop
        invariant
            i < cur <= s@.len(),
            s@.subrange(i as int + 1, cur as int) == ser_str_body(t@, 0),
            forall|q: Seq<char>, j: int| str_target(s@, i as int, q, j) ==> t@.is_prefix_of(q)
                && cur <= j && s@.subrange(cur as int, j) == ser_str_body(q, t@.len() as int)
                + seq!['"'],
        decreases s@.len() - cur,
    {
        if cur >= s.len() {
            proof {
                assert forall|q: Seq<char>, j: int| str_target(s@, i as int, q, j) implies false by {
                    assert(s@.subrange(cur as int, j).len() == j - cur);
                    assert(j - cur >= 1);
                }
            }
            return None;
        }
        let c = s[cur];
        if c == '"' {
            proof {
                lemma_sub_glue(s@, i as int, i as int + 1, cur as int);
                assert(s@.subrange(i as int, i as int + 1) =~= seq!['"']);
                lemma_sub_glue(s@, i as int, cur as int, cur as int + 1);
                assert(s@.subrange(cur as int, cur as int + 1) =~= seq!['"']);
                assert(s@.subrange(i as int, cur as int + 1) =~= ser_str(t@));
                assert forall|q: Seq<char>, j: int| str_target(s@, i as int, q, j) implies q == t@
                    && j == cur + 1 by {
                    let m = t@.len() as int;
                    assert(s@.subrange(cur as int, j).len() == j - cur);
                    assert(j - cur == ser_str_body(q, m).len() + 1);
                    if m < q.len() {
                        assert(ser_str_body(q, m) == esc_char(q[m]) + ser_str_body(q, m + 1));
                        assert(s@[cur as int] == s@.subrange(cur as int, j)[0]);
                        assert(s@.subrange(cur as int, j)[0] == ser_str_body(q, m)[0]);
                        assert(ser_str_body(q, m)[0] == esc_char(q[m])[0]);
                        assert(false);
                    }
                    assert(ser_str_body(q, m) =~= Seq::<char>::empty());
                    assert(j == cur + 1);
                    assert(q =~= t@);
                }
            }
            return Some((t, cur + 1));
        } else if c == '\\' {
            proof {
                assert forall|q: Seq<char>, j: int| str_target(s@, i as int, q, j) implies ({
                    let m = t@.len() as int;
                    m < q.len() && (q[m] == '"' || q[m] == '\\') && cur + 3 <= j && s@[cur as int
                        + 1] == q[m]
                }) by {
                    let m = t@.len() as int;
                    assert(s@.subrange(cur as int, j).len() == j - cur);
                    assert(j - cur == ser_str_body(q, m).len() + 1);
                    if m >= q.len() {
                        assert(ser_str_body(q, m) =~= Seq::<char>::empty());
                        assert(s@[cur as int] == s@.subrange(cur as int, j)[0]);
                        assert(false);
                    }
                    assert(ser_str_body(q, m) == esc_char(q[m]) + ser_str_body(q, m + 1));
                    assert(s@[cur as int] == s@.subrange(cur as int, j)[0]);
                    assert(s@.subrange(cur as int, j)[0] == ser_str_body(q, m)[0]);
                    assert(ser_str_body(q, m)[0] == esc_char(q[m])[0]);
                    assert(q[m] == '"' || q[m] == '\\');
                    assert(ser_str_body(q, m).len() >= 2);
                    assert(s@[cur as int + 1] == s@.subrange(cur as int, j)[1]);
                    assert(s@.subrange(cur as int, j)[1] == ser_str_body(q, m)[1]);
                    assert(ser_str_body(q, m)[1] == esc_char(q[m])[1]);
                    assert(esc_char(q[m])[1] == q[m]);
                }
            }
            if cur + 1 >= s.len() {
                proof {
                    assert forall|q: Seq<char>, j: int| str_target(s@, i as int, q, j) implies
                        false by {}
                }
                return None;
            }
            let e = s[cur + 1];
            if e == '"' || e == '\\' {
                let ghost t0 = t@;
                t.push(e);
                proof {
                    lemma_ser_str_body_snoc(t0, e, 0);
                    lemma_sub_glue(s@, i as int + 1, cur as int, cur as int + 2);
                    assert(s@.subrange(cur as int, cur as int + 2) =~= esc_char(e));
                    assert(s@.subrange(i as int + 1, cur as int + 2) == ser_str_body(t@, 0));
                    assert forall|q: Seq<char>, j: int| str_target(s@, i as int, q, j) implies t@
                        .is_prefix_of(q) && cur + 2 <= j && s@.subrange(cur as int + 2, j)
                        == ser_str_body(q, t@.len() as int) + seq!['"'] by {
                        let m = t0.len() as int;
                        assert(q[m] == e);
                        assert(t0 =~= q.subrange(0, m));
                        assert(t@ =~= q.subrange(0, m + 1));
                        assert(ser_str_body(q, m) == esc_char(q[m]) + ser_str_body(q, m + 1));
                        assert forall|k: int| 0 <= k < j - cur - 2 implies #[trigger] (
                        s@.subrange(cur as int + 2, j)[k]) == (ser_str_body(q, m + 1)
                            + seq!['"'])[k] by {
                            assert(s@.subrange(cur as int + 2, j)[k] == s@.subrange(
                                cur as int,
                                j,
                            )[k + 2]);
                            assert(s@.subrange(cur as int, j)[k + 2] == (ser_str_body(q, m)
                                + seq!['"'])[k + 2]);
                        }
                        assert(s@.subrange(cur as int + 2, j) =~= ser_str_body(q, m + 1) + seq![
                            '"',
                        ]);
                    }
                }
                cur = cur + 2;
            } else {
                proof {
                    assert forall|q: Seq<char>, j: int| str_target(s@, i as int, q, j) implies
                        false by {
                        let m = t@.len() as int;
                        assert(s@[cur as int + 1] == q[m]);
                    }
                }
                return None;
            }
        } else {
            let ghost t0 = t@;
            t.push(c);
            proof {
                lemma_ser_str_body_snoc(t0, c, 0);
                lemma_sub_glue(s@, i as int + 1, cur as int, cur as int + 1);
                assert(s@.subrange(cur as int, cur as int + 1) =~= esc_char(c));
                assert(s@.subrange(i as int + 1, cur as int + 1) == ser_str_body(t@, 0));
                assert forall|q: Seq<char>, j: int| str_target(s@, i as int, q, j) implies t@
                    .is_prefix_of(q) && cur + 1 <= j && s@.subrange(cur as int + 1, j)
                    == ser_str_body(q, t@.len() as int) + seq!['"'] by {
                    let m = t0.len() as int;
                    assert(s@.subrange(cur as int, j).len() == j - cur);
                    assert(j - cur == ser_str_body(q, m).len() + 1);
                    if m >= q.len() {
                        assert(ser_str_body(q, m) =~= Seq::<char>::empty());
                        assert(s@[cur as int] == s@.subrange(cur as int, j)[0]);
                        assert(false);
                    }
                    assert(ser_str_body(q, m) == esc_char(q[m]) + ser_str_body(q, m + 1));
                    assert(s@[cur as int] == s@.subrange(cur as int, j)[0]);
                    assert(s@.subrange(cur as int, j)[0] == ser_str_body(q, m)[0]);
                    assert(ser_str_body(q, m)[0] == esc_char(q[m])[0]);
                    assert(q[m] == c);
                    assert(t0 =~= q.subrange(0, m));
                    assert(t@ =~= q.subrange(0, m + 1));
                    assert forall|k: int| 0 <= k < j - cur - 1 implies #[trigger] (s@.subrange(
                        cur as int + 1,
                        j,
                    )[k]) == (ser_str_body(q, m + 1) + seq!['"'])[k] by {
                        assert(s@.subrange(cur as int + 1, j)[k] == s@.subrange(cur as int, j)[k
                            + 1]);
                        assert(s@.subrange(cur as int, j)[k + 1] == (ser_str_body(q, m)
                            + seq!['"'])[k + 1]);
                    }
                    assert(s@.subrange(cur as int + 1, j) =~= ser_str_body(q, m + 1) + seq!['"']);
                }
            }
            cur = cur + 1;
        }
    }
}

/// What a value target is: the text from `i` to `j` is the canonical
/// rendering of `v`, and no digit follows a number.
pub open spec fn val_target(s: Seq<char>, i: int, v: JVal, j: int) -> bool {
    i < j <= s.len() && s.subrange(i, j) == ser(v) && (v is Int ==> j == s.len()
        || !is_digit_char(s[j]))
}

/// The first character of a rendering names its case.
pub proof fn lemma_ser_first(v: JVal)
    ensures
        ser(v).len() >= 1,
        match v {
            JVal::Bool(b) => ser(v)[0] == (if b { 't' } else { 'f' }),
            JVal::Int(_) => is_digit_char(ser(v)[0]),
            JVal::Str(_) => ser(v)[0] == '"',
            JVal::Arr(_) => ser(v)[0] == '[',
            JVal::Obj(_) => ser(v)[0] == '{',
        },
{
    match v {
        JVal::Int(n) => {
            lemma_dec_chars_len(n);
            lemma_dec_chars_digits(n, 0);
        },
        _ => {},
    }
}

/// What stands between a matched bracket pair is the body.
proof fn lemma_unbracket(s: Seq<char>, i: int, j: int, op: char, body: Seq<char>, cl: char)
    requires
        0 <= i < j <= s.len(),
        s.subrange(i, j) == seq![op] + body + seq![cl],
    ensures
        j - i == body.len() + 2,
        s[i] == op,
        s[j - 1] == cl,
        s.subrange(i + 1, j - 1) == body,
{
    assert(seq![op] + body + seq![cl] =~= seq![op] + (body + seq![cl]));
    assert(s[i] == s.subrange(i, j)[0]);
    assert(s[j - 1] == s.subrange(i, j)[j - i - 1]);
    assert forall|k: int| 0 <= k < j - i - 2 implies #[trigger] (s.subrange(i + 1, j - 1)[k])
        == body[k] by {
        assert(s.subrange(i + 1, j - 1)[k] == s[i + 1 + k]);
        assert(s[i + 1 + k] == s.subrange(i, j)[k + 1]);
    }
    assert(s.subrange(i + 1, j - 1) =~= body);
}

/// The first element of an array body: its rendering stands first, then its
/// separator or the end of the body.
proof fn lemma_elems_head(s: Seq<char>, a: int, b: int, el: Seq<JVal>, k: int)
    requires
        0 <= a <= b <= s.len(),
        0 <= k < el.len(),
        s.subrange(a, b) == ser_elems(el, k),
    ensures
        ({
            let e = a + ser(el[k]).len();
            e <= b && a < e && s.subrange(a, e) == ser(el[k]) && (k + 1 < el.len() ==> e + 1 <= b
                && s[e] == ',' && s.subrange(e + 1, b) == ser_elems(el, k + 1)) && (k + 1
                == el.len() ==> e == b)
        }),
{
    lemma_ser_first(el[k]);
    let e = a + ser(el[k]).len();
    if k + 1 < el.len() {
        assert(ser_elems(el, k) == ser(el[k]) + seq![','] + ser_elems(el, k + 1));
        assert(ser_elems(el, k) =~= ser(el[k]) + (seq![','] + ser_elems(el, k + 1)));
        assert forall|m: int| 0 <= m < ser(el[k]).len() implies #[trigger] (s.subrange(a, e)[m])
            == ser(el[k])[m] by {
            assert(s.subrange(a, e)[m] == s.subrange(a, b)[m]);
        }
        assert(s.subrange(a, e) =~= ser(el[k]));
        assert(s[e] == s.subrange(a, b)[e - a]);
        assert forall|m: int| 0 <= m < b - e - 1 implies #[trigger] (s.subrange(e + 1, b)[m])
            == ser_elems(el, k + 1)[m] by {
            assert(s.subrange(e + 1, b)[m] == s.subrange(a, b)[e - a + 1 + m]);
        }
        assert(s.subrange(e + 1, b) =~= ser_elems(el, k + 1));
    } else {
        assert(ser_elems(el, k) == ser(el[k]));
        assert(s.subrange(a, e) =~= ser(el[k]));
    }
}

/// The first field of an object body: its key, its colon, its value, then its
/// separator or the end of the body.
proof fn lemma_pairs_head(s: Seq<char>, a: int, b: int, pl: Seq<(Seq<char>, JVal)>, k: int)
    requires
        0 <= a <= b <= s.len(),
        0 <= k < pl.len(),
        s.subrange(a, b) == ser_pairs(pl, k),
    ensures
        ({
            let ke = a + ser_str(pl[k].0).len();
            let ve = ke + 1 + ser(pl[k].1).len();
            ve <= b && a < ke && s.subrange(a, ke) == ser_str(pl[k].0) && s[ke] == ':'
                && s.subrange(ke + 1, ve) == ser(pl[k].1) && (k + 1 < pl.len() ==> ve + 1 <= b
                && s[ve] == ',' && s.subrange(ve + 1, b) == ser_pairs(pl, k + 1)) && (k + 1
                == pl.len() ==> ve == b)
        }),
{
    lemma_ser_first(pl[k].1);
    let ke = a + ser_str(pl[k].0).len();
    let ve = ke + 1 + ser(pl[k].1).len();
    let pr = ser_pair(pl[k]);
    assert(pr == ser_str(pl[k].0) + seq![':'] + ser(pl[k].1));
    if k + 1 < pl.len() {
        assert(ser_pairs(pl, k) == pr + seq![','] + ser_pairs(pl, k + 1));
        assert(ser_pairs(pl, k) =~= ser_str(pl[k].0) + (seq![':'] + (ser(pl[k].1) + (seq![',']
            + ser_pairs(pl, k + 1)))));
    } else {
        assert(ser_pairs(pl, k) == pr);
        assert(ser_pairs(pl, k) =~= ser_str(pl[k].0) + (seq![':'] + ser(pl[k].1)));
    }
    assert forall|m: int| 0 <= m < ke - a implies #[trigger] (s.subrange(a, ke)[m]) == ser_str(
        pl[k].0,
    )[m] by {
        assert(s.subrange(a, ke)[m] == s.subrange(a, b)[m]);
    }
    assert(s.subrange(a, ke) =~= ser_str(pl[k].0));
    assert(s[ke] == s.subrange(a, b)[ke - a]);
    assert forall|m: int| 0 <= m < ve - ke - 1 implies #[trigger] (s.subrange(ke + 1, ve)[m])
        == ser(pl[k].1)[m] by {
        assert(s.subrange(ke + 1, ve)[m] == s.subrange(a, b)[ke - a + 1 + m]);
    }
    assert(s.subrange(ke + 1, ve) =~= ser(pl[k].1));
    if k + 1 < pl.len() {
        assert(s[ve] == s.subrange(a, b)[ve - a]);
        assert forall|m: int| 0 <= m < b - ve - 1 implies #[trigger] (s.subrange(ve + 1, b)[m])
            == ser_pairs(pl, k + 1)[m] by {
            assert(s.subrange(ve + 1, b)[m] == s.subrange(a, b)[ve - a + 1 + m]);
        }
        assert(s.subrange(ve + 1, b) =~= ser_pairs(pl, k + 1));
    }
}

/// Reads a configuration value written canonically. Sound and complete by
/// contract: a text is accepted only if it is, character for character, the
/// canonical rendering of the value returned; and wherever a canonical
/// rendering stands, it is accepted, with exactly the value it renders.
#[verifier::loop_isolation(false)]
#[verifier::rlimit(100)]
pub fn parse_value(s: &Vec<char>, i: usize) -> (r: Option<(JsonValue, usize)>)
    requires
        i <= s@.len(),
    ensures
        r matches Some((v, j)) ==> i < j <= s@.len() && s@.subrange(i as int, j as int) == ser(v@),
        forall|v: JVal, j: int| val_target(s@, i as int, v, j) ==> (r matches Some(p)
            && p.0@ == v && p.1 == j),
    decreases s@.len() - i,
{
    if i >= s.len() {
        proof {
            assert forall|v: JVal, j: int| val_target(s@, i as int, v, j) implies false by {}
        }
        return None;
    }
    let c = s[i];
    proof {
        assert forall|v: JVal, j: int| val_target(s@, i as int, v, j) implies s@[i as int] == ser(
            v,
        )[0] by {
            lemma_ser_first(v);
        }
    }
    if c == 't' {
        if s.len() - i >= 4 && s[i + 1] == 'r' && s[i + 2] == 'u' && s[i + 3] == 'e' {
            proof {
                assert(s@.subrange(i as int, i as int + 4) =~= seq!['t', 'r', 'u', 'e']);
                assert forall|v: JVal, j: int| val_target(s@, i as int, v, j) implies v
                    == JVal::Bool(true) && j == i + 4 by {
                    lemma_ser_first(v);
                    assert(v is Bool);
                    assert(v == JVal::Bool(true));
                }
            }
            return Some((JsonValue::Bool(true), i + 4));
        }
        proof {
            assert forall|v: JVal, j: int| val_target(s@, i as int, v, j) implies false by {
                lemma_ser_first(v);
                assert(v == JVal::Bool(true));
                assert(s@.subrange(i as int, j) =~= seq!['t', 'r', 'u', 'e']);
                assert(j == i + 4);
                assert(s@[i as int + 1] == 'r' && s@[i as int + 2] == 'u' && s@[i as int + 3]
                    == 'e');
            }
        }
        return None;
    } else if c == 'f' {
        if s.len() - i >= 5 && s[i + 1] == 'a' && s[i + 2] == 'l' && s[i + 3] == 's' && s[i + 4]
            == 'e' {
            proof {
                assert(s@.subrange(i as int, i as int + 5) =~= seq!['f', 'a', 'l', 's', 'e']);
                assert forall|v: JVal, j: int| val_target(s@, i as int, v, j) implies v
                    == JVal::Bool(false) && j == i + 5 by {
                    lemma_ser_first(v);
                    assert(v == JVal::Bool(false));
                }
            }
            return Some((JsonValue::Bool(false), i + 5));
        }
        proof {
            assert forall|v: JVal, j: int| val_target(s@, i as int, v, j) implies false by {
                lemma_ser_first(v);
                assert(v == JVal::Bool(false));
                assert(s@.subrange(i as int, j) =~= seq!['f', 'a', 'l', 's', 'e']);
                assert(j == i + 5);
                assert(s@[i as int + 1] == 'a' && s@[i as int + 2] == 'l' && s@[i as int + 3]
                    == 's' && s@[i as int + 4] == 'e');
            }
        }
        return None;
    } else if c == '"' {
        let sub = parse_string(s, i);
        proof {
            assert forall|v: JVal, j: int| val_target(s@, i as int, v, j) implies (sub matches
                Some(p) && jval_of(JsonValue::Str(p.0)) == v && p.1 == j) by {
                lemma_ser_first(v);
                assert(v is Str);
                assert(str_target(s@, i as int, v->Str_0, j));
            }
        }
        match sub {
            Some((t, j)) => {
                return Some((JsonValue::Str(t), j));
            },
            None => {
                return None;
            },
        }
    } else if c == '[' {
        let mut elems: Vec<JsonValue> = Vec::new();
        let mut cur: usize = i + 1;
        proof {
            assert forall|v: JVal, j: int| val_target(s@, i as int, v, j) implies (v matches
                JVal::Arr(el) && s@[j - 1] == ']' && i + 1 <= j - 1 && s@.subrange(
                i as int + 1,
                j - 1,
            ) == ser_elems(el, 0)) by {
                lemma_ser_first(v);
                assert(v is Arr);
                lemma_unbracket(s@, i as int, j, '[', ser_elems(v->Arr_0, 0), ']');
            }
        }
        if cur < s.len() && s[cur] == ']' {
            proof {
                assert(jvals_of(elems@, 0) =~= Seq::<JVal>::empty());
                assert(s@.subrange(i as int, cur as int + 1) =~= seq!['[', ']']);
                assert(s@.subrange(i as int, cur as int + 1) =~= ser(
                    JVal::Arr(jvals_of(elems@, 0)),
                ));
                assert forall|v: JVal, j: int| val_target(s@, i as int, v, j) implies v
                    == JVal::Arr(Seq::<JVal>::empty()) && j == i + 2 by {
                    let el = v->Arr_0;
                    if el.len() > 0 {
                        lemma_elems_head(s@, i as int + 1, j - 1, el, 0);
                        lemma_ser_first(el[0]);
                        assert(s@[i as int + 1] == ser(el[0])[0]);
                        assert(false);
                    }
                    assert(ser_elems(el, 0) =~= Seq::<char>::empty());
                    assert(j == i + 2);
                    assert(el =~= Seq::<JVal>::empty());
                }
            }
            return Some((JsonValue::Arr(elems), cur + 1));
        }
        proof {
            assert(jvals_of(elems@, 0) =~= Seq::<JVal>::empty());
            assert(s@.subrange(i as int + 1, cur as int) =~= ser_elems_done(
                jvals_of(elems@, 0),
                0,
            ));
            assert forall|v: JVal, j: int| val_target(s@, i as int, v, j) implies (v matches
                JVal::Arr(el) && el.len() > elems@.len() && jvals_of(elems@, 0) == el.subrange(
                0,
                elems@.len() as int,
            ) && cur <= j - 1 && s@.subrange(cur as int, j - 1) == ser_elems(
                el,
                elems@.len() as int,
            ) && s@[j - 1] == ']') by {
                let el = v->Arr_0;
                if el.len() == 0 {
                    assert(ser_elems(el, 0) =~= Seq::<char>::empty());
                    assert(j == i + 2);
                    assert(s@[i as int + 1] == ']');
                    assert(false);
                }
                assert(jvals_of(elems@, 0) =~= el.subrange(0, 0));
            }
        }
        loop
            invariant
                i < cur <= s@.len(),
                s@.subrange(i as int + 1, cur as int) == ser_elems_done(jvals_of(elems@, 0), 0),
                forall|v: JVal, j: int| val_target(s@, i as int, v, j) ==> (v matches JVal::Arr(el)
                    && el.len() > elems@.len() && jvals_of(elems@, 0) == el.subrange(
                    0,
                    elems@.len() as int,
                ) && cur <= j - 1 && s@.subrange(cur as int, j - 1) == ser_elems(
                    el,
                    elems@.len() as int,
                ) && s@[j - 1] == ']'),
            decreases s@.len() - cur,
        {
            proof {
                assert(decreases_to!(s@.len() - i => s@.len() - cur));
            }
            let sub = parse_value(s, cur);
            proof {
                let ghost k = elems@.len() as int;
                assert forall|v: JVal, j: int| val_target(s@, i as int, v, j) implies (sub matches
                    Some(p) && p.0@ == v->Arr_0[k] && p.1 == cur + ser(v->Arr_0[k]).len()) by {
                    let el = v->Arr_0;
                    lemma_elems_head(s@, cur as int, j - 1, el, k);
                    let e = cur + ser(el[k]).len();
                    assert(!is_digit_char(',') && !is_digit_char(']'));
                    assert(val_target(s@, cur as int, el[k], e));
                }
            }
            let (item, jn) = match sub {
                Some(p) => p,
                None => {
                    return None;
                },
            };
            let ghost elems0 = elems@;
            elems.push(item);
            proof {
                lemma_jvals_push(elems0, item);
            }
            if jn < s.len() && s[jn] == ',' {
                proof {
                    lemma_ser_elems_done_snoc(jvals_of(elems0, 0), jval_of(item), 0);
                    lemma_sub_glue(s@, i as int + 1, cur as int, jn as int);
                    lemma_sub_glue(s@, i as int + 1, jn as int, jn as int + 1);
                    assert(s@.subrange(jn as int, jn as int + 1) =~= seq![',']);
                    assert(s@.subrange(i as int + 1, jn as int + 1) == ser_elems_done(
                        jvals_of(elems@, 0),
                        0,
                    ));
                    let ghost k = elems0.len() as int;
                    assert forall|v: JVal, j: int| val_target(s@, i as int, v, j) implies (v
                        matches JVal::Arr(el) && el.len() > elems@.len() && jvals_of(elems@, 0)
                        == el.subrange(0, elems@.len() as int) && jn + 1 <= j - 1 && s@.subrange(
                        jn as int + 1,
                        j - 1,
                    ) == ser_elems(el, elems@.len() as int) && s@[j - 1] == ']') by {
                        let el = v->Arr_0;
                        lemma_elems_head(s@, cur as int, j - 1, el, k);
                        let e = cur + ser(el[k]).len();
                        assert(jn == e);
                        if k + 1 == el.len() {
                            assert(s@[jn as int] == ']');
                            assert(false);
                        }
                        assert(jvals_of(elems@, 0) =~= el.subrange(0, k + 1));
                    }
                }
                cur = jn + 1;
            } else if jn < s.len() && s[jn] == ']' {
                proof {
                    lemma_ser_elems_snoc(jvals_of(elems0, 0), jval_of(item), 0);
                    lemma_sub_glue(s@, i as int + 1, cur as int, jn as int);
                    lemma_sub_glue(s@, i as int, i as int + 1, jn as int);
                    lemma_sub_glue(s@, i as int, jn as int, jn as int + 1);
                    assert(s@.subrange(i as int, i as int + 1) =~= seq!['[']);
                    assert(s@.subrange(jn as int, jn as int + 1) =~= seq![']']);
                    assert(s@.subrange(i as int, jn as int + 1) =~= ser(
                        JVal::Arr(jvals_of(elems@, 0)),
                    ));
                    let ghost k = elems0.len() as int;
                    assert forall|v: JVal, j: int| val_target(s@, i as int, v, j) implies v
                        == JVal::Arr(jvals_of(elems@, 0)) && j == jn + 1 by {
                        let el = v->Arr_0;
                        lemma_elems_head(s@, cur as int, j - 1, el, k);
                        let e = cur + ser(el[k]).len();
                        assert(jn == e);
                        if k + 1 < el.len() {
                            assert(s@[jn as int] == ',');
                            assert(false);
                        }
                        assert(jn == j - 1);
                        assert(jvals_of(elems@, 0) =~= el);
                    }
                }
                return Some((JsonValue::Arr(elems), jn + 1));
            } else {
                proof {
                    let ghost k = elems0.len() as int;
                    assert forall|v: JVal, j: int| val_target(s@, i as int, v, j) implies false by {
                        let el = v->Arr_0;
                        lemma_elems_head(s@, cur as int, j - 1, el, k);
                        let e = cur + ser(el[k]).len();
                        assert(jn == e);
                        if k + 1 < el.len() {
                            assert(s@[jn as int] == ',');
                        } else {
                            assert(s@[jn as int] == ']');
                        }
                        assert(jn < s@.len());
                        assert(false);
                    }
                }
                return None;
            }
        }
    } else if c == '{' {
        let mut pairs: Vec<(Vec<char>, JsonValue)> = Vec::new();
        let mut cur: usize = i + 1;
        proof {
            assert forall|v: JVal, j: int| val_target(s@, i as int, v, j) implies (v matches
                JVal::Obj(pl) && s@[j - 1] == '}' && i + 1 <= j - 1 && s@.subrange(
                i as int + 1,
                j - 1,
            ) == ser_pairs(pl, 0)) by {
                lemma_ser_first(v);
                assert(v is Obj);
                lemma_unbracket(s@, i as int, j, '{', ser_pairs(v->Obj_0, 0), '}');
            }
        }
        if cur < s.len() && s[cur] == '}' {
            proof {
                assert(jpairs_of(pairs@, 0) =~= Seq::<(Seq<char>, JVal)>::empty());
                assert(s@.subrange(i as int, cur as int + 1) =~= seq!['{', '}']);
                assert(s@.subrange(i as int, cur as int + 1) =~= ser(
                    JVal::Obj(jpairs_of(pairs@, 0)),
                ));
                assert forall|v: JVal, j: int| val_target(s@, i as int, v, j) implies v
                    == JVal::Obj(Seq::<(Seq<char>, JVal)>::empty()) && j == i + 2 by {
                    let pl = v->Obj_0;
                    if pl.len() > 0 {
                        lemma_pairs_head(s@, i as int + 1, j - 1, pl, 0);
                        assert(s@.subrange(i as int + 1, i as int + 1 + ser_str(
                            pl[0].0,
                        ).len())[0] == '"');
                        assert(s@[i as int + 1] == '"');
                        assert(false);
                    }
                    assert(ser_pairs(pl, 0) =~= Seq::<char>::empty());
                    assert(j == i + 2);
                    assert(pl =~= Seq::<(Seq<char>, JVal)>::empty());
                }
            }
            return Some((JsonValue::Obj(pairs), cur + 1));
        }
        proof {
            assert(jpairs_of(pairs@, 0) =~= Seq::<(Seq<char>, JVal)>::empty());
            assert(s@.subrange(i as int + 1, cur as int) =~= ser_pairs_done(
                jpairs_of(pairs@, 0),
                0,
            ));
            assert forall|v: JVal, j: int| val_target(s@, i as int, v, j) implies (v matches
                JVal::Obj(pl) && pl.len() > pairs@.len() && jpairs_of(pairs@, 0) == pl.subrange(
                0,
                pairs@.len() as int,
            ) && cur <= j - 1 && s@.subrange(cur as int, j - 1) == ser_pairs(
                pl,
                pairs@.len() as int,
            ) && s@[j - 1] == '}') by {
                let pl = v->Obj_0;
                if pl.len() == 0 {
                    assert(ser_pairs(pl, 0) =~= Seq::<char>::empty());
                    assert(j == i + 2);
                    assert(s@[i as int + 1] == '}');
                    assert(false);
                }
                assert(jpairs_of(pairs@, 0) =~= pl.subrange(0, 0));
            }
        }
        loop
            invariant
                i < cur <= s@.len(),
                s@.subrange(i as int + 1, cur as int) == ser_pairs_done(jpairs_of(pairs@, 0), 0),
                forall|v: JVal, j: int| val_target(s@, i as int, v, j) ==> (v matches JVal::Obj(pl)
                    && pl.len() > pairs@.len() && jpairs_of(pairs@, 0) == pl.subrange(
                    0,
                    pairs@.len() as int,
                ) && cur <= j - 1 && s@.subrange(cur as int, j - 1) == ser_pairs(
                    pl,
                    pairs@.len() as int,
                ) && s@[j - 1] == '}'),
            decreases s@.len() - cur,
        {
            let subk = parse_string(s, cur);
            proof {
                let ghost k = pairs@.len() as int;
                assert forall|v: JVal, j: int| val_target(s@, i as int, v, j) implies (subk matches
                    Some(p) && p.0@ == v->Obj_0[k].0 && p.1 == cur + ser_str(
                    v->Obj_0[k].0,
                ).len()) by {
                    let pl = v->Obj_0;
                    lemma_pairs_head(s@, cur as int, j - 1, pl, k);
                    assert(str_target(s@, cur as int, pl[k].0, cur + ser_str(pl[k].0).len()));
                }
            }
            let (kk, j1) = match subk {
                Some(p) => p,
                None => {
                    return None;
                },
            };
            if j1 >= s.len() {
                proof {
                    let ghost k = pairs@.len() as int;
                    assert forall|v: JVal, j: int| val_target(s@, i as int, v, j) implies false by {
                        let pl = v->Obj_0;
                        lemma_pairs_head(s@, cur as int, j - 1, pl, k);
                        assert(j1 < j);
                    }
                }
                return None;
            }
            if s[j1] != ':' {
                proof {
                    let ghost k = pairs@.len() as int;
                    assert forall|v: JVal, j: int| val_target(s@, i as int, v, j) implies false by {
                        let pl = v->Obj_0;
                        lemma_pairs_head(s@, cur as int, j - 1, pl, k);
                        assert(s@[j1 as int] == ':');
                    }
                }
                return None;
            }
            let subv = parse_value(s, j1 + 1);
            proof {
                let ghost k = pairs@.len() as int;
                assert forall|v: JVal, j: int| val_target(s@, i as int, v, j) implies (subv matches
                    Some(p) && p.0@ == v->Obj_0[k].1 && p.1 == j1 + 1 + ser(
                    v->Obj_0[k].1,
                ).len()) by {
                    let pl = v->Obj_0;
                    lemma_pairs_head(s@, cur as int, j - 1, pl, k);
                    let ve = j1 + 1 + ser(pl[k].1).len();
                    assert(!is_digit_char(',') && !is_digit_char('}'));
                    assert(val_target(s@, j1 as int + 1, pl[k].1, ve));
                }
            }
            let (vv, j2) = match subv {
                Some(p) => p,
                None => {
                    return None;
                },
            };
            let ghost pairs0 = pairs@;
            let ghost pm = (kk@, jval_of(vv));
            pairs.push((kk, vv));
            proof {
                lemma_jpairs_push(pairs0, (kk, vv));
                lemma_sub_glue(s@, cur as int, j1 as int, j1 as int + 1);
                assert(s@.subrange(j1 as int, j1 as int + 1) =~= seq![':']);
                lemma_sub_glue(s@, cur as int, j1 as int + 1, j2 as int);
                assert(s@.subrange(cur as int, j2 as int) == ser_pair(pm));
            }
            if j2 < s.len() && s[j2] == ',' {
                proof {
                    lemma_ser_pairs_done_snoc(jpairs_of(pairs0, 0), pm, 0);
                    lemma_sub_glue(s@, i as int + 1, cur as int, j2 as int);
                    lemma_sub_glue(s@, i as int + 1, j2 as int, j2 as int + 1);
                    assert(s@.subrange(j2 as int, j2 as int + 1) =~= seq![',']);
                    assert(s@.subrange(i as int + 1, j2 as int + 1) == ser_pairs_done(
                        jpairs_of(pairs@, 0),
                        0,
                    ));
                    let ghost k = pairs0.len() as int;
                    assert forall|v: JVal, j: int| val_target(s@, i as int, v, j) implies (v
                        matches JVal::Obj(pl) && pl.len() > pairs@.len() && jpairs_of(pairs@, 0)
                        == pl.subrange(0, pairs@.len() as int) && j2 + 1 <= j - 1 && s@.subrange(
                        j2 as int + 1,
                        j - 1,
                    ) == ser_pairs(pl, pairs@.len() as int) && s@[j - 1] == '}') by {
                        let pl = v->Obj_0;
                        lemma_pairs_head(s@, cur as int, j - 1, pl, k);
                        let ve = cur + ser_str(pl[k].0).len() + 1 + ser(pl[k].1).len();
                        assert(j2 == ve);
                        if k + 1 == pl.len() {
                            assert(s@[j2 as int] == '}');
                            assert(false);
                        }
                        assert(jpairs_of(pairs@, 0) =~= pl.subrange(0, k + 1));
                    }
                }
                cur = j2 + 1;
            } else if j2 < s.len() && s[j2] == '}' {
                proof {
                    lemma_ser_pairs_snoc(jpairs_of(pairs0, 0), pm, 0);
                    lemma_sub_glue(s@, i as int + 1, cur as int, j2 as int);
                    lemma_sub_glue(s@, i as int, i as int + 1, j2 as int);
                    lemma_sub_glue(s@, i as int, j2 as int, j2 as int + 1);
                    assert(s@.subrange(i as int, i as int + 1) =~= seq!['{']);
                    assert(s@.subrange(j2 as int, j2 as int + 1) =~= seq!['}']);
                    assert(s@.subrange(i as int, j2 as int + 1) =~= ser(
                        JVal::Obj(jpairs_of(pairs@, 0)),
                    ));
                    let ghost k = pairs0.len() as int;
                    assert forall|v: JVal, j: int| val_target(s@, i as int, v, j) implies v
                        == JVal::Obj(jpairs_of(pairs@, 0)) && j == j2 + 1 by {
                        let pl = v->Obj_0;
                        lemma_pairs_head(s@, cur as int, j - 1, pl, k);
                        let ve = cur + ser_str(pl[k].0).len() + 1 + ser(pl[k].1).len();
                        assert(j2 == ve);
                        if k + 1 < pl.len() {
                            assert(s@[j2 as int] == ',');
                            assert(false);
                        }
                        assert(j2 == j - 1);
                        assert(jpairs_of(pairs@, 0) =~= pl);
                    }
                }
                return Some((JsonValue::Obj(pairs), j2 + 1));
            } else {
                proof {
                    let ghost k = pairs0.len() as int;
                    assert forall|v: JVal, j: int| val_target(s@, i as int, v, j) implies false by {
                        let pl = v->Obj_0;
                        lemma_pairs_head(s@, cur as int, j - 1, pl, k);
                        let ve = cur + ser_str(pl[k].0).len() + 1 + ser(pl[k].1).len();
                        assert(j2 == ve);
                        if k + 1 < pl.len() {
                            assert(s@[j2 as int] == ',');
                        } else {
                            assert(s@[j2 as int] == '}');
                        }
                        assert(j2 < s@.len());
                        assert(false);
                    }
                }
                return None;
            }
        }
    } else {
        match digit_val(c) {
            Some(_) => {
                let sub = parse_number(s, i);
                proof {
                    assert forall|v: JVal, j: int| val_target(s@, i as int, v, j) implies (sub
                        matches Some(p) && jval_of(JsonValue::Int(p.0)) == v && p.1 == j) by {
                        lemma_ser_first(v);
                        assert(v is Int);
                        assert(num_target(s@, i as int, v->Int_0, j));
                    }
                }
                match sub {
                    Some((n, j)) => {
                        return Some((JsonValue::Int(n), j));
                    },
                    None => {
                        return None;
                    },
                }
            },
            None => {
                proof {
                    assert forall|v: JVal, j: int| val_target(s@, i as int, v, j) implies false by {
                        lemma_ser_first(v);
                    }
                }
                return None;
            },
        }
    }
}

/// Reads a whole canonical text: accepted exactly when the entire text is the
/// canonical rendering of a configuration value, and then of the value it
/// renders.
pub fn parse_text(s: &str) -> (r: Option<JsonValue>)
    ensures
        r matches Some(v) ==> s@ == ser(v@),
        forall|v: JVal| s@ == ser(v) ==> (r matches Some(pv) && pv@ == v),
{
    let chars = crate::chars::str_to_chars(s);
    let sub = parse_value(&chars, 0);
    proof {
        assert forall|v: JVal| s@ == ser(v) implies (sub matches Some(p) && p.0@ == v && p.1
            == s@.len()) by {
            lemma_ser_first(v);
            assert(chars@.subrange(0, s@.len() as int) =~= ser(v));
            assert(val_target(chars@, 0, v, s@.len() as int));
        }
    }
    match sub {
        Some((v, j)) => {
            if j == chars.len() {
                proof {
                    assert(chars@.subrange(0, chars@.len() as int) =~= chars@);
                }
                Some(v)
            } else {
                proof {
                    assert forall|v2: JVal| s@ == ser(v2) implies false by {}
                }
                None
            }
        },
        None => None,
    }
}

/// The canonical text of a configuration value.
pub fn to_text(v: &JsonValue) -> (r: String)
    ensures
        r@ == ser(v@),
{
    let mut out: Vec<char> = Vec::new();
    write_value(v, &mut out);
    crate::chars::chars_to_string(&out)
}

} // verus!
