//! The polymorphic decoder: a closed sum type over the decoding strategies,
//! one uniform `decode_chain` that forwards to whichever strategy is held, a
//! composite that applies an ordered chain, and the configuration-exchange
//! format with its structural matching.

use vstd::prelude::*;
use vstd::string::*;
use crate::chars::{charvecs_to_strings, copy_chars, strings_to_charvecs, str_to_chars, chars_eq};
use crate::json::{JVal, JsonValue, jlookup, jlookup_from, jpairs_of, jvals_of, lemma_jpairs_of, lemma_jvals_of, parse_text, to_text, ser};
use crate::strategies::{
    BPEDecoder, ByteFallback, ByteLevel, CTC, Fuse, Metaspace, PrependScheme, Replace, Strip,
    WordPiece, byte_fallback_tokens, ctc_tokens, fuse_tokens, map_replace, metaspace_tokens,
    str_views, strip_tokens, tok_views, wordpiece_tokens,
};

verus! {

/// An ordered chain of decoders, applied first to last, each consuming the
/// previous one's output.
#[derive(Debug)]
pub struct Sequence {
    pub decoders: Vec<DecoderWrapper>,
}

impl Sequence {
    /// A chain holding the given decoders in order.
    pub fn new(decoders: Vec<DecoderWrapper>) -> (r: Sequence)
        ensures
            r.decoders@ == decoders@,
    {
        Sequence { decoders }
    }
}

/// The closed set of decoding strategies, exactly one case active per value.
/// The order of the cases is the order in which configuration objects are
/// matched.
#[derive(Debug)]
pub enum DecoderWrapper {
    BPE(BPEDecoder),
    ByteLevel(ByteLevel),
    WordPiece(WordPiece),
    Metaspace(Metaspace),
    CTC(CTC),
    Sequence(Sequence),
    Replace(Replace),
    Fuse(Fuse),
    Strip(Strip),
    ByteFallback(ByteFallback),
}

/// Mathematical model of a decoder configuration.
#[allow(inconsistent_fields)]
pub enum Dec {
    BPE { suffix: Seq<char> },
    ByteLevel { add_prefix_space: bool, trim_offsets: bool, use_regex: bool },
    WordPiece { prefix: Seq<char>, cleanup: bool },
    Metaspace { replacement: char, prepend_scheme: PrependScheme, split: bool },
    CTC { pad_token: Seq<char>, word_delimiter_token: Seq<char>, cleanup: bool },
    Sequence { decoders: Seq<Dec> },
    Replace { pattern: Seq<char>, content: Seq<char> },
    Fuse,
    Strip { content: char, start: usize, stop: usize },
    ByteFallback,
}

pub open spec fn dec_of(w: DecoderWrapper) -> Dec
    decreases w, 2int, 0int,
{
    match w {
        DecoderWrapper::BPE(d) => Dec::BPE { suffix: d.suffix@ },
        DecoderWrapper::ByteLevel(d) => Dec::ByteLevel {
            add_prefix_space: d.add_prefix_space,
            trim_offsets: d.trim_offsets,
            use_regex: d.use_regex,
        },
        DecoderWrapper::WordPiece(d) => Dec::WordPiece { prefix: d.prefix@, cleanup: d.cleanup },
        DecoderWrapper::Metaspace(d) => Dec::Metaspace {
            replacement: d.replacement,
            prepend_scheme: d.prepend_scheme,
            split: d.split,
        },
        DecoderWrapper::CTC(d) => Dec::CTC {
            pad_token: d.pad_token@,
            word_delimiter_token: d.word_delimiter_token@,
            cleanup: d.cleanup,
        },
        DecoderWrapper::Sequence(s) => Dec::Sequence { decoders: decs_of(s.decoders@, 0) },
        DecoderWrapper::Replace(d) => Dec::Replace { pattern: d.pattern@, content: d.content@ },
        DecoderWrapper::Fuse(_) => Dec::Fuse,
        DecoderWrapper::Strip(d) => Dec::Strip { content: d.content, start: d.start, stop: d.stop },
        DecoderWrapper::ByteFallback(_) => Dec::ByteFallback,
    }
}

pub open spec fn decs_of(ds: Seq<DecoderWrapper>, i: int) -> Seq<Dec>
    decreases ds, 1int, ds.len() - i,
{
    if i < 0 || i >= ds.len() {
        Seq::empty()
    } else {
        seq![dec_of(ds[i])] + decs_of(ds, i + 1)
    }
}

/// `decs_of(ds, i)` models the decoders of `ds` from `i` on, one each.
pub proof fn lemma_decs_of(ds: Seq<DecoderWrapper>, i: int)
    requires
        0 <= i <= ds.len(),
    ensures
        decs_of(ds, i).len() == ds.len() - i,
        forall|j: int| 0 <= j < ds.len() - i ==> decs_of(ds, i)[j] == dec_of(ds[i + j]),
    decreases ds.len() - i,
{
    if i < ds.len() {
        lemma_decs_of(ds, i + 1);
    }
}

impl View for DecoderWrapper {
    type V = Dec;

    open spec fn view(&self) -> Dec {
        dec_of(*self)
    }
}

/// What decoding does, case by case: each case is a pure pass-through to its
/// strategy, and the composite applies its chain in declared order.
pub open spec fn decode_model(d: Dec, toks: Seq<Seq<char>>) -> Seq<Seq<char>>
    decreases d, 1int, 0int,
{
    match d {
        Dec::BPE { suffix } => map_replace(toks, suffix, seq![' ']),
        Dec::ByteLevel { .. } => toks,
        Dec::WordPiece { prefix, cleanup } => wordpiece_tokens(toks, prefix, cleanup),
        Dec::Metaspace { replacement, prepend_scheme, .. } => metaspace_tokens(
            toks,
            replacement,
            prepend_scheme,
        ),
        Dec::CTC { pad_token, word_delimiter_token, cleanup } => ctc_tokens(
            toks,
            pad_token,
            word_delimiter_token,
            cleanup,
        ),
        Dec::Sequence { decoders } => decode_list(decoders, 0, toks),
        Dec::Replace { pattern, content } => map_replace(toks, pattern, content),
        Dec::Fuse => fuse_tokens(toks),
        Dec::Strip { content, start, stop } => strip_tokens(toks, content, start as int, stop as int),
        Dec::ByteFallback => byte_fallback_tokens(toks),
    }
}

/// The chain from index `i` on: each decoder's output is the next one's input;
/// an empty chain returns its input unchanged.
pub open spec fn decode_list(ds: Seq<Dec>, i: int, toks: Seq<Seq<char>>) -> Seq<Seq<char>>
    decreases ds, 0int, ds.len() - i,
{
    if i < 0 || i >= ds.len() {
        toks
    } else {
        decode_list(ds, i + 1, decode_model(ds[i], toks))
    }
}

/// Why an operation of the decoder layer failed.
#[derive(Clone, Copy, Debug, PartialEq, Eq, Structural)]
pub enum DecoderError {
    /// The configuration text is not well formed.
    InvalidJson,
    /// A configuration object matched no case of the decoder set.
    ConfigurationMismatch,
}

impl DecoderError {
    /// The error's text.
    pub fn message(&self) -> (r: String)
        ensures
            *self is ConfigurationMismatch ==> r@
                == "data did not match any variant of untagged enum DecoderWrapper"@,
            *self is InvalidJson ==> r@ == "invalid decoder configuration text"@,
    {
        match self {
            DecoderError::ConfigurationMismatch => String::from_str(
                "data did not match any variant of untagged enum DecoderWrapper",
            ),
            DecoderError::InvalidJson => String::from_str("invalid decoder configuration text"),
        }
    }
}

impl DecoderWrapper {
    /// Decodes character tokens: the held strategy's transformation, verbatim.
    #[verifier::loop_isolation(false)]
    pub fn decode_tokens(&self, toks: &Vec<Vec<char>>) -> (r: Vec<Vec<char>>)
        ensures
            tok_views(r@) == decode_model(self@, tok_views(toks@)),
        decreases *self,
    {
        match self {
            DecoderWrapper::BPE(d) => d.apply(toks),
            DecoderWrapper::ByteLevel(d) => d.apply(toks),
            DecoderWrapper::WordPiece(d) => d.apply(toks),
            DecoderWrapper::Metaspace(d) => d.apply(toks),
            DecoderWrapper::CTC(d) => d.apply(toks),
            DecoderWrapper::Sequence(s) => {
                let ghost dm = decs_of(s.decoders@, 0);
                proof {
                    lemma_decs_of(s.decoders@, 0);
                }
                let mut cur = crate::strategies::copy_tokens(toks);
                let mut i: usize = 0;
                while i < s.decoders.len()
                    invariant
                        i <= s.decoders@.len(),
                        dm == decs_of(s.decoders@, 0),
                        dm.len() == s.decoders@.len(),
                        forall|j: int| 0 <= j < dm.len() ==> dm[j] == dec_of(s.decoders@[j]),
                        decode_list(dm, 0, tok_views(toks@)) == decode_list(
                            dm,
                            i as int,
                            tok_views(cur@),
                        ),
                    decreases s.decoders@.len() - i,
                {
                    proof {
                        assert(decreases_to!(*self => self->Sequence_0));
                        assert(decreases_to!(self->Sequence_0 => self->Sequence_0.decoders));
                        assert(decreases_to!(s.decoders => s.decoders[i as int]));
                    }
                    let next = s.decoders[i].decode_tokens(&cur);
                    cur = next;
                    i += 1;
                }
                cur
            },
            DecoderWrapper::Replace(d) => d.apply(toks),
            DecoderWrapper::Fuse(d) => d.apply(toks),
            DecoderWrapper::Strip(d) => d.apply(toks),
            DecoderWrapper::ByteFallback(d) => d.apply(toks),
        }
    }

    /// Forwards the tokens to the held strategy with no pre- or
    /// post-processing and returns its output; dispatch itself cannot fail,
    /// and none of the strategies here can, so the call always succeeds.
    pub fn decode_chain(&self, tokens: Vec<String>) -> (r: Result<Vec<String>, DecoderError>)
        ensures
            r matches Ok(out) && str_views(out@) == decode_model(self@, str_views(tokens@)),
    {
        let toks = strings_to_charvecs(&tokens);
        proof {
            assert(tok_views(toks@) =~= str_views(tokens@));
        }
        let out = self.decode_tokens(&toks);
        let r = charvecs_to_strings(&out);
        proof {
            assert(str_views(r@) =~= tok_views(out@));
        }
        Ok(r)
    }
}

/// The wire name of a prefix-space scheme.
pub open spec fn scheme_name(s: PrependScheme) -> Seq<char> {
    match s {
        PrependScheme::Always => "always"@,
        PrependScheme::First => "first"@,
        PrependScheme::Never => "never"@,
    }
}

/// The scheme a wire name stands for.
pub open spec fn scheme_of_name(s: Seq<char>) -> Option<PrependScheme> {
    if s == "always"@ {
        Some(PrependScheme::Always)
    } else if s == "first"@ {
        Some(PrependScheme::First)
    } else if s == "never"@ {
        Some(PrependScheme::Never)
    } else {
        None
    }
}

/// The canonical configuration object of a decoder: the discriminant first,
/// then every field of the case in declared order.
pub open spec fn config_of(d: Dec) -> JVal
    decreases d, 1int, 0int,
{
    match d {
        Dec::BPE { suffix } => JVal::Obj(
            seq![("type"@, JVal::Str("BPE"@)), ("suffix"@, JVal::Str(suffix))],
        ),
        Dec::ByteLevel { add_prefix_space, trim_offsets, use_regex } => JVal::Obj(
            seq![
                ("type"@, JVal::Str("ByteLevel"@)),
                ("add_prefix_space"@, JVal::Bool(add_prefix_space)),
                ("trim_offsets"@, JVal::Bool(trim_offsets)),
                ("use_regex"@, JVal::Bool(use_regex)),
            ],
        ),
        Dec::WordPiece { prefix, cleanup } => JVal::Obj(
            seq![
                ("type"@, JVal::Str("WordPiece"@)),
                ("prefix"@, JVal::Str(prefix)),
                ("cleanup"@, JVal::Bool(cleanup)),
            ],
        ),
        Dec::Metaspace { replacement, prepend_scheme, split } => JVal::Obj(
            seq![
                ("type"@, JVal::Str("Metaspace"@)),
                ("replacement"@, JVal::Str(seq![replacement])),
                ("prepend_scheme"@, JVal::Str(scheme_name(prepend_scheme))),
                ("split"@, JVal::Bool(split)),
            ],
        ),
        Dec::CTC { pad_token, word_delimiter_token, cleanup } => JVal::Obj(
            seq![
                ("type"@, JVal::Str("CTC"@)),
                ("pad_token"@, JVal::Str(pad_token)),
                ("word_delimiter_token"@, JVal::Str(word_delimiter_token)),
                ("cleanup"@, JVal::Bool(cleanup)),
            ],
        ),
        Dec::Sequence { decoders } => JVal::Obj(
            seq![
                ("type"@, JVal::Str("Sequence"@)),
                ("decoders"@, JVal::Arr(configs_of(decoders, 0))),
            ],
        ),
        Dec::Replace { pattern, content } => JVal::Obj(
            seq![
                ("type"@, JVal::Str("Replace"@)),
                ("pattern"@, JVal::Str(pattern)),
                ("content"@, JVal::Str(content)),
            ],
        ),
        Dec::Fuse => JVal::Obj(seq![("type"@, JVal::Str("Fuse"@))]),
        Dec::Strip { content, start, stop } => JVal::Obj(
            seq![
                ("type"@, JVal::Str("Strip"@)),
                ("content"@, JVal::Str(seq![content])),
                ("start"@, JVal::Int(start as u64)),
                ("stop"@, JVal::Int(stop as u64)),
            ],
        ),
        Dec::ByteFallback => JVal::Obj(seq![("type"@, JVal::Str("ByteFallback"@))]),
    }
}

pub open spec fn configs_of(ds: Seq<Dec>, i: int) -> Seq<JVal>
    decreases ds, 0int, ds.len() - i,
{
    if i < 0 || i >= ds.len() {
        Seq::empty()
    } else {
        seq![config_of(ds[i])] + configs_of(ds, i + 1)
    }
}

/// `configs_of(ds, i)` holds the configurations from `i` on, one each.
pub proof fn lemma_configs_of(ds: Seq<Dec>, i: int)
    requires
        0 <= i <= ds.len(),
    ensures
        configs_of(ds, i).len() == ds.len() - i,
        forall|j: int| 0 <= j < ds.len() - i ==> configs_of(ds, i)[j] == config_of(ds[i + j]),
    decreases ds.len() - i,
{
    if i < ds.len() {
        lemma_configs_of(ds, i + 1);
    }
}

/// Appending a decoder appends its model.
pub proof fn lemma_decs_push(ds: Seq<DecoderWrapper>, x: DecoderWrapper)
    ensures
        decs_of(ds.push(x), 0) == decs_of(ds, 0).push(dec_of(x)),
{
    lemma_decs_of(ds.push(x), 0);
    lemma_decs_of(ds, 0);
    assert(decs_of(ds.push(x), 0) =~= decs_of(ds, 0).push(dec_of(x)));
}

/// Whether the object carries the discriminant naming this case.
pub open spec fn has_type(ps: Seq<(Seq<char>, JVal)>, name: Seq<char>) -> bool {
    jlookup(ps, "type"@) == Some(JVal::Str(name))
}

/// An optional string field: its value, the default when absent, nothing when
/// present with another shape.
pub open spec fn opt_str(ps: Seq<(Seq<char>, JVal)>, key: Seq<char>, dflt: Seq<char>) -> Option<
    Seq<char>,
> {
    match jlookup(ps, key) {
        None => Some(dflt),
        Some(JVal::Str(s)) => Some(s),
        Some(_) => None,
    }
}

/// An optional boolean field.
pub open spec fn opt_bool(ps: Seq<(Seq<char>, JVal)>, key: Seq<char>, dflt: bool) -> Option<bool> {
    match jlookup(ps, key) {
        None => Some(dflt),
        Some(JVal::Bool(b)) => Some(b),
        Some(_) => None,
    }
}

/// An optional one-character string field.
pub open spec fn opt_char(ps: Seq<(Seq<char>, JVal)>, key: Seq<char>, dflt: char) -> Option<char> {
    match jlookup(ps, key) {
        None => Some(dflt),
        Some(JVal::Str(s)) => if s.len() == 1 {
            Some(s[0])
        } else {
            None
        },
        Some(_) => None,
    }
}

/// An optional prefix-space-scheme field.
pub open spec fn opt_scheme(
    ps: Seq<(Seq<char>, JVal)>,
    key: Seq<char>,
    dflt: PrependScheme,
) -> Option<PrependScheme> {
    match jlookup(ps, key) {
        None => Some(dflt),
        Some(JVal::Str(s)) => scheme_of_name(s),
        Some(_) => None,
    }
}

/// A required string field.
pub open spec fn req_str(ps: Seq<(Seq<char>, JVal)>, key: Seq<char>) -> Option<Seq<char>> {
    match jlookup(ps, key) {
        Some(JVal::Str(s)) => Some(s),
        _ => None,
    }
}

/// A required one-character string field.
pub open spec fn req_char(ps: Seq<(Seq<char>, JVal)>, key: Seq<char>) -> Option<char> {
    match jlookup(ps, key) {
        Some(JVal::Str(s)) => if s.len() == 1 {
            Some(s[0])
        } else {
            None
        },
        _ => None,
    }
}

/// A required counting field.
pub open spec fn req_usize(ps: Seq<(Seq<char>, JVal)>, key: Seq<char>) -> Option<usize> {
    match jlookup(ps, key) {
        Some(JVal::Int(n)) => if n <= usize::MAX {
            Some(n as usize)
        } else {
            None
        },
        _ => None,
    }
}

/// A legacy field may be absent or a boolean; its value is ignored, but
/// another shape under its name still fails the case.
pub open spec fn absent_or_bool(ps: Seq<(Seq<char>, JVal)>, key: Seq<char>) -> bool {
    match jlookup(ps, key) {
        None => true,
        Some(JVal::Bool(_)) => true,
        Some(_) => false,
    }
}

pub open spec fn bpe_from(ps: Seq<(Seq<char>, JVal)>) -> Option<Dec> {
    if has_type(ps, "BPE"@) {
        match opt_str(ps, "suffix"@, "</w>"@) {
            Some(suffix) => Some(Dec::BPE { suffix }),
            None => None,
        }
    } else {
        None
    }
}

pub open spec fn bytelevel_from(ps: Seq<(Seq<char>, JVal)>) -> Option<Dec> {
    if has_type(ps, "ByteLevel"@) {
        match (
            opt_bool(ps, "add_prefix_space"@, true),
            opt_bool(ps, "trim_offsets"@, true),
            opt_bool(ps, "use_regex"@, true),
        ) {
            (Some(a), Some(t), Some(u)) => Some(
                Dec::ByteLevel { add_prefix_space: a, trim_offsets: t, use_regex: u },
            ),
            _ => None,
        }
    } else {
        None
    }
}

pub open spec fn wordpiece_from(ps: Seq<(Seq<char>, JVal)>) -> Option<Dec> {
    if has_type(ps, "WordPiece"@) {
        match (opt_str(ps, "prefix"@, "##"@), opt_bool(ps, "cleanup"@, true)) {
            (Some(prefix), Some(cleanup)) => Some(Dec::WordPiece { prefix, cleanup }),
            _ => None,
        }
    } else {
        None
    }
}

/// The metaspace case also accepts the legacy prefix-space flag: it may stand
/// in the object as a boolean and is ignored; the split flag, absent from
/// older configurations, defaults to true.
pub open spec fn metaspace_from(ps: Seq<(Seq<char>, JVal)>) -> Option<Dec> {
    if has_type(ps, "Metaspace"@) && absent_or_bool(ps, "add_prefix_space"@) {
        match (
            opt_char(ps, "replacement"@, '\u{2581}'),
            opt_scheme(ps, "prepend_scheme"@, PrependScheme::Always),
            opt_bool(ps, "split"@, true),
        ) {
            (Some(replacement), Some(prepend_scheme), Some(split)) => Some(
                Dec::Metaspace { replacement, prepend_scheme, split },
            ),
            _ => None,
        }
    } else {
        None
    }
}

pub open spec fn ctc_from(ps: Seq<(Seq<char>, JVal)>) -> Option<Dec> {
    if has_type(ps, "CTC"@) {
        match (
            opt_str(ps, "pad_token"@, "<pad>"@),
            opt_str(ps, "word_delimiter_token"@, "|"@),
            opt_bool(ps, "cleanup"@, true),
        ) {
            (Some(pad_token), Some(word_delimiter_token), Some(cleanup)) => Some(
                Dec::CTC { pad_token, word_delimiter_token, cleanup },
            ),
            _ => None,
        }
    } else {
        None
    }
}

pub open spec fn replace_from(ps: Seq<(Seq<char>, JVal)>) -> Option<Dec> {
    if has_type(ps, "Replace"@) {
        match (req_str(ps, "pattern"@), req_str(ps, "content"@)) {
            (Some(pattern), Some(content)) => Some(Dec::Replace { pattern, content }),
            _ => None,
        }
    } else {
        None
    }
}

pub open spec fn fuse_from(ps: Seq<(Seq<char>, JVal)>) -> Option<Dec> {
    if has_type(ps, "Fuse"@) {
        Some(Dec::Fuse)
    } else {
        None
    }
}

pub open spec fn strip_from(ps: Seq<(Seq<char>, JVal)>) -> Option<Dec> {
    if has_type(ps, "Strip"@) {
        match (req_char(ps, "content"@), req_usize(ps, "start"@), req_usize(ps, "stop"@)) {
            (Some(content), Some(start), Some(stop)) => Some(Dec::Strip { content, start, stop }),
            _ => None,
        }
    } else {
        None
    }
}

pub open spec fn bytefallback_from(ps: Seq<(Seq<char>, JVal)>) -> Option<Dec> {
    if has_type(ps, "ByteFallback"@) {
        Some(Dec::ByteFallback)
    } else {
        None
    }
}

/// A field looked up in an object stands below the object.
pub proof fn lemma_jlookup_height(ps: Seq<(Seq<char>, JVal)>, k: Seq<char>, i: int)
    ensures
        jlookup_from(ps, k, i) matches Some(x) ==> decreases_to!(ps => x),
    decreases ps.len() - i,
{
    if 0 <= i < ps.len() {
        if ps[i].0 == k {
            assert(decreases_to!(ps => ps[i]));
            assert(decreases_to!(ps[i] => ps[i].1));
            assert(decreases_to!(ps => ps[i].1));
        } else {
            lemma_jlookup_height(ps, k, i + 1);
        }
    }
}

/// The value a configuration object stands for: the cases are tried in their
/// declared order, and the first whose discriminant and fields are satisfied
/// wins; an object that satisfies none stands for nothing.
pub open spec fn dec_from_config(v: JVal) -> Option<Dec>
    decreases v, 2int, 0int,
    via dec_from_config_dec
{
    match v {
        JVal::Obj(ps) => if bpe_from(ps) is Some {
            bpe_from(ps)
        } else if bytelevel_from(ps) is Some {
            bytelevel_from(ps)
        } else if wordpiece_from(ps) is Some {
            wordpiece_from(ps)
        } else if metaspace_from(ps) is Some {
            metaspace_from(ps)
        } else if ctc_from(ps) is Some {
            ctc_from(ps)
        } else if has_type(ps, "Sequence"@) {
            match jlookup(ps, "decoders"@) {
                Some(JVal::Arr(elems)) => match decs_from_configs(elems, 0) {
                    Some(ds) => Some(Dec::Sequence { decoders: ds }),
                    None => None,
                },
                _ => None,
            }
        } else if replace_from(ps) is Some {
            replace_from(ps)
        } else if fuse_from(ps) is Some {
            fuse_from(ps)
        } else if strip_from(ps) is Some {
            strip_from(ps)
        } else if bytefallback_from(ps) is Some {
            bytefallback_from(ps)
        } else {
            None
        },
        _ => None,
    }
}

#[via_fn]
proof fn dec_from_config_dec(v: JVal) {
    match v {
        JVal::Obj(ps) => {
            assert(decreases_to!(v => v->Obj_0));
            lemma_jlookup_height(ps, "decoders"@, 0);
            match jlookup(ps, "decoders"@) {
                Some(x) => {
                    assert(decreases_to!(ps => x));
                    match x {
                        JVal::Arr(_) => {
                            assert(decreases_to!(x => x->Arr_0));
                        },
                        _ => {},
                    }
                },
                None => {},
            }
        },
        _ => {},
    }
}

/// The decoders a list of configuration objects stands for, from `i` on: all
/// of them, or nothing as soon as one stands for nothing.
pub open spec fn decs_from_configs(elems: Seq<JVal>, i: int) -> Option<Seq<Dec>>
    decreases elems, 1int, elems.len() - i,
{
    if i < 0 || i > elems.len() {
        None
    } else if i == elems.len() {
        Some(Seq::empty())
    } else {
        match dec_from_config(elems[i]) {
            Some(d) => match decs_from_configs(elems, i + 1) {
                Some(rest) => Some(seq![d] + rest),
                None => None,
            },
            None => None,
        }
    }
}

/// The index of the first field with the given key.
#[verifier::loop_isolation(false)]
pub fn obj_find(pairs: &Vec<(Vec<char>, JsonValue)>, key: &Vec<char>) -> (r: Option<usize>)
    ensures
        match r {
            Some(ix) => 0 <= ix < pairs@.len() && jlookup(jpairs_of(pairs@, 0), key@) == Some(
                crate::json::jval_of(pairs@[ix as int].1),
            ) && pairs@[ix as int].0@ == key@,
            None => jlookup(jpairs_of(pairs@, 0), key@) is None,
        },
{
    let ghost ps = jpairs_of(pairs@, 0);
    proof {
        lemma_jpairs_of(pairs@, 0);
    }
    let mut i: usize = 0;
    while i < pairs.len()
        invariant
            i <= pairs@.len(),
            jlookup_from(ps, key@, 0) == jlookup_from(ps, key@, i as int),
        decreases pairs@.len() - i,
    {
        if chars_eq(&pairs[i].0, key) {
            return Some(i);
        }
        i += 1;
    }
    None
}

/// The value of the first field with the given key.
pub fn get_field<'a>(pairs: &'a Vec<(Vec<char>, JsonValue)>, key: &str) -> (r: Option<
    &'a JsonValue,
>)
    ensures
        match r {
            Some(x) => jlookup(jpairs_of(pairs@, 0), key@) == Some(x@),
            None => jlookup(jpairs_of(pairs@, 0), key@) is None,
        },
{
    let kv = str_to_chars(key);
    match obj_find(pairs, &kv) {
        Some(ix) => Some(&pairs[ix].1),
        None => None,
    }
}

/// Whether the object's discriminant names this case.
pub fn type_is(pairs: &Vec<(Vec<char>, JsonValue)>, name: &str) -> (r: bool)
    ensures
        r == has_type(jpairs_of(pairs@, 0), name@),
{
    match get_field(pairs, "type") {
        Some(JsonValue::Str(s)) => {
            let nv = str_to_chars(name);
            chars_eq(s, &nv)
        },
        _ => false,
    }
}

/// The scheme a wire name stands for.
pub fn scheme_from_chars(s: &Vec<char>) -> (r: Option<PrependScheme>)
    ensures
        r == scheme_of_name(s@),
{
    let always = str_to_chars("always");
    if chars_eq(s, &always) {
        return Some(PrependScheme::Always);
    }
    let first = str_to_chars("first");
    if chars_eq(s, &first) {
        return Some(PrependScheme::First);
    }
    let never = str_to_chars("never");
    if chars_eq(s, &never) {
        return Some(PrependScheme::Never);
    }
    None
}

fn try_bpe(pairs: &Vec<(Vec<char>, JsonValue)>) -> (r: Option<BPEDecoder>)
    ensures
        match r {
            Some(d) => bpe_from(jpairs_of(pairs@, 0)) == Some(Dec::BPE { suffix: d.suffix@ }),
            None => bpe_from(jpairs_of(pairs@, 0)) is None,
        },
{
    if !type_is(pairs, "BPE") {
        return None;
    }
    match get_field(pairs, "suffix") {
        None => Some(BPEDecoder::new("</w>")),
        Some(JsonValue::Str(s)) => Some(BPEDecoder { suffix: copy_chars(s) }),
        Some(_) => None,
    }
}

fn try_bytelevel(pairs: &Vec<(Vec<char>, JsonValue)>) -> (r: Option<ByteLevel>)
    ensures
        match r {
            Some(d) => bytelevel_from(jpairs_of(pairs@, 0)) == Some(
                Dec::ByteLevel {
                    add_prefix_space: d.add_prefix_space,
                    trim_offsets: d.trim_offsets,
                    use_regex: d.use_regex,
                },
            ),
            None => bytelevel_from(jpairs_of(pairs@, 0)) is None,
        },
{
    if !type_is(pairs, "ByteLevel") {
        return None;
    }
    let a: bool = match get_field(pairs, "add_prefix_space") {
        None => true,
        Some(JsonValue::Bool(b)) => *b,
        Some(_) => {
            return None;
        },
    };
    let t: bool = match get_field(pairs, "trim_offsets") {
        None => true,
        Some(JsonValue::Bool(b)) => *b,
        Some(_) => {
            return None;
        },
    };
    let u: bool = match get_field(pairs, "use_regex") {
        None => true,
        Some(JsonValue::Bool(b)) => *b,
        Some(_) => {
            return None;
        },
    };
    Some(ByteLevel::new(a, t, u))
}

fn try_wordpiece(pairs: &Vec<(Vec<char>, JsonValue)>) -> (r: Option<WordPiece>)
    ensures
        match r {
            Some(d) => wordpiece_from(jpairs_of(pairs@, 0)) == Some(
                Dec::WordPiece { prefix: d.prefix@, cleanup: d.cleanup },
            ),
            None => wordpiece_from(jpairs_of(pairs@, 0)) is None,
        },
{
    if !type_is(pairs, "WordPiece") {
        return None;
    }
    let prefix: Vec<char> = match get_field(pairs, "prefix") {
        None => str_to_chars("##"),
        Some(JsonValue::Str(s)) => copy_chars(s),
        Some(_) => {
            return None;
        },
    };
    let cleanup: bool = match get_field(pairs, "cleanup") {
        None => true,
        Some(JsonValue::Bool(b)) => *b,
        Some(_) => {
            return None;
        },
    };
    Some(WordPiece { prefix, cleanup })
}

fn try_metaspace(pairs: &Vec<(Vec<char>, JsonValue)>) -> (r: Option<Metaspace>)
    ensures
        match r {
            Some(d) => metaspace_from(jpairs_of(pairs@, 0)) == Some(
                Dec::Metaspace {
                    replacement: d.replacement,
                    prepend_scheme: d.prepend_scheme,
                    split: d.split,
                },
            ),
            None => metaspace_from(jpairs_of(pairs@, 0)) is None,
        },
{
    if !type_is(pairs, "Metaspace") {
        return None;
    }
    match get_field(pairs, "add_prefix_space") {
        None => {},
        Some(JsonValue::Bool(_)) => {},
        Some(_) => {
            return None;
        },
    }
    let replacement: char = match get_field(pairs, "replacement") {
        None => '\u{2581}',
        Some(JsonValue::Str(s)) => {
            if s.len() == 1 {
                s[0]
            } else {
                return None;
            }
        },
        Some(_) => {
            return None;
        },
    };
    let prepend_scheme: PrependScheme = match get_field(pairs, "prepend_scheme") {
        None => PrependScheme::Always,
        Some(JsonValue::Str(s)) => {
            match scheme_from_chars(s) {
                Some(sc) => sc,
                None => {
                    return None;
                },
            }
        },
        Some(_) => {
            return None;
        },
    };
    let split: bool = match get_field(pairs, "split") {
        None => true,
        Some(JsonValue::Bool(b)) => *b,
        Some(_) => {
            return None;
        },
    };
    Some(Metaspace { replacement, prepend_scheme, split })
}

fn try_ctc(pairs: &Vec<(Vec<char>, JsonValue)>) -> (r: Option<CTC>)
    ensures
        match r {
            Some(d) => ctc_from(jpairs_of(pairs@, 0)) == Some(
                Dec::CTC {
                    pad_token: d.pad_token@,
                    word_delimiter_token: d.word_delimiter_token@,
                    cleanup: d.cleanup,
                },
            ),
            None => ctc_from(jpairs_of(pairs@, 0)) is None,
        },
{
    if !type_is(pairs, "CTC") {
        return None;
    }
    let pad_token: Vec<char> = match get_field(pairs, "pad_token") {
        None => str_to_chars("<pad>"),
        Some(JsonValue::Str(s)) => copy_chars(s),
        Some(_) => {
            return None;
        },
    };
    let word_delimiter_token: Vec<char> = match get_field(pairs, "word_delimiter_token") {
        None => str_to_chars("|"),
        Some(JsonValue::Str(s)) => copy_chars(s),
        Some(_) => {
            return None;
        },
    };
    let cleanup: bool = match get_field(pairs, "cleanup") {
        None => true,
        Some(JsonValue::Bool(b)) => *b,
        Some(_) => {
            return None;
        },
    };
    Some(CTC { pad_token, word_delimiter_token, cleanup })
}

fn try_replace(pairs: &Vec<(Vec<char>, JsonValue)>) -> (r: Option<Replace>)
    ensures
        match r {
            Some(d) => replace_from(jpairs_of(pairs@, 0)) == Some(
                Dec::Replace { pattern: d.pattern@, content: d.content@ },
            ),
            None => replace_from(jpairs_of(pairs@, 0)) is None,
        },
{
    if !type_is(pairs, "Replace") {
        return None;
    }
    let pattern: Vec<char> = match get_field(pairs, "pattern") {
        Some(JsonValue::Str(s)) => copy_chars(s),
        _ => {
            return None;
        },
    };
    let content: Vec<char> = match get_field(pairs, "content") {
        Some(JsonValue::Str(s)) => copy_chars(s),
        _ => {
            return None;
        },
    };
    Some(Replace { pattern, content })
}

fn try_strip(pairs: &Vec<(Vec<char>, JsonValue)>) -> (r: Option<Strip>)
    ensures
        match r {
            Some(d) => strip_from(jpairs_of(pairs@, 0)) == Some(
                Dec::Strip { content: d.content, start: d.start, stop: d.stop },
            ),
            None => strip_from(jpairs_of(pairs@, 0)) is None,
        },
{
    if !type_is(pairs, "Strip") {
        return None;
    }
    let content: char = match get_field(pairs, "content") {
        Some(JsonValue::Str(s)) => {
            if s.len() == 1 {
                s[0]
            } else {
                return None;
            }
        },
        _ => {
            return None;
        },
    };
    let start: usize = match get_field(pairs, "start") {
        Some(JsonValue::Int(n)) => {
            if *n <= usize::MAX as u64 {
                *n as usize
            } else {
                return None;
            }
        },
        _ => {
            return None;
        },
    };
    let stop: usize = match get_field(pairs, "stop") {
        Some(JsonValue::Int(n)) => {
            if *n <= usize::MAX as u64 {
                *n as usize
            } else {
                return None;
            }
        },
        _ => {
            return None;
        },
    };
    Some(Strip { content, start, stop })
}

impl DecoderWrapper {
    /// Reads a decoder from a configuration value, by the structural matching
    /// that `dec_from_config` states: an object stands for the first case, in
    /// declared order, whose discriminant and fields it satisfies; one that
    /// satisfies no case is a configuration mismatch.
    #[verifier::loop_isolation(false)]
    pub fn from_json(v: &JsonValue) -> (r: Result<DecoderWrapper, DecoderError>)
        ensures
            r matches Ok(w) ==> dec_from_config(v@) == Some(w@),
            r matches Err(e) ==> dec_from_config(v@) is None && e
                == DecoderError::ConfigurationMismatch,
        decreases *v,
    {
        let pairs = match v {
            JsonValue::Obj(pairs) => pairs,
            _ => {
                return Err(DecoderError::ConfigurationMismatch);
            },
        };
        let ghost ps = jpairs_of(pairs@, 0);
        if let Some(d) = try_bpe(pairs) {
            return Ok(DecoderWrapper::BPE(d));
        }
        if let Some(d) = try_bytelevel(pairs) {
            return Ok(DecoderWrapper::ByteLevel(d));
        }
        if let Some(d) = try_wordpiece(pairs) {
            return Ok(DecoderWrapper::WordPiece(d));
        }
        if let Some(d) = try_metaspace(pairs) {
            return Ok(DecoderWrapper::Metaspace(d));
        }
        if let Some(d) = try_ctc(pairs) {
            return Ok(DecoderWrapper::CTC(d));
        }
        if type_is(pairs, "Sequence") {
            let kv = str_to_chars("decoders");
            match obj_find(pairs, &kv) {
                Some(ix) => {
                    match &pairs[ix].1 {
                        JsonValue::Arr(elems) => {
                            let ghost es = jvals_of(elems@, 0);
                            proof {
                                lemma_jvals_of(elems@, 0);
                            }
                            let mut ds: Vec<DecoderWrapper> = Vec::new();
                            let mut i: usize = 0;
                            proof {
                                assert(decs_of(ds@, 0) =~= Seq::<Dec>::empty());
                                match decs_from_configs(es, 0) {
                                    Some(rest) => {
                                        assert(decs_of(ds@, 0) + rest =~= rest);
                                    },
                                    None => {},
                                }
                            }
                            while i < elems.len()
                                invariant
                                    i <= elems@.len(),
                                    ds@.len() == i,
                                    decs_from_configs(es, 0) == (match decs_from_configs(
                                        es,
                                        i as int,
                                    ) {
                                        Some(rest) => Some(decs_of(ds@, 0) + rest),
                                        None => None::<Seq<Dec>>,
                                    }),
                                decreases elems@.len() - i,
                            {
                                proof {
                                    assert(decreases_to!(*v => v->Obj_0));
                                    assert(decreases_to!(v->Obj_0 => pairs@[ix as int]));
                                    assert(decreases_to!(pairs@[ix as int] => pairs@[
                                        ix as int
                                    ].1));
                                    assert(decreases_to!(pairs@[ix as int].1 => pairs@[
                                        ix as int
                                    ].1->Arr_0));
                                    assert(decreases_to!(*elems => elems@[i as int]));
                                }
                                let ghost ds0 = ds@;
                                match DecoderWrapper::from_json(&elems[i]) {
                                    Ok(w) => {
                                        ds.push(w);
                                        proof {
                                            lemma_decs_push(ds0, w);
                                            match decs_from_configs(es, i + 1) {
                                                Some(rest) => {
                                                    assert(decs_of(ds@, 0) + rest =~= decs_of(
                                                        ds0,
                                                        0,
                                                    ) + (seq![dec_of(w)] + rest));
                                                },
                                                None => {},
                                            }
                                        }
                                    },
                                    Err(_) => {
                                        return Err(DecoderError::ConfigurationMismatch);
                                    },
                                }
                                i += 1;
                            }
                            proof {
                                assert(decs_of(ds@, 0) + Seq::<Dec>::empty() =~= decs_of(
                                    ds@,
                                    0,
                                ));
                            }
                            return Ok(DecoderWrapper::Sequence(Sequence { decoders: ds }));
                        },
                        _ => {
                            return Err(DecoderError::ConfigurationMismatch);
                        },
                    }
                },
                None => {
                    return Err(DecoderError::ConfigurationMismatch);
                },
            }
        }
        if let Some(d) = try_replace(pairs) {
            return Ok(DecoderWrapper::Replace(d));
        }
        if type_is(pairs, "Fuse") {
            return Ok(DecoderWrapper::Fuse(Fuse::new()));
        }
        if let Some(d) = try_strip(pairs) {
            return Ok(DecoderWrapper::Strip(d));
        }
        if type_is(pairs, "ByteFallback") {
            return Ok(DecoderWrapper::ByteFallback(ByteFallback::new()));
        }
        Err(DecoderError::ConfigurationMismatch)
    }
}

/// The wire name of a prefix-space scheme.
pub fn scheme_chars(s: PrependScheme) -> (r: Vec<char>)
    ensures
        r@ == scheme_name(s),
{
    match s {
        PrependScheme::Always => str_to_chars("always"),
        PrependScheme::First => str_to_chars("first"),
        PrependScheme::Never => str_to_chars("never"),
    }
}

impl DecoderWrapper {
    /// Writes this decoder's canonical configuration object: the discriminant
    /// first, then every field of the case in declared order.
    #[verifier::loop_isolation(false)]
    pub fn to_json(&self) -> (r: JsonValue)
        ensures
            r@ == config_of(self@),
        decreases *self,
    {
        match self {
            DecoderWrapper::BPE(d) => {
                let mut ps: Vec<(Vec<char>, JsonValue)> = Vec::new();
                ps.push((str_to_chars("type"), JsonValue::Str(str_to_chars("BPE"))));
                ps.push((str_to_chars("suffix"), JsonValue::Str(copy_chars(&d.suffix))));
                proof {
                    lemma_jpairs_of(ps@, 0);
                    assert(jpairs_of(ps@, 0) =~= seq![
                        ("type"@, JVal::Str("BPE"@)),
                        ("suffix"@, JVal::Str(d.suffix@)),
                    ]);
                }
                JsonValue::Obj(ps)
            },
            DecoderWrapper::ByteLevel(d) => {
                let mut ps: Vec<(Vec<char>, JsonValue)> = Vec::new();
                ps.push((str_to_chars("type"), JsonValue::Str(str_to_chars("ByteLevel"))));
                ps.push((str_to_chars("add_prefix_space"), JsonValue::Bool(d.add_prefix_space)));
                ps.push((str_to_chars("trim_offsets"), JsonValue::Bool(d.trim_offsets)));
                ps.push((str_to_chars("use_regex"), JsonValue::Bool(d.use_regex)));
                proof {
                    lemma_jpairs_of(ps@, 0);
                    assert(jpairs_of(ps@, 0) =~= seq![
                        ("type"@, JVal::Str("ByteLevel"@)),
                        ("add_prefix_space"@, JVal::Bool(d.add_prefix_space)),
                        ("trim_offsets"@, JVal::Bool(d.trim_offsets)),
                        ("use_regex"@, JVal::Bool(d.use_regex)),
                    ]);
                }
                JsonValue::Obj(ps)
            },
            DecoderWrapper::WordPiece(d) => {
                let mut ps: Vec<(Vec<char>, JsonValue)> = Vec::new();
                ps.push((str_to_chars("type"), JsonValue::Str(str_to_chars("WordPiece"))));
                ps.push((str_to_chars("prefix"), JsonValue::Str(copy_chars(&d.prefix))));
                ps.push((str_to_chars("cleanup"), JsonValue::Bool(d.cleanup)));
                proof {
                    lemma_jpairs_of(ps@, 0);
                    assert(jpairs_of(ps@, 0) =~= seq![
                        ("type"@, JVal::Str("WordPiece"@)),
                        ("prefix"@, JVal::Str(d.prefix@)),
                        ("cleanup"@, JVal::Bool(d.cleanup)),
                    ]);
                }
                JsonValue::Obj(ps)
            },
            DecoderWrapper::Metaspace(d) => {
                let mut rv: Vec<char> = Vec::new();
                rv.push(d.replacement);
                let mut ps: Vec<(Vec<char>, JsonValue)> = Vec::new();
                ps.push((str_to_chars("type"), JsonValue::Str(str_to_chars("Metaspace"))));
                ps.push((str_to_chars("replacement"), JsonValue::Str(rv)));
                ps.push((str_to_chars("prepend_scheme"), JsonValue::Str(scheme_chars(d.prepend_scheme))));
                ps.push((str_to_chars("split"), JsonValue::Bool(d.split)));
                proof {
                    lemma_jpairs_of(ps@, 0);
                    assert(jpairs_of(ps@, 0) =~= seq![
                        ("type"@, JVal::Str("Metaspace"@)),
                        ("replacement"@, JVal::Str(seq![d.replacement])),
                        ("prepend_scheme"@, JVal::Str(scheme_name(d.prepend_scheme))),
                        ("split"@, JVal::Bool(d.split)),
                    ]);
                }
                JsonValue::Obj(ps)
            },
            DecoderWrapper::CTC(d) => {
                let mut ps: Vec<(Vec<char>, JsonValue)> = Vec::new();
                ps.push((str_to_chars("type"), JsonValue::Str(str_to_chars("CTC"))));
                ps.push((str_to_chars("pad_token"), JsonValue::Str(copy_chars(&d.pad_token))));
                ps.push((
                    str_to_chars("word_delimiter_token"),
                    JsonValue::Str(copy_chars(&d.word_delimiter_token)),
                ));
                ps.push((str_to_chars("cleanup"), JsonValue::Bool(d.cleanup)));
                proof {
                    lemma_jpairs_of(ps@, 0);
                    assert(jpairs_of(ps@, 0) =~= seq![
                        ("type"@, JVal::Str("CTC"@)),
                        ("pad_token"@, JVal::Str(d.pad_token@)),
                        ("word_delimiter_token"@, JVal::Str(d.word_delimiter_token@)),
                        ("cleanup"@, JVal::Bool(d.cleanup)),
                    ]);
                }
                JsonValue::Obj(ps)
            },
            DecoderWrapper::Sequence(s) => {
                let ghost dm = decs_of(s.decoders@, 0);
                proof {
                    lemma_decs_of(s.decoders@, 0);
                    lemma_configs_of(dm, 0);
                }
                let mut arr: Vec<JsonValue> = Vec::new();
                let mut i: usize = 0;
                while i < s.decoders.len()
                    invariant
                        i <= s.decoders@.len(),
                        arr@.len() == i,
                        dm == decs_of(s.decoders@, 0),
                        dm.len() == s.decoders@.len(),
                        forall|j: int| 0 <= j < dm.len() ==> dm[j] == dec_of(s.decoders@[j]),
                        forall|j: int| 0 <= j < i ==> crate::json::jval_of(arr@[j]) == config_of(
                            dm[j],
                        ),
                    decreases s.decoders@.len() - i,
                {
                    proof {
                        assert(decreases_to!(*self => self->Sequence_0));
                        assert(decreases_to!(self->Sequence_0 => self->Sequence_0.decoders));
                        assert(decreases_to!(s.decoders => s.decoders[i as int]));
                    }
                    let cv = s.decoders[i].to_json();
                    arr.push(cv);
                    i += 1;
                }
                proof {
                    lemma_jvals_of(arr@, 0);
                    assert(jvals_of(arr@, 0) =~= configs_of(dm, 0));
                }
                let mut ps: Vec<(Vec<char>, JsonValue)> = Vec::new();
                ps.push((str_to_chars("type"), JsonValue::Str(str_to_chars("Sequence"))));
                ps.push((str_to_chars("decoders"), JsonValue::Arr(arr)));
                proof {
                    lemma_jpairs_of(ps@, 0);
                    assert(jpairs_of(ps@, 0) =~= seq![
                        ("type"@, JVal::Str("Sequence"@)),
                        ("decoders"@, JVal::Arr(configs_of(dm, 0))),
                    ]);
                }
                JsonValue::Obj(ps)
            },
            DecoderWrapper::Replace(d) => {
                let mut ps: Vec<(Vec<char>, JsonValue)> = Vec::new();
                ps.push((str_to_chars("type"), JsonValue::Str(str_to_chars("Replace"))));
                ps.push((str_to_chars("pattern"), JsonValue::Str(copy_chars(&d.pattern))));
                ps.push((str_to_chars("content"), JsonValue::Str(copy_chars(&d.content))));
                proof {
                    lemma_jpairs_of(ps@, 0);
                    assert(jpairs_of(ps@, 0) =~= seq![
                        ("type"@, JVal::Str("Replace"@)),
                        ("pattern"@, JVal::Str(d.pattern@)),
                        ("content"@, JVal::Str(d.content@)),
                    ]);
                }
                JsonValue::Obj(ps)
            },
            DecoderWrapper::Fuse(_) => {
                let mut ps: Vec<(Vec<char>, JsonValue)> = Vec::new();
                ps.push((str_to_chars("type"), JsonValue::Str(str_to_chars("Fuse"))));
                proof {
                    lemma_jpairs_of(ps@, 0);
                    assert(jpairs_of(ps@, 0) =~= seq![("type"@, JVal::Str("Fuse"@))]);
                }
                JsonValue::Obj(ps)
            },
            DecoderWrapper::Strip(d) => {
                let mut cv: Vec<char> = Vec::new();
                cv.push(d.content);
                let mut ps: Vec<(Vec<char>, JsonValue)> = Vec::new();
                ps.push((str_to_chars("type"), JsonValue::Str(str_to_chars("Strip"))));
                ps.push((str_to_chars("content"), JsonValue::Str(cv)));
                ps.push((str_to_chars("start"), JsonValue::Int(d.start as u64)));
                ps.push((str_to_chars("stop"), JsonValue::Int(d.stop as u64)));
                proof {
                    lemma_jpairs_of(ps@, 0);
                    assert(jpairs_of(ps@, 0) =~= seq![
                        ("type"@, JVal::Str("Strip"@)),
                        ("content"@, JVal::Str(seq![d.content])),
                        ("start"@, JVal::Int(d.start as u64)),
                        ("stop"@, JVal::Int(d.stop as u64)),
                    ]);
                }
                JsonValue::Obj(ps)
            },
            DecoderWrapper::ByteFallback(_) => {
                let mut ps: Vec<(Vec<char>, JsonValue)> = Vec::new();
                ps.push((str_to_chars("type"), JsonValue::Str(str_to_chars("ByteFallback"))));
                proof {
                    lemma_jpairs_of(ps@, 0);
                    assert(jpairs_of(ps@, 0) =~= seq![("type"@, JVal::Str("ByteFallback"@))]);
                }
                JsonValue::Obj(ps)
            },
        }
    }

    /// The canonical configuration text of this decoder.
    pub fn to_json_string(&self) -> (r: String)
        ensures
            r@ == ser(config_of(self@)),
    {
        let v = self.to_json();
        to_text(&v)
    }

    /// Reads a decoder from configuration text. The contract is two-sided:
    /// whatever is accepted came from the canonical rendering of a value that
    /// the structural matching accepts; and on the canonical rendering of any
    /// value, the call returns exactly what the structural matching says — the
    /// decoder it stands for, or the configuration mismatch when it stands for
    /// none. Text that is no canonical rendering fails as invalid.
    pub fn from_json_str(s: &str) -> (r: Result<DecoderWrapper, DecoderError>)
        ensures
            r matches Ok(w) ==> exists|v: JVal|
                s@ == #[trigger] ser(v) && dec_from_config(v) == Some(w@),
            r matches Err(e) ==> e is InvalidJson || (e is ConfigurationMismatch && exists|v: JVal|
                s@ == #[trigger] ser(v) && dec_from_config(v) is None),
            forall|v: JVal| s@ == #[trigger] ser(v) ==> (match dec_from_config(v) {
                Some(d) => r matches Ok(w) && w@ == d,
                None => r matches Err(e) && e == DecoderError::ConfigurationMismatch,
            }),
    {
        match parse_text(s) {
            Some(jv) => {
                let parsed = DecoderWrapper::from_json(&jv);
                proof {
                    assert(s@ == ser(jv@));
                    assert forall|v: JVal| s@ == #[trigger] ser(v) implies (match dec_from_config(
                        v,
                    ) {
                        Some(d) => parsed matches Ok(w) && w@ == d,
                        None => parsed matches Err(e) && e == DecoderError::ConfigurationMismatch,
                    }) by {
                        assert(jv@ == v);
                    }
                }
                parsed
            },
            None => Err(DecoderError::InvalidJson),
        }
    }
}

impl Clone for DecoderWrapper {
    /// A copy holding the same configuration.
    #[verifier::loop_isolation(false)]
    fn clone(&self) -> (r: DecoderWrapper)
        ensures
            r@ == self@,
        decreases *self,
    {
        match self {
            DecoderWrapper::BPE(d) => DecoderWrapper::BPE(
                BPEDecoder { suffix: copy_chars(&d.suffix) },
            ),
            DecoderWrapper::ByteLevel(d) => DecoderWrapper::ByteLevel(
                ByteLevel {
                    add_prefix_space: d.add_prefix_space,
                    trim_offsets: d.trim_offsets,
                    use_regex: d.use_regex,
                },
            ),
            DecoderWrapper::WordPiece(d) => DecoderWrapper::WordPiece(
                WordPiece { prefix: copy_chars(&d.prefix), cleanup: d.cleanup },
            ),
            DecoderWrapper::Metaspace(d) => DecoderWrapper::Metaspace(
                Metaspace {
                    replacement: d.replacement,
                    prepend_scheme: d.prepend_scheme,
                    split: d.split,
                },
            ),
            DecoderWrapper::CTC(d) => DecoderWrapper::CTC(
                CTC {
                    pad_token: copy_chars(&d.pad_token),
                    word_delimiter_token: copy_chars(&d.word_delimiter_token),
                    cleanup: d.cleanup,
                },
            ),
            DecoderWrapper::Sequence(sq) => {
                let ghost dm = decs_of(sq.decoders@, 0);
                proof {
                    lemma_decs_of(sq.decoders@, 0);
                }
                let mut ds: Vec<DecoderWrapper> = Vec::new();
                let mut i: usize = 0;
                while i < sq.decoders.len()
                    invariant
                        i <= sq.decoders@.len(),
                        ds@.len() == i,
                        dm == decs_of(sq.decoders@, 0),
                        dm.len() == sq.decoders@.len(),
                        forall|j: int| 0 <= j < dm.len() ==> dm[j] == dec_of(sq.decoders@[j]),
                        forall|j: int| 0 <= j < i ==> dec_of(ds@[j]) == dm[j],
                    decreases sq.decoders@.len() - i,
                {
                    proof {
                        assert(decreases_to!(*self => self->Sequence_0));
                        assert(decreases_to!(self->Sequence_0 => self->Sequence_0.decoders));
                        assert(decreases_to!(sq.decoders => sq.decoders[i as int]));
                    }
                    let c = sq.decoders[i].clone();
                    ds.push(c);
                    i += 1;
                }
                proof {
                    lemma_decs_of(ds@, 0);
                    assert(decs_of(ds@, 0) =~= dm);
                }
                DecoderWrapper::Sequence(Sequence { decoders: ds })
            },
            DecoderWrapper::Replace(d) => DecoderWrapper::Replace(
                Replace { pattern: copy_chars(&d.pattern), content: copy_chars(&d.content) },
            ),
            DecoderWrapper::Fuse(_) => DecoderWrapper::Fuse(Fuse {  }),
            DecoderWrapper::Strip(d) => DecoderWrapper::Strip(
                Strip { content: d.content, start: d.start, stop: d.stop },
            ),
            DecoderWrapper::ByteFallback(_) => DecoderWrapper::ByteFallback(ByteFallback {  }),
        }
    }
}

impl Clone for Sequence {
    /// A copy holding the same chain.
    #[verifier::loop_isolation(false)]
    fn clone(&self) -> (r: Sequence)
        ensures
            decs_of(r.decoders@, 0) == decs_of(self.decoders@, 0),
    {
        let ghost dm = decs_of(self.decoders@, 0);
        proof {
            lemma_decs_of(self.decoders@, 0);
        }
        let mut ds: Vec<DecoderWrapper> = Vec::new();
        let mut i: usize = 0;
        while i < self.decoders.len()
            invariant
                i <= self.decoders@.len(),
                ds@.len() == i,
                dm == decs_of(self.decoders@, 0),
                dm.len() == self.decoders@.len(),
                forall|j: int| 0 <= j < dm.len() ==> dm[j] == dec_of(self.decoders@[j]),
                forall|j: int| 0 <= j < i ==> dec_of(ds@[j]) == dm[j],
            decreases self.decoders@.len() - i,
        {
            let c = self.decoders[i].clone();
            ds.push(c);
            i += 1;
        }
        proof {
            lemma_decs_of(ds@, 0);
            assert(decs_of(ds@, 0) =~= dm);
        }
        Sequence { decoders: ds }
    }
}

impl From<BPEDecoder> for DecoderWrapper {
    fn from(d: BPEDecoder) -> (r: DecoderWrapper) {
        DecoderWrapper::BPE(d)
    }
}

impl vstd::std_specs::convert::FromSpecImpl<BPEDecoder> for DecoderWrapper {
    open spec fn obeys_from_spec() -> bool {
        true
    }

    open spec fn from_spec(d: BPEDecoder) -> DecoderWrapper {
        DecoderWrapper::BPE(d)
    }
}

impl From<ByteLevel> for DecoderWrapper {
    fn from(d: ByteLevel) -> (r: DecoderWrapper) {
        DecoderWrapper::ByteLevel(d)
    }
}

impl vstd::std_specs::convert::FromSpecImpl<ByteLevel> for DecoderWrapper {
    open spec fn obeys_from_spec() -> bool {
        true
    }

    open spec fn from_spec(d: ByteLevel) -> DecoderWrapper {
        DecoderWrapper::ByteLevel(d)
    }
}

impl From<WordPiece> for DecoderWrapper {
    fn from(d: WordPiece) -> (r: DecoderWrapper) {
        DecoderWrapper::WordPiece(d)
    }
}

impl vstd::std_specs::convert::FromSpecImpl<WordPiece> for DecoderWrapper {
    open spec fn obeys_from_spec() -> bool {
        true
    }

    open spec fn from_spec(d: WordPiece) -> DecoderWrapper {
        DecoderWrapper::WordPiece(d)
    }
}

impl From<Metaspace> for DecoderWrapper {
    fn from(d: Metaspace) -> (r: DecoderWrapper) {
        DecoderWrapper::Metaspace(d)
    }
}

impl vstd::std_specs::convert::FromSpecImpl<Metaspace> for DecoderWrapper {
    open spec fn obeys_from_spec() -> bool {
        true
    }

    open spec fn from_spec(d: Metaspace) -> DecoderWrapper {
        DecoderWrapper::Metaspace(d)
    }
}

impl From<CTC> for DecoderWrapper {
    fn from(d: CTC) -> (r: DecoderWrapper) {
        DecoderWrapper::CTC(d)
    }
}

impl vstd::std_specs::convert::FromSpecImpl<CTC> for DecoderWrapper {
    open spec fn obeys_from_spec() -> bool {
        true
    }

    open spec fn from_spec(d: CTC) -> DecoderWrapper {
        DecoderWrapper::CTC(d)
    }
}

impl From<Sequence> for DecoderWrapper {
    fn from(d: Sequence) -> (r: DecoderWrapper) {
        DecoderWrapper::Sequence(d)
    }
}

impl vstd::std_specs::convert::FromSpecImpl<Sequence> for DecoderWrapper {
    open spec fn obeys_from_spec() -> bool {
        true
    }

    open spec fn from_spec(d: Sequence) -> DecoderWrapper {
        DecoderWrapper::Sequence(d)
    }
}

impl From<Replace> for DecoderWrapper {
    fn from(d: Replace) -> (r: DecoderWrapper) {
        DecoderWrapper::Replace(d)
    }
}

impl vstd::std_specs::convert::FromSpecImpl<Replace> for DecoderWrapper {
    open spec fn obeys_from_spec() -> bool {
        true
    }

    open spec fn from_spec(d: Replace) -> DecoderWrapper {
        DecoderWrapper::Replace(d)
    }
}

impl From<Fuse> for DecoderWrapper {
    fn from(d: Fuse) -> (r: DecoderWrapper) {
        DecoderWrapper::Fuse(d)
    }
}

impl vstd::std_specs::convert::FromSpecImpl<Fuse> for DecoderWrapper {
    open spec fn obeys_from_spec() -> bool {
        true
    }

    open spec fn from_spec(d: Fuse) -> DecoderWrapper {
        DecoderWrapper::Fuse(d)
    }
}

impl From<Strip> for DecoderWrapper {
    fn from(d: Strip) -> (r: DecoderWrapper) {
        DecoderWrapper::Strip(d)
    }
}

impl vstd::std_specs::convert::FromSpecImpl<Strip> for DecoderWrapper {
    open spec fn obeys_from_spec() -> bool {
        true
    }

    open spec fn from_spec(d: Strip) -> DecoderWrapper {
        DecoderWrapper::Strip(d)
    }
}

impl From<ByteFallback> for DecoderWrapper {
    fn from(d: ByteFallback) -> (r: DecoderWrapper) {
        DecoderWrapper::ByteFallback(d)
    }
}

impl vstd::std_specs::convert::FromSpecImpl<ByteFallback> for DecoderWrapper {
    open spec fn obeys_from_spec() -> bool {
        true
    }

    open spec fn from_spec(d: ByteFallback) -> DecoderWrapper {
        DecoderWrapper::ByteFallback(d)
    }
}

} // verus!
