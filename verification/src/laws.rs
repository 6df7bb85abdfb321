//! The laws of the decoder layer: round-trip stability of the configuration
//! format, the schema migration of the metaspace case, order preservation of
//! the chain, behaviour on empty input, and the two rejection rules of the
//! structural matching.

use vstd::prelude::*;
use crate::json::{JVal, jlookup, jlookup_from};
use crate::strategies::{
    PrependScheme, byte_fallback_tokens, dedup_tokens, filter_ne_from, map_replace,
    metaspace_tokens, strip_tokens, wordpiece_tokens,
};
use crate::decoders::{
    Dec, bpe_from, bytefallback_from, bytelevel_from, config_of, configs_of, ctc_from,
    dec_from_config, decs_from_configs, decode_list, decode_model, fuse_from, has_type,
    lemma_configs_of, metaspace_from, replace_from, scheme_name, scheme_of_name, strip_from,
    wordpiece_from,
};

verus! {

/// The names of the configuration format that could collide name their
/// bearers apart: the case names among themselves, the field keys of each
/// case's object, and the scheme names.
pub open spec fn format_names_distinct() -> bool {
    &&& "BPE"@ != "ByteFallback"@
    &&& "BPE"@ != "ByteLevel"@
    &&& "BPE"@ != "CTC"@
    &&& "BPE"@ != "Fuse"@
    &&& "BPE"@ != "Metaspace"@
    &&& "BPE"@ != "Replace"@
    &&& "BPE"@ != "Sequence"@
    &&& "BPE"@ != "Strip"@
    &&& "BPE"@ != "WordPiece"@
    &&& "ByteLevel"@ != "ByteFallback"@
    &&& "ByteLevel"@ != "CTC"@
    &&& "ByteLevel"@ != "Fuse"@
    &&& "ByteLevel"@ != "Metaspace"@
    &&& "ByteLevel"@ != "Replace"@
    &&& "ByteLevel"@ != "Sequence"@
    &&& "ByteLevel"@ != "Strip"@
    &&& "ByteLevel"@ != "WordPiece"@
    &&& "CTC"@ != "ByteFallback"@
    &&& "CTC"@ != "Fuse"@
    &&& "CTC"@ != "Replace"@
    &&& "CTC"@ != "Sequence"@
    &&& "CTC"@ != "Strip"@
    &&& "Fuse"@ != "ByteFallback"@
    &&& "Fuse"@ != "Strip"@
    &&& "Metaspace"@ != "ByteFallback"@
    &&& "Metaspace"@ != "CTC"@
    &&& "Metaspace"@ != "Fuse"@
    &&& "Metaspace"@ != "Replace"@
    &&& "Metaspace"@ != "Sequence"@
    &&& "Metaspace"@ != "Strip"@
    &&& "Replace"@ != "ByteFallback"@
    &&& "Replace"@ != "Fuse"@
    &&& "Replace"@ != "Strip"@
    &&& "Sequence"@ != "ByteFallback"@
    &&& "Sequence"@ != "Fuse"@
    &&& "Sequence"@ != "Replace"@
    &&& "Sequence"@ != "Strip"@
    &&& "Strip"@ != "ByteFallback"@
    &&& "WordPiece"@ != "ByteFallback"@
    &&& "WordPiece"@ != "CTC"@
    &&& "WordPiece"@ != "Fuse"@
    &&& "WordPiece"@ != "Metaspace"@
    &&& "WordPiece"@ != "Replace"@
    &&& "WordPiece"@ != "Sequence"@
    &&& "WordPiece"@ != "Strip"@
    &&& "add_prefix_space"@ != "prepend_scheme"@
    &&& "add_prefix_space"@ != "replacement"@
    &&& "add_prefix_space"@ != "split"@
    &&& "add_prefix_space"@ != "trim_offsets"@
    &&& "add_prefix_space"@ != "type"@
    &&& "add_prefix_space"@ != "use_regex"@
    &&& "always"@ != "first"@
    &&& "always"@ != "never"@
    &&& "cleanup"@ != "pad_token"@
    &&& "cleanup"@ != "prefix"@
    &&& "cleanup"@ != "type"@
    &&& "cleanup"@ != "word_delimiter_token"@
    &&& "content"@ != "pattern"@
    &&& "content"@ != "start"@
    &&& "content"@ != "stop"@
    &&& "content"@ != "type"@
    &&& "decoders"@ != "type"@
    &&& "first"@ != "never"@
    &&& "pad_token"@ != "type"@
    &&& "pad_token"@ != "word_delimiter_token"@
    &&& "pattern"@ != "type"@
    &&& "prefix"@ != "type"@
    &&& "prepend_scheme"@ != "replacement"@
    &&& "prepend_scheme"@ != "split"@
    &&& "prepend_scheme"@ != "type"@
    &&& "replacement"@ != "split"@
    &&& "replacement"@ != "type"@
    &&& "split"@ != "type"@
    &&& "start"@ != "stop"@
    &&& "start"@ != "type"@
    &&& "stop"@ != "type"@
    &&& "suffix"@ != "type"@
    &&& "trim_offsets"@ != "type"@
    &&& "trim_offsets"@ != "use_regex"@
    &&& "type"@ != "use_regex"@
    &&& "type"@ != "word_delimiter_token"@
}

/// Opens the characters of every name the format uses and settles their
/// distinctness once, for every proof about concrete objects.
pub proof fn lemma_format_names()
    ensures
        format_names_distinct(),
{
    reveal_strlit("type");
    reveal_strlit("BPE");
    reveal_strlit("ByteLevel");
    reveal_strlit("WordPiece");
    reveal_strlit("Metaspace");
    reveal_strlit("CTC");
    reveal_strlit("Sequence");
    reveal_strlit("Replace");
    reveal_strlit("Fuse");
    reveal_strlit("Strip");
    reveal_strlit("ByteFallback");
    reveal_strlit("suffix");
    reveal_strlit("add_prefix_space");
    reveal_strlit("trim_offsets");
    reveal_strlit("use_regex");
    reveal_strlit("prefix");
    reveal_strlit("cleanup");
    reveal_strlit("replacement");
    reveal_strlit("prepend_scheme");
    reveal_strlit("split");
    reveal_strlit("pad_token");
    reveal_strlit("word_delimiter_token");
    reveal_strlit("decoders");
    reveal_strlit("pattern");
    reveal_strlit("content");
    reveal_strlit("start");
    reveal_strlit("stop");
    reveal_strlit("always");
    reveal_strlit("first");
    reveal_strlit("never");
    assert(("type"@).len() == 4);
    assert(("BPE"@).len() == 3);
    assert(("ByteLevel"@).len() == 9);
    assert(("WordPiece"@).len() == 9);
    assert(("Metaspace"@).len() == 9);
    assert(("CTC"@).len() == 3);
    assert(("Sequence"@).len() == 8);
    assert(("Replace"@).len() == 7);
    assert(("Fuse"@).len() == 4);
    assert(("Strip"@).len() == 5);
    assert(("ByteFallback"@).len() == 12);
    assert(("suffix"@).len() == 6);
    assert(("add_prefix_space"@).len() == 16);
    assert(("trim_offsets"@).len() == 12);
    assert(("use_regex"@).len() == 9);
    assert(("prefix"@).len() == 6);
    assert(("cleanup"@).len() == 7);
    assert(("replacement"@).len() == 11);
    assert(("prepend_scheme"@).len() == 14);
    assert(("split"@).len() == 5);
    assert(("pad_token"@).len() == 9);
    assert(("word_delimiter_token"@).len() == 20);
    assert(("decoders"@).len() == 8);
    assert(("pattern"@).len() == 7);
    assert(("content"@).len() == 7);
    assert(("start"@).len() == 5);
    assert(("stop"@).len() == 4);
    assert(("always"@).len() == 6);
    assert(("first"@).len() == 5);
    assert(("never"@).len() == 5);
    assert(("BPE"@)[0] == 'B');
    assert(("ByteLevel"@)[0] == 'B');
    assert(("WordPiece"@)[0] == 'W');
    assert(("Metaspace"@)[0] == 'M');
    assert(("CTC"@)[0] == 'C');
    assert(("type"@)[0] == 't');
    assert(("stop"@)[0] == 's');
    assert(("pattern"@)[0] == 'p');
    assert(("content"@)[0] == 'c');
    assert(("never"@)[0] == 'n');
    assert(("first"@)[0] == 'f');
    assert(("start"@)[1] == 't');
    assert(("split"@)[1] == 'p');
}

/// The wire names of the schemes name them apart, and reading a written name
/// gives the scheme back.
proof fn lemma_scheme_names(sch: PrependScheme)
    ensures
        scheme_of_name(scheme_name(sch)) == Some(sch),
{
    reveal_strlit("always");
    reveal_strlit("first");
    reveal_strlit("never");
    match sch {
        PrependScheme::Always => {
            assert(scheme_name(sch) == "always"@);
            assert(scheme_of_name("always"@) == Some(PrependScheme::Always));
        },
        PrependScheme::First => {
            assert(scheme_name(sch) == "first"@);
            assert("first"@ != "always"@);
            assert(scheme_of_name("first"@) == Some(PrependScheme::First));
        },
        PrependScheme::Never => {
            assert(scheme_name(sch) == "never"@);
            assert(("never"@)[0] == 'n');
            assert(("first"@)[0] == 'f');
            assert("never"@ != "first"@);
            assert(scheme_of_name("never"@) == Some(PrependScheme::Never));
        },
    }
}

/// Computes a lookup in an object of at most four fields.
proof fn lemma_jlookup_eval(ps: Seq<(Seq<char>, JVal)>, k: Seq<char>)
    requires
        ps.len() <= 4,
    ensures
        jlookup(ps, k) == (if ps.len() > 0 && ps[0].0 == k {
            Some(ps[0].1)
        } else if ps.len() > 1 && ps[1].0 == k {
            Some(ps[1].1)
        } else if ps.len() > 2 && ps[2].0 == k {
            Some(ps[2].1)
        } else if ps.len() > 3 && ps[3].0 == k {
            Some(ps[3].1)
        } else {
            None
        }),
{
    assert(jlookup_from(ps, k, ps.len() as int) is None);
    if ps.len() > 3 {
        assert(jlookup_from(ps, k, 3) == (if ps[3].0 == k {
            Some(ps[3].1)
        } else {
            jlookup_from(ps, k, 4)
        }));
    }
    if ps.len() > 2 {
        assert(jlookup_from(ps, k, 2) == (if ps[2].0 == k {
            Some(ps[2].1)
        } else {
            jlookup_from(ps, k, 3)
        }));
    }
    if ps.len() > 1 {
        assert(jlookup_from(ps, k, 1) == (if ps[1].0 == k {
            Some(ps[1].1)
        } else {
            jlookup_from(ps, k, 2)
        }));
    }
    if ps.len() > 0 {
        assert(jlookup_from(ps, k, 0) == (if ps[0].0 == k {
            Some(ps[0].1)
        } else {
            jlookup_from(ps, k, 1)
        }));
    }
}

/// Round-trip stability: the canonical configuration object of a decoder
/// stands, under the structural matching, for exactly that decoder.
#[verifier::rlimit(100)]
pub proof fn lemma_round_trip(d: Dec)
    ensures
        dec_from_config(config_of(d)) == Some(d),
    decreases d, 1int, 0int,
{
    lemma_format_names();
    reveal_with_fuel(jlookup_from, 8);
    match d {
        Dec::BPE { suffix } => {
            let ps = seq![("type"@, JVal::Str("BPE"@)), ("suffix"@, JVal::Str(suffix))];
            assert(config_of(d) == JVal::Obj(ps));
            lemma_jlookup_eval(ps, "type"@);
            lemma_jlookup_eval(ps, "suffix"@);
            assert(jlookup(ps, "type"@) == Some(JVal::Str("BPE"@)));
            assert(has_type(ps, "BPE"@));
            assert(jlookup(ps, "suffix"@) == Some(JVal::Str(suffix)));
            assert(bpe_from(ps) == Some(d));
            assert(dec_from_config(JVal::Obj(ps)) == Some(d));
        },
        Dec::ByteLevel { add_prefix_space, trim_offsets, use_regex } => {
            let ps = seq![
                ("type"@, JVal::Str("ByteLevel"@)),
                ("add_prefix_space"@, JVal::Bool(add_prefix_space)),
                ("trim_offsets"@, JVal::Bool(trim_offsets)),
                ("use_regex"@, JVal::Bool(use_regex)),
            ];
            assert(config_of(d) == JVal::Obj(ps));
            lemma_jlookup_eval(ps, "type"@);
            lemma_jlookup_eval(ps, "add_prefix_space"@);
            lemma_jlookup_eval(ps, "trim_offsets"@);
            lemma_jlookup_eval(ps, "use_regex"@);
            assert(jlookup(ps, "type"@) == Some(JVal::Str("ByteLevel"@)));
            assert(jlookup(ps, "add_prefix_space"@) == Some(JVal::Bool(add_prefix_space)));
            assert(jlookup(ps, "trim_offsets"@) == Some(JVal::Bool(trim_offsets)));
            assert(jlookup(ps, "use_regex"@) == Some(JVal::Bool(use_regex)));
            assert(bytelevel_from(ps) == Some(d));
            assert(dec_from_config(JVal::Obj(ps)) == Some(d));
        },
        Dec::WordPiece { prefix, cleanup } => {
            let ps = seq![
                ("type"@, JVal::Str("WordPiece"@)),
                ("prefix"@, JVal::Str(prefix)),
                ("cleanup"@, JVal::Bool(cleanup)),
            ];
            assert(config_of(d) == JVal::Obj(ps));
            lemma_jlookup_eval(ps, "type"@);
            lemma_jlookup_eval(ps, "prefix"@);
            lemma_jlookup_eval(ps, "cleanup"@);
            assert(jlookup(ps, "type"@) == Some(JVal::Str("WordPiece"@)));
            assert(jlookup(ps, "prefix"@) == Some(JVal::Str(prefix)));
            assert(jlookup(ps, "cleanup"@) == Some(JVal::Bool(cleanup)));
            assert(wordpiece_from(ps) == Some(d));
            assert(dec_from_config(JVal::Obj(ps)) == Some(d));
        },
        Dec::Metaspace { replacement, prepend_scheme, split } => {
            lemma_scheme_names(prepend_scheme);
            let ps = seq![
                ("type"@, JVal::Str("Metaspace"@)),
                ("replacement"@, JVal::Str(seq![replacement])),
                ("prepend_scheme"@, JVal::Str(scheme_name(prepend_scheme))),
                ("split"@, JVal::Bool(split)),
            ];
            assert(config_of(d) == JVal::Obj(ps));
            lemma_jlookup_eval(ps, "type"@);
            lemma_jlookup_eval(ps, "add_prefix_space"@);
            lemma_jlookup_eval(ps, "replacement"@);
            lemma_jlookup_eval(ps, "prepend_scheme"@);
            lemma_jlookup_eval(ps, "split"@);
            assert(jlookup(ps, "type"@) == Some(JVal::Str("Metaspace"@)));
            assert(jlookup(ps, "add_prefix_space"@) is None);
            assert(jlookup(ps, "replacement"@) == Some(JVal::Str(seq![replacement])));
            assert(jlookup(ps, "prepend_scheme"@) == Some(JVal::Str(scheme_name(prepend_scheme))));
            assert(jlookup(ps, "split"@) == Some(JVal::Bool(split)));
            assert(metaspace_from(ps) == Some(d));
            assert(dec_from_config(JVal::Obj(ps)) == Some(d));
        },
        Dec::CTC { pad_token, word_delimiter_token, cleanup } => {
            let ps = seq![
                ("type"@, JVal::Str("CTC"@)),
                ("pad_token"@, JVal::Str(pad_token)),
                ("word_delimiter_token"@, JVal::Str(word_delimiter_token)),
                ("cleanup"@, JVal::Bool(cleanup)),
            ];
            assert(config_of(d) == JVal::Obj(ps));
            lemma_jlookup_eval(ps, "type"@);
            lemma_jlookup_eval(ps, "pad_token"@);
            lemma_jlookup_eval(ps, "word_delimiter_token"@);
            lemma_jlookup_eval(ps, "cleanup"@);
            assert(jlookup(ps, "type"@) == Some(JVal::Str("CTC"@)));
            assert(jlookup(ps, "pad_token"@) == Some(JVal::Str(pad_token)));
            assert(jlookup(ps, "word_delimiter_token"@) == Some(JVal::Str(word_delimiter_token)));
            assert(jlookup(ps, "cleanup"@) == Some(JVal::Bool(cleanup)));
            assert(ctc_from(ps) == Some(d));
            assert(dec_from_config(JVal::Obj(ps)) == Some(d));
        },
        Dec::Sequence { decoders } => {
            lemma_round_trip_list(decoders, 0);
            assert(decoders.skip(0) =~= decoders);
            let ps = seq![
                ("type"@, JVal::Str("Sequence"@)),
                ("decoders"@, JVal::Arr(configs_of(decoders, 0))),
            ];
            assert(config_of(d) == JVal::Obj(ps));
            lemma_jlookup_eval(ps, "type"@);
            lemma_jlookup_eval(ps, "decoders"@);
            assert(jlookup(ps, "type"@) == Some(JVal::Str("Sequence"@)));
            assert(jlookup(ps, "decoders"@) == Some(JVal::Arr(configs_of(decoders, 0))));
            assert(decs_from_configs(configs_of(decoders, 0), 0) == Some(decoders));
            assert(dec_from_config(JVal::Obj(ps)) == Some(d));
        },
        Dec::Replace { pattern, content } => {
            let ps = seq![
                ("type"@, JVal::Str("Replace"@)),
                ("pattern"@, JVal::Str(pattern)),
                ("content"@, JVal::Str(content)),
            ];
            assert(config_of(d) == JVal::Obj(ps));
            lemma_jlookup_eval(ps, "type"@);
            lemma_jlookup_eval(ps, "pattern"@);
            lemma_jlookup_eval(ps, "content"@);
            assert(jlookup(ps, "type"@) == Some(JVal::Str("Replace"@)));
            assert(jlookup(ps, "pattern"@) == Some(JVal::Str(pattern)));
            assert(jlookup(ps, "content"@) == Some(JVal::Str(content)));
            assert(replace_from(ps) == Some(d));
            assert(dec_from_config(JVal::Obj(ps)) == Some(d));
        },
        Dec::Fuse => {
            let ps = seq![("type"@, JVal::Str("Fuse"@))];
            assert(config_of(d) == JVal::Obj(ps));
            lemma_jlookup_eval(ps, "type"@);
            assert(jlookup(ps, "type"@) == Some(JVal::Str("Fuse"@)));
            assert(fuse_from(ps) == Some(d));
            assert(dec_from_config(JVal::Obj(ps)) == Some(d));
        },
        Dec::Strip { content, start, stop } => {
            let ps = seq![
                ("type"@, JVal::Str("Strip"@)),
                ("content"@, JVal::Str(seq![content])),
                ("start"@, JVal::Int(start as u64)),
                ("stop"@, JVal::Int(stop as u64)),
            ];
            assert(config_of(d) == JVal::Obj(ps));
            lemma_jlookup_eval(ps, "type"@);
            lemma_jlookup_eval(ps, "content"@);
            lemma_jlookup_eval(ps, "start"@);
            lemma_jlookup_eval(ps, "stop"@);
            assert(jlookup(ps, "type"@) == Some(JVal::Str("Strip"@)));
            assert(jlookup(ps, "content"@) == Some(JVal::Str(seq![content])));
            assert(jlookup(ps, "start"@) == Some(JVal::Int(start as u64)));
            assert(jlookup(ps, "stop"@) == Some(JVal::Int(stop as u64)));
            assert(strip_from(ps) == Some(d));
            assert(dec_from_config(JVal::Obj(ps)) == Some(d));
        },
        Dec::ByteFallback => {
            let ps = seq![("type"@, JVal::Str("ByteFallback"@))];
            assert(config_of(d) == JVal::Obj(ps));
            lemma_jlookup_eval(ps, "type"@);
            assert(jlookup(ps, "type"@) == Some(JVal::Str("ByteFallback"@)));
            assert(bytefallback_from(ps) == Some(d));
            assert(dec_from_config(JVal::Obj(ps)) == Some(d));
        },
    }
}

/// Round-trip stability of a chain's members, from `i` on.
pub proof fn lemma_round_trip_list(ds: Seq<Dec>, i: int)
    requires
        0 <= i <= ds.len(),
    ensures
        decs_from_configs(configs_of(ds, 0), i) == Some(ds.skip(i)),
    decreases ds, 1int, ds.len() - i,
{
    lemma_configs_of(ds, 0);
    if i == ds.len() {
        assert(ds.skip(i) =~= Seq::<Dec>::empty());
    } else {
        lemma_round_trip(ds[i]);
        lemma_round_trip_list(ds, i + 1);
        assert(seq![ds[i]] + ds.skip(i + 1) =~= ds.skip(i));
    }
}

/// Schema migration: a metaspace object written under the older schema — a
/// replacement, the legacy prefix-space flag, a scheme, and no split field —
/// stands for the metaspace decoder with split set to its default; and that
/// decoder's canonical object carries the same replacement and scheme, the
/// split flag, and no legacy field.
pub proof fn lemma_metaspace_migration(r: char, sch: PrependScheme, legacy: bool)
    ensures
        ({
            let old_obj = JVal::Obj(
                seq![
                    ("type"@, JVal::Str("Metaspace"@)),
                    ("replacement"@, JVal::Str(seq![r])),
                    ("add_prefix_space"@, JVal::Bool(legacy)),
                    ("prepend_scheme"@, JVal::Str(scheme_name(sch))),
                ],
            );
            let migrated = Dec::Metaspace { replacement: r, prepend_scheme: sch, split: true };
            dec_from_config(old_obj) == Some(migrated) && config_of(migrated) == JVal::Obj(
                seq![
                    ("type"@, JVal::Str("Metaspace"@)),
                    ("replacement"@, JVal::Str(seq![r])),
                    ("prepend_scheme"@, JVal::Str(scheme_name(sch))),
                    ("split"@, JVal::Bool(true)),
                ],
            )
        }),
{
    lemma_format_names();
    reveal_with_fuel(jlookup_from, 8);
    lemma_scheme_names(sch);
    let ps = seq![
        ("type"@, JVal::Str("Metaspace"@)),
        ("replacement"@, JVal::Str(seq![r])),
        ("add_prefix_space"@, JVal::Bool(legacy)),
        ("prepend_scheme"@, JVal::Str(scheme_name(sch))),
    ];
    let migrated = Dec::Metaspace { replacement: r, prepend_scheme: sch, split: true };
    lemma_jlookup_eval(ps, "type"@);
    lemma_jlookup_eval(ps, "add_prefix_space"@);
    lemma_jlookup_eval(ps, "replacement"@);
    lemma_jlookup_eval(ps, "prepend_scheme"@);
    lemma_jlookup_eval(ps, "split"@);
    assert(jlookup(ps, "type"@) == Some(JVal::Str("Metaspace"@)));
    assert(jlookup(ps, "add_prefix_space"@) == Some(JVal::Bool(legacy)));
    assert(jlookup(ps, "replacement"@) == Some(JVal::Str(seq![r])));
    assert(jlookup(ps, "prepend_scheme"@) == Some(JVal::Str(scheme_name(sch))));
    assert(jlookup(ps, "split"@) is None);
    assert(metaspace_from(ps) == Some(migrated));
    assert(dec_from_config(JVal::Obj(ps)) == Some(migrated));
    assert(config_of(migrated) == JVal::Obj(
        seq![
            ("type"@, JVal::Str("Metaspace"@)),
            ("replacement"@, JVal::Str(seq![r])),
            ("prepend_scheme"@, JVal::Str(scheme_name(sch))),
            ("split"@, JVal::Bool(true)),
        ],
    ));
}

/// Order preservation, head step: a chain applies its first decoder to the
/// input and the rest of the chain to that output.
pub proof fn lemma_chain_head(ds: Seq<Dec>, toks: Seq<Seq<char>>)
    requires
        ds.len() > 0,
    ensures
        decode_model(Dec::Sequence { decoders: ds }, toks) == decode_list(
            ds,
            1,
            decode_model(ds[0], toks),
        ),
{
}

/// Order preservation, composition: extending a chain by one decoder applies
/// that decoder to the chain's output — the chain is the in-order composition
/// of its members.
pub proof fn lemma_chain_snoc(ds: Seq<Dec>, d: Dec, toks: Seq<Seq<char>>)
    ensures
        decode_model(Dec::Sequence { decoders: ds.push(d) }, toks) == decode_model(
            d,
            decode_model(Dec::Sequence { decoders: ds }, toks),
        ),
{
    lemma_chain_snoc_from(ds, d, 0, toks);
}

proof fn lemma_chain_snoc_from(ds: Seq<Dec>, d: Dec, i: int, toks: Seq<Seq<char>>)
    requires
        0 <= i <= ds.len(),
    ensures
        decode_list(ds.push(d), i, toks) == decode_model(d, decode_list(ds, i, toks)),
    decreases ds.len() - i,
{
    if i == ds.len() {
        assert(ds.push(d)[i] == d);
        assert(decode_list(ds, i, toks) == toks);
        assert(decode_list(ds.push(d), i + 1, decode_model(d, toks)) == decode_model(d, toks));
        assert(decode_list(ds.push(d), i, toks) == decode_model(d, toks));
    } else {
        assert(ds.push(d)[i] == ds[i]);
        lemma_chain_snoc_from(ds, d, i + 1, decode_model(ds[i], toks));
        assert(decode_list(ds, i, toks) == decode_list(ds, i + 1, decode_model(ds[i], toks)));
        assert(decode_list(ds.push(d), i, toks) == decode_list(
            ds.push(d),
            i + 1,
            decode_model(ds[i], toks),
        ));
    }
}

/// An empty chain returns its input unchanged.
pub proof fn lemma_empty_chain(toks: Seq<Seq<char>>)
    ensures
        decode_model(Dec::Sequence { decoders: Seq::empty() }, toks) == toks,
{
}

/// Empty input: decoding an empty token sequence returns an empty sequence,
/// for every case, chains of any depth included.
pub proof fn lemma_empty_input(d: Dec)
    ensures
        decode_model(d, Seq::<Seq<char>>::empty()) == Seq::<Seq<char>>::empty(),
    decreases d, 1int, 0int,
{
    let e = Seq::<Seq<char>>::empty();
    match d {
        Dec::BPE { suffix } => {
            assert(map_replace(e, suffix, seq![' ']) =~= e);
        },
        Dec::ByteLevel { .. } => {},
        Dec::WordPiece { prefix, cleanup } => {
            assert(wordpiece_tokens(e, prefix, cleanup) =~= e);
        },
        Dec::Metaspace { replacement, prepend_scheme, .. } => {
            assert(metaspace_tokens(e, replacement, prepend_scheme) =~= e);
        },
        Dec::CTC { pad_token, word_delimiter_token, cleanup } => {
            assert(dedup_tokens(e) =~= e);
            assert(filter_ne_from(e, pad_token, 0) =~= e);
            assert(map_replace(e, word_delimiter_token, seq![' ']) =~= e);
        },
        Dec::Sequence { decoders } => {
            lemma_empty_input_list(decoders, 0);
        },
        Dec::Replace { pattern, content } => {
            assert(map_replace(e, pattern, content) =~= e);
        },
        Dec::Fuse => {},
        Dec::Strip { content, start, stop } => {
            assert(strip_tokens(e, content, start as int, stop as int) =~= e);
        },
        Dec::ByteFallback => {
            assert(byte_fallback_tokens(e) =~= e);
        },
    }
}

proof fn lemma_empty_input_list(ds: Seq<Dec>, i: int)
    requires
        0 <= i <= ds.len(),
    ensures
        decode_list(ds, i, Seq::empty()) == Seq::<Seq<char>>::empty(),
    decreases ds, 0int, ds.len() - i,
{
    if i < ds.len() {
        lemma_empty_input(ds[i]);
        lemma_empty_input_list(ds, i + 1);
    }
}

/// Rejection on no match: an object whose discriminant names none of the
/// cases stands for nothing, whatever other fields it carries.
pub proof fn lemma_unknown_type_rejected(ps: Seq<(Seq<char>, JVal)>, t: Seq<char>)
    requires
        jlookup(ps, "type"@) == Some(JVal::Str(t)),
        t != "BPE"@,
        t != "ByteLevel"@,
        t != "WordPiece"@,
        t != "Metaspace"@,
        t != "CTC"@,
        t != "Sequence"@,
        t != "Replace"@,
        t != "Fuse"@,
        t != "Strip"@,
        t != "ByteFallback"@,
    ensures
        dec_from_config(JVal::Obj(ps)) is None,
{
}

/// Discriminant strictness: an object without the discriminant field stands
/// for nothing, however many fields of a case it carries — the no-argument
/// cases included.
pub proof fn lemma_missing_type_rejected(ps: Seq<(Seq<char>, JVal)>)
    requires
        jlookup(ps, "type"@) is None,
    ensures
        dec_from_config(JVal::Obj(ps)) is None,
{
}

} // verus!
