use decoders::decoders::{DecoderError, DecoderWrapper, Sequence};
use decoders::strategies::{
    BPEDecoder, ByteFallback, ByteLevel, Fuse, Metaspace, PrependScheme, Replace, Strip, WordPiece,
    CTC,
};

fn strings(items: &[&str]) -> Vec<String> {
    items.iter().map(|s| s.to_string()).collect()
}

#[test]
fn decoder_serialization() {
    let oldjson = r#"{"type":"Sequence","decoders":[{"type":"ByteFallback"},{"type":"Metaspace","replacement":"▁","add_prefix_space":true,"prepend_scheme":"always"}]}"#;
    let olddecoder: DecoderWrapper = DecoderWrapper::from_json_str(oldjson).unwrap();
    let oldserialized = olddecoder.to_json_string();
    let json = r#"{"type":"Sequence","decoders":[{"type":"ByteFallback"},{"type":"Metaspace","replacement":"▁","prepend_scheme":"always","split":true}]}"#;
    assert_eq!(oldserialized, json);

    let decoder: DecoderWrapper = DecoderWrapper::from_json_str(json).unwrap();
    let serialized = decoder.to_json_string();
    assert_eq!(serialized, json);
}

#[test]
fn decoder_serialization_other_no_arg() {
    let json = r#"{"type":"Sequence","decoders":[{"type":"Fuse"},{"type":"Metaspace","replacement":"▁","prepend_scheme":"always","split":true}]}"#;
    let decoder: DecoderWrapper = DecoderWrapper::from_json_str(json).unwrap();
    let serialized = decoder.to_json_string();
    assert_eq!(serialized, json);
}

#[test]
fn decoder_serialization_no_decode() {
    let json = r#"{"type":"Sequence","decoders":[{},{"type":"Metaspace","replacement":"▁","prepend_scheme":"always"}]}"#;
    let parse = DecoderWrapper::from_json_str(json);
    match parse {
        Err(err) => assert_eq!(
            err.message(),
            "data did not match any variant of untagged enum DecoderWrapper"
        ),
        _ => panic!("Expected error"),
    }

    let json = r#"{"replacement":"▁","prepend_scheme":"always"}"#;
    let parse = DecoderWrapper::from_json_str(json);
    match parse {
        Err(err) => assert_eq!(
            err.message(),
            "data did not match any variant of untagged enum DecoderWrapper"
        ),
        _ => panic!("Expected error"),
    }

    let json = r#"{"type":"Sequence","prepend_scheme":"always"}"#;
    let parse = DecoderWrapper::from_json_str(json);
    match parse {
        Err(err) => assert_eq!(
            err.message(),
            "data did not match any variant of untagged enum DecoderWrapper"
        ),
        _ => panic!("Expected error"),
    }
}

#[test]
fn round_trip_every_case() {
    let cases = [
        r#"{"type":"BPE","suffix":"</w>"}"#,
        r#"{"type":"ByteLevel","add_prefix_space":true,"trim_offsets":true,"use_regex":true}"#,
        r###"{"type":"WordPiece","prefix":"##","cleanup":true}"###,
        r#"{"type":"Metaspace","replacement":"▁","prepend_scheme":"always","split":true}"#,
        r#"{"type":"CTC","pad_token":"<pad>","word_delimiter_token":"|","cleanup":true}"#,
        r#"{"type":"Sequence","decoders":[]}"#,
        r#"{"type":"Replace","pattern":"▁","content":" "}"#,
        r#"{"type":"Fuse"}"#,
        r#"{"type":"Strip","content":"▁","start":1,"stop":0}"#,
        r#"{"type":"ByteFallback"}"#,
    ];
    for json in cases.iter() {
        let decoder = DecoderWrapper::from_json_str(json).unwrap();
        assert_eq!(decoder.to_json_string(), *json);
    }
}

#[test]
fn round_trip_nested_sequence() {
    let json = r#"{"type":"Sequence","decoders":[{"type":"Sequence","decoders":[{"type":"Fuse"}]},{"type":"BPE","suffix":"</w>"}]}"#;
    let decoder = DecoderWrapper::from_json_str(json).unwrap();
    assert_eq!(decoder.to_json_string(), json);
}

#[test]
fn legacy_metaspace_migrates_to_current_schema() {
    let old = r#"{"type":"Metaspace","replacement":"▁","add_prefix_space":true,"prepend_scheme":"always"}"#;
    let decoder = DecoderWrapper::from_json_str(old).unwrap();
    assert_eq!(
        decoder.to_json_string(),
        r#"{"type":"Metaspace","replacement":"▁","prepend_scheme":"always","split":true}"#
    );

    let old_false = r#"{"type":"Metaspace","replacement":"▁","add_prefix_space":false,"prepend_scheme":"never"}"#;
    let decoder = DecoderWrapper::from_json_str(old_false).unwrap();
    assert_eq!(
        decoder.to_json_string(),
        r#"{"type":"Metaspace","replacement":"▁","prepend_scheme":"never","split":true}"#
    );
}

#[test]
fn missing_fields_fill_defaults() {
    let decoder = DecoderWrapper::from_json_str(r#"{"type":"Metaspace"}"#).unwrap();
    assert_eq!(
        decoder.to_json_string(),
        r#"{"type":"Metaspace","replacement":"▁","prepend_scheme":"always","split":true}"#
    );
    let decoder = DecoderWrapper::from_json_str(r#"{"type":"BPE"}"#).unwrap();
    assert_eq!(decoder.to_json_string(), r#"{"type":"BPE","suffix":"</w>"}"#);
    let decoder = DecoderWrapper::from_json_str(r#"{"type":"CTC"}"#).unwrap();
    assert_eq!(
        decoder.to_json_string(),
        r#"{"type":"CTC","pad_token":"<pad>","word_delimiter_token":"|","cleanup":true}"#
    );
}

#[test]
fn unknown_type_is_rejected() {
    let parse = DecoderWrapper::from_json_str(r#"{"type":"Unknown"}"#);
    match parse {
        Err(err) => {
            assert_eq!(err, DecoderError::ConfigurationMismatch);
            assert_eq!(
                err.message(),
                "data did not match any variant of untagged enum DecoderWrapper"
            );
        },
        _ => panic!("Expected error"),
    }
}

#[test]
fn incomplete_fields_are_rejected() {
    // The discriminant fits Strip, but the required bounds are missing.
    let parse = DecoderWrapper::from_json_str(r#"{"type":"Strip","content":"x"}"#);
    assert_eq!(parse.unwrap_err(), DecoderError::ConfigurationMismatch);
    // A field with the wrong shape fails its case.
    let parse = DecoderWrapper::from_json_str(r#"{"type":"Replace","pattern":3,"content":"x"}"#);
    assert_eq!(parse.unwrap_err(), DecoderError::ConfigurationMismatch);
}

#[test]
fn discriminant_is_mandatory_for_no_argument_cases() {
    let parse = DecoderWrapper::from_json_str(r#"{}"#);
    assert_eq!(parse.unwrap_err(), DecoderError::ConfigurationMismatch);
    let parse = DecoderWrapper::from_json_str(r#"{"cleanup":true}"#);
    assert_eq!(parse.unwrap_err(), DecoderError::ConfigurationMismatch);
}

#[test]
fn malformed_text_is_rejected() {
    let parse = DecoderWrapper::from_json_str(r#"{"type":"#);
    assert_eq!(parse.unwrap_err(), DecoderError::InvalidJson);
    let parse = DecoderWrapper::from_json_str("");
    assert_eq!(parse.unwrap_err(), DecoderError::InvalidJson);
}

#[test]
fn empty_input_stays_empty_for_every_case() {
    let cases = [
        r#"{"type":"BPE","suffix":"</w>"}"#,
        r#"{"type":"ByteLevel","add_prefix_space":true,"trim_offsets":true,"use_regex":true}"#,
        r###"{"type":"WordPiece","prefix":"##","cleanup":true}"###,
        r#"{"type":"Metaspace","replacement":"▁","prepend_scheme":"always","split":true}"#,
        r#"{"type":"CTC","pad_token":"<pad>","word_delimiter_token":"|","cleanup":true}"#,
        r#"{"type":"Sequence","decoders":[]}"#,
        r#"{"type":"Sequence","decoders":[{"type":"Fuse"},{"type":"ByteFallback"}]}"#,
        r#"{"type":"Replace","pattern":"▁","content":" "}"#,
        r#"{"type":"Fuse"}"#,
        r#"{"type":"Strip","content":"▁","start":1,"stop":0}"#,
        r#"{"type":"ByteFallback"}"#,
    ];
    for json in cases.iter() {
        let decoder = DecoderWrapper::from_json_str(json).unwrap();
        let out = decoder.decode_chain(Vec::new()).unwrap();
        assert_eq!(out, Vec::<String>::new());
    }
}

#[test]
fn sequence_applies_decoders_in_declared_order() {
    let chain = DecoderWrapper::Sequence(Sequence::new(vec![
        DecoderWrapper::from(Strip::new('_', 1, 0)),
        DecoderWrapper::from(Fuse::new()),
    ]));
    let out = chain.decode_chain(strings(&["_a", "_b"])).unwrap();
    assert_eq!(out, strings(&["ab"]));

    let swapped = DecoderWrapper::Sequence(Sequence::new(vec![
        DecoderWrapper::from(Fuse::new()),
        DecoderWrapper::from(Strip::new('_', 1, 0)),
    ]));
    let out = swapped.decode_chain(strings(&["_a", "_b"])).unwrap();
    assert_eq!(out, strings(&["a_b"]));
}

#[test]
fn empty_sequence_returns_input_unchanged() {
    let chain = DecoderWrapper::Sequence(Sequence::new(Vec::new()));
    let out = chain.decode_chain(strings(&["x", "y"])).unwrap();
    assert_eq!(out, strings(&["x", "y"]));
}

#[test]
fn bpe_replaces_suffix() {
    let decoder = DecoderWrapper::from(BPEDecoder::new("</w>"));
    let out = decoder.decode_chain(strings(&["hell</w>o</w>"])).unwrap();
    assert_eq!(out, strings(&["hell o "]));
}

#[test]
fn byte_level_passes_tokens_through() {
    let decoder = DecoderWrapper::from(ByteLevel::new(true, true, true));
    let out = decoder.decode_chain(strings(&["a", "b"])).unwrap();
    assert_eq!(out, strings(&["a", "b"]));
}

#[test]
fn wordpiece_joins_pieces() {
    let decoder = DecoderWrapper::from(WordPiece::new("##", false));
    let out = decoder.decode_chain(strings(&["Hell", "##o", "world"])).unwrap();
    assert_eq!(out, strings(&["Hell", "o", " world"]));

    let cleaning = DecoderWrapper::from(WordPiece::new("##", true));
    let out = cleaning.decode_chain(strings(&["end", "."])).unwrap();
    assert_eq!(out, strings(&["end", "."]));
}

#[test]
fn metaspace_restores_spaces() {
    let decoder = DecoderWrapper::from(Metaspace::new('▁', PrependScheme::Always, true));
    let out = decoder.decode_chain(strings(&["▁Hey", "▁there"])).unwrap();
    assert_eq!(out, strings(&["Hey", " there"]));

    let never = DecoderWrapper::from(Metaspace::new('▁', PrependScheme::Never, true));
    let out = never.decode_chain(strings(&["▁Hey", "▁there"])).unwrap();
    assert_eq!(out, strings(&[" Hey", " there"]));
}

#[test]
fn ctc_collapses_and_cleans() {
    let decoder = DecoderWrapper::from(CTC::new("<pad>", "|", true));
    let out = decoder
        .decode_chain(strings(&["<pad>", "a", "a", "|", "b", "<pad>"]))
        .unwrap();
    assert_eq!(out, strings(&["a", " ", "b"]));
}

#[test]
fn replace_rewrites_every_occurrence() {
    let decoder = DecoderWrapper::from(Replace::new("▁", " "));
    let out = decoder.decode_chain(strings(&["a▁b▁c"])).unwrap();
    assert_eq!(out, strings(&["a b c"]));
}

#[test]
fn fuse_melts_tokens_into_one() {
    let decoder = DecoderWrapper::from(Fuse::new());
    let out = decoder.decode_chain(strings(&["a", "b", "c"])).unwrap();
    assert_eq!(out, strings(&["abc"]));
}

#[test]
fn strip_removes_bounded_runs() {
    let decoder = DecoderWrapper::from(Strip::new('_', 1, 2));
    let out = decoder.decode_chain(strings(&["__x___"])).unwrap();
    assert_eq!(out, strings(&["_x_"]));
}

#[test]
fn byte_fallback_rewrites_byte_tokens() {
    let decoder = DecoderWrapper::from(ByteFallback::new());
    let out = decoder
        .decode_chain(strings(&["<0x41>", "<0xC3>", "plain"]))
        .unwrap();
    assert_eq!(out, strings(&["A", "\u{fffd}", "plain"]));
}

#[test]
fn clone_keeps_the_configuration() {
    let json = r#"{"type":"Sequence","decoders":[{"type":"Strip","content":"_","start":1,"stop":0},{"type":"Fuse"}]}"#;
    let decoder = DecoderWrapper::from_json_str(json).unwrap();
    let copy = decoder.clone();
    assert_eq!(copy.to_json_string(), json);
    let out = copy.decode_chain(strings(&["_a", "_b"])).unwrap();
    assert_eq!(out, strings(&["ab"]));
}
