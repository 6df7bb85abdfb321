//! Decoding-pipeline dispatch layer of a tokenizer: a closed sum type over
//! decoding strategies, a composite that chains them in order, and a
//! configuration format whose structural matching and canonical layout are
//! stated and proved.

pub mod chars;
pub mod json;
pub mod strategies;
pub mod decoders;
pub mod laws;
