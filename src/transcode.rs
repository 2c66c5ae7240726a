//! Turning the bytes of a TOML document into the bytes of a JSON document.

use vstd::prelude::*;
use vstd::utf8::{decode_utf8, valid_utf8};

verus! {

/// How the JSON output is laid out.
#[derive(Debug, Clone, Copy, PartialEq, Eq, Structural)]
pub enum JsonFormat {
    /// Compact: no whitespace between tokens.
    Normal,
    /// Indented, one member per line.
    Pretty,
}

impl Default for JsonFormat {
    fn default() -> (r: JsonFormat)
        ensures
            r == JsonFormat::Normal,
    {
        JsonFormat::Normal
    }
}

/// The compact JSON text for a TOML document, or `None` where the document
/// does not parse.
pub uninterp spec fn compact_json_of(text: Seq<char>) -> Option<Seq<u8>>;

/// The indented JSON text for a TOML document, or `None` where the document
/// does not parse.
pub uninterp spec fn pretty_json_of(text: Seq<char>) -> Option<Seq<u8>>;

/// Relies on `std::str::from_utf8`: it accepts exactly the well-formed UTF-8
/// byte strings, and the text it gives is what they encode.
#[verifier::external_body]
fn decode_text(bytes: &[u8]) -> (r: Option<String>)
    ensures
        match r {
            Some(s) => valid_utf8(bytes@) && s@ == decode_utf8(bytes@),
            None => !valid_utf8(bytes@),
        },
{
    match std::str::from_utf8(bytes) {
        Ok(s) => Some(s.to_string()),
        Err(_) => None,
    }
}

/// Relies on `serde_transcode::transcode` from `toml::de::Deserializer` into
/// `serde_json::Serializer::new`: the compact JSON for the document, or the
/// parser's error message.
#[verifier::external_body]
fn transcode_compact(text: &str) -> (r: Result<Vec<u8>, String>)
    ensures
        match r {
            Ok(out) => compact_json_of(text@) == Some(out@),
            Err(_) => compact_json_of(text@) is None,
        },
{
    let mut ser = serde_json::Serializer::new(Vec::new());
    match serde_transcode::transcode(toml::de::Deserializer::new(text), &mut ser) {
        Ok(()) => Ok(ser.into_inner()),
        Err(e) => Err(e.to_string()),
    }
}

/// Relies on `serde_transcode::transcode` from `toml::de::Deserializer` into
/// `serde_json::Serializer::pretty`: the indented JSON for the document, or
/// the parser's error message.
#[verifier::external_body]
fn transcode_pretty(text: &str) -> (r: Result<Vec<u8>, String>)
    ensures
        match r {
            Ok(out) => pretty_json_of(text@) == Some(out@),
            Err(_) => pretty_json_of(text@) is None,
        },
{
    let mut ser = serde_json::Serializer::pretty(Vec::new());
    match serde_transcode::transcode(toml::de::Deserializer::new(text), &mut ser) {
        Ok(()) => Ok(ser.into_inner()),
        Err(e) => Err(e.to_string()),
    }
}

/// The JSON text, in the given layout, for a TOML document.
pub open spec fn json_of(text: Seq<char>, formatting: JsonFormat) -> Option<Seq<u8>> {
    match formatting {
        JsonFormat::Normal => compact_json_of(text),
        JsonFormat::Pretty => pretty_json_of(text),
    }
}

/// The output for the bytes of a source file: `None` where they are not
/// UTF-8 or do not parse as TOML.
pub open spec fn transcoded(source: Seq<u8>, formatting: JsonFormat) -> Option<Seq<u8>> {
    if valid_utf8(source) {
        json_of(decode_utf8(source), formatting)
    } else {
        None
    }
}

/// Why a document could not be converted.
#[derive(Debug, PartialEq, Eq)]
pub enum TranscodeError {
    /// The source bytes are not UTF-8.
    Encoding,
    /// The source text is not a TOML document; the parser's message.
    Parse(String),
}

/// Converts the bytes of a TOML document into the bytes of the JSON
/// document with the same structure, keys in their source order.
///
/// Nothing is written here: on an error the caller has no output to store.
pub fn from_toml(source: &[u8], formatting: JsonFormat) -> (r: Result<Vec<u8>, TranscodeError>)
    ensures
        match r {
            Ok(out) => transcoded(source@, formatting) == Some(out@),
            Err(TranscodeError::Encoding) => !valid_utf8(source@),
            Err(TranscodeError::Parse(_)) => valid_utf8(source@) && transcoded(
                source@,
                formatting,
            ) is None,
        },
{
    let text = match decode_text(source) {
        Some(t) => t,
        None => return Err(TranscodeError::Encoding),
    };
    let out = match formatting {
        JsonFormat::Normal => transcode_compact(text.as_str()),
        JsonFormat::Pretty => transcode_pretty(text.as_str()),
    };
    match out {
        Ok(bytes) => Ok(bytes),
        Err(message) => Err(TranscodeError::Parse(message)),
    }
}

/// Converting the same source twice with the same layout gives the same
/// bytes both times.
pub proof fn lemma_conversion_repeatable(
    source: Seq<u8>,
    formatting: JsonFormat,
    first: Seq<u8>,
    second: Seq<u8>,
)
    requires
        transcoded(source, formatting) == Some(first),
        transcoded(source, formatting) == Some(second),
    ensures
        first == second,
{
}

} // verus!
