//! Decoding pack files and manifests: the bytes of a file, as JSON or as
//! line-delimited JSON, into the documents the traversal ingests.

use vstd::prelude::*;
use vstd::utf8::decode_utf8;
use vstd::utf8::encode_utf8;
use vstd::utf8::valid_utf8;

use crate::git_source::lines;
use crate::git_source::lines_of;
use crate::json::items_wf;
use crate::json::json_wf;
use crate::json::lemma_items_wf_push;
use crate::json::JsonMember;
use crate::json::JsonNumber;
use crate::json::JsonValue;
use crate::text::concat3;
use crate::text::trim;
use crate::text::trimmed;

verus! {

#[verifier::external_type_specification]
#[verifier::external_body]
pub struct ExParsedJson(serde_json::Value);

/// The document `serde_json` parses from `bytes`, if they hold one.
pub uninterp spec fn json_decode(bytes: Seq<u8>) -> Option<JsonValue>;

/// The message of the error `serde_json` reports for bytes it rejects.
pub uninterp spec fn json_decode_error(bytes: Seq<u8>) -> Seq<char>;

/// The message of the error `String::from_utf8` reports for bytes that are
/// not UTF-8.
pub uninterp spec fn utf8_error(bytes: Seq<u8>) -> Seq<char>;

/// Converts a parsed `serde_json` value into the library's model, node for
/// node: a number keeps its text and whether it is an integer, an object
/// its members in the map's order.
#[verifier::external_body]
fn json_model(value: &serde_json::Value) -> JsonValue {
    match value {
        serde_json::Value::Null => JsonValue::Null,
        serde_json::Value::Bool(b) => JsonValue::Bool(*b),
        serde_json::Value::Number(n) => JsonValue::Number(
            JsonNumber { text: n.to_string(), integer: n.is_i64() || n.is_u64() },
        ),
        serde_json::Value::String(s) => JsonValue::String(s.clone()),
        serde_json::Value::Array(items) => JsonValue::Array(items.iter().map(json_model).collect()),
        serde_json::Value::Object(map) => JsonValue::Object(
            map.iter().map(|(k, v)| JsonMember { key: k.clone(), value: json_model(v) }).collect(),
        ),
    }
}

/// Calls `serde_json::from_slice` into a `serde_json::Value` and converts the
/// value. The contract claims that the result is the named document of the
/// bytes, or the named error message when they hold none; and that the
/// document is well formed: `serde_json` keeps an object's members in a
/// `BTreeMap` (its `preserve_order` feature is off), so its keys come out
/// strictly ascending.
#[verifier::external_body]
fn decode_json(bytes: &[u8]) -> (r: Result<JsonValue, String>)
    ensures
        r is Ok <==> json_decode(bytes@) is Some,
        r matches Ok(v) ==> json_decode(bytes@) == Some(v) && json_wf(v),
        r matches Err(e) ==> e@ == json_decode_error(bytes@),
{
    match serde_json::from_slice::<serde_json::Value>(bytes) {
        Ok(value) => Ok(json_model(&value)),
        Err(error) => Err(error.to_string()),
    }
}

/// Calls `String::from_utf8`. The contract claims what the standard
/// documentation says: the bytes are accepted exactly when they are UTF-8,
/// as the text they encode; the message of a rejection is named.
#[verifier::external_body]
fn utf8_text(bytes: &[u8]) -> (r: Result<String, String>)
    ensures
        r is Ok <==> valid_utf8(bytes@),
        r matches Ok(s) ==> s@ == decode_utf8(bytes@),
        r matches Err(e) ==> e@ == utf8_error(bytes@),
{
    match String::from_utf8(bytes.to_vec()) {
        Ok(text) => Ok(text),
        Err(error) => Err(error.to_string()),
    }
}

/// The message of a file that does not decode.
pub open spec fn decode_failure(path: Seq<char>, error: Seq<char>) -> Seq<char> {
    "failed to decode "@ + path + ": "@ + error
}

fn decode_failure_message(path: &str, error: &str) -> (r: String)
    ensures
        r@ == decode_failure(path@, error@),
{
    let mut message = concat3("failed to decode ", path, ": ");
    message.append(error);
    message
}

/// A JSON file: its document, or the message naming the file.
pub open spec fn json_file_spec(bytes: Seq<u8>, path: Seq<char>) -> Result<JsonValue, Seq<char>> {
    match json_decode(bytes) {
        Some(v) => Ok(v),
        None => Err(decode_failure(path, json_decode_error(bytes))),
    }
}

/// The documents of the lines of a line-delimited file: blank lines are
/// skipped, every other line is one document; the first line that does not
/// decode gives the message.
pub open spec fn decode_lines(lines: Seq<Seq<char>>, path: Seq<char>) -> Result<Seq<JsonValue>, Seq<char>>
    decreases lines.len(),
{
    if lines.len() == 0 {
        Ok(Seq::empty())
    } else {
        match decode_lines(lines.drop_last(), path) {
            Err(e) => Err(e),
            Ok(vs) => {
                let line = lines.last();
                if trim(line).len() == 0 {
                    Ok(vs)
                } else {
                    match json_decode(encode_utf8(line)) {
                        Some(v) => Ok(vs.push(v)),
                        None => Err(decode_failure(path, json_decode_error(encode_utf8(line)))),
                    }
                }
            },
        }
    }
}

/// The documents of a pack file: for a line-delimited file, the documents of
/// its non-blank lines once its bytes are UTF-8; otherwise its one document,
/// or the items of a top-level array.
pub open spec fn documents_of(bytes: Seq<u8>, line_delimited: bool, path: Seq<char>) -> Result<Seq<JsonValue>, Seq<char>> {
    if line_delimited {
        if valid_utf8(bytes) {
            decode_lines(lines_of(decode_utf8(bytes)), path)
        } else {
            Err(path + " is not UTF-8: "@ + utf8_error(bytes))
        }
    } else {
        match json_file_spec(bytes, path) {
            Ok(JsonValue::Array(items)) => Ok(items@),
            Ok(v) => Ok(seq![v]),
            Err(e) => Err(e),
        }
    }
}

/// Decodes a JSON file read from `path`.
pub fn parse_json_file(bytes: &[u8], path: &str) -> (r: Result<JsonValue, String>)
    ensures
        match json_file_spec(bytes@, path@) {
            Ok(v) => r matches Ok(w) && w == v && json_wf(w),
            Err(e) => r matches Err(m) && m@ == e,
        },
{
    match decode_json(bytes) {
        Ok(v) => Ok(v),
        Err(e) => Err(decode_failure_message(path, e.as_str())),
    }
}

/// Decodes the documents of the pack file read from `path`.
pub fn decode_documents(bytes: &[u8], line_delimited: bool, path: &str) -> (r: Result<Vec<JsonValue>, String>)
    ensures
        match documents_of(bytes@, line_delimited, path@) {
            Ok(vs) => r matches Ok(ws) && ws@ == vs && items_wf(ws@),
            Err(e) => r matches Err(m) && m@ == e,
        },
{
    if line_delimited {
        let text = match utf8_text(bytes) {
            Ok(t) => t,
            Err(e) => {
                let mut message = String::from_str(path);
                message.append(" is not UTF-8: ");
                message.append(e.as_str());
                return Err(message);
            },
        };
        let ls = lines(text.as_str());
        let ghost lv = crate::text::string_views(ls@);
        let mut out: Vec<JsonValue> = Vec::new();
        let mut i: usize = 0;
        assert(lv.take(0) =~= Seq::<Seq<char>>::empty());
        while i < ls.len()
            invariant
                lv == crate::text::string_views(ls@),
                lv == lines_of(text@),
                line_delimited,
                valid_utf8(bytes@),
                text@ == decode_utf8(bytes@),
                i <= ls.len(),
                decode_lines(lv.take(i as int), path@) == Ok::<Seq<JsonValue>, Seq<char>>(out@),
                items_wf(out@),
            decreases ls.len() - i,
        {
            let ghost prefix = lv.take(i + 1);
            assert(prefix.drop_last() =~= lv.take(i as int));
            assert(prefix.last() == ls@[i as int]@);
            let line = ls[i].as_str();
            if trimmed(line).unicode_len() > 0 {
                let line_bytes = line.as_bytes();
                assert(line_bytes@ == encode_utf8(line@));
                match decode_json(line_bytes) {
                    Ok(v) => {
                        proof {
                            lemma_items_wf_push(out@, v);
                        }
                        out.push(v);
                    },
                    Err(e) => {
                        let message = decode_failure_message(path, e.as_str());
                        assert(trim(prefix.last()).len() > 0);
                        assert(json_decode(encode_utf8(prefix.last())) is None);
                        assert(decode_lines(prefix, path@) == Err::<Seq<JsonValue>, Seq<char>>(message@));
                        assert(lv.take(i as int + 1) == prefix);
                        proof {
                            lemma_first_failure(lv, path@, i as int);
                        }
                        assert(decode_lines(lv, path@) == Err::<Seq<JsonValue>, Seq<char>>(message@));
                        return Err(message);
                    },
                }
            }
            i = i + 1;
        }
        assert(lv.take(ls.len() as int) =~= lv);
        Ok(out)
    } else {
        match decode_json(bytes) {
            Ok(v) => match v {
                JsonValue::Array(items) => Ok(items),
                other => {
                    let mut out: Vec<JsonValue> = Vec::new();
                    out.push(other);
                    proof {
                        lemma_items_wf_push(Seq::empty(), out@[0]);
                        assert(out@ =~= Seq::<JsonValue>::empty().push(out@[0]));
                    }
                    Ok(out)
                },
            },
            Err(e) => Err(decode_failure_message(path, e.as_str())),
        }
    }
}

/// Once a prefix of the lines fails, every longer prefix fails the same way.
proof fn lemma_first_failure(lines: Seq<Seq<char>>, path: Seq<char>, i: int)
    requires
        0 <= i < lines.len(),
        decode_lines(lines.take(i + 1), path) is Err,
    ensures
        decode_lines(lines, path) == decode_lines(lines.take(i + 1), path),
    decreases lines.len() - i,
{
    if i + 1 < lines.len() {
        assert(lines.take(i + 2).drop_last() =~= lines.take(i + 1));
        lemma_first_failure(lines, path, i + 1);
    } else {
        assert(lines.take(i + 1) =~= lines);
    }
}

} // verus!
