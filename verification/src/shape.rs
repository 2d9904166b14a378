//! Structural signatures: a canonical encoding of a document's JSON shape
//! (kinds of scalars, array member shapes as a sorted set, object keys),
//! hashed with SHA-256 and written as lower-case hex.

use sha2::Digest;
use vstd::prelude::*;

use crate::json::JsonMember;
use crate::json::JsonValue;
use crate::json::json_wf;

verus! {

pub const COMMA: u8 = 44;

pub const COLON: u8 = 58;

pub const OPEN_BRACKET: u8 = 91;

pub const CLOSE_BRACKET: u8 = 93;

pub const OPEN_BRACE: u8 = 123;

pub const CLOSE_BRACE: u8 = 125;

/// The bytes that `serde_json` writes for a JSON string holding `s`
/// (quotes included).
pub uninterp spec fn json_string_bytes(s: Seq<char>) -> Seq<u8>;

/// The SHA-256 digest of `data`.
pub uninterp spec fn sha256_digest(data: Seq<u8>) -> Seq<u8>;

/// A character `serde_json` writes into a string as it is: neither a quote,
/// nor a backslash, nor a control character below U+0020.
pub open spec fn plain_char(c: char) -> bool {
    c != '"' && c != '\\' && c as u32 >= 0x20
}

/// A JSON string of plain characters, as serde_json writes it: a quote, the
/// UTF-8 bytes of the text, a quote.
pub open spec fn quoted(s: Seq<char>) -> Seq<u8> {
    seq![34u8] + vstd::utf8::encode_utf8(s) + seq![34u8]
}

/// Calls `serde_json::to_vec` on a string slice. The contract claims that the
/// result is the named encoding of the slice's characters, and, as
/// serde_json's escape table shows, that a text of plain characters is
/// written as a quote, its UTF-8 bytes and a quote; serialising a `&str`
/// into a `Vec<u8>` has no failing path in serde_json's source.
#[verifier::external_body]
fn encode_json_string(s: &str) -> (r: Vec<u8>)
    ensures
        r@ == json_string_bytes(s@),
        (forall|i: int| 0 <= i < s@.len() ==> plain_char(#[trigger] s@[i])) ==> r@ == seq![34u8]
            + vstd::utf8::encode_utf8(s@) + seq![34u8],
{
    serde_json::to_vec(s).expect("serialising a string into memory cannot fail")
}

/// Calls `sha2::Sha256::digest`. The contract claims that the result is the
/// named digest of the input and that it is 32 bytes long, the output size
/// that sha2 declares for SHA-256.
#[verifier::external_body]
fn sha256(data: &[u8]) -> (r: Vec<u8>)
    ensures
        r@ == sha256_digest(data@),
        r@.len() == 32,
{
    sha2::Sha256::digest(data).to_vec()
}

/// Lexicographic order on byte strings (the order of `str`/`String`
/// comparison on their UTF-8 bytes).
pub open spec fn bytes_lt(a: Seq<u8>, b: Seq<u8>) -> bool
    decreases a.len(),
{
    if b.len() == 0 {
        false
    } else if a.len() == 0 {
        true
    } else if a[0] != b[0] {
        a[0] < b[0]
    } else {
        bytes_lt(a.drop_first(), b.drop_first())
    }
}

/// `bytes_lt` is a strict total order.
pub proof fn lemma_bytes_lt_total(a: Seq<u8>, b: Seq<u8>)
    ensures
        !bytes_lt(a, a),
        bytes_lt(a, b) ==> !bytes_lt(b, a),
        a != b ==> bytes_lt(a, b) || bytes_lt(b, a),
    decreases a.len(),
{
    if a.len() > 0 {
        lemma_bytes_lt_total(a.drop_first(), a.drop_first());
    }
    if a.len() > 0 && b.len() > 0 && a[0] == b[0] {
        lemma_bytes_lt_total(a.drop_first(), b.drop_first());
        if a.drop_first() == b.drop_first() {
            assert forall|i: int| 0 <= i < a.len() implies a[i] == b[i] by {
                if i > 0 {
                    assert(a[i] == a.drop_first()[i - 1]);
                    assert(b[i] == b.drop_first()[i - 1]);
                }
            }
            assert(a =~= b);
        }
    }
    if a.len() == 0 && b.len() == 0 {
        assert(a =~= b);
    }
}

/// Inserts `x` into a list kept in ascending order, unless it is present.
pub open spec fn insert_unique(sorted: Seq<Seq<u8>>, x: Seq<u8>) -> Seq<Seq<u8>>
    decreases sorted.len(),
{
    if sorted.len() == 0 {
        seq![x]
    } else if x == sorted[0] {
        sorted
    } else if bytes_lt(x, sorted[0]) {
        seq![x] + sorted
    } else {
        seq![sorted[0]] + insert_unique(sorted.drop_first(), x)
    }
}

/// The distinct members of `items`, in ascending byte order: what sorting
/// and then deduplicating the list gives.
pub open spec fn canonical(items: Seq<Seq<u8>>) -> Seq<Seq<u8>>
    decreases items.len(),
{
    if items.len() == 0 {
        Seq::empty()
    } else {
        insert_unique(canonical(items.drop_last()), items.last())
    }
}

/// The parts joined with commas.
pub open spec fn join_commas(parts: Seq<Seq<u8>>) -> Seq<u8>
    decreases parts.len(),
{
    if parts.len() == 0 {
        Seq::empty()
    } else if parts.len() == 1 {
        parts[0]
    } else {
        join_commas(parts.drop_last()) + seq![COMMA] + parts.last()
    }
}

pub open spec fn is_ascii_alphanumeric(c: char) -> bool {
    ||| (48 <= (c as u32) && (c as u32) <= 57)
    ||| (65 <= (c as u32) && (c as u32) <= 90)
    ||| (97 <= (c as u32) && (c as u32) <= 122)
}

/// A key that looks generated: sixteen ASCII letters or digits.
pub open spec fn is_identifier_key(k: Seq<char>) -> bool {
    k.len() == 16 && forall|i: int| 0 <= i < 16 ==> is_ascii_alphanumeric(#[trigger] k[i])
}

/// An object whose keys are all generated identifiers and whose members are
/// all objects: a map keyed by identifiers rather than a record.
pub open spec fn is_identifier_map(members: Seq<JsonMember>) -> bool {
    &&& members.len() > 0
    &&& forall|i: int|
        0 <= i < members.len() ==> is_identifier_key((#[trigger] members[i]).key@)
            && members[i].value is Object
}

/// The canonical encoding of the shape of a value: scalars become the name of
/// their kind, arrays the sorted set of their members' shapes, objects keep
/// their keys (or, for identifier maps when `normalize` holds, the sorted set
/// of their members' shapes under the key `$identifierMap`).
pub open spec fn shape_encoding(v: JsonValue, normalize: bool) -> Seq<u8>
    decreases v,
{
    match v {
        JsonValue::Null => quoted("null"@),
        JsonValue::Bool(_) => quoted("boolean"@),
        JsonValue::Number(n) => if n.integer {
            quoted("integer"@)
        } else {
            quoted("number"@)
        },
        JsonValue::String(_) => quoted("string"@),
        JsonValue::Array(items) => seq![OPEN_BRACKET] + join_commas(
            canonical(element_shapes(items@, normalize)),
        ) + seq![CLOSE_BRACKET],
        JsonValue::Object(members) => if normalize && is_identifier_map(members@) {
            seq![OPEN_BRACE] + json_string_bytes("$identifierMap"@) + seq![COLON, OPEN_BRACKET]
                + join_commas(canonical(member_shapes(members@, normalize))) + seq![
                CLOSE_BRACKET,
                CLOSE_BRACE,
            ]
        } else {
            seq![OPEN_BRACE] + join_commas(member_entries(members@, normalize)) + seq![
                CLOSE_BRACE,
            ]
        },
    }
}

/// The shape encodings of a list of values, in order.
pub open spec fn element_shapes(items: Seq<JsonValue>, normalize: bool) -> Seq<Seq<u8>>
    decreases items,
{
    if items.len() == 0 {
        Seq::empty()
    } else {
        element_shapes(items.drop_last(), normalize).push(
            shape_encoding(items.last(), normalize),
        )
    }
}

/// The shape encodings of the values of a list of members, in order.
pub open spec fn member_shapes(members: Seq<JsonMember>, normalize: bool) -> Seq<Seq<u8>>
    decreases members,
{
    if members.len() == 0 {
        Seq::empty()
    } else {
        member_shapes(members.drop_last(), normalize).push(
            shape_encoding(members.last().value, normalize),
        )
    }
}

/// The `"key":shape` entries of a list of members, in order.
pub open spec fn member_entries(members: Seq<JsonMember>, normalize: bool) -> Seq<Seq<u8>>
    decreases members,
{
    if members.len() == 0 {
        Seq::empty()
    } else {
        member_entries(members.drop_last(), normalize).push(
            json_string_bytes(members.last().key@) + seq![COLON] + shape_encoding(
                members.last().value,
                normalize,
            ),
        )
    }
}

/// The lower-case hexadecimal digit for a nibble.
pub open spec fn hex_digit(n: u8) -> char {
    if n < 10 {
        ((48 + n) as u32) as char
    } else {
        ((87 + n) as u32) as char
    }
}

/// Lower-case hexadecimal text of a byte string, two digits per byte.
pub open spec fn hex_lower(bytes: Seq<u8>) -> Seq<char>
    decreases bytes.len(),
{
    if bytes.len() == 0 {
        Seq::empty()
    } else {
        hex_lower(bytes.drop_last()) + seq![
            hex_digit(bytes.last() / 16),
            hex_digit(bytes.last() % 16),
        ]
    }
}

/// The structural signature of a value: the hex SHA-256 of its shape encoding.
pub open spec fn signature_of(v: JsonValue, normalize: bool) -> Seq<char> {
    hex_lower(sha256_digest(shape_encoding(v, normalize)))
}

pub open spec fn views(vs: Seq<Vec<u8>>) -> Seq<Seq<u8>> {
    vs.map_values(|x: Vec<u8>| x@)
}

fn bytes_less(a: &Vec<u8>, b: &Vec<u8>) -> (r: bool)
    ensures
        r == bytes_lt(a@, b@),
{
    let mut i: usize = 0;
    assert(a@.skip(0) =~= a@);
    assert(b@.skip(0) =~= b@);
    while i < a.len() && i < b.len()
        invariant
            i <= a.len(),
            i <= b.len(),
            bytes_lt(a@, b@) == bytes_lt(a@.skip(i as int), b@.skip(i as int)),
        decreases a.len() - i,
    {
        if a[i] != b[i] {
            return a[i] < b[i];
        }
        assert(a@.skip(i as int).drop_first() =~= a@.skip(i + 1));
        assert(b@.skip(i as int).drop_first() =~= b@.skip(i + 1));
        i = i + 1;
    }
    i < b.len()
}

fn bytes_equal(a: &Vec<u8>, b: &Vec<u8>) -> (r: bool)
    ensures
        r == (a@ == b@),
{
    if a.len() != b.len() {
        return false;
    }
    let mut i: usize = 0;
    while i < a.len()
        invariant
            a.len() == b.len(),
            i <= a.len(),
            forall|k: int| 0 <= k < i ==> a@[k] == b@[k],
        decreases a.len() - i,
    {
        if a[i] != b[i] {
            return false;
        }
        i = i + 1;
    }
    assert(a@ =~= b@);
    true
}

proof fn lemma_insert_unique_skip(s: Seq<Seq<u8>>, x: Seq<u8>, j: int)
    requires
        0 <= j <= s.len(),
        forall|k: int| 0 <= k < j ==> bytes_lt(#[trigger] s[k], x),
    ensures
        insert_unique(s, x) == s.take(j) + insert_unique(s.skip(j), x),
    decreases j,
{
    if j == 0 {
        assert(s.take(0) + s.skip(0) =~= s);
        assert(s.skip(0) =~= s);
    } else {
        lemma_bytes_lt_total(s[0], x);
        let t = s.drop_first();
        assert forall|k: int| 0 <= k < j - 1 implies bytes_lt(#[trigger] t[k], x) by {
            assert(t[k] == s[k + 1]);
        }
        lemma_insert_unique_skip(t, x, j - 1);
        assert(t.skip(j - 1) =~= s.skip(j));
        assert(seq![s[0]] + t.take(j - 1) =~= s.take(j));
    }
}

/// Inserts `x` into `sorted` as `insert_unique` describes.
fn insert_unique_exec(sorted: &mut Vec<Vec<u8>>, x: Vec<u8>)
    ensures
        views(final(sorted)@) == insert_unique(views(old(sorted)@), x@),
{
    let ghost s = views(sorted@);
    let mut j: usize = 0;
    while j < sorted.len() && bytes_less(&sorted[j], &x)
        invariant
            s == views(sorted@),
            j <= sorted.len(),
            forall|k: int| 0 <= k < j ==> bytes_lt(#[trigger] s[k], x@),
        decreases sorted.len() - j,
    {
        j = j + 1;
    }
    proof {
        lemma_insert_unique_skip(s, x@, j as int);
    }
    if j < sorted.len() && bytes_equal(&sorted[j], &x) {
        assert(s.skip(j as int)[0] == x@);
        assert(s.take(j as int) + s.skip(j as int) =~= s);
    } else {
        proof {
            if j < sorted.len() {
                lemma_bytes_lt_total(s[j as int], x@);
                assert(s.skip(j as int)[0] == s[j as int]);
            }
        }
        let ghost xv = x@;
        sorted.insert(j, x);
        assert(views(sorted@) =~= s.take(j as int) + (seq![xv] + s.skip(j as int)));
    }
}

/// Appends `bytes` to `out`.
fn push_all(out: &mut Vec<u8>, bytes: &Vec<u8>)
    ensures
        final(out)@ == old(out)@ + bytes@,
{
    let mut i: usize = 0;
    while i < bytes.len()
        invariant
            i <= bytes.len(),
            out@ == old(out)@ + bytes@.take(i as int),
        decreases bytes.len() - i,
    {
        out.push(bytes[i]);
        i = i + 1;
        assert(bytes@.take(i as int) =~= bytes@.take(i - 1).push(bytes@[i - 1]));
    }
    assert(bytes@.take(bytes.len() as int) =~= bytes@);
}

/// Appends the comma-joined parts to `out`.
fn push_joined(out: &mut Vec<u8>, parts: &Vec<Vec<u8>>)
    ensures
        final(out)@ == old(out)@ + join_commas(views(parts@)),
{
    let ghost p = views(parts@);
    let mut i: usize = 0;
    while i < parts.len()
        invariant
            p == views(parts@),
            i <= parts.len(),
            out@ == old(out)@ + join_commas(p.take(i as int)),
        decreases parts.len() - i,
    {
        assert(p.take(i + 1).drop_last() =~= p.take(i as int));
        if i > 0 {
            out.push(COMMA);
        }
        push_all(out, &parts[i]);
        i = i + 1;
        if i == 1 {
            assert(p.take(0) =~= Seq::<Seq<u8>>::empty());
        }
    }
    assert(p.take(parts.len() as int) =~= p);
}

/// The JSON string naming a scalar kind.
fn kind_shape(name: &str) -> (r: Vec<u8>)
    requires
        forall|i: int| 0 <= i < name@.len() ==> 'a' <= #[trigger] name@[i] <= 'z',
    ensures
        r@ == quoted(name@),
{
    encode_json_string(name)
}

/// The shape encoding of `v`.
#[verifier::loop_isolation(false)]
fn shape_bytes(v: &JsonValue, normalize: bool) -> (r: Vec<u8>)
    ensures
        r@ == shape_encoding(*v, normalize),
    decreases v,
{
    proof {
        reveal_strlit("null");
        reveal_strlit("boolean");
        reveal_strlit("integer");
        reveal_strlit("number");
        reveal_strlit("string");
    }
    match v {
        JsonValue::Null => kind_shape("null"),
        JsonValue::Bool(_) => kind_shape("boolean"),
        JsonValue::Number(n) => if n.integer {
            kind_shape("integer")
        } else {
            kind_shape("number")
        },
        JsonValue::String(_) => kind_shape("string"),
        JsonValue::Array(items) => {
            let mut sorted: Vec<Vec<u8>> = Vec::new();
            let mut i: usize = 0;
            while i < items.len()
                invariant
                    i <= items.len(),
                    views(sorted@) == canonical(element_shapes(items@.take(i as int), normalize)),
                decreases items.len() - i,
            {
                proof {
                    assert(decreases_to!(*v => *items));
                    assert(decreases_to!(items => items@));
                    assert(decreases_to!(items@ => items@[i as int]));
                }
                let shape = shape_bytes(&items[i], normalize);
                insert_unique_exec(&mut sorted, shape);
                assert(items@.take(i + 1).drop_last() =~= items@.take(i as int));
                assert(items@.take(i + 1).last() == items@[i as int]);
                let ghost prev = element_shapes(items@.take(i as int), normalize);
                assert(element_shapes(items@.take(i + 1), normalize) == prev.push(
                    shape_encoding(items@[i as int], normalize),
                ));
                assert(prev.push(shape_encoding(items@[i as int], normalize)).drop_last() =~= prev);
                i = i + 1;
            }
            assert(items@.take(items.len() as int) =~= items@);
            let mut out: Vec<u8> = Vec::new();
            out.push(OPEN_BRACKET);
            push_joined(&mut out, &sorted);
            out.push(CLOSE_BRACKET);
            assert(out@ =~= seq![OPEN_BRACKET] + join_commas(
                canonical(element_shapes(items@, normalize)),
            ) + seq![CLOSE_BRACKET]);
            out
        },
        JsonValue::Object(members) => {
            if normalize && identifier_map(members) {
                let mut sorted: Vec<Vec<u8>> = Vec::new();
                let mut i: usize = 0;
                while i < members.len()
                    invariant
                        i <= members.len(),
                        views(sorted@) == canonical(
                            member_shapes(members@.take(i as int), normalize),
                        ),
                    decreases members.len() - i,
                {
                    proof {
                        assert(decreases_to!(*v => *members));
                        assert(decreases_to!(members => members@));
                        assert(decreases_to!(members@ => members@[i as int]));
                        assert(decreases_to!(members@[i as int] => members@[i as int].value));
                    }
                    let shape = shape_bytes(&members[i].value, normalize);
                    insert_unique_exec(&mut sorted, shape);
                    assert(members@.take(i + 1).drop_last() =~= members@.take(i as int));
                    assert(members@.take(i + 1).last() == members@[i as int]);
                    let ghost prev = member_shapes(members@.take(i as int), normalize);
                    assert(member_shapes(members@.take(i + 1), normalize) == prev.push(
                        shape_encoding(members@[i as int].value, normalize),
                    ));
                    assert(prev.push(shape_encoding(members@[i as int].value, normalize)).drop_last()
                        =~= prev);
                    i = i + 1;
                }
                assert(members@.take(members.len() as int) =~= members@);
                let mut out: Vec<u8> = Vec::new();
                out.push(OPEN_BRACE);
                let key = encode_json_string("$identifierMap");
                push_all(&mut out, &key);
                out.push(COLON);
                out.push(OPEN_BRACKET);
                push_joined(&mut out, &sorted);
                out.push(CLOSE_BRACKET);
                out.push(CLOSE_BRACE);
                assert(out@ =~= seq![OPEN_BRACE] + json_string_bytes("$identifierMap"@) + seq![
                    COLON,
                    OPEN_BRACKET,
                ] + join_commas(canonical(member_shapes(members@, normalize))) + seq![
                    CLOSE_BRACKET,
                    CLOSE_BRACE,
                ]);
                out
            } else {
                let mut entries: Vec<Vec<u8>> = Vec::new();
                let mut i: usize = 0;
                while i < members.len()
                    invariant
                        i <= members.len(),
                        views(entries@) == member_entries(members@.take(i as int), normalize),
                    decreases members.len() - i,
                {
                    let mut entry = encode_json_string(members[i].key.as_str());
                    entry.push(COLON);
                    proof {
                        assert(decreases_to!(*v => *members));
                        assert(decreases_to!(members => members@));
                        assert(decreases_to!(members@ => members@[i as int]));
                        assert(decreases_to!(members@[i as int] => members@[i as int].value));
                    }
                    let shape = shape_bytes(&members[i].value, normalize);
                    push_all(&mut entry, &shape);
                    assert(entry@ =~= json_string_bytes(members@[i as int].key@) + seq![COLON]
                        + shape_encoding(members@[i as int].value, normalize));
                    let ghost before = views(entries@);
                    entries.push(entry);
                    assert(views(entries@) =~= before.push(entry@));
                    assert(members@.take(i + 1).drop_last() =~= members@.take(i as int));
                    assert(members@.take(i + 1).last() == members@[i as int]);
                    assert(member_entries(members@.take(i + 1), normalize) == before.push(entry@));
                    i = i + 1;
                }
                assert(members@.take(members.len() as int) =~= members@);
                let mut out: Vec<u8> = Vec::new();
                out.push(OPEN_BRACE);
                push_joined(&mut out, &entries);
                out.push(CLOSE_BRACE);
                assert(out@ =~= seq![OPEN_BRACE] + join_commas(member_entries(members@, normalize))
                    + seq![CLOSE_BRACE]);
                out
            }
        },
    }
}

fn ascii_alphanumeric(c: char) -> (r: bool)
    ensures
        r == is_ascii_alphanumeric(c),
{
    let n = c as u32;
    (48 <= n && n <= 57) || (65 <= n && n <= 90) || (97 <= n && n <= 122)
}

/// Whether `members` form an identifier map.
fn identifier_map(members: &Vec<JsonMember>) -> (r: bool)
    ensures
        r == is_identifier_map(members@),
{
    if members.len() == 0 {
        return false;
    }
    let mut i: usize = 0;
    while i < members.len()
        invariant
            i <= members.len(),
            forall|k: int|
                0 <= k < i ==> is_identifier_key((#[trigger] members@[k]).key@)
                    && members@[k].value is Object,
        decreases members.len() - i,
    {
        let key = members[i].key.as_str();
        if key.unicode_len() != 16 {
            return false;
        }
        let mut c: usize = 0;
        while c < 16
            invariant
                c <= 16,
                i < members.len(),
                key@ == members@[i as int].key@,
                key@.len() == 16,
                forall|q: int| 0 <= q < c ==> is_ascii_alphanumeric(#[trigger] key@[q]),
            decreases 16 - c,
        {
            let ch = key.get_char(c);
            if !ascii_alphanumeric(ch) {
                assert(!is_identifier_key(members@[i as int].key@));
                return false;
            }
            c = c + 1;
        }
        match &members[i].value {
            JsonValue::Object(_) => {},
            _ => {
                return false;
            },
        }
        i = i + 1;
    }
    true
}

/// The text of a lower-case hex digit.
fn hex_digit_text(n: u8) -> (s: &'static str)
    requires
        n < 16,
    ensures
        s@ == seq![hex_digit(n)],
{
    proof {
        reveal_strlit("0");
        reveal_strlit("1");
        reveal_strlit("2");
        reveal_strlit("3");
        reveal_strlit("4");
        reveal_strlit("5");
        reveal_strlit("6");
        reveal_strlit("7");
        reveal_strlit("8");
        reveal_strlit("9");
        reveal_strlit("a");
        reveal_strlit("b");
        reveal_strlit("c");
        reveal_strlit("d");
        reveal_strlit("e");
        reveal_strlit("f");
    }
    match n {
        0 => "0",
        1 => "1",
        2 => "2",
        3 => "3",
        4 => "4",
        5 => "5",
        6 => "6",
        7 => "7",
        8 => "8",
        9 => "9",
        10 => "a",
        11 => "b",
        12 => "c",
        13 => "d",
        14 => "e",
        _ => "f",
    }
}

/// Lower-case hex text of `bytes`.
pub fn to_hex_lower(bytes: &Vec<u8>) -> (r: String)
    ensures
        r@ == hex_lower(bytes@),
{
    let mut out = String::new();
    let mut i: usize = 0;
    while i < bytes.len()
        invariant
            i <= bytes.len(),
            out@ == hex_lower(bytes@.take(i as int)),
        decreases bytes.len() - i,
    {
        let b = bytes[i];
        out.append(hex_digit_text(b / 16));
        out.append(hex_digit_text(b % 16));
        assert(bytes@.take(i + 1).drop_last() =~= bytes@.take(i as int));
        i = i + 1;
    }
    assert(bytes@.take(bytes.len() as int) =~= bytes@);
    out
}

/// The structural signature of `value`: the lower-case hex SHA-256 digest of
/// its canonical shape encoding. With `normalize_identifier_maps`, objects
/// keyed by generated identifiers are encoded by the set of their members'
/// shapes, so the identifiers themselves do not change the signature.
pub fn structural_signature(value: &JsonValue, normalize_identifier_maps: bool) -> (r: String)
    requires
        json_wf(*value),
    ensures
        r@ == signature_of(*value, normalize_identifier_maps),
{
    let encoded = shape_bytes(value, normalize_identifier_maps);
    let digest = sha256(encoded.as_slice());
    to_hex_lower(&digest)
}


/// Two values have the same kinds: the same structure, with scalars of the
/// same kind (integers apart from other numbers) but possibly other values.
pub open spec fn same_kinds(a: JsonValue, b: JsonValue) -> bool
    decreases a,
{
    match a {
        JsonValue::Null => b is Null,
        JsonValue::Bool(_) => b is Bool,
        JsonValue::Number(x) => b is Number && b->Number_0.integer == x.integer,
        JsonValue::String(_) => b is String,
        JsonValue::Array(xs) => b is Array && same_kinds_items(xs@, b->Array_0@),
        JsonValue::Object(ms) => b is Object && same_keys(ms@, b->Object_0@) && same_kinds_values(
            ms@,
            b->Object_0@,
        ),
    }
}

/// Two lists of values of equal length whose values pairwise have the same kinds.
pub open spec fn same_kinds_items(xs: Seq<JsonValue>, ys: Seq<JsonValue>) -> bool
    decreases xs,
{
    &&& xs.len() == ys.len()
    &&& xs.len() > 0 ==> same_kinds_items(xs.drop_last(), ys.drop_last()) && same_kinds(
        xs.last(),
        ys.last(),
    )
}

/// Two lists of members of equal length whose values pairwise have the same kinds.
pub open spec fn same_kinds_values(ms: Seq<JsonMember>, ns: Seq<JsonMember>) -> bool
    decreases ms,
{
    &&& ms.len() == ns.len()
    &&& ms.len() > 0 ==> same_kinds_values(ms.drop_last(), ns.drop_last()) && same_kinds(
        ms.last().value,
        ns.last().value,
    )
}

/// Two lists of members with the same keys in the same order.
pub open spec fn same_keys(ms: Seq<JsonMember>, ns: Seq<JsonMember>) -> bool {
    ms.len() == ns.len() && forall|i: int| 0 <= i < ms.len() ==> (#[trigger] ms[i]).key@ == ns[i].key@
}

proof fn lemma_same_kinds_object(a: JsonValue, b: JsonValue)
    requires
        same_kinds(a, b),
    ensures
        a is Object <==> b is Object,
{
}

proof fn lemma_same_kinds_values_pointwise(ms: Seq<JsonMember>, ns: Seq<JsonMember>)
    requires
        same_kinds_values(ms, ns),
    ensures
        forall|i: int| 0 <= i < ms.len() ==> same_kinds(#[trigger] ms[i].value, ns[i].value),
    decreases ms.len(),
{
    if ms.len() > 0 {
        lemma_same_kinds_values_pointwise(ms.drop_last(), ns.drop_last());
        assert forall|i: int| 0 <= i < ms.len() implies same_kinds(#[trigger] ms[i].value, ns[i].value) by {
            if i < ms.len() - 1 {
                assert(ms[i] == ms.drop_last()[i]);
                assert(ns[i] == ns.drop_last()[i]);
            }
        }
    }
}

proof fn lemma_identifier_map_same_kinds(ms: Seq<JsonMember>, ns: Seq<JsonMember>)
    requires
        same_keys(ms, ns),
        same_kinds_values(ms, ns),
    ensures
        is_identifier_map(ms) == is_identifier_map(ns),
{
    lemma_same_kinds_values_pointwise(ms, ns);
    assert forall|i: int| 0 <= i < ms.len() implies ((#[trigger] ms[i]).value is Object <==> ns[i].value is Object) by {
        lemma_same_kinds_object(ms[i].value, ns[i].value);
    }
    if is_identifier_map(ms) {
        assert forall|i: int| 0 <= i < ns.len() implies is_identifier_key((#[trigger] ns[i]).key@)
            && ns[i].value is Object by {
            assert(is_identifier_key(ms[i].key@));
        }
    }
    if is_identifier_map(ns) {
        assert forall|i: int| 0 <= i < ms.len() implies is_identifier_key((#[trigger] ms[i]).key@)
            && ms[i].value is Object by {
            assert(is_identifier_key(ns[i].key@));
        }
    }
}

proof fn lemma_same_kinds_shape(a: JsonValue, b: JsonValue, normalize: bool)
    requires
        same_kinds(a, b),
    ensures
        shape_encoding(a, normalize) == shape_encoding(b, normalize),
    decreases a,
{
    match a {
        JsonValue::Array(xs) => {
            lemma_same_kinds_element_shapes(xs@, b->Array_0@, normalize);
        },
        JsonValue::Object(ms) => {
            let ns = b->Object_0@;
            lemma_identifier_map_same_kinds(ms@, ns);
            lemma_same_kinds_member_shapes(ms@, ns, normalize);
        },
        _ => {},
    }
}

proof fn lemma_same_kinds_element_shapes(xs: Seq<JsonValue>, ys: Seq<JsonValue>, normalize: bool)
    requires
        same_kinds_items(xs, ys),
    ensures
        element_shapes(xs, normalize) == element_shapes(ys, normalize),
    decreases xs,
{
    if xs.len() > 0 {
        lemma_same_kinds_element_shapes(xs.drop_last(), ys.drop_last(), normalize);
        lemma_same_kinds_shape(xs.last(), ys.last(), normalize);
    }
}

proof fn lemma_same_kinds_member_shapes(ms: Seq<JsonMember>, ns: Seq<JsonMember>, normalize: bool)
    requires
        same_kinds_values(ms, ns),
    ensures
        member_shapes(ms, normalize) == member_shapes(ns, normalize),
        same_keys(ms, ns) ==> member_entries(ms, normalize) == member_entries(ns, normalize),
    decreases ms,
{
    if ms.len() > 0 {
        lemma_same_kinds_member_shapes(ms.drop_last(), ns.drop_last(), normalize);
        lemma_same_kinds_shape(ms.last().value, ns.last().value, normalize);
        if same_keys(ms, ns) {
            assert(ms.last().key@ == ns.last().key@);
            assert(same_keys(ms.drop_last(), ns.drop_last())) by {
                assert forall|i: int| 0 <= i < ms.drop_last().len() implies
                    (#[trigger] ms.drop_last()[i]).key@ == ns.drop_last()[i].key@ by {
                    assert(ms.drop_last()[i] == ms[i]);
                    assert(ns.drop_last()[i] == ns[i]);
                }
            }
        }
    }
}

/// Signatures ignore values but retain structure: two documents that differ
/// only in the values of their scalars (each scalar keeping its kind) have
/// the same structural signature, with or without identifier-map
/// normalisation.
pub proof fn law_signature_ignores_scalar_values(a: JsonValue, b: JsonValue, normalize: bool)
    requires
        same_kinds(a, b),
    ensures
        signature_of(a, normalize) == signature_of(b, normalize),
{
    lemma_same_kinds_shape(a, b, normalize);
}

/// With normalisation, the generated keys of an identifier map do not enter
/// the signature: two identifier maps of the same size whose members pairwise
/// have the same kinds have the same signature, whatever their keys.
pub proof fn law_signature_ignores_identifier_keys(ms: Vec<JsonMember>, ns: Vec<JsonMember>)
    requires
        is_identifier_map(ms@),
        is_identifier_map(ns@),
        same_kinds_values(ms@, ns@),
    ensures
        signature_of(JsonValue::Object(ms), true) == signature_of(JsonValue::Object(ns), true),
{
    lemma_same_kinds_member_shapes(ms@, ns@, true);
}

proof fn lemma_bytes_lt_trans(a: Seq<u8>, b: Seq<u8>, c: Seq<u8>)
    ensures
        bytes_lt(a, b) && bytes_lt(b, c) ==> bytes_lt(a, c),
    decreases a.len(),
{
    if a.len() > 0 && b.len() > 0 && c.len() > 0 && a[0] == b[0] && b[0] == c[0] {
        lemma_bytes_lt_trans(a.drop_first(), b.drop_first(), c.drop_first());
    }
}

/// The byte order as a relation.
pub open spec fn byte_order() -> spec_fn(Seq<u8>, Seq<u8>) -> bool {
    |a: Seq<u8>, b: Seq<u8>| bytes_lt(a, b)
}

proof fn lemma_byte_order_total()
    ensures
        crate::order::strict_total(byte_order()),
{
    let lt = byte_order();
    assert forall|a: Seq<u8>| !(#[trigger] lt(a, a)) by {
        lemma_bytes_lt_total(a, a);
    }
    assert forall|a: Seq<u8>, b: Seq<u8>| #[trigger] lt(a, b) implies !lt(b, a) by {
        lemma_bytes_lt_total(a, b);
    }
    assert forall|a: Seq<u8>, b: Seq<u8>| a != b implies #[trigger] lt(a, b) || lt(b, a) by {
        lemma_bytes_lt_total(a, b);
    }
    assert forall|a: Seq<u8>, b: Seq<u8>, c: Seq<u8>| #[trigger] lt(a, b) && #[trigger] lt(b, c) implies lt(a, c) by {
        lemma_bytes_lt_trans(a, b, c);
    }
}

proof fn lemma_insert_unique_ordered(s: Seq<Seq<u8>>, x: Seq<u8>)
    ensures
        insert_unique(s, x) == crate::order::insert_unique(s, x, byte_order()),
    decreases s.len(),
{
    if s.len() > 0 {
        lemma_insert_unique_ordered(s.drop_first(), x);
    }
}

proof fn lemma_canonical_ordered(items: Seq<Seq<u8>>)
    ensures
        canonical(items) == crate::order::sorted_unique(items, byte_order()),
    decreases items.len(),
{
    if items.len() > 0 {
        lemma_canonical_ordered(items.drop_last());
        lemma_insert_unique_ordered(canonical(items.drop_last()), items.last());
    }
}

proof fn lemma_element_shapes_index(items: Seq<JsonValue>, normalize: bool)
    ensures
        element_shapes(items, normalize).len() == items.len(),
        forall|i: int| 0 <= i < items.len() ==> element_shapes(items, normalize)[i] == shape_encoding(
            #[trigger] items[i],
            normalize,
        ),
    decreases items.len(),
{
    if items.len() > 0 {
        let p = items.drop_last();
        lemma_element_shapes_index(p, normalize);
        assert forall|i: int| 0 <= i < items.len() implies element_shapes(items, normalize)[i] == shape_encoding(
            #[trigger] items[i],
            normalize,
        ) by {
            if i < items.len() - 1 {
                assert(p[i] == items[i]);
            }
        }
    }
}

/// The shape of an array is the set of its members' shapes: two arrays whose
/// members have the same shapes, in whatever order and however often each
/// occurs, have the same shape and so the same structural signature.
pub proof fn law_array_shape_ignores_order_and_repeats(a: Vec<JsonValue>, b: Vec<JsonValue>, normalize: bool)
    requires
        forall|i: int|
            0 <= i < a@.len() ==> exists|j: int|
                0 <= j < b@.len() && shape_encoding(b@[j], normalize) == shape_encoding(#[trigger] a@[i], normalize),
        forall|j: int|
            0 <= j < b@.len() ==> exists|i: int|
                0 <= i < a@.len() && shape_encoding(a@[i], normalize) == shape_encoding(#[trigger] b@[j], normalize),
    ensures
        shape_encoding(JsonValue::Array(a), normalize) == shape_encoding(JsonValue::Array(b), normalize),
        signature_of(JsonValue::Array(a), normalize) == signature_of(JsonValue::Array(b), normalize),
{
    let lt = byte_order();
    let ea = element_shapes(a@, normalize);
    let eb = element_shapes(b@, normalize);
    lemma_element_shapes_index(a@, normalize);
    lemma_element_shapes_index(b@, normalize);
    lemma_canonical_ordered(ea);
    lemma_canonical_ordered(eb);
    lemma_byte_order_total();
    crate::order::lemma_sorted_unique_members(ea, lt);
    crate::order::lemma_sorted_unique_members(eb, lt);
    crate::order::lemma_sorted_unique_sorted(ea, lt);
    crate::order::lemma_sorted_unique_sorted(eb, lt);
    let ca = canonical(ea);
    let cb = canonical(eb);
    assert forall|y: Seq<u8>| #[trigger] ca.contains(y) implies cb.contains(y) by {
        assert(ea.contains(y));
        let k = choose|k: int| 0 <= k < ea.len() && ea[k] == y;
        assert(ea[k] == shape_encoding(a@[k], normalize));
        let j = choose|j: int|
            0 <= j < b@.len() && shape_encoding(b@[j], normalize) == shape_encoding(a@[k], normalize);
        assert(eb[j] == y);
        assert(eb.contains(y));
    }
    assert forall|y: Seq<u8>| #[trigger] cb.contains(y) implies ca.contains(y) by {
        assert(eb.contains(y));
        let k = choose|k: int| 0 <= k < eb.len() && eb[k] == y;
        assert(eb[k] == shape_encoding(b@[k], normalize));
        let i = choose|i: int|
            0 <= i < a@.len() && shape_encoding(a@[i], normalize) == shape_encoding(b@[k], normalize);
        assert(ea[i] == y);
        assert(ea.contains(y));
    }
    crate::order::lemma_strictly_sorted_same_members(ca, cb, lt);
}

/// The value of a lower-case hexadecimal digit (`0`-`9`, `a`-`f`), and -1
/// for any other character.
pub open spec fn lower_hex_value(c: char) -> int {
    if '0' <= c && c <= '9' {
        c as int - '0' as int
    } else if 'a' <= c && c <= 'f' {
        c as int - 'a' as int + 10
    } else {
        -1
    }
}

proof fn lemma_hex_digit_value(n: u8)
    requires
        n < 16,
    ensures
        lower_hex_value(hex_digit(n)) == n,
{
}

/// Hex text reads back as the bytes it was made from: two lower-case digits
/// per byte, the high nibble first.
pub proof fn law_hex_text_reads_back(bytes: Seq<u8>)
    ensures
        hex_lower(bytes).len() == 2 * bytes.len(),
        forall|i: int|
            0 <= i < bytes.len() ==> 16 * lower_hex_value(#[trigger] hex_lower(bytes)[2 * i]) + lower_hex_value(
                hex_lower(bytes)[2 * i + 1],
            ) == bytes[i] as int,
        forall|k: int| 0 <= k < hex_lower(bytes).len() ==> lower_hex_value(#[trigger] hex_lower(bytes)[k]) >= 0,
    decreases bytes.len(),
{
    if bytes.len() > 0 {
        let p = bytes.drop_last();
        law_hex_text_reads_back(p);
        let b = bytes.last();
        lemma_hex_digit_value(b / 16);
        lemma_hex_digit_value(b % 16);
        let h = hex_lower(bytes);
        assert(h =~= hex_lower(p) + seq![hex_digit(b / 16), hex_digit(b % 16)]);
        assert forall|i: int| 0 <= i < bytes.len() implies 16 * lower_hex_value(#[trigger] h[2 * i])
            + lower_hex_value(h[2 * i + 1]) == bytes[i] as int by {
            if i < bytes.len() - 1 {
                assert(h[2 * i] == hex_lower(p)[2 * i]);
                assert(h[2 * i + 1] == hex_lower(p)[2 * i + 1]);
                assert(p[i] == bytes[i]);
            } else {
                assert(h[2 * i] == hex_digit(b / 16));
                assert(h[2 * i + 1] == hex_digit(b % 16));
                assert(b as int == 16 * (b / 16) as int + (b % 16) as int);
            }
        }
        assert forall|k: int| 0 <= k < h.len() implies lower_hex_value(#[trigger] h[k]) >= 0 by {
            if k < hex_lower(p).len() {
                assert(h[k] == hex_lower(p)[k]);
            }
        }
    }
}

/// The kind of a scalar: null, boolean, integer, non-integer number, string.
pub open spec fn scalar_kind(v: JsonValue) -> Option<int> {
    match v {
        JsonValue::Null => Some(0),
        JsonValue::Bool(_) => Some(1),
        JsonValue::Number(n) => Some(if n.integer { 2int } else { 3int }),
        JsonValue::String(_) => Some(4),
        _ => None,
    }
}

proof fn lemma_quoted_ascii(s: Seq<char>)
    requires
        vstd::utf8::is_ascii_chars(s),
    ensures
        quoted(s).len() == s.len() + 2,
        forall|i: int| 0 <= i < s.len() ==> quoted(s)[i + 1] == s[i] as u8,
{
    vstd::utf8::is_ascii_chars_encode_utf8(s);
    assert forall|i: int| 0 <= i < s.len() implies quoted(s)[i + 1] == s[i] as u8 by {
        assert(quoted(s)[i + 1] == vstd::utf8::encode_utf8(s)[i]);
    }
}

/// The shape of a scalar is the JSON string naming its kind: `"null"`,
/// `"boolean"`, `"integer"`, `"number"` (a number that is not an integer) or
/// `"string"`, whatever its value.
pub proof fn law_scalar_shape_names_its_kind(v: JsonValue, normalize: bool)
    requires
        scalar_kind(v) is Some,
    ensures
        scalar_kind(v) == Some(0int) ==> shape_encoding(v, normalize) == quoted("null"@),
        scalar_kind(v) == Some(1int) ==> shape_encoding(v, normalize) == quoted("boolean"@),
        scalar_kind(v) == Some(2int) ==> shape_encoding(v, normalize) == quoted("integer"@),
        scalar_kind(v) == Some(3int) ==> shape_encoding(v, normalize) == quoted("number"@),
        scalar_kind(v) == Some(4int) ==> shape_encoding(v, normalize) == quoted("string"@),
{
}

/// Signatures retain the kind of a scalar: two scalars of different kinds
/// (null, boolean, integer, non-integer number, string) have different
/// shapes, so a float and a string never collapse into one shape.
pub proof fn law_scalar_kinds_have_distinct_shapes(a: JsonValue, b: JsonValue, normalize: bool)
    requires
        scalar_kind(a) is Some,
        scalar_kind(b) is Some,
        scalar_kind(a) != scalar_kind(b),
    ensures
        shape_encoding(a, normalize) != shape_encoding(b, normalize),
{
    reveal_strlit("null");
    reveal_strlit("boolean");
    reveal_strlit("integer");
    reveal_strlit("number");
    reveal_strlit("string");
    lemma_quoted_ascii("null"@);
    lemma_quoted_ascii("boolean"@);
    lemma_quoted_ascii("integer"@);
    lemma_quoted_ascii("number"@);
    lemma_quoted_ascii("string"@);
    let x = shape_encoding(a, normalize);
    let y = shape_encoding(b, normalize);
    if x == y {
        assert(x.len() == y.len());
        assert(x[1] == y[1]);
    }
}

} // verus!
