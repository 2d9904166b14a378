//! A plain-value model of JSON documents.

use vstd::prelude::*;

use crate::text::chars_of;
use crate::text::chars_lt;

verus! {

/// A JSON number: its canonical text and whether it is an integer.
pub struct JsonNumber {
    pub text: String,
    pub integer: bool,
}

/// One member of a JSON object.
pub struct JsonMember {
    pub key: String,
    pub value: JsonValue,
}

/// A JSON document.
pub enum JsonValue {
    Null,
    Bool(bool),
    Number(JsonNumber),
    String(String),
    Array(Vec<JsonValue>),
    Object(Vec<JsonMember>),
}


impl JsonValue {
    /// The member named `key` of an object (`Value::get` with a string key).
    pub open spec fn spec_get(self, key: Seq<char>) -> Option<JsonValue> {
        match self {
            JsonValue::Object(ms) => member_lookup(ms@, key),
            _ => None,
        }
    }

    /// The text of a string value (`Value::as_str`).
    pub open spec fn spec_str(self) -> Option<Seq<char>> {
        match self {
            JsonValue::String(s) => Some(s@),
            _ => None,
        }
    }

    /// The member named `key` of an object.
    pub fn get(&self, key: &str) -> (r: Option<&JsonValue>)
        ensures
            r is Some <==> self.spec_get(key@) is Some,
            r is Some ==> self.spec_get(key@) == Some(*r->0),
    {
        match self {
            JsonValue::Object(ms) => lookup_member(ms, &chars_of(key)),
            _ => None,
        }
    }

    /// The text of a string value.
    pub fn as_str(&self) -> (r: Option<&str>)
        ensures
            r is Some <==> self.spec_str() is Some,
            r is Some ==> self.spec_str() == Some(r->0@),
    {
        match self {
            JsonValue::String(s) => Some(s.as_str()),
            _ => None,
        }
    }
}

/// A JSON document as a parser gives it: the keys of every object strictly
/// ascending (so no key twice), at every depth.
pub open spec fn json_wf(v: JsonValue) -> bool
    decreases v,
{
    match v {
        JsonValue::Array(items) => items_wf(items@),
        JsonValue::Object(members) => keys_ascending(members@) && members_wf(members@),
        _ => true,
    }
}

/// Every value of the list is well formed.
pub open spec fn items_wf(items: Seq<JsonValue>) -> bool
    decreases items,
{
    items.len() > 0 ==> items_wf(items.drop_last()) && json_wf(items.last())
}

/// Every member value of the list is well formed.
pub open spec fn members_wf(members: Seq<JsonMember>) -> bool
    decreases members,
{
    members.len() > 0 ==> members_wf(members.drop_last()) && json_wf(members.last().value)
}

/// The keys of the members are strictly ascending.
pub open spec fn keys_ascending(members: Seq<JsonMember>) -> bool {
    forall|i: int, j: int| 0 <= i < j < members.len() ==> chars_lt(#[trigger] members[i].key@, #[trigger] members[j].key@)
}

/// Each value of a well-formed list is well formed.
pub proof fn lemma_items_wf(items: Seq<JsonValue>)
    requires
        items_wf(items),
    ensures
        forall|i: int| 0 <= i < items.len() ==> json_wf(#[trigger] items[i]),
    decreases items.len(),
{
    if items.len() > 0 {
        lemma_items_wf(items.drop_last());
        assert forall|i: int| 0 <= i < items.len() implies json_wf(#[trigger] items[i]) by {
            if i < items.len() - 1 {
                assert(items[i] == items.drop_last()[i]);
            }
        }
    }
}

/// A list of well-formed values, one more at the end.
pub proof fn lemma_items_wf_push(items: Seq<JsonValue>, v: JsonValue)
    requires
        items_wf(items),
        json_wf(v),
    ensures
        items_wf(items.push(v)),
{
    assert(items.push(v).drop_last() =~= items);
}

/// The value of the first member named `key`.
pub open spec fn member_lookup(ms: Seq<JsonMember>, key: Seq<char>) -> Option<JsonValue>
    decreases ms.len(),
{
    if ms.len() == 0 {
        None
    } else if ms[0].key@ == key {
        Some(ms[0].value)
    } else {
        member_lookup(ms.drop_first(), key)
    }
}

fn key_equals(key: &str, token: &Vec<char>) -> (r: bool)
    ensures
        r == (key@ == token@),
{
    let n = key.unicode_len();
    if n != token.len() {
        return false;
    }
    let mut i: usize = 0;
    while i < n
        invariant
            n == key@.len(),
            n == token@.len(),
            i <= n,
            forall|k: int| 0 <= k < i ==> key@[k] == token@[k],
        decreases n - i,
    {
        if key.get_char(i) != token[i] {
            return false;
        }
        i = i + 1;
    }
    assert(key@ =~= token@);
    true
}

fn lookup_member<'a>(ms: &'a Vec<JsonMember>, key: &Vec<char>) -> (r: Option<&'a JsonValue>)
    ensures
        r is Some <==> member_lookup(ms@, key@) is Some,
        r is Some ==> member_lookup(ms@, key@) == Some(*r->0),
{
    let mut i: usize = 0;
    assert(ms@.skip(0) =~= ms@);
    while i < ms.len()
        invariant
            i <= ms.len(),
            member_lookup(ms@, key@) == member_lookup(ms@.skip(i as int), key@),
        decreases ms.len() - i,
    {
        if key_equals(ms[i].key.as_str(), key) {
            assert(ms@.skip(i as int)[0] == ms@[i as int]);
            return Some(&ms[i].value);
        }
        assert(ms@.skip(i as int).drop_first() =~= ms@.skip(i + 1));
        i = i + 1;
    }
    None
}

/// `s` cut at every `separator` (`str::split` with a character).
pub open spec fn split_chars(s: Seq<char>, separator: char) -> Seq<Seq<char>>
    decreases s.len(),
{
    if s.len() == 0 {
        seq![Seq::empty()]
    } else {
        let parts = split_chars(s.drop_last(), separator);
        if s.last() == separator {
            parts.push(Seq::empty())
        } else {
            parts.update(parts.len() - 1, parts.last().push(s.last()))
        }
    }
}

proof fn lemma_split_nonempty(s: Seq<char>, separator: char)
    ensures
        split_chars(s, separator).len() >= 1,
    decreases s.len(),
{
    if s.len() > 0 {
        lemma_split_nonempty(s.drop_last(), separator);
    }
}

/// Every non-overlapping occurrence of the pair `a b`, left to right,
/// replaced by `r` (`str::replace` with a two-character pattern).
pub open spec fn replace_pair(s: Seq<char>, a: char, b: char, r: char) -> Seq<char>
    decreases s.len(),
{
    if s.len() < 2 {
        s
    } else if s[0] == a && s[1] == b {
        seq![r] + replace_pair(s.skip(2), a, b, r)
    } else {
        seq![s[0]] + replace_pair(s.drop_first(), a, b, r)
    }
}

/// A JSON Pointer reference token with `~1` and `~0` unescaped, in that order.
pub open spec fn unescape_token(t: Seq<char>) -> Seq<char> {
    replace_pair(replace_pair(t, '~', '1', '/'), '~', '0', '~')
}

pub open spec fn is_ascii_digit(c: char) -> bool {
    48 <= (c as u32) && (c as u32) <= 57
}

/// The value of a string of decimal digits.
pub open spec fn digits_value(s: Seq<char>) -> nat
    decreases s.len(),
{
    if s.len() == 0 {
        0
    } else {
        digits_value(s.drop_last()) * 10 + ((s.last() as u32 - 48) as nat)
    }
}

/// An array index token: digits without a leading zero (other than `0`
/// itself) whose value fits in `usize`.
pub open spec fn array_index(t: Seq<char>) -> Option<nat> {
    if t.len() > 0 && (forall|i: int| 0 <= i < t.len() ==> is_ascii_digit(#[trigger] t[i])) && (t[0]
        == '0' ==> t.len() == 1) && digits_value(t) <= usize::MAX {
        Some(digits_value(t))
    } else {
        None
    }
}

/// One step of pointer resolution.
pub open spec fn step(v: JsonValue, token: Seq<char>) -> Option<JsonValue> {
    match v {
        JsonValue::Object(ms) => member_lookup(ms@, token),
        JsonValue::Array(xs) => match array_index(token) {
            Some(i) => if i < xs@.len() {
                Some(xs@[i as int])
            } else {
                None
            },
            None => None,
        },
        _ => None,
    }
}

/// The value that a sequence of reference tokens leads to.
pub open spec fn resolve(v: JsonValue, tokens: Seq<Seq<char>>) -> Option<JsonValue>
    decreases tokens.len(),
{
    if tokens.len() == 0 {
        Some(v)
    } else {
        match step(v, tokens[0]) {
            Some(w) => resolve(w, tokens.drop_first()),
            None => None,
        }
    }
}

/// The reference tokens of a pointer.
pub open spec fn pointer_tokens(p: Seq<char>) -> Seq<Seq<char>> {
    split_chars(p, '/').drop_first().map_values(|t: Seq<char>| unescape_token(t))
}

/// The value a JSON Pointer designates (`Value::pointer`): the whole value
/// for the empty pointer, nothing for a pointer not starting with `/`.
pub open spec fn resolve_pointer(v: JsonValue, p: Seq<char>) -> Option<JsonValue> {
    if p.len() == 0 {
        Some(v)
    } else if p[0] != '/' {
        None
    } else {
        resolve(v, pointer_tokens(p))
    }
}

pub open spec fn char_views(v: Seq<Vec<char>>) -> Seq<Seq<char>> {
    v.map_values(|x: Vec<char>| x@)
}

fn split_exec(s: &Vec<char>, separator: char) -> (r: Vec<Vec<char>>)
    ensures
        char_views(r@) == split_chars(s@, separator),
{
    let mut parts: Vec<Vec<char>> = Vec::new();
    parts.push(Vec::new());
    let mut i: usize = 0;
    assert(char_views(parts@) =~= split_chars(s@.take(0), separator));
    while i < s.len()
        invariant
            i <= s.len(),
            parts.len() >= 1,
            char_views(parts@) == split_chars(s@.take(i as int), separator),
        decreases s.len() - i,
    {
        let c = s[i];
        let ghost before = char_views(parts@);
        assert(s@.take(i + 1).drop_last() =~= s@.take(i as int));
        if c == separator {
            parts.push(Vec::new());
            assert(char_views(parts@) =~= before.push(Seq::empty()));
        } else {
            let last = parts.len() - 1;
            let mut tail = parts.pop().unwrap();
            tail.push(c);
            parts.push(tail);
            assert(char_views(parts@) =~= before.update(last as int, before.last().push(c)));
        }
        i = i + 1;
    }
    assert(s@.take(s.len() as int) =~= s@);
    parts
}

fn replace_pair_exec(s: &Vec<char>, a: char, b: char, r: char) -> (out: Vec<char>)
    ensures
        out@ == replace_pair(s@, a, b, r),
{
    let mut out: Vec<char> = Vec::new();
    let mut i: usize = 0;
    assert(s@.skip(0) =~= s@);
    assert(out@ + s@ =~= s@);
    while i < s.len()
        invariant
            i <= s.len(),
            out@ + replace_pair(s@.skip(i as int), a, b, r) == replace_pair(s@, a, b, r),
        decreases s.len() - i,
    {
        let ghost rest = s@.skip(i as int);
        if i + 1 < s.len() && s[i] == a && s[i + 1] == b {
            assert(rest.skip(2) =~= s@.skip(i + 2));
            out.push(r);
            i = i + 2;
            assert(out@ + replace_pair(s@.skip(i as int), a, b, r) =~= replace_pair(s@, a, b, r));
        } else {
            assert(rest.drop_first() =~= s@.skip(i + 1));
            proof {
                if rest.len() < 2 {
                    assert(rest.len() == 1);
                    assert(rest =~= seq![s@[i as int]]);
                    assert(s@.skip(i + 1).len() == 0);
                    assert(replace_pair(s@.skip(i + 1), a, b, r) =~= s@.skip(i + 1));
                }
            }
            out.push(s[i]);
            i = i + 1;
            assert(out@ + replace_pair(s@.skip(i as int), a, b, r) =~= replace_pair(s@, a, b, r));
        }
    }
    assert(s@.skip(s.len() as int) =~= Seq::<char>::empty());
    assert(out@ =~= replace_pair(s@, a, b, r));
    out
}

fn index_token(t: &Vec<char>) -> (r: Option<usize>)
    ensures
        r is Some <==> array_index(t@) is Some,
        r is Some ==> array_index(t@) == Some(r->0 as nat),
{
    if t.len() == 0 {
        return None;
    }
    if t[0] == '0' && t.len() != 1 {
        return None;
    }
    let mut value: usize = 0;
    let mut i: usize = 0;
    while i < t.len()
        invariant
            i <= t.len(),
            forall|k: int| 0 <= k < i ==> is_ascii_digit(#[trigger] t@[k]),
            value == digits_value(t@.take(i as int)),
        decreases t.len() - i,
    {
        let c = t[i];
        if !((c as u32) >= 48 && (c as u32) <= 57) {
            assert(!is_ascii_digit(t@[i as int]));
            return None;
        }
        assert(t@.take(i + 1).drop_last() =~= t@.take(i as int));
        let d = (c as u32 - 48) as usize;
        let next = match value.checked_mul(10) {
            Some(m) => m.checked_add(d),
            None => None,
        };
        match next {
            Some(n) => {
                value = n;
            },
            None => {
                proof {
                    lemma_digits_value_monotone(t@, i + 1);
                }
                return None;
            },
        }
        i = i + 1;
    }
    assert(t@.take(t.len() as int) =~= t@);
    Some(value)
}

proof fn lemma_digits_value_monotone(s: Seq<char>, n: int)
    requires
        0 <= n <= s.len(),
    ensures
        digits_value(s.take(n)) <= digits_value(s),
    decreases s.len() - n,
{
    if n < s.len() {
        lemma_digits_value_monotone(s, n + 1);
        assert(s.take(n + 1).drop_last() =~= s.take(n));
    } else {
        assert(s.take(n) =~= s);
    }
}

fn step_exec<'a>(v: &'a JsonValue, token: &Vec<char>) -> (r: Option<&'a JsonValue>)
    ensures
        r is Some <==> step(*v, token@) is Some,
        r is Some ==> step(*v, token@) == Some(*r->0),
{
    match v {
        JsonValue::Object(ms) => lookup_member(ms, token),
        JsonValue::Array(xs) => match index_token(token) {
            Some(i) => if i < xs.len() {
                Some(&xs[i])
            } else {
                None
            },
            None => None,
        },
        _ => None,
    }
}

/// The value that the JSON Pointer `p` designates in `v`.
pub fn pointer<'a>(v: &'a JsonValue, p: &str) -> (r: Option<&'a JsonValue>)
    requires
        json_wf(*v),
    ensures
        r is Some <==> resolve_pointer(*v, p@) is Some,
        r is Some ==> resolve_pointer(*v, p@) == Some(*r->0),
{
    let pc = chars_of(p);
    if pc.len() == 0 {
        return Some(v);
    }
    if pc[0] != '/' {
        return None;
    }
    let parts = split_exec(&pc, '/');
    proof {
        lemma_split_nonempty(p@, '/');
    }
    let ghost tokens = pointer_tokens(p@);
    let mut cur: &'a JsonValue = v;
    let mut i: usize = 1;
    assert(tokens.skip(0) =~= tokens);
    while i < parts.len()
        invariant
            1 <= i <= parts.len(),
            tokens.len() == parts.len() - 1,
            char_views(parts@) == split_chars(p@, '/'),
            tokens == pointer_tokens(p@),
            resolve(*v, tokens) == resolve(*cur, tokens.skip(i - 1)),
        decreases parts.len() - i,
    {
        let once = replace_pair_exec(&parts[i], '~', '1', '/');
        let token = replace_pair_exec(&once, '~', '0', '~');
        assert(token@ == tokens[i - 1]);
        let ghost rest = tokens.skip(i - 1);
        assert(rest[0] == tokens[i - 1]);
        assert(rest.drop_first() =~= tokens.skip(i as int));
        match step_exec(cur, &token) {
            Some(next) => {
                cur = next;
            },
            None => {
                return None;
            },
        }
        i = i + 1;
    }
    assert(tokens.skip(parts.len() - 1).len() == 0);
    Some(cur)
}
} // verus!
