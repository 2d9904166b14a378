//! Command-line parsing: `--option value` pairs, their validation, limits,
//! `KEY=VALUE` maps and command selection.

use vstd::prelude::*;

use crate::inventory::fallback_views;
use crate::inventory::fallbacks_wf;
use crate::inventory::pair_keys;
use crate::inventory::pair_order;
use crate::inventory::lemma_pair_order_total;
use crate::order::strictly_sorted;
use crate::order::lemma_insert_unique_sorted;
use crate::order::lemma_insert_unique_members;
use crate::text::chars_lt;
use crate::inventory::InventoryOptions;
use crate::inventory::pair_views;
use crate::model::Limits;
use crate::model::SourceFallback;
use crate::model::SurveyProfile;
use crate::order::insert_unique;
use crate::scan::ScanOptions;
use crate::order::lemma_insert_unique_at;
use crate::text::chars_order;
use crate::text::concat2;
use crate::text::concat3;
use crate::text::debug_quoted;
use crate::text::debug_text;
use crate::text::lemma_chars_order_total;
use crate::text::str_eq;
use crate::text::str_less;
use crate::text::starts_with;
use crate::text::string_views;

verus! {

/// Whether `s` is an optional `+` followed by one or more ASCII digits whose
/// value fits in 64 bits: what `u64::from_str` accepts.
pub open spec fn u64_text_ok(s: Seq<char>) -> bool {
    let digits = if s.len() > 0 && s[0] == '+' {
        s.drop_first()
    } else {
        s
    };
    digits.len() > 0 && (forall|i: int| 0 <= i < digits.len() ==> crate::json::is_ascii_digit(#[trigger] digits[i]))
        && crate::json::digits_value(digits) <= u64::MAX
}

/// The value of an accepted decimal text.
pub open spec fn u64_text_value(s: Seq<char>) -> nat {
    if s.len() > 0 && s[0] == '+' {
        crate::json::digits_value(s.drop_first())
    } else {
        crate::json::digits_value(s)
    }
}

/// Whether `s` is what `usize::from_str` accepts.
pub open spec fn usize_text_ok(s: Seq<char>) -> bool {
    let digits = if s.len() > 0 && s[0] == '+' {
        s.drop_first()
    } else {
        s
    };
    digits.len() > 0 && (forall|i: int| 0 <= i < digits.len() ==> crate::json::is_ascii_digit(#[trigger] digits[i]))
        && crate::json::digits_value(digits) <= usize::MAX
}

/// The message of the error `u64::from_str` reports for a rejected text.
pub uninterp spec fn u64_parse_error(s: Seq<char>) -> Seq<char>;

/// The message of the error `usize::from_str` reports for a rejected text.
pub uninterp spec fn usize_parse_error(s: Seq<char>) -> Seq<char>;

/// Calls `str::parse::<u64>`, turning its error into its message. The
/// contract claims what the standard documentation says: an optional `+`
/// and decimal digits whose value fits are accepted with that value, and
/// nothing else is; the message of a rejection is named, not stated.
#[verifier::external_body]
pub(crate) fn parse_u64_text(s: &str) -> (r: Result<u64, String>)
    ensures
        r is Ok <==> u64_text_ok(s@),
        r is Ok ==> r->Ok_0 as nat == u64_text_value(s@),
        r is Err ==> r->Err_0@ == u64_parse_error(s@),
{
    match s.parse::<u64>() {
        Ok(n) => Ok(n),
        Err(e) => Err(e.to_string()),
    }
}

/// Calls `str::parse::<usize>`, turning its error into its message. The
/// contract claims what the standard documentation says, as for `u64`.
#[verifier::external_body]
fn parse_usize_text(s: &str) -> (r: Result<usize, String>)
    ensures
        r is Ok <==> usize_text_ok(s@),
        r is Ok ==> r->Ok_0 as nat == u64_text_value(s@),
        r is Err ==> r->Err_0@ == usize_parse_error(s@),
{
    match s.parse::<usize>() {
        Ok(n) => Ok(n),
        Err(e) => Err(e.to_string()),
    }
}

/// The `--option value` pairs of an argument list, or the message of the
/// first malformed pair.
pub open spec fn parse_pairs(args: Seq<Seq<char>>) -> Result<Seq<(Seq<char>, Seq<char>)>, Seq<char>>
    decreases args.len(),
{
    if args.len() == 0 {
        Ok(Seq::empty())
    } else if !"--"@.is_prefix_of(args[0]) {
        Err("expected --option, found "@ + debug_text(args[0]))
    } else if args.len() < 2 || "--"@.is_prefix_of(args[1]) {
        Err("missing value for --"@ + args[0].skip(2))
    } else {
        match parse_pairs(args.skip(2)) {
            Ok(rest) => Ok(seq![(args[0].skip(2), args[1])] + rest),
            Err(e) => Err(e),
        }
    }
}

/// The values given for option `name`, in order.
pub open spec fn values_named(pairs: Seq<(Seq<char>, Seq<char>)>, name: Seq<char>) -> Seq<Seq<char>>
    decreases pairs.len(),
{
    if pairs.len() == 0 {
        Seq::empty()
    } else if pairs.last().0 == name {
        values_named(pairs.drop_last(), name).push(pairs.last().1)
    } else {
        values_named(pairs.drop_last(), name)
    }
}

/// The options of a command line: `(name, value)` pairs in order.
pub struct ParsedOptions {
    pub values: Vec<(String, String)>,
}

/// The result of `one`: nothing, the single value, or the repetition error.
pub open spec fn one_spec(pairs: Seq<(Seq<char>, Seq<char>)>, name: Seq<char>) -> Result<Option<Seq<char>>, Seq<char>> {
    let vs = values_named(pairs, name);
    if vs.len() == 0 {
        Ok(None)
    } else if vs.len() == 1 {
        Ok(Some(vs[0]))
    } else {
        Err("--"@ + name + " may be specified only once"@)
    }
}

pub open spec fn opt_result_view(r: Result<Option<String>, String>) -> Result<Option<Seq<char>>, Seq<char>> {
    match r {
        Ok(Some(v)) => Ok(Some(v@)),
        Ok(None) => Ok(None),
        Err(e) => Err(e@),
    }
}

pub open spec fn text_result_view(r: Result<String, String>) -> Result<Seq<char>, Seq<char>> {
    match r {
        Ok(v) => Ok(v@),
        Err(e) => Err(e@),
    }
}

/// The result of parsing an optional numeric option.
pub open spec fn u64_option_spec(name: Seq<char>, value: Option<Seq<char>>, default: u64) -> Result<nat, Seq<char>> {
    match value {
        None => Ok(default as nat),
        Some(v) => if u64_text_ok(v) {
            Ok(u64_text_value(v))
        } else {
            Err("invalid --"@ + name + " value "@ + debug_text(v) + ": "@ + u64_parse_error(v))
        },
    }
}

/// The result of parsing an optional count option.
pub open spec fn usize_option_spec(name: Seq<char>, value: Option<Seq<char>>, default: usize) -> Result<nat, Seq<char>> {
    match value {
        None => Ok(default as nat),
        Some(v) => if usize_text_ok(v) {
            Ok(u64_text_value(v))
        } else {
            Err("invalid --"@ + name + " value "@ + debug_text(v) + ": "@ + usize_parse_error(v))
        },
    }
}

fn invalid_value(name: &str, value: &str, error: &str) -> (r: String)
    ensures
        r@ == "invalid --"@ + name@ + " value "@ + debug_text(value@) + ": "@ + error@,
{
    let mut message = concat3("invalid --", name, " value ");
    message.append(debug_quoted(value).as_str());
    message.append(": ");
    message.append(error);
    message
}

/// An optional 64-bit option: the default when absent.
pub fn parse_u64(name: &str, value: Option<String>, default: u64) -> (r: Result<u64, String>)
    ensures
        match u64_option_spec(name@, opt_view(value), default) {
            Ok(n) => r is Ok && r->Ok_0 as nat == n,
            Err(e) => r is Err && r->Err_0@ == e,
        },
{
    match value {
        None => Ok(default),
        Some(v) => match parse_u64_text(v.as_str()) {
            Ok(n) => Ok(n),
            Err(error) => Err(invalid_value(name, v.as_str(), error.as_str())),
        },
    }
}

/// An optional count option: the default when absent.
pub fn parse_usize(name: &str, value: Option<String>, default: usize) -> (r: Result<usize, String>)
    ensures
        match usize_option_spec(name@, opt_view(value), default) {
            Ok(n) => r is Ok && r->Ok_0 as nat == n,
            Err(e) => r is Err && r->Err_0@ == e,
        },
{
    match value {
        None => Ok(default),
        Some(v) => match parse_usize_text(v.as_str()) {
            Ok(n) => Ok(n),
            Err(error) => Err(invalid_value(name, v.as_str(), error.as_str())),
        },
    }
}

pub open spec fn opt_view(o: Option<String>) -> Option<Seq<char>> {
    crate::model::opt_view(o)
}

/// The survey profile an option names, `generic` when absent.
pub open spec fn profile_spec(value: Option<Seq<char>>) -> Result<SurveyProfile, Seq<char>> {
    let p = match value {
        Some(v) => v,
        None => "generic"@,
    };
    if p == "generic"@ {
        Ok(SurveyProfile::Generic)
    } else if p == "foundry-dnd5e"@ {
        Ok(SurveyProfile::FoundryDnd5e)
    } else if p == "foundry-pf2e"@ {
        Ok(SurveyProfile::FoundryPf2e)
    } else {
        Err("unknown survey profile "@ + debug_text(p) + "; expected generic, foundry-dnd5e, or foundry-pf2e"@)
    }
}

/// The survey profile an option names.
pub fn parse_profile(value: Option<String>) -> (r: Result<SurveyProfile, String>)
    ensures
        match profile_spec(opt_view(value)) {
            Ok(p) => r == Ok::<SurveyProfile, String>(p),
            Err(e) => r is Err && r->Err_0@ == e,
        },
{
    let p = match value {
        Some(v) => v,
        None => String::from_str("generic"),
    };
    if str_eq(p.as_str(), "generic") {
        Ok(SurveyProfile::Generic)
    } else if str_eq(p.as_str(), "foundry-dnd5e") {
        Ok(SurveyProfile::FoundryDnd5e)
    } else if str_eq(p.as_str(), "foundry-pf2e") {
        Ok(SurveyProfile::FoundryPf2e)
    } else {
        let mut message = concat2("unknown survey profile ", debug_quoted(p.as_str()).as_str());
        message.append("; expected generic, foundry-dnd5e, or foundry-pf2e");
        Err(message)
    }
}

impl SurveyProfile {
    /// Whether documents are signed with identifier maps normalised:
    /// the system-specific profiles, whose documents key nested records by
    /// generated identifiers.
    pub fn normalizes_identifier_maps(&self) -> (r: bool)
        ensures
            r == !(*self is Generic),
    {
        match self {
            SurveyProfile::Generic => false,
            _ => true,
        }
    }
}

/// The usage text.
pub fn usage() -> (r: String)
    ensures
        r@ == usage_text(),
{
    String::from_str(
        "Usage:
  rpg-primitive-survey inventory --study ID --repository URL [--ref main] [--manifest system.json] [--profile generic|foundry-dnd5e|foundry-pf2e] [--content-root PATH] [--source-pointer JSON_POINTER] [--source-fallback PACK=SOURCE] [--work-root PATH] [limit options]
  rpg-primitive-survey scan --study ID --include-source SOURCE [--include-source SOURCE] [--work-root PATH] [limit options]
  rpg-primitive-survey tracked-audit [--repository-root PATH] [--max-tracked-bytes N]

Limit options:
  --max-repository-bytes N
  --max-decoded-documents N
  --max-samples-per-signature N
  --max-unique-shapes N
  --max-candidate-primitives N
  --max-unresolved-documents N",
    )
}

/// The usage text.
pub open spec fn usage_text() -> Seq<char> {
    "Usage:
  rpg-primitive-survey inventory --study ID --repository URL [--ref main] [--manifest system.json] [--profile generic|foundry-dnd5e|foundry-pf2e] [--content-root PATH] [--source-pointer JSON_POINTER] [--source-fallback PACK=SOURCE] [--work-root PATH] [limit options]
  rpg-primitive-survey scan --study ID --include-source SOURCE [--include-source SOURCE] [--work-root PATH] [limit options]
  rpg-primitive-survey tracked-audit [--repository-root PATH] [--max-tracked-bytes N]

Limit options:
  --max-repository-bytes N
  --max-decoded-documents N
  --max-samples-per-signature N
  --max-unique-shapes N
  --max-candidate-primitives N
  --max-unresolved-documents N"@
}


/// Prepends known pairs to a parse result.
pub open spec fn prepend_pairs(
    done: Seq<(Seq<char>, Seq<char>)>,
    rest: Result<Seq<(Seq<char>, Seq<char>)>, Seq<char>>,
) -> Result<Seq<(Seq<char>, Seq<char>)>, Seq<char>> {
    match rest {
        Ok(r) => Ok(done + r),
        Err(e) => Err(e),
    }
}

/// `s` cut at its first `c`: the text before and the text after.
pub open spec fn split_first(s: Seq<char>, c: char) -> Option<(Seq<char>, Seq<char>)>
    decreases s.len(),
{
    if s.len() == 0 {
        None
    } else if s[0] == c {
        Some((Seq::empty(), s.drop_first()))
    } else {
        match split_first(s.drop_first(), c) {
            Some(p) => Some((seq![s[0]] + p.0, p.1)),
            None => None,
        }
    }
}

/// One `KEY=VALUE` value added to a map.
pub open spec fn key_value_step(
    map: Seq<(Seq<char>, Seq<char>)>,
    name: Seq<char>,
    value: Seq<char>,
) -> Result<Seq<(Seq<char>, Seq<char>)>, Seq<char>> {
    match split_first(value, '=') {
        None => Err("--"@ + name + " value "@ + debug_text(value) + " must use KEY=VALUE syntax"@),
        Some(p) => if p.0.len() == 0 || p.1.len() == 0 {
            Err("--"@ + name + " value "@ + debug_text(value) + " must have non-empty key and value"@)
        } else if crate::inventory::pair_keys(map).contains(p.0) {
            Err("--"@ + name + " defines key "@ + debug_text(p.0) + " more than once"@)
        } else {
            Ok(insert_unique(map, p, crate::inventory::pair_order()))
        },
    }
}

/// The map of `KEY=VALUE` values, keys in ascending order, or the message of
/// the first bad value.
pub open spec fn key_values_spec(values: Seq<Seq<char>>, name: Seq<char>) -> Result<Seq<(Seq<char>, Seq<char>)>, Seq<char>>
    decreases values.len(),
{
    if values.len() == 0 {
        Ok(Seq::empty())
    } else {
        match key_values_spec(values.drop_last(), name) {
            Ok(m) => key_value_step(m, name, values.last()),
            Err(e) => Err(e),
        }
    }
}

/// No two entries share a key.
pub open spec fn keys_distinct(m: Seq<(Seq<char>, Seq<char>)>) -> bool {
    forall|a: (Seq<char>, Seq<char>), b: (Seq<char>, Seq<char>)|
        #[trigger] m.contains(a) && #[trigger] m.contains(b) && a.0 == b.0 ==> a == b
}

/// The map of accepted `KEY=VALUE` values has its keys strictly ascending.
pub proof fn lemma_key_values_ascending(values: Seq<Seq<char>>, name: Seq<char>)
    ensures
        key_values_spec(values, name) matches Ok(m) ==> strictly_sorted(m, pair_order()) && keys_distinct(m)
            && forall|i: int, j: int| 0 <= i < j < m.len() ==> chars_lt(#[trigger] m[i].0, #[trigger] m[j].0),
    decreases values.len(),
{
    lemma_pair_order_total();
    if values.len() > 0 {
        lemma_key_values_ascending(values.drop_last(), name);
        if let Ok(m0) = key_values_spec(values.drop_last(), name) {
            if let Some(p) = split_first(values.last(), '=') {
                if !(p.0.len() == 0 || p.1.len() == 0) && !pair_keys(m0).contains(p.0) {
                    let m = insert_unique(m0, p, pair_order());
                    lemma_insert_unique_sorted(m0, p, pair_order());
                    lemma_insert_unique_members(m0, p, pair_order());
                    assert forall|a: (Seq<char>, Seq<char>), b: (Seq<char>, Seq<char>)|
                        #[trigger] m.contains(a) && #[trigger] m.contains(b) && a.0 == b.0 implies a == b by {
                        if a != p && m0.contains(a) && b == p {
                            let k = choose|k: int| 0 <= k < m0.len() && m0[k] == a;
                            assert(pair_keys(m0)[k] == p.0);
                        }
                        if b != p && m0.contains(b) && a == p {
                            let k = choose|k: int| 0 <= k < m0.len() && m0[k] == b;
                            assert(pair_keys(m0)[k] == p.0);
                        }
                    }
                }
            }
        }
        if let Ok(m) = key_values_spec(values, name) {
            assert forall|i: int, j: int| 0 <= i < j < m.len() implies chars_lt(#[trigger] m[i].0, #[trigger] m[j].0) by {
                assert(pair_order()(m[i], m[j]));
                assert(m.contains(m[i]) && m.contains(m[j]));
                if m[i].0 == m[j].0 {
                    assert(m[i] == m[j]);
                }
            }
        }
    }
}

/// The first option whose name is not allowed.
pub open spec fn first_unknown(pairs: Seq<(Seq<char>, Seq<char>)>, allowed: Seq<Seq<char>>) -> Option<Seq<char>>
    decreases pairs.len(),
{
    if pairs.len() == 0 {
        None
    } else if !allowed.contains(pairs[0].0) {
        Some(pairs[0].0)
    } else {
        first_unknown(pairs.drop_first(), allowed)
    }
}

pub open spec fn str_views(v: Seq<&str>) -> Seq<Seq<char>> {
    v.map_values(|s: &str| s@)
}

/// One numeric option of the limits.
pub open spec fn limit_step(pairs: Seq<(Seq<char>, Seq<char>)>, name: Seq<char>, default: nat, wide: bool) -> Result<nat, Seq<char>> {
    match one_spec(pairs, name) {
        Err(e) => Err(e),
        Ok(v) => if wide {
            u64_option_spec(name, v, default as u64)
        } else {
            usize_option_spec(name, v, default as usize)
        },
    }
}

/// The limits the options give, defaults for those absent, or the message
/// of the first bad one.
pub open spec fn limits_spec(p: Seq<(Seq<char>, Seq<char>)>) -> Result<Seq<nat>, Seq<char>> {
    match limit_step(p, "max-repository-bytes"@, 2_000_000_000, true) {
        Err(e) => Err(e),
        Ok(a) => match limit_step(p, "max-decoded-documents"@, 100_000, false) {
            Err(e) => Err(e),
            Ok(b) => match limit_step(p, "max-samples-per-signature"@, 3, false) {
                Err(e) => Err(e),
                Ok(c) => match limit_step(p, "max-unique-shapes"@, 5_000, false) {
                    Err(e) => Err(e),
                    Ok(d) => match limit_step(p, "max-candidate-primitives"@, 1_000, false) {
                        Err(e) => Err(e),
                        Ok(e2) => match limit_step(p, "max-unresolved-documents"@, 10_000, false) {
                            Err(e) => Err(e),
                            Ok(f) => Ok(seq![a, b, c, d, e2, f]),
                        },
                    },
                },
            },
        },
    }
}

pub open spec fn limits_values(l: Limits) -> Seq<nat> {
    seq![
        l.max_repository_bytes as nat,
        l.max_decoded_documents as nat,
        l.max_samples_per_signature as nat,
        l.max_unique_shapes as nat,
        l.max_candidate_primitives as nat,
        l.max_unresolved_documents as nat,
    ]
}

impl ParsedOptions {
    pub open spec fn pairs(&self) -> Seq<(Seq<char>, Seq<char>)> {
        pair_views(self.values@)
    }

    /// The `--option value` pairs of `arguments`.
    pub fn parse(arguments: &Vec<String>) -> (r: Result<Self, String>)
        ensures
            match parse_pairs(string_views(arguments@)) {
                Ok(p) => r is Ok && r->Ok_0.pairs() == p,
                Err(e) => r is Err && r->Err_0@ == e,
            },
    {
        let ghost args = string_views(arguments@);
        let mut values: Vec<(String, String)> = Vec::new();
        let mut index: usize = 0;
        assert(args.skip(0) =~= args);
        assert(Seq::<(Seq<char>, Seq<char>)>::empty() + Seq::<(Seq<char>, Seq<char>)>::empty() =~= Seq::<(Seq<char>, Seq<char>)>::empty());
        while index < arguments.len()
            invariant
                args == string_views(arguments@),
                index <= arguments.len(),
                parse_pairs(args) == prepend_pairs(pair_views(values@), parse_pairs(args.skip(index as int))),
            decreases arguments.len() - index,
        {
            let ghost rest = args.skip(index as int);
            assert(rest[0] == arguments@[index as int]@);
            let argument = arguments[index].as_str();
            proof {
                reveal_strlit("--");
            }
            if !starts_with(argument, "--") {
                let message = concat2("expected --option, found ", debug_quoted(argument).as_str());
                return Err(message);
            }
            let length = argument.unicode_len();
            let option = argument.substring_char(2, length);
            assert(option@ =~= rest[0].skip(2));
            if index + 1 >= arguments.len() {
                return Err(concat2("missing value for --", option));
            }
            assert(rest[1] == arguments@[index + 1]@);
            if starts_with(arguments[index + 1].as_str(), "--") {
                return Err(concat2("missing value for --", option));
            }
            let ghost before = pair_views(values@);
            let pair = (String::from_str(option), arguments[index + 1].clone());
            values.push(pair);
            assert(pair_views(values@) =~= before.push((rest[0].skip(2), rest[1])));
            assert(rest.skip(2) =~= args.skip(index + 2));
            proof {
                match parse_pairs(rest.skip(2)) {
                    Ok(r2) => {
                        assert(before + (seq![(rest[0].skip(2), rest[1])] + r2) =~= before.push((rest[0].skip(2), rest[1])) + r2);
                    },
                    Err(_) => {},
                }
            }
            index = index + 2;
        }
        assert(args.skip(index as int).len() == 0);
        assert(pair_views(values@) + Seq::<(Seq<char>, Seq<char>)>::empty() =~= pair_views(values@));
        Ok(ParsedOptions { values })
    }

    /// The values given for option `name`, in order.
    pub fn many(&self, name: &str) -> (r: Vec<String>)
        ensures
            string_views(r@) == values_named(self.pairs(), name@),
    {
        let ghost p = self.pairs();
        let mut out: Vec<String> = Vec::new();
        let mut i: usize = 0;
        while i < self.values.len()
            invariant
                p == self.pairs(),
                i <= self.values.len(),
                string_views(out@) == values_named(p.take(i as int), name@),
            decreases self.values.len() - i,
        {
            assert(p.take(i + 1).drop_last() =~= p.take(i as int));
            assert(p.take(i + 1).last() == (self.values@[i as int].0@, self.values@[i as int].1@));
            if str_eq(self.values[i].0.as_str(), name) {
                let ghost before = string_views(out@);
                out.push(self.values[i].1.clone());
                assert(string_views(out@) =~= before.push(self.values@[i as int].1@));
            }
            i = i + 1;
        }
        assert(p.take(self.values.len() as int) =~= p);
        out
    }

    /// The single value of option `name`, if given; an error if repeated.
    pub fn one(&self, name: &str) -> (r: Result<Option<String>, String>)
        ensures
            opt_result_view(r) == one_spec(self.pairs(), name@),
    {
        let mut values = self.many(name);
        if values.len() == 0 {
            Ok(None)
        } else if values.len() == 1 {
            let v = values.pop().unwrap();
            assert(string_views(values@.push(v))[0] == v@);
            Ok(Some(v))
        } else {
            let mut message = concat2("--", name);
            message.append(" may be specified only once");
            Err(message)
        }
    }

    /// The single value of option `name`; an error if absent or repeated.
    pub fn required_one(&self, name: &str) -> (r: Result<String, String>)
        ensures
            text_result_view(r) == (match one_spec(self.pairs(), name@) {
                Ok(Some(v)) => Ok(v),
                Ok(None) => Err("missing required --"@ + name@),
                Err(e) => Err(e),
            }),
    {
        match self.one(name) {
            Ok(Some(v)) => Ok(v),
            Ok(None) => Err(concat2("missing required --", name)),
            Err(e) => Err(e),
        }
    }

    /// The first option not in `allowed` is refused.
    pub fn reject_unknown(&self, allowed: &Vec<&str>) -> (r: Result<(), String>)
        ensures
            match first_unknown(self.pairs(), str_views(allowed@)) {
                Some(n) => r is Err && r->Err_0@ == "unknown option --"@ + n,
                None => r is Ok,
            },
    {
        let ghost p = self.pairs();
        let ghost al = str_views(allowed@);
        let mut i: usize = 0;
        assert(p.skip(0) =~= p);
        while i < self.values.len()
            invariant
                p == self.pairs(),
                al == str_views(allowed@),
                i <= self.values.len(),
                first_unknown(p, al) == first_unknown(p.skip(i as int), al),
            decreases self.values.len() - i,
        {
            let name = self.values[i].0.as_str();
            assert(p.skip(i as int)[0] == (self.values@[i as int].0@, self.values@[i as int].1@));
            let mut k: usize = 0;
            let mut found = false;
            while k < allowed.len() && !found
                invariant
                    al == str_views(allowed@),
                    k <= allowed.len(),
                    found ==> al.contains(name@),
                    !found ==> forall|q: int| 0 <= q < k ==> al[q] != name@,
                decreases allowed.len() - k,
            {
                if str_eq(allowed[k], name) {
                    found = true;
                    assert(al[k as int] == name@);
                }
                k = k + 1;
            }
            if !found {
                assert(!al.contains(name@));
                return Err(concat2("unknown option --", name));
            }
            assert(p.skip(i as int).drop_first() =~= p.skip(i + 1));
            i = i + 1;
        }
        Ok(())
    }

    /// The `KEY=VALUE` values of option `name` as a map, keys ascending.
    #[verifier::loop_isolation(false)]
    pub fn key_values(&self, name: &str) -> (r: Result<Vec<(String, String)>, String>)
        ensures
            match key_values_spec(values_named(self.pairs(), name@), name@) {
                Ok(m) => r is Ok && pair_views(r->Ok_0@) == m,
                Err(e) => r is Err && r->Err_0@ == e,
            },
    {
        let values = self.many(name);
        let ghost vs = string_views(values@);
        let mut map: Vec<(String, String)> = Vec::new();
        let mut i: usize = 0;
        assert(vs.take(0) =~= Seq::<Seq<char>>::empty());
        assert(pair_views(map@) =~= Seq::<(Seq<char>, Seq<char>)>::empty());
        while i < values.len()
            invariant
                vs == string_views(values@),
                i <= values.len(),
                key_values_spec(vs.take(i as int), name@) == Ok::<Seq<(Seq<char>, Seq<char>)>, Seq<char>>(pair_views(map@)),
            decreases values.len() - i,
        {
            assert(vs.take(i + 1).drop_last() =~= vs.take(i as int));
            assert(vs.take(i + 1).last() == values@[i as int]@);
            let value = values[i].as_str();
            let chars = crate::text::chars_of(value);
            let mut e: usize = 0;
            while e < chars.len() && chars[e] != '='
                invariant
                    chars@ == value@,
                    e <= chars.len(),
                    forall|q: int| 0 <= q < e ==> chars@[q] != '=',
                decreases chars.len() - e,
            {
                e = e + 1;
            }
            proof {
                lemma_split_first(value@, '=', e as int);
            }
            if e == chars.len() {
                let mut message = concat3("--", name, " value ");
                message.append(debug_quoted(value).as_str());
                message.append(" must use KEY=VALUE syntax");
                proof {
                    assert(vs.take(i + 1).drop_last() =~= vs.take(i as int));
                    assert(key_values_spec(vs.take(i + 1), name@) == Err::<Seq<(Seq<char>, Seq<char>)>, Seq<char>>(message@));
                    lemma_key_values_error(vs, name@, i + 1);
                }
                return Err(message);
            }
            let key = value.substring_char(0, e);
            let mapped = value.substring_char(e + 1, chars.len());
            if e == 0 || e + 1 == chars.len() {
                let mut message = concat3("--", name, " value ");
                message.append(debug_quoted(value).as_str());
                message.append(" must have non-empty key and value");
                proof {
                    assert(vs.take(i + 1).drop_last() =~= vs.take(i as int));
                    assert(key_values_spec(vs.take(i + 1), name@) == Err::<Seq<(Seq<char>, Seq<char>)>, Seq<char>>(message@));
                    assert(key@ =~= value@.take(e as int));
                    assert(mapped@ =~= value@.skip(e + 1));
                    lemma_key_values_error(vs, name@, i + 1);
                }
                return Err(message);
            }
            let ghost m = pair_views(map@);
            let mut k: usize = 0;
            while k < map.len()
                invariant
                    m == pair_views(map@),
                    k <= map.len(),
                    forall|q: int| 0 <= q < k ==> map@[q].0@ != key@,
                decreases map.len() - k,
            {
                if str_eq(map[k].0.as_str(), key) {
                    assert(crate::inventory::pair_keys(m)[k as int] == key@);
                    let mut message = concat3("--", name, " defines key ");
                    message.append(debug_quoted(key).as_str());
                    message.append(" more than once");
                    proof {
                        assert(vs.take(i + 1).drop_last() =~= vs.take(i as int));
                        assert(key_values_spec(vs.take(i + 1), name@) == Err::<Seq<(Seq<char>, Seq<char>)>, Seq<char>>(message@));
                        assert(key@ =~= value@.take(e as int));
                        assert(crate::inventory::pair_keys(m).contains(key@));
                        lemma_key_values_error(vs, name@, i + 1);
                    }
                    return Err(message);
                }
                k = k + 1;
            }
            assert(!crate::inventory::pair_keys(m).contains(key@)) by {
                if crate::inventory::pair_keys(m).contains(key@) {
                    let q = choose|q: int| 0 <= q < m.len() && #[trigger] crate::inventory::pair_keys(m)[q] == key@;
                    assert(map@[q].0@ == key@);
                }
            }
            assert(key@ =~= value@.take(e as int));
            assert(mapped@ =~= value@.skip(e + 1));
            crate::inventory::insert_pair_unique(&mut map, (String::from_str(key), String::from_str(mapped)));
            i = i + 1;
        }
        assert(vs.take(values.len() as int) =~= vs);
        Ok(map)
    }

    /// The limits the options give, defaults for those absent.
    pub fn limits(&self) -> (r: Result<Limits, String>)
        ensures
            match limits_spec(self.pairs()) {
                Ok(v) => r is Ok && limits_values(r->Ok_0) == v,
                Err(e) => r is Err && r->Err_0@ == e,
            },
    {
        let defaults = Limits::default();
        let ghost p = self.pairs();
        let a = match self.one("max-repository-bytes") {
            Ok(v) => match parse_u64("max-repository-bytes", v, defaults.max_repository_bytes) {
                Ok(n) => n,
                Err(e) => {
                    return Err(e);
                },
            },
            Err(e) => {
                return Err(e);
            },
        };
        let b = match self.one("max-decoded-documents") {
            Ok(v) => match parse_usize("max-decoded-documents", v, defaults.max_decoded_documents) {
                Ok(n) => n,
                Err(e) => {
                    return Err(e);
                },
            },
            Err(e) => {
                return Err(e);
            },
        };
        let c = match self.one("max-samples-per-signature") {
            Ok(v) => match parse_usize("max-samples-per-signature", v, defaults.max_samples_per_signature) {
                Ok(n) => n,
                Err(e) => {
                    return Err(e);
                },
            },
            Err(e) => {
                return Err(e);
            },
        };
        let d = match self.one("max-unique-shapes") {
            Ok(v) => match parse_usize("max-unique-shapes", v, defaults.max_unique_shapes) {
                Ok(n) => n,
                Err(e) => {
                    return Err(e);
                },
            },
            Err(e) => {
                return Err(e);
            },
        };
        let e2 = match self.one("max-candidate-primitives") {
            Ok(v) => match parse_usize("max-candidate-primitives", v, defaults.max_candidate_primitives) {
                Ok(n) => n,
                Err(e) => {
                    return Err(e);
                },
            },
            Err(e) => {
                return Err(e);
            },
        };
        let f = match self.one("max-unresolved-documents") {
            Ok(v) => match parse_usize("max-unresolved-documents", v, defaults.max_unresolved_documents) {
                Ok(n) => n,
                Err(e) => {
                    return Err(e);
                },
            },
            Err(e) => {
                return Err(e);
            },
        };
        let r = Limits {
            max_repository_bytes: a,
            max_decoded_documents: b,
            max_samples_per_signature: c,
            max_unique_shapes: d,
            max_candidate_primitives: e2,
            max_unresolved_documents: f,
        };
        assert(limits_values(r) =~= seq![a as nat, b as nat, c as nat, d as nat, e2 as nat, f as nat]);
        Ok(r)
    }
}

proof fn lemma_split_first(s: Seq<char>, c: char, e: int)
    requires
        0 <= e <= s.len(),
        forall|q: int| 0 <= q < e ==> s[q] != c,
        e < s.len() ==> s[e] == c,
    ensures
        e == s.len() ==> split_first(s, c) is None,
        e < s.len() ==> split_first(s, c) == Some((s.take(e), s.skip(e + 1))),
    decreases e,
{
    if e > 0 {
        let t = s.drop_first();
        assert forall|q: int| 0 <= q < e - 1 implies t[q] != c by {
            assert(t[q] == s[q + 1]);
        }
        if e < s.len() {
            assert(t[e - 1] == s[e]);
        }
        lemma_split_first(t, c, e - 1);
        if e < s.len() {
            assert(seq![s[0]] + t.take(e - 1) =~= s.take(e));
            assert(t.skip(e) =~= s.skip(e + 1));
        }
    } else if s.len() > 0 {
        assert(s.take(0) =~= Seq::<char>::empty());
        assert(s.skip(1) =~= s.drop_first());
    }
}

proof fn lemma_key_values_error(vs: Seq<Seq<char>>, name: Seq<char>, n: int)
    requires
        0 <= n <= vs.len(),
        key_values_spec(vs.take(n), name) is Err,
    ensures
        key_values_spec(vs, name) == key_values_spec(vs.take(n), name),
    decreases vs.len() - n,
{
    if n < vs.len() {
        assert(vs.take(n + 1).drop_last() =~= vs.take(n));
        lemma_key_values_error(vs, name, n + 1);
    } else {
        assert(vs.take(n) =~= vs);
    }
}

/// The command a command line names.
#[derive(Clone, Copy, Debug, PartialEq, Eq)]
pub enum Command {
    Inventory,
    Scan,
    TrackedAudit,
    Help,
}

/// The command and options of a command line, or the message that refuses it.
pub open spec fn command_spec(args: Seq<Seq<char>>) -> Result<(Command, Seq<(Seq<char>, Seq<char>)>), Seq<char>> {
    if args.len() == 0 {
        Err(usage_text())
    } else {
        match parse_pairs(args.drop_first()) {
            Err(e) => Err(e),
            Ok(p) => {
                let c = args[0];
                if c == "inventory"@ {
                    Ok((Command::Inventory, p))
                } else if c == "scan"@ {
                    Ok((Command::Scan, p))
                } else if c == "tracked-audit"@ {
                    Ok((Command::TrackedAudit, p))
                } else if c == "help"@ || c == "--help"@ || c == "-h"@ {
                    Ok((Command::Help, p))
                } else {
                    Err("unknown command "@ + debug_text(c) + "\n\n"@ + usage_text())
                }
            },
        }
    }
}

/// The command and options of a command line.
pub fn select_command(arguments: &Vec<String>) -> (r: Result<(Command, ParsedOptions), String>)
    ensures
        match command_spec(string_views(arguments@)) {
            Ok((c, p)) => r is Ok && r->Ok_0.0 == c && r->Ok_0.1.pairs() == p,
            Err(e) => r is Err && r->Err_0@ == e,
        },
{
    if arguments.len() == 0 {
        return Err(usage());
    }
    let ghost args = string_views(arguments@);
    let mut rest: Vec<String> = Vec::new();
    let mut i: usize = 1;
    while i < arguments.len()
        invariant
            args == string_views(arguments@),
            1 <= i <= arguments.len(),
            string_views(rest@) == args.drop_first().take(i - 1),
        decreases arguments.len() - i,
    {
        let ghost before = string_views(rest@);
        rest.push(arguments[i].clone());
        assert(string_views(rest@) =~= before.push(arguments@[i as int]@));
        i = i + 1;
        assert(string_views(rest@) =~= args.drop_first().take(i - 1));
    }
    assert(args.drop_first().take(arguments.len() - 1) =~= args.drop_first());
    let options = match ParsedOptions::parse(&rest) {
        Ok(o) => o,
        Err(e) => {
            return Err(e);
        },
    };
    let command = arguments[0].as_str();
    assert(args[0] == command@);
    if str_eq(command, "inventory") {
        Ok((Command::Inventory, options))
    } else if str_eq(command, "scan") {
        Ok((Command::Scan, options))
    } else if str_eq(command, "tracked-audit") {
        Ok((Command::TrackedAudit, options))
    } else if str_eq(command, "help") || str_eq(command, "--help") || str_eq(command, "-h") {
        Ok((Command::Help, options))
    } else {
        let mut message = concat2("unknown command ", debug_quoted(command).as_str());
        message.append("\n\n");
        message.append(usage().as_str());
        Err(message)
    }
}

/// The limit options every command with limits accepts.
pub open spec fn limit_option_names() -> Seq<Seq<char>> {
    seq![
        "max-repository-bytes"@,
        "max-decoded-documents"@,
        "max-samples-per-signature"@,
        "max-unique-shapes"@,
        "max-candidate-primitives"@,
        "max-unresolved-documents"@,
    ]
}

/// The options `inventory` accepts.
pub open spec fn inventory_option_names() -> Seq<Seq<char>> {
    seq![
        "study"@,
        "repository"@,
        "ref"@,
        "manifest"@,
        "profile"@,
        "content-root"@,
        "source-pointer"@,
        "source-fallback"@,
        "work-root"@,
    ] + limit_option_names()
}

/// The options `scan` accepts.
pub open spec fn scan_option_names() -> Seq<Seq<char>> {
    seq!["study"@, "include-source"@, "work-root"@] + limit_option_names()
}

/// The options `tracked-audit` accepts.
pub open spec fn audit_option_names() -> Seq<Seq<char>> {
    seq!["repository-root"@, "max-tracked-bytes"@]
}

/// The required single value of an option.
pub open spec fn required_spec(p: Seq<(Seq<char>, Seq<char>)>, name: Seq<char>) -> Result<Seq<char>, Seq<char>> {
    match one_spec(p, name) {
        Ok(Some(v)) => Ok(v),
        Ok(None) => Err("missing required --"@ + name),
        Err(e) => Err(e),
    }
}

/// The single value of an option, or a default.
pub open spec fn one_or_spec(p: Seq<(Seq<char>, Seq<char>)>, name: Seq<char>, default: Seq<char>) -> Result<Seq<char>, Seq<char>> {
    match one_spec(p, name) {
        Ok(Some(v)) => Ok(v),
        Ok(None) => Ok(default),
        Err(e) => Err(e),
    }
}

/// The study id of a command line: required, and a valid id.
pub open spec fn study_spec(p: Seq<(Seq<char>, Seq<char>)>) -> Result<Seq<char>, Seq<char>> {
    match required_spec(p, "study"@) {
        Err(e) => Err(e),
        Ok(s) => if crate::safety::valid_study_id(s) {
            Ok(s)
        } else {
            Err("study id "@ + debug_text(s) + " must contain only ASCII letters, digits, '-' or '_'"@)
        },
    }
}

/// What `inventory` needs before its work root is prepared: study id,
/// repository, ref (`main` by default) and work root (`.work` by default).
pub open spec fn inventory_start_spec(p: Seq<(Seq<char>, Seq<char>)>) -> Result<Seq<Seq<char>>, Seq<char>> {
    match first_unknown(p, inventory_option_names()) {
        Some(n) => Err("unknown option --"@ + n),
        None => match study_spec(p) {
            Err(e) => Err(e),
            Ok(study) => match required_spec(p, "repository"@) {
                Err(e) => Err(e),
                Ok(repository) => match one_or_spec(p, "ref"@, "main"@) {
                    Err(e) => Err(e),
                    Ok(requested_ref) => match one_or_spec(p, "work-root"@, ".work"@) {
                        Err(e) => Err(e),
                        Ok(work_root) => Ok(seq![study, repository, requested_ref, work_root]),
                    },
                },
            },
        },
    }
}

fn names_list(names: Vec<&'static str>) -> (r: Vec<&'static str>)
    ensures
        r == names,
{
    names
}

fn inventory_allowed() -> (r: Vec<&'static str>)
    ensures
        str_views(r@) == inventory_option_names(),
{
    let r = names_list(vec![
        "study",
        "repository",
        "ref",
        "manifest",
        "profile",
        "content-root",
        "source-pointer",
        "source-fallback",
        "work-root",
        "max-repository-bytes",
        "max-decoded-documents",
        "max-samples-per-signature",
        "max-unique-shapes",
        "max-candidate-primitives",
        "max-unresolved-documents",
    ]);
    assert(str_views(r@) =~= inventory_option_names());
    r
}

fn scan_allowed() -> (r: Vec<&'static str>)
    ensures
        str_views(r@) == scan_option_names(),
{
    let r = names_list(vec![
        "study",
        "include-source",
        "work-root",
        "max-repository-bytes",
        "max-decoded-documents",
        "max-samples-per-signature",
        "max-unique-shapes",
        "max-candidate-primitives",
        "max-unresolved-documents",
    ]);
    assert(str_views(r@) =~= scan_option_names());
    r
}

impl ParsedOptions {
    fn one_or(&self, name: &str, default: &str) -> (r: Result<String, String>)
        ensures
            text_result_view(r) == one_or_spec(self.pairs(), name@, default@),
    {
        match self.one(name) {
            Ok(Some(v)) => Ok(v),
            Ok(None) => Ok(String::from_str(default)),
            Err(e) => Err(e),
        }
    }

    fn study(&self) -> (r: Result<String, String>)
        ensures
            text_result_view(r) == study_spec(self.pairs()),
    {
        let study = match self.required_one("study") {
            Ok(s) => s,
            Err(e) => {
                return Err(e);
            },
        };
        match crate::safety::validate_study_id(study.as_str()) {
            Ok(()) => Ok(study),
            Err(e) => Err(e),
        }
    }

    /// What `inventory` needs before its work root is prepared: study id,
    /// repository, ref and work root, in that order.
    pub fn inventory_start(&self) -> (r: Result<Vec<String>, String>)
        ensures
            match inventory_start_spec(self.pairs()) {
                Ok(v) => r is Ok && string_views(r->Ok_0@) == v,
                Err(e) => r is Err && r->Err_0@ == e,
            },
    {
        match self.reject_unknown(&inventory_allowed()) {
            Ok(()) => {},
            Err(e) => {
                return Err(e);
            },
        }
        let study = match self.study() {
            Ok(s) => s,
            Err(e) => {
                return Err(e);
            },
        };
        let repository = match self.required_one("repository") {
            Ok(s) => s,
            Err(e) => {
                return Err(e);
            },
        };
        let requested_ref = match self.one_or("ref", "main") {
            Ok(s) => s,
            Err(e) => {
                return Err(e);
            },
        };
        let work_root = match self.one_or("work-root", ".work") {
            Ok(s) => s,
            Err(e) => {
                return Err(e);
            },
        };
        let ghost v = seq![study@, repository@, requested_ref@, work_root@];
        let mut out: Vec<String> = Vec::new();
        out.push(study);
        out.push(repository);
        out.push(requested_ref);
        out.push(work_root);
        assert(string_views(out@) =~= v);
        Ok(out)
    }

    /// What `scan` needs before its work root is prepared: study id and work
    /// root, in that order.
    pub fn scan_start(&self) -> (r: Result<Vec<String>, String>)
        ensures
            match first_unknown(self.pairs(), scan_option_names()) {
                Some(n) => r is Err && r->Err_0@ == "unknown option --"@ + n,
                None => match study_spec(self.pairs()) {
                    Err(e) => r is Err && r->Err_0@ == e,
                    Ok(study) => match one_or_spec(self.pairs(), "work-root"@, ".work"@) {
                        Err(e) => r is Err && r->Err_0@ == e,
                        Ok(w) => r is Ok && string_views(r->Ok_0@) == seq![study, w],
                    },
                },
            },
    {
        match self.reject_unknown(&scan_allowed()) {
            Ok(()) => {},
            Err(e) => {
                return Err(e);
            },
        }
        let study = match self.study() {
            Ok(s) => s,
            Err(e) => {
                return Err(e);
            },
        };
        let work_root = match self.one_or("work-root", ".work") {
            Ok(s) => s,
            Err(e) => {
                return Err(e);
            },
        };
        let ghost v = seq![study@, work_root@];
        let mut out: Vec<String> = Vec::new();
        out.push(study);
        out.push(work_root);
        assert(string_views(out@) =~= v);
        Ok(out)
    }

    /// What `tracked-audit` needs: the repository root (`.` by default) and
    /// the tracked-file bound (1,000,000 bytes by default).
    pub fn audit_request(&self) -> (r: Result<(String, u64), String>)
        ensures
            match first_unknown(self.pairs(), audit_option_names()) {
                Some(n) => r is Err && r->Err_0@ == "unknown option --"@ + n,
                None => match one_or_spec(self.pairs(), "repository-root"@, "."@) {
                    Err(e) => r is Err && r->Err_0@ == e,
                    Ok(root) => match one_spec(self.pairs(), "max-tracked-bytes"@) {
                        Err(e) => r is Err && r->Err_0@ == e,
                        Ok(v) => match u64_option_spec("max-tracked-bytes"@, v, 1_000_000) {
                            Ok(n) => r is Ok && r->Ok_0.0@ == root && r->Ok_0.1 as nat == n,
                            Err(e) => r is Err && r->Err_0@ == e,
                        },
                    },
                },
            },
    {
        let allowed = names_list(vec!["repository-root", "max-tracked-bytes"]);
        assert(str_views(allowed@) =~= audit_option_names());
        match self.reject_unknown(&allowed) {
            Ok(()) => {},
            Err(e) => {
                return Err(e);
            },
        }
        let root = match self.one_or("repository-root", ".") {
            Ok(s) => s,
            Err(e) => {
                return Err(e);
            },
        };
        let value = match self.one("max-tracked-bytes") {
            Ok(v) => v,
            Err(e) => {
                return Err(e);
            },
        };
        match parse_u64("max-tracked-bytes", value, 1_000_000) {
            Ok(n) => Ok((root, n)),
            Err(e) => Err(e),
        }
    }
}

impl ParsedOptions {
    /// The inventory request of a command line whose study, repository, ref
    /// and work root were accepted: limits, profile, manifest path
    /// (`system.json` by default), content roots, source pointers and
    /// source fallbacks.
    pub fn inventory_options(
        &self,
        study_id: String,
        repository: String,
        requested_ref: String,
        studies_root: String,
    ) -> (r: Result<InventoryOptions, String>)
        ensures
            match limits_spec(self.pairs()) {
                Err(e) => r is Err && r->Err_0@ == e,
                Ok(lv) => match one_spec(self.pairs(), "profile"@) {
                    Err(e) => r is Err && r->Err_0@ == e,
                    Ok(pv) => match profile_spec(pv) {
                        Err(e) => r is Err && r->Err_0@ == e,
                        Ok(profile) => match one_or_spec(self.pairs(), "manifest"@, "system.json"@) {
                            Err(e) => r is Err && r->Err_0@ == e,
                            Ok(manifest) => match key_values_spec(values_named(self.pairs(), "source-fallback"@), "source-fallback"@) {
                                Err(e) => r is Err && r->Err_0@ == e,
                                Ok(m) => r is Ok && {
                                    let o = r->Ok_0;
                                    &&& o.study_id == study_id
                                    &&& o.profile == profile
                                    &&& o.repository == repository
                                    &&& o.requested_ref == requested_ref
                                    &&& o.manifest_path@ == manifest
                                    &&& string_views(o.content_roots@) == values_named(self.pairs(), "content-root"@)
                                    &&& string_views(o.source_pointers@) == values_named(self.pairs(), "source-pointer"@)
                                    &&& fallback_views(o.source_fallbacks@) == m
                                    &&& fallbacks_wf(o.source_fallbacks@)
                                    &&& limits_values(o.limits) == lv
                                    &&& o.studies_root == studies_root
                                },
                            },
                        },
                    },
                },
            },
    {
        let limits = match self.limits() {
            Ok(l) => l,
            Err(e) => {
                return Err(e);
            },
        };
        let profile_value = match self.one("profile") {
            Ok(v) => v,
            Err(e) => {
                return Err(e);
            },
        };
        let profile = match parse_profile(profile_value) {
            Ok(p) => p,
            Err(e) => {
                return Err(e);
            },
        };
        let manifest_path = match self.one_or("manifest", "system.json") {
            Ok(m) => m,
            Err(e) => {
                return Err(e);
            },
        };
        let content_roots = self.many("content-root");
        let source_pointers = self.many("source-pointer");
        let pairs = match self.key_values("source-fallback") {
            Ok(m) => m,
            Err(e) => {
                return Err(e);
            },
        };
        let ghost pv = pair_views(pairs@);
        let mut source_fallbacks: Vec<SourceFallback> = Vec::new();
        let mut i: usize = 0;
        while i < pairs.len()
            invariant
                pv == pair_views(pairs@),
                i <= pairs.len(),
                fallback_views(source_fallbacks@) == pv.take(i as int),
            decreases pairs.len() - i,
        {
            let ghost before = fallback_views(source_fallbacks@);
            let entry = SourceFallback { pack_id: pairs[i].0.clone(), source: pairs[i].1.clone() };
            source_fallbacks.push(entry);
            assert(fallback_views(source_fallbacks@) =~= before.push(pv[i as int]));
            i = i + 1;
            assert(fallback_views(source_fallbacks@) =~= pv.take(i as int));
        }
        assert(pv.take(pairs.len() as int) =~= pv);
        proof {
            lemma_key_values_ascending(values_named(self.pairs(), "source-fallback"@), "source-fallback"@);
            assert forall|i: int, j: int| 0 <= i < j < source_fallbacks@.len() implies chars_lt(
                #[trigger] source_fallbacks@[i].pack_id@,
                #[trigger] source_fallbacks@[j].pack_id@,
            ) by {
                assert(fallback_views(source_fallbacks@)[i].0 == source_fallbacks@[i].pack_id@);
                assert(fallback_views(source_fallbacks@)[j].0 == source_fallbacks@[j].pack_id@);
            }
        }
        Ok(InventoryOptions {
            study_id,
            profile,
            repository,
            requested_ref,
            manifest_path,
            content_roots,
            source_pointers,
            source_fallbacks,
            limits,
            studies_root,
        })
    }

    /// The scan request of a command line whose study and work root were
    /// accepted: the included sources and the limits.
    pub fn scan_options(&self, study_id: String, studies_root: String) -> (r: Result<ScanOptions, String>)
        ensures
            match limits_spec(self.pairs()) {
                Err(e) => r is Err && r->Err_0@ == e,
                Ok(lv) => r is Ok && r->Ok_0.study_id == study_id && string_views(r->Ok_0.included_sources@)
                    == values_named(self.pairs(), "include-source"@) && limits_values(r->Ok_0.limits) == lv
                    && r->Ok_0.studies_root == studies_root,
            },
    {
        let included_sources = self.many("include-source");
        match self.limits() {
            Ok(limits) => Ok(ScanOptions { study_id, included_sources, limits, studies_root }),
            Err(e) => Err(e),
        }
    }
}
/// The value a limit takes: the number given by its one option, else the
/// default.
pub open spec fn given_or(p: Seq<(Seq<char>, Seq<char>)>, name: Seq<char>, default: nat) -> nat {
    if values_named(p, name).len() == 1 {
        u64_text_value(values_named(p, name)[0])
    } else {
        default
    }
}

/// Whether an option is given at most once, as a number that fits.
pub open spec fn limit_option_ok(p: Seq<(Seq<char>, Seq<char>)>, name: Seq<char>, wide: bool) -> bool {
    let vs = values_named(p, name);
    vs.len() == 0 || (vs.len() == 1 && if wide {
        u64_text_ok(vs[0])
    } else {
        usize_text_ok(vs[0])
    })
}

/// Each limit takes the number of its own option, `--max-repository-bytes`,
/// `--max-decoded-documents`, `--max-samples-per-signature`,
/// `--max-unique-shapes`, `--max-candidate-primitives` and
/// `--max-unresolved-documents` in the order of the fields, or its default
/// when the option is absent; the limits parse exactly when each of these
/// options is given at most once, as a number that fits.
pub proof fn law_limits_take_their_own_options(p: Seq<(Seq<char>, Seq<char>)>)
    ensures
        limits_spec(p) is Ok <==> (limit_option_ok(p, "max-repository-bytes"@, true)
            && limit_option_ok(p, "max-decoded-documents"@, false)
            && limit_option_ok(p, "max-samples-per-signature"@, false)
            && limit_option_ok(p, "max-unique-shapes"@, false)
            && limit_option_ok(p, "max-candidate-primitives"@, false)
            && limit_option_ok(p, "max-unresolved-documents"@, false)),
        limits_spec(p) matches Ok(lv) ==> lv == seq![
            given_or(p, "max-repository-bytes"@, 2_000_000_000),
            given_or(p, "max-decoded-documents"@, 100_000),
            given_or(p, "max-samples-per-signature"@, 3),
            given_or(p, "max-unique-shapes"@, 5_000),
            given_or(p, "max-candidate-primitives"@, 1_000),
            given_or(p, "max-unresolved-documents"@, 10_000),
        ],
{
}

/// A command line's options are its arguments taken in pairs: each option
/// is an argument `--NAME` followed by its value, an argument that does not
/// start with `--`; nothing is dropped or reordered.
pub proof fn law_options_are_argument_pairs(args: Seq<Seq<char>>)
    ensures
        parse_pairs(args) matches Ok(p) ==> args.len() == 2 * p.len() && forall|i: int|
            0 <= i < p.len() ==> args[2 * i] == "--"@ + (#[trigger] p[i]).0 && args[2 * i + 1] == p[i].1
                && !"--"@.is_prefix_of(p[i].1),
    decreases args.len(),
{
    if args.len() >= 2 && "--"@.is_prefix_of(args[0]) && !"--"@.is_prefix_of(args[1]) {
        law_options_are_argument_pairs(args.skip(2));
        if let Ok(p) = parse_pairs(args) {
            let rest = parse_pairs(args.skip(2))->Ok_0;
            assert(p == seq![(args[0].skip(2), args[1])] + rest);
            assert forall|i: int| 0 <= i < p.len() implies args[2 * i] == "--"@ + (#[trigger] p[i]).0
                && args[2 * i + 1] == p[i].1 && !"--"@.is_prefix_of(p[i].1) by {
                if i == 0 {
                    reveal_strlit("--");
                    assert("--"@.len() == 2);
                    assert(args[0].take(2) =~= "--"@);
                    assert(args[0] =~= "--"@ + args[0].skip(2));
                } else {
                    assert(p[i] == rest[i - 1]);
                    assert(args.skip(2)[2 * (i - 1)] == args[2 * i]);
                    assert(args.skip(2)[2 * (i - 1) + 1] == args[2 * i + 1]);
                }
            }
        }
    }
}

} // verus!
