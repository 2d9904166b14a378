//! What the Git commands of a survey report, read: remote refs, tree sizes,
//! checkout cleanliness, and the size bounds of a pinned checkout.

use vstd::prelude::*;

use crate::order::insert_stable;
use crate::order::lemma_insert_stable_at;
use crate::order::sort_stable;
use crate::text::chars_of;
use crate::text::chars_order;
use crate::text::concat2;
use crate::text::concat3;
use crate::text::contains_str;
use crate::text::contains_text;
use crate::text::debug_quoted;
use crate::text::debug_text;
use crate::text::is_whitespace;
use crate::text::join_strings;
use crate::text::join_text;
use crate::text::starts_with;
use crate::text::str_eq;
use crate::text::str_less;
use crate::text::string_views;
use crate::text::trim;
use crate::text::trimmed;

verus! {

/// Bytes kept free beyond the checkout's own size.
pub const MATERIALIZATION_RESERVE_BYTES: u64 = 1_048_576;

/// The commit a remote ref points to.
#[derive(Clone, Debug, PartialEq, Eq)]
pub struct RemoteRefEvidence {
    pub commit: String,
}

/// The outcome of materialising a pinned checkout.
#[derive(Clone, Copy, Debug, PartialEq, Eq)]
pub enum MaterializeOutcome {
    Ready,
    LimitExceeded { observed_bytes: u64 },
}

/// `s` cut at every `sep`, from the front.
pub open spec fn split_front(s: Seq<char>, sep: char) -> Seq<Seq<char>>
    decreases s.len(),
{
    match first_index(s, sep) {
        Some(i) => {
            proof {
                lemma_first_index_bound(s, sep);
            }
            seq![s.take(i as int)] + split_front(s.skip(i as int + 1), sep)
        },
        None => seq![s],
    }
}

/// The position of the first `c` in `s`.
pub open spec fn first_index(s: Seq<char>, c: char) -> Option<nat>
    decreases s.len(),
{
    if s.len() == 0 {
        None
    } else if s[0] == c {
        Some(0)
    } else {
        match first_index(s.drop_first(), c) {
            Some(i) => Some(i + 1),
            None => None,
        }
    }
}

proof fn lemma_first_index(s: Seq<char>, c: char, i: int)
    requires
        0 <= i <= s.len(),
        forall|q: int| 0 <= q < i ==> s[q] != c,
        i < s.len() ==> s[i] == c,
    ensures
        i == s.len() ==> first_index(s, c) is None,
        i < s.len() ==> first_index(s, c) == Some(i as nat),
    decreases i,
{
    if i > 0 {
        let t = s.drop_first();
        assert forall|q: int| 0 <= q < i - 1 implies t[q] != c by {
            assert(t[q] == s[q + 1]);
        }
        if i < s.len() {
            assert(t[i - 1] == s[i]);
        }
        lemma_first_index(t, c, i - 1);
    }
}

pub proof fn lemma_first_index_bound(s: Seq<char>, c: char)
    ensures
        first_index(s, c) matches Some(i) ==> i < s.len(),
    decreases s.len(),
{
    if s.len() > 0 {
        lemma_first_index_bound(s.drop_first(), c);
    }
}

/// `s` without a final carriage return.
pub open spec fn strip_cr(l: Seq<char>) -> Seq<char> {
    if l.len() > 0 && l.last() == '\r' {
        l.drop_last()
    } else {
        l
    }
}

/// The lines of `s` (`str::lines`): cut at line feeds, a carriage return
/// before a line feed dropped, no final empty line.
pub open spec fn lines_of(s: Seq<char>) -> Seq<Seq<char>> {
    let parts = split_front(s, '\n');
    let body = parts.drop_last().map_values(|l: Seq<char>| strip_cr(l));
    if parts.last().len() == 0 {
        body
    } else {
        body.push(parts.last())
    }
}

/// Length of the leading run of non-whitespace characters.
pub open spec fn word_len(s: Seq<char>) -> nat
    decreases s.len(),
{
    if s.len() == 0 || is_whitespace(s[0]) {
        0
    } else {
        1 + word_len(s.drop_first())
    }
}

/// The whitespace-separated words of `s` (`str::split_whitespace`).
pub open spec fn words(s: Seq<char>) -> Seq<Seq<char>>
    decreases s.len(),
{
    if s.len() == 0 {
        Seq::empty()
    } else if is_whitespace(s[0]) {
        words(s.drop_first())
    } else {
        proof {
            lemma_word_len(s);
        }
        seq![s.take(word_len(s) as int)] + words(s.skip(word_len(s) as int))
    }
}

pub proof fn lemma_word_len(s: Seq<char>)
    ensures
        word_len(s) <= s.len(),
        s.len() > 0 && !is_whitespace(s[0]) ==> word_len(s) > 0,
    decreases s.len(),
{
    if s.len() > 0 {
        lemma_word_len(s.drop_first());
    }
}

proof fn lemma_word_len_at(s: Seq<char>, k: int)
    requires
        0 <= k <= s.len(),
        forall|q: int| 0 <= q < k ==> !is_whitespace(#[trigger] s[q]),
        k < s.len() ==> is_whitespace(s[k]),
    ensures
        word_len(s) == k,
    decreases k,
{
    if k > 0 {
        let t = s.drop_first();
        assert forall|q: int| 0 <= q < k - 1 implies !is_whitespace(#[trigger] t[q]) by {
            assert(t[q] == s[q + 1]);
        }
        if k < s.len() {
            assert(t[k - 1] == s[k]);
        }
        lemma_word_len_at(t, k - 1);
    }
}

fn whitespace_char(c: char) -> (r: bool)
    ensures
        r == is_whitespace(c),
{
    let n = c as u32;
    (9 <= n && n <= 13) || n == 32 || n == 0x85 || n == 0xa0 || n == 0x1680 || (0x2000 <= n && n
        <= 0x200a) || n == 0x2028 || n == 0x2029 || n == 0x202f || n == 0x205f || n == 0x3000
}

/// The whitespace-separated words of `s`.
pub fn words_of(s: &str) -> (r: Vec<String>)
    ensures
        string_views(r@) == words(s@),
{
    let chars = chars_of(s);
    let n = chars.len();
    let mut out: Vec<String> = Vec::new();
    let mut i: usize = 0;
    assert(s@.skip(0) =~= s@);
    assert(string_views(out@) + words(s@.skip(0)) =~= words(s@));
    while i < n
        invariant
            chars@ == s@,
            n == s@.len(),
            i <= n,
            string_views(out@) + words(s@.skip(i as int)) == words(s@),
        decreases n - i,
    {
        let ghost rest = s@.skip(i as int);
        if whitespace_char(chars[i]) {
            assert(rest.drop_first() =~= s@.skip(i + 1));
            i = i + 1;
        } else {
            let mut j: usize = i;
            while j < n && !whitespace_char(chars[j])
                invariant
                    chars@ == s@,
                    n == s@.len(),
                    i <= j <= n,
                    forall|q: int| i <= q < j ==> !is_whitespace(#[trigger] s@[q]),
                decreases n - j,
            {
                j = j + 1;
            }
            proof {
                assert forall|q: int| 0 <= q < j - i implies !is_whitespace(#[trigger] rest[q]) by {
                    assert(rest[q] == s@[q + i]);
                }
                if j < n {
                    assert(rest[j - i] == s@[j as int]);
                }
                lemma_word_len_at(rest, j - i);
            }
            let word = s.substring_char(i, j);
            assert(word@ =~= rest.take(j - i));
            assert(rest.skip(j - i) =~= s@.skip(j as int));
            let ghost before = string_views(out@);
            out.push(String::from_str(word));
            assert(string_views(out@) =~= before.push(word@));
            assert(before + (seq![word@] + words(s@.skip(j as int))) =~= before.push(word@) + words(
                s@.skip(j as int),
            ));
            i = j;
        }
    }
    assert(s@.skip(n as int) =~= Seq::<char>::empty());
    assert(string_views(out@) + Seq::<Seq<char>>::empty() =~= string_views(out@));
    out
}

/// The lines of `s`.
pub fn lines(s: &str) -> (r: Vec<String>)
    ensures
        string_views(r@) == lines_of(s@),
{
    let chars = chars_of(s);
    let n = chars.len();
    let mut parts: Vec<String> = Vec::new();
    let mut start: usize = 0;
    assert(s@.skip(0) =~= s@);
    assert(string_views(parts@) + split_front(s@.skip(0), '\n') =~= split_front(s@, '\n'));
    loop
        invariant_except_break
            chars@ == s@,
            n == s@.len(),
            start <= n,
            string_views(parts@) + split_front(s@.skip(start as int), '\n') == split_front(s@, '\n'),
        ensures
            string_views(parts@) == split_front(s@, '\n'),
            parts.len() >= 1,
        decreases n - start,
    {
        let ghost rest = s@.skip(start as int);
        let mut j: usize = start;
        while j < n && chars[j] != '\n'
            invariant
                chars@ == s@,
                n == s@.len(),
                start <= j <= n,
                forall|q: int| start <= q < j ==> s@[q] != '\n',
            decreases n - j,
        {
            j = j + 1;
        }
        proof {
            assert forall|q: int| 0 <= q < j - start implies rest[q] != '\n' by {
                assert(rest[q] == s@[q + start]);
            }
            if j < n {
                assert(rest[j - start] == s@[j as int]);
            }
            lemma_first_index(rest, '\n', j - start);
        }
        let part = s.substring_char(start, j);
        assert(part@ =~= rest.take(j - start));
        let ghost before = string_views(parts@);
        parts.push(String::from_str(part));
        assert(string_views(parts@) =~= before.push(part@));
        if j == n {
            assert(rest =~= part@);
            assert(split_front(rest, '\n') == seq![rest]);
            assert(string_views(parts@) =~= split_front(s@, '\n'));
            assert(parts.len() >= 1);
            break;
        }
        assert(rest.skip(j - start + 1) =~= s@.skip(j + 1));
        assert(before + (seq![part@] + split_front(s@.skip(j + 1), '\n')) =~= before.push(part@)
            + split_front(s@.skip(j + 1), '\n'));
        start = j + 1;
    }
    let ghost p = string_views(parts@);
    let count = parts.len();
    let last_empty = parts[count - 1].unicode_len() == 0;
    let mut out: Vec<String> = Vec::new();
    let mut k: usize = 0;
    while k + 1 < count
        invariant
            p == string_views(parts@),
            count == parts.len(),
            count >= 1,
            k + 1 <= count,
            string_views(out@) == p.drop_last().take(k as int).map_values(|l: Seq<char>| strip_cr(l)),
        decreases count - k,
    {
        let line = parts[k].as_str();
        let len = line.unicode_len();
        let ghost before = string_views(out@);
        if len > 0 && line.get_char(len - 1) == '\r' {
            let stripped = line.substring_char(0, len - 1);
            assert(stripped@ =~= line@.drop_last());
            out.push(String::from_str(stripped));
        } else {
            out.push(String::from_str(line));
        }
        assert(p.drop_last()[k as int] == p[k as int]);
        assert(string_views(out@) =~= before.push(strip_cr(p[k as int])));
        k = k + 1;
        assert(string_views(out@) =~= p.drop_last().take(k as int).map_values(|l: Seq<char>| strip_cr(l)));
    }
    assert(p.drop_last().take(k as int) =~= p.drop_last());
    if !last_empty {
        let ghost before = string_views(out@);
        out.push(parts[count - 1].clone());
        assert(string_views(out@) =~= before.push(p.last()));
    }
    out
}

/// The first word of the line that declares the remote's default branch.
pub open spec fn default_branch_from(lines: Seq<Seq<char>>) -> Option<Seq<char>>
    decreases lines.len(),
{
    if lines.len() == 0 {
        None
    } else if "ref: refs/heads/"@.is_prefix_of(lines[0]) && words(lines[0].skip(16)).len() > 0 {
        Some(words(lines[0].skip(16))[0])
    } else {
        default_branch_from(lines.drop_first())
    }
}

/// The head names of `git ls-remote --heads` output: the second word of each
/// line, without its `refs/heads/` prefix.
pub open spec fn head_names(lines: Seq<Seq<char>>) -> Seq<Seq<char>>
    decreases lines.len(),
{
    if lines.len() == 0 {
        Seq::empty()
    } else {
        let prev = head_names(lines.drop_last());
        let ws = words(lines.last());
        if ws.len() > 1 && "refs/heads/"@.is_prefix_of(ws[1]) {
            prev.push(ws[1].skip(11))
        } else {
            prev
        }
    }
}

pub open spec fn identity_key() -> spec_fn(Seq<char>) -> Seq<char> {
    |s: Seq<char>| s
}

/// The outcome of inspecting a remote ref, from the outputs of
/// `git ls-remote` for the ref, for `--symref HEAD` and for `--heads`.
pub open spec fn inspect_spec(requested: Seq<char>, symref: Seq<char>, heads: Seq<char>, requested_ref: Seq<char>) -> Result<Seq<char>, Seq<char>> {
    let ws = words(requested);
    if ws.len() > 0 {
        Ok(ws[0])
    } else {
        let default = match default_branch_from(lines_of(symref)) {
            Some(d) => d,
            None => "<unknown>"@,
        };
        let names = sort_stable(head_names(lines_of(heads)), identity_key(), chars_order());
        let listed = if names.len() == 0 {
            "<none>"@
        } else {
            join_text(names, ", "@)
        };
        Err("SURVEY_REF_UNAVAILABLE: requested ref "@ + debug_text(requested_ref) + " does not exist; detected default: "@
            + default + "; available heads: "@ + listed
            + ". Specify --ref explicitly; no branch was substituted"@)
    }
}

fn default_branch(lines: &Vec<String>) -> (r: Option<String>)
    ensures
        crate::model::opt_view(r) == default_branch_from(string_views(lines@)),
{
    let ghost ls = string_views(lines@);
    let mut i: usize = 0;
    assert(ls.skip(0) =~= ls);
    while i < lines.len()
        invariant
            ls == string_views(lines@),
            i <= lines.len(),
            default_branch_from(ls) == default_branch_from(ls.skip(i as int)),
        decreases lines.len() - i,
    {
        let line = lines[i].as_str();
        assert(ls.skip(i as int)[0] == line@);
        proof {
            reveal_strlit("ref: refs/heads/");
        }
        if starts_with(line, "ref: refs/heads/") {
            let rest = line.substring_char(16, line.unicode_len());
            assert(rest@ =~= line@.skip(16));
            let ws = words_of(rest);
            if ws.len() > 0 {
                assert(string_views(ws@)[0] == ws@[0]@);
                return Some(ws[0].clone());
            }
        }
        assert(ls.skip(i as int).drop_first() =~= ls.skip(i + 1));
        i = i + 1;
    }
    None
}

fn insert_name_stable(sorted: &mut Vec<String>, x: String)
    ensures
        string_views(final(sorted)@) == insert_stable(string_views(old(sorted)@), x@, identity_key(), chars_order()),
{
    let ghost s = string_views(sorted@);
    let mut j: usize = 0;
    while j < sorted.len() && !str_less(x.as_str(), sorted[j].as_str())
        invariant
            s == string_views(sorted@),
            j <= sorted.len(),
            forall|k: int| 0 <= k < j ==> !chars_order()(identity_key()(x@), identity_key()(#[trigger] s[k])),
        decreases sorted.len() - j,
    {
        j = j + 1;
    }
    proof {
        lemma_insert_stable_at(s, x@, j as int, identity_key(), chars_order());
    }
    let ghost xv = x@;
    sorted.insert(j, x);
    assert(string_views(sorted@) =~= s.insert(j as int, xv));
}

fn sorted_head_names(heads: &str) -> (r: Vec<String>)
    ensures
        string_views(r@) == sort_stable(head_names(lines_of(heads@)), identity_key(), chars_order()),
{
    let ls = lines(heads);
    let ghost lv = string_views(ls@);
    let mut names: Vec<String> = Vec::new();
    let mut i: usize = 0;
    while i < ls.len()
        invariant
            lv == string_views(ls@),
            lv == lines_of(heads@),
            i <= ls.len(),
            string_views(names@) == head_names(lv.take(i as int)),
        decreases ls.len() - i,
    {
        assert(lv.take(i + 1).drop_last() =~= lv.take(i as int));
        assert(lv.take(i + 1).last() == ls@[i as int]@);
        let ws = words_of(ls[i].as_str());
        proof {
            reveal_strlit("refs/heads/");
        }
        if ws.len() > 1 && starts_with(ws[1].as_str(), "refs/heads/") {
            assert(string_views(ws@)[1] == ws@[1]@);
            let name = ws[1].as_str().substring_char(11, ws[1].unicode_len());
            assert(name@ =~= ws@[1]@.skip(11));
            let ghost before = string_views(names@);
            names.push(String::from_str(name));
            assert(string_views(names@) =~= before.push(name@));
        } else {
            proof {
                if ws.len() > 1 {
                    assert(string_views(ws@)[1] == ws@[1]@);
                }
            }
        }
        i = i + 1;
    }
    assert(lv.take(ls.len() as int) =~= lv);
    let ghost all = string_views(names@);
    let mut sorted: Vec<String> = Vec::new();
    let mut k: usize = 0;
    while k < names.len()
        invariant
            all == string_views(names@),
            k <= names.len(),
            string_views(sorted@) == sort_stable(all.take(k as int), identity_key(), chars_order()),
        decreases names.len() - k,
    {
        assert(all.take(k + 1).drop_last() =~= all.take(k as int));
        assert(all.take(k + 1).last() == names@[k as int]@);
        insert_name_stable(&mut sorted, names[k].clone());
        k = k + 1;
    }
    assert(all.take(names.len() as int) =~= all);
    sorted
}

/// The commit of the requested ref, from the outputs of `git ls-remote`;
/// when the ref does not exist, an error that names the detected default
/// branch and the available heads, and substitutes none of them.
pub fn inspect_remote_outputs(requested: &str, symref: &str, heads: &str, requested_ref: &str) -> (r: Result<
    RemoteRefEvidence,
    String,
>)
    ensures
        match inspect_spec(requested@, symref@, heads@, requested_ref@) {
            Ok(c) => r is Ok && r->Ok_0.commit@ == c,
            Err(e) => r is Err && r->Err_0@ == e,
        },
{
    let ws = words_of(requested);
    if ws.len() > 0 {
        assert(string_views(ws@)[0] == ws@[0]@);
        return Ok(RemoteRefEvidence { commit: ws[0].clone() });
    }
    let symref_lines = lines(symref);
    let default = match default_branch(&symref_lines) {
        Some(d) => d,
        None => String::from_str("<unknown>"),
    };
    let names = sorted_head_names(heads);
    let listed = if names.len() == 0 {
        String::from_str("<none>")
    } else {
        join_strings(&names, ", ")
    };
    let mut message = concat2("SURVEY_REF_UNAVAILABLE: requested ref ", debug_quoted(requested_ref).as_str());
    message.append(" does not exist; detected default: ");
    message.append(default.as_str());
    message.append("; available heads: ");
    message.append(listed.as_str());
    message.append(". Specify --ref explicitly; no branch was substituted");
    Err(message)
}

/// The size a line of `git ls-tree -l -r` declares: the fourth word of the
/// part before the tab, when it is a number; zero otherwise.
pub open spec fn tree_entry_size(line: Seq<char>) -> nat {
    let metadata = match first_index(line, '\t') {
        Some(i) => line.take(i as int),
        None => line,
    };
    let ws = words(metadata);
    if ws.len() > 3 && ws[3] != "-"@ && crate::cli::u64_text_ok(ws[3]) {
        crate::cli::u64_text_value(ws[3])
    } else {
        0
    }
}

pub open spec fn sat_u64(x: nat) -> nat {
    if x > u64::MAX {
        u64::MAX as nat
    } else {
        x
    }
}

/// Total size and number of entries of a tree listing, each saturating.
pub open spec fn tree_totals(lines: Seq<Seq<char>>) -> (nat, nat)
    decreases lines.len(),
{
    if lines.len() == 0 {
        (0, 0)
    } else {
        let prev = tree_totals(lines.drop_last());
        (sat_u64(prev.0 + tree_entry_size(lines.last())), sat_u64(prev.1 + 1))
    }
}

/// The sizes the lines of a tree listing declare, added up.
pub open spec fn declared_bytes(lines: Seq<Seq<char>>) -> nat
    decreases lines.len(),
{
    if lines.len() == 0 {
        0
    } else {
        declared_bytes(lines.drop_last()) + tree_entry_size(lines.last())
    }
}

/// Every line of a tree listing is one entry, and the total size is the sum
/// of the sizes the lines declare; each total stops at the largest `u64`
/// rather than wrapping.
pub proof fn law_tree_totals_count_every_line(lines: Seq<Seq<char>>)
    ensures
        tree_totals(lines).1 == sat_u64(lines.len()),
        tree_totals(lines).0 == sat_u64(declared_bytes(lines)),
    decreases lines.len(),
{
    if lines.len() > 0 {
        law_tree_totals_count_every_line(lines.drop_last());
    }
}

/// The total size and entry count of the output of `git ls-tree -l -r`.
pub fn tree_materialization_size(output: &str) -> (r: (u64, u64))
    ensures
        (r.0 as nat, r.1 as nat) == tree_totals(lines_of(output@)),
{
    let ls = lines(output);
    let ghost lv = string_views(ls@);
    let mut bytes: u64 = 0;
    let mut entries: u64 = 0;
    let mut i: usize = 0;
    while i < ls.len()
        invariant
            lv == string_views(ls@),
            i <= ls.len(),
            (bytes as nat, entries as nat) == tree_totals(lv.take(i as int)),
        decreases ls.len() - i,
    {
        assert(lv.take(i + 1).drop_last() =~= lv.take(i as int));
        let line = ls[i].as_str();
        assert(lv.take(i + 1).last() == line@);
        let chars = chars_of(line);
        let mut t: usize = 0;
        while t < chars.len() && chars[t] != '\t'
            invariant
                chars@ == line@,
                t <= chars.len(),
                forall|q: int| 0 <= q < t ==> chars@[q] != '\t',
            decreases chars.len() - t,
        {
            t = t + 1;
        }
        proof {
            lemma_first_index(line@, '\t', t as int);
        }
        let metadata = line.substring_char(0, t);
        assert(metadata@ =~= (match first_index(line@, '\t') {
            Some(k) => line@.take(k as int),
            None => line@,
        }));
        let ws = words_of(metadata);
        proof {
            reveal_strlit("-");
        }
        let size: u64 = if ws.len() > 3 && !str_eq(ws[3].as_str(), "-") {
            assert(string_views(ws@)[3] == ws@[3]@);
            match crate::cli::parse_u64_text(ws[3].as_str()) {
                Ok(n) => n,
                Err(_) => 0,
            }
        } else {
            proof {
                if ws.len() > 3 {
                    assert(string_views(ws@)[3] == ws@[3]@);
                }
            }
            0
        };
        bytes = bytes.saturating_add(size);
        entries = entries.saturating_add(1);
        i = i + 1;
    }
    assert(lv.take(ls.len() as int) =~= lv);
    (bytes, entries)
}

/// `a + b`, saturating.
pub open spec fn sat_add(a: nat, b: nat) -> nat {
    sat_u64(a + b)
}

fn times_256(x: u64) -> (r: u64)
    ensures
        r as nat == sat_u64(x as nat * 256),
{
    if x > u64::MAX / 256 {
        u64::MAX
    } else {
        x * 256
    }
}

/// The estimated size of materialising a tree of `bytes` in `entries`
/// entries: its bytes, 256 bytes per entry and the reserve, saturating.
pub fn tree_estimate(bytes: u64, entries: u64) -> (r: u64)
    ensures
        r as nat == sat_add(sat_add(bytes as nat, sat_u64(entries as nat * 256)), MATERIALIZATION_RESERVE_BYTES as nat),
{
    bytes.saturating_add(times_256(entries)).saturating_add(MATERIALIZATION_RESERVE_BYTES)
}

/// The projected size of a checkout: the fetched Git data plus the tree
/// estimate, saturating.
pub fn projected_bytes(git_bytes: u64, tree_bytes: u64, entries: u64) -> (r: u64)
    ensures
        r as nat == sat_add(
            sat_add(sat_add(git_bytes as nat, tree_bytes as nat), sat_u64(entries as nat * 256)),
            MATERIALIZATION_RESERVE_BYTES as nat,
        ),
{
    git_bytes.saturating_add(tree_bytes).saturating_add(times_256(entries)).saturating_add(
        MATERIALIZATION_RESERVE_BYTES,
    )
}

/// A bound no larger than the reserve leaves no room for a checkout.
pub fn reserve_exhausted(max_repository_bytes: u64) -> (r: Option<MaterializeOutcome>)
    ensures
        max_repository_bytes <= MATERIALIZATION_RESERVE_BYTES ==> r == Some(
            MaterializeOutcome::LimitExceeded { observed_bytes: (MATERIALIZATION_RESERVE_BYTES + 1) as u64 },
        ),
        max_repository_bytes > MATERIALIZATION_RESERVE_BYTES ==> r is None,
{
    if max_repository_bytes <= MATERIALIZATION_RESERVE_BYTES {
        Some(MaterializeOutcome::LimitExceeded { observed_bytes: MATERIALIZATION_RESERVE_BYTES + 1 })
    } else {
        None
    }
}

/// The file-size cap of a bounded fetch: half of what the bound leaves
/// beyond the reserve.
pub fn fetch_file_cap(max_repository_bytes: u64) -> (r: u64)
    ensures
        r == (if max_repository_bytes > MATERIALIZATION_RESERVE_BYTES {
            (max_repository_bytes - MATERIALIZATION_RESERVE_BYTES) as u64
        } else {
            0u64
        }) / 2,
{
    max_repository_bytes.saturating_sub(MATERIALIZATION_RESERVE_BYTES) / 2
}

/// Whether a failed fetch reports that it was stopped by the file-size cap.
pub open spec fn fetch_hit_limit(stderr: Seq<char>) -> bool {
    contains_text(stderr, "File size limit exceeded"@) || contains_text(stderr, "signal 25"@)
        || contains_text(stderr, "invalid index-pack output"@) || contains_text(stderr, "early EOF"@)
}

/// Whether a failed fetch reports that it was stopped by the file-size cap.
pub fn fetch_failure_is_limit(stderr: &str) -> (r: bool)
    ensures
        r == fetch_hit_limit(stderr@),
{
    contains_str(stderr, "File size limit exceeded") || contains_str(stderr, "signal 25")
        || contains_str(stderr, "invalid index-pack output") || contains_str(stderr, "early EOF")
}

/// A checkout is clean when `git status --porcelain` reports nothing.
pub fn check_clean_status(status: &str) -> (r: Result<(), String>)
    ensures
        r is Ok <==> trim(status@).len() == 0,
        r is Err ==> r->Err_0@ == "SURVEY_CHECKOUT_DIRTY: pinned checkout contains tracked, untracked, or ignored changes:\n"@
            + trim(status@),
{
    let t = trimmed(status);
    if t.unicode_len() == 0 {
        Ok(())
    } else {
        Err(concat2(
            "SURVEY_CHECKOUT_DIRTY: pinned checkout contains tracked, untracked, or ignored changes:\n",
            t.as_str(),
        ))
    }
}

/// An existing checkout must be at the expected commit.
pub fn check_existing_checkout(head: &str, expected_commit: &str) -> (r: Result<(), String>)
    ensures
        r is Ok <==> head@ == expected_commit@,
        r is Err ==> r->Err_0@ == "existing checkout is pinned to "@ + head@ + ", expected "@ + expected_commit@
            + "; use a different study id"@,
{
    if !str_eq(head, expected_commit) {
        let mut message = concat3("existing checkout is pinned to ", head, ", expected ");
        message.append(expected_commit);
        message.append("; use a different study id");
        return Err(message);
    }
    Ok(())
}

/// A fetch must bring exactly the pinned commit.
pub fn check_fetched_commit(actual: &str, expected_commit: &str) -> (r: Result<(), String>)
    ensures
        r is Ok <==> actual@ == expected_commit@,
        r is Err ==> r->Err_0@ == "fetched "@ + actual@ + ", expected exact pin "@ + expected_commit@
            + "; refusing mixed-revision materialization"@,
{
    if !str_eq(actual, expected_commit) {
        let mut message = concat3("fetched ", actual, ", expected exact pin ");
        message.append(expected_commit);
        message.append("; refusing mixed-revision materialization");
        return Err(message);
    }
    Ok(())
}

/// The message of a failed Git action.
pub fn failure_message(action: &str, detail: &str) -> (r: String)
    ensures
        r@ == "failed to "@ + action@ + ": "@ + trim(detail@),
{
    let mut message = concat3("failed to ", action, ": ");
    message.append(trimmed(detail).as_str());
    message
}

/// Where a bounded materialisation of a pinned checkout stands. Each state
/// names the outside work to do next; its result is handed back as an event.
#[derive(Debug, PartialEq, Eq)]
pub enum MaterializeState {
    /// Nothing done yet: whether the checkout path exists is to be seen.
    Start,
    /// The head of the existing checkout is to be read.
    ExistingHead,
    /// The status of the existing checkout is to be read.
    ExistingStatus,
    /// The size of the existing checkout is to be measured.
    ExistingSize,
    /// The bounded-fetch tool is to be checked.
    Prlimit,
    /// The tree of a local repository is to be listed, if the repository is
    /// a local directory.
    Estimate,
    /// The checkout is to be initialised with the repository as its remote.
    Init,
    /// The pinned commit is to be fetched with this file-size cap.
    Fetching { file_cap: u64 },
    /// The fetched commit is to be read.
    FetchHead,
    /// The fetched data is to be measured and the pinned tree listed.
    FetchedSize,
    /// The pinned commit is to be checked out.
    Checkout,
    /// The size of the materialised checkout is to be measured.
    MaterializedSize,
    /// The status of the materialised checkout is to be read.
    MaterializedStatus,
    /// The incomplete checkout is to be removed; then the outcome stands.
    Removing { outcome: Result<MaterializeOutcome, String> },
    /// The materialisation is over with this outcome.
    Finished { outcome: Result<MaterializeOutcome, String> },
}

/// What the outside work of a state produced.
#[derive(Clone, Debug, PartialEq, Eq)]
pub enum MaterializeEvent {
    /// Whether the checkout path exists.
    Exists(bool),
    /// The output of a Git command: a head, a status or a fetched commit.
    Text(String),
    /// A size in bytes.
    Bytes(u64),
    /// The tree listing of a local repository, or nothing if the
    /// repository is not a local directory.
    LocalTree(Option<String>),
    /// Nothing when the fetch succeeded; its error output when it failed.
    Fetched(Option<String>),
    /// The size of the fetched data and the listing of the pinned tree.
    Measured { git_bytes: u64, tree_listing: String },
    /// The work completed.
    Done,
}

pub open spec fn outcome_view(o: Result<MaterializeOutcome, String>) -> Result<MaterializeOutcome, Seq<char>> {
    match o {
        Ok(x) => Ok(x),
        Err(e) => Err(e@),
    }
}

pub open spec fn finished_with(r: MaterializeState, outcome: Result<MaterializeOutcome, Seq<char>>) -> bool {
    r matches MaterializeState::Finished { outcome: o } && outcome_view(o) == outcome
}

pub open spec fn removing_with(r: MaterializeState, outcome: Result<MaterializeOutcome, Seq<char>>) -> bool {
    r matches MaterializeState::Removing { outcome: o } && outcome_view(o) == outcome
}

/// The message refusing a checkout with changes.
pub open spec fn dirty_message(status: Seq<char>) -> Seq<char> {
    "SURVEY_CHECKOUT_DIRTY: pinned checkout contains tracked, untracked, or ignored changes:\n"@ + trim(status)
}

/// The size a tree listing needs once materialised: its bytes, 256 bytes
/// per entry and the reserve, saturating.
pub open spec fn listing_estimate(listing: Seq<char>) -> nat {
    let t = tree_totals(lines_of(listing));
    sat_add(sat_add(t.0, sat_u64(t.1 * 256)), MATERIALIZATION_RESERVE_BYTES as nat)
}

/// The projected size of a fetched checkout: its Git data plus what its
/// tree listing needs, saturating.
pub open spec fn fetched_projection(git_bytes: u64, listing: Seq<char>) -> nat {
    let t = tree_totals(lines_of(listing));
    sat_add(sat_add(sat_add(git_bytes as nat, t.0), sat_u64(t.1 * 256)), MATERIALIZATION_RESERVE_BYTES as nat)
}

/// One step of a bounded materialisation of `expected` within `max` bytes:
/// the state that follows `s` when its work produced `e`. An event that does
/// not answer the work of `s` leaves `s` as it is.
pub open spec fn materialize_step_spec(
    s: MaterializeState,
    e: MaterializeEvent,
    expected: Seq<char>,
    max: u64,
    r: MaterializeState,
) -> bool {
    match s {
        MaterializeState::Start => match e {
            MaterializeEvent::Exists(exists) => if exists {
                r is ExistingHead
            } else if max <= MATERIALIZATION_RESERVE_BYTES {
                finished_with(
                    r,
                    Ok(MaterializeOutcome::LimitExceeded { observed_bytes: (MATERIALIZATION_RESERVE_BYTES + 1) as u64 }),
                )
            } else {
                r is Prlimit
            },
            _ => r == s,
        },
        MaterializeState::ExistingHead => match e {
            MaterializeEvent::Text(t) => if trim(t@) == expected {
                r is ExistingStatus
            } else {
                finished_with(
                    r,
                    Err("existing checkout is pinned to "@ + trim(t@) + ", expected "@ + expected
                        + "; use a different study id"@),
                )
            },
            _ => r == s,
        },
        MaterializeState::ExistingStatus => match e {
            MaterializeEvent::Text(t) => if trim(t@).len() == 0 {
                r is ExistingSize
            } else {
                finished_with(r, Err(dirty_message(t@)))
            },
            _ => r == s,
        },
        MaterializeState::ExistingSize => match e {
            MaterializeEvent::Bytes(n) => if n > max {
                removing_with(r, Ok(MaterializeOutcome::LimitExceeded { observed_bytes: n }))
            } else {
                finished_with(r, Ok(MaterializeOutcome::Ready))
            },
            _ => r == s,
        },
        MaterializeState::Prlimit => match e {
            MaterializeEvent::Done => r is Estimate,
            _ => r == s,
        },
        MaterializeState::Estimate => match e {
            MaterializeEvent::LocalTree(listing) => match listing {
                Some(l) => if listing_estimate(l@) > max {
                    finished_with(
                        r,
                        Ok(MaterializeOutcome::LimitExceeded { observed_bytes: listing_estimate(l@) as u64 }),
                    )
                } else {
                    r is Init
                },
                None => r is Init,
            },
            _ => r == s,
        },
        MaterializeState::Init => match e {
            MaterializeEvent::Done => r == MaterializeState::Fetching {
                file_cap: ((if max > MATERIALIZATION_RESERVE_BYTES {
                    (max - MATERIALIZATION_RESERVE_BYTES) as u64
                } else {
                    0u64
                }) / 2) as u64,
            },
            _ => r == s,
        },
        MaterializeState::Fetching { .. } => match e {
            MaterializeEvent::Fetched(failure) => match failure {
                None => r is FetchHead,
                Some(err) => if fetch_hit_limit(err@) {
                    removing_with(
                        r,
                        Ok(MaterializeOutcome::LimitExceeded { observed_bytes: sat_u64((max + 1) as nat) as u64 }),
                    )
                } else {
                    removing_with(r, Err("bounded Git fetch failed: "@ + trim(err@)))
                },
            },
            _ => r == s,
        },
        MaterializeState::FetchHead => match e {
            MaterializeEvent::Text(t) => if trim(t@) == expected {
                r is FetchedSize
            } else {
                removing_with(
                    r,
                    Err("fetched "@ + trim(t@) + ", expected exact pin "@ + expected
                        + "; refusing mixed-revision materialization"@),
                )
            },
            _ => r == s,
        },
        MaterializeState::FetchedSize => match e {
            MaterializeEvent::Measured { git_bytes, tree_listing } => if fetched_projection(
                git_bytes,
                tree_listing@,
            ) > max {
                removing_with(
                    r,
                    Ok(MaterializeOutcome::LimitExceeded {
                        observed_bytes: fetched_projection(git_bytes, tree_listing@) as u64,
                    }),
                )
            } else {
                r is Checkout
            },
            _ => r == s,
        },
        MaterializeState::Checkout => match e {
            MaterializeEvent::Done => r is MaterializedSize,
            _ => r == s,
        },
        MaterializeState::MaterializedSize => match e {
            MaterializeEvent::Bytes(n) => if n > max {
                removing_with(r, Ok(MaterializeOutcome::LimitExceeded { observed_bytes: n }))
            } else {
                r is MaterializedStatus
            },
            _ => r == s,
        },
        MaterializeState::MaterializedStatus => match e {
            MaterializeEvent::Text(t) => if trim(t@).len() == 0 {
                finished_with(r, Ok(MaterializeOutcome::Ready))
            } else {
                finished_with(r, Err(dirty_message(t@)))
            },
            _ => r == s,
        },
        MaterializeState::Removing { outcome } => match e {
            MaterializeEvent::Done => r == MaterializeState::Finished { outcome },
            _ => r == s,
        },
        MaterializeState::Finished { .. } => r == s,
    }
}

/// One step of a bounded materialisation of `expected_commit` within
/// `max_repository_bytes`: the state that follows `state` once its work
/// produced `event`.
pub fn materialize_step(
    state: MaterializeState,
    event: MaterializeEvent,
    expected_commit: &str,
    max_repository_bytes: u64,
) -> (r: MaterializeState)
    ensures
        materialize_step_spec(state, event, expected_commit@, max_repository_bytes, r),
{
    let max = max_repository_bytes;
    match state {
        MaterializeState::Start => match event {
            MaterializeEvent::Exists(exists) => if exists {
                MaterializeState::ExistingHead
            } else {
                match reserve_exhausted(max) {
                    Some(outcome) => MaterializeState::Finished { outcome: Ok(outcome) },
                    None => MaterializeState::Prlimit,
                }
            },
            _ => MaterializeState::Start,
        },
        MaterializeState::ExistingHead => match event {
            MaterializeEvent::Text(t) => {
                let head = trimmed(t.as_str());
                match check_existing_checkout(head.as_str(), expected_commit) {
                    Ok(()) => MaterializeState::ExistingStatus,
                    Err(message) => MaterializeState::Finished { outcome: Err(message) },
                }
            },
            _ => MaterializeState::ExistingHead,
        },
        MaterializeState::ExistingStatus => match event {
            MaterializeEvent::Text(t) => match check_clean_status(t.as_str()) {
                Ok(()) => MaterializeState::ExistingSize,
                Err(message) => MaterializeState::Finished { outcome: Err(message) },
            },
            _ => MaterializeState::ExistingStatus,
        },
        MaterializeState::ExistingSize => match event {
            MaterializeEvent::Bytes(n) => if n > max {
                MaterializeState::Removing { outcome: Ok(MaterializeOutcome::LimitExceeded { observed_bytes: n }) }
            } else {
                MaterializeState::Finished { outcome: Ok(MaterializeOutcome::Ready) }
            },
            _ => MaterializeState::ExistingSize,
        },
        MaterializeState::Prlimit => match event {
            MaterializeEvent::Done => MaterializeState::Estimate,
            _ => MaterializeState::Prlimit,
        },
        MaterializeState::Estimate => match event {
            MaterializeEvent::LocalTree(listing) => match listing {
                Some(l) => {
                    let (bytes, entries) = tree_materialization_size(l.as_str());
                    let estimate = tree_estimate(bytes, entries);
                    if estimate > max {
                        MaterializeState::Finished {
                            outcome: Ok(MaterializeOutcome::LimitExceeded { observed_bytes: estimate }),
                        }
                    } else {
                        MaterializeState::Init
                    }
                },
                None => MaterializeState::Init,
            },
            _ => MaterializeState::Estimate,
        },
        MaterializeState::Init => match event {
            MaterializeEvent::Done => MaterializeState::Fetching { file_cap: fetch_file_cap(max) },
            _ => MaterializeState::Init,
        },
        MaterializeState::Fetching { file_cap } => match event {
            MaterializeEvent::Fetched(failure) => match failure {
                None => MaterializeState::FetchHead,
                Some(err) => if fetch_failure_is_limit(err.as_str()) {
                    MaterializeState::Removing {
                        outcome: Ok(MaterializeOutcome::LimitExceeded { observed_bytes: max.saturating_add(1) }),
                    }
                } else {
                    MaterializeState::Removing {
                        outcome: Err(concat2("bounded Git fetch failed: ", trimmed(err.as_str()).as_str())),
                    }
                },
            },
            _ => MaterializeState::Fetching { file_cap },
        },
        MaterializeState::FetchHead => match event {
            MaterializeEvent::Text(t) => {
                let actual = trimmed(t.as_str());
                match check_fetched_commit(actual.as_str(), expected_commit) {
                    Ok(()) => MaterializeState::FetchedSize,
                    Err(message) => MaterializeState::Removing { outcome: Err(message) },
                }
            },
            _ => MaterializeState::FetchHead,
        },
        MaterializeState::FetchedSize => match event {
            MaterializeEvent::Measured { git_bytes, tree_listing } => {
                let (tree_bytes, entries) = tree_materialization_size(tree_listing.as_str());
                let projected = projected_bytes(git_bytes, tree_bytes, entries);
                if projected > max {
                    MaterializeState::Removing {
                        outcome: Ok(MaterializeOutcome::LimitExceeded { observed_bytes: projected }),
                    }
                } else {
                    MaterializeState::Checkout
                }
            },
            _ => MaterializeState::FetchedSize,
        },
        MaterializeState::Checkout => match event {
            MaterializeEvent::Done => MaterializeState::MaterializedSize,
            _ => MaterializeState::Checkout,
        },
        MaterializeState::MaterializedSize => match event {
            MaterializeEvent::Bytes(n) => if n > max {
                MaterializeState::Removing { outcome: Ok(MaterializeOutcome::LimitExceeded { observed_bytes: n }) }
            } else {
                MaterializeState::MaterializedStatus
            },
            _ => MaterializeState::MaterializedSize,
        },
        MaterializeState::MaterializedStatus => match event {
            MaterializeEvent::Text(t) => match check_clean_status(t.as_str()) {
                Ok(()) => MaterializeState::Finished { outcome: Ok(MaterializeOutcome::Ready) },
                Err(message) => MaterializeState::Finished { outcome: Err(message) },
            },
            _ => MaterializeState::MaterializedStatus,
        },
        MaterializeState::Removing { outcome } => match event {
            MaterializeEvent::Done => MaterializeState::Finished { outcome },
            _ => MaterializeState::Removing { outcome },
        },
        MaterializeState::Finished { outcome } => MaterializeState::Finished { outcome },
    }
}

/// The outcome a state holds, if it holds one.
pub open spec fn held_outcome(s: MaterializeState) -> Option<Result<MaterializeOutcome, String>> {
    match s {
        MaterializeState::Removing { outcome } => Some(outcome),
        MaterializeState::Finished { outcome } => Some(outcome),
        _ => None,
    }
}

/// A materialisation step never invents an outcome. A step that first
/// reaches a size outcome reports a size above the bound (saturated at the largest
/// size); a step that reaches `Ready` does so only once the checkout is
/// measured within the bound and, for a new checkout, its status is clean;
/// and an outcome once held is kept until the end.
pub proof fn law_materialize_outcomes_are_justified(
    s: MaterializeState,
    e: MaterializeEvent,
    expected: Seq<char>,
    max: u64,
    r: MaterializeState,
)
    requires
        materialize_step_spec(s, e, expected, max, r),
    ensures
        held_outcome(s) is None ==> (held_outcome(r) matches Some(
            Ok(MaterializeOutcome::LimitExceeded { observed_bytes: n }),
        ) ==> n > max || n == u64::MAX),
        held_outcome(r) == Some(Ok::<MaterializeOutcome, String>(MaterializeOutcome::Ready)) ==> held_outcome(s)
            == Some(Ok::<MaterializeOutcome, String>(MaterializeOutcome::Ready))
            || (s is ExistingSize && (e matches MaterializeEvent::Bytes(n) && n <= max))
            || (s is MaterializedStatus && (e matches MaterializeEvent::Text(t) && trim(t@).len() == 0)),
        held_outcome(s) matches Some(o) ==> held_outcome(r) == Some(o),
{
    match e {
        MaterializeEvent::LocalTree(Some(l)) => {
            assert(listing_estimate(l@) <= u64::MAX);
        },
        MaterializeEvent::Measured { git_bytes, tree_listing } => {
            assert(fetched_projection(git_bytes, tree_listing@) <= u64::MAX);
        },
        _ => {},
    }
    assert(sat_u64((max + 1) as nat) <= u64::MAX);
}

/// No branch is substituted for the requested ref: the commit pinned is
/// the first word of what the remote reports for the requested ref, and
/// whatever the remote's default branch and other heads are, they change
/// neither whether a commit is pinned nor which; when the requested ref is
/// not reported, nothing is pinned.
pub proof fn law_no_branch_is_substituted(
    requested: Seq<char>,
    symref: Seq<char>,
    heads: Seq<char>,
    other_symref: Seq<char>,
    other_heads: Seq<char>,
    requested_ref: Seq<char>,
)
    ensures
        inspect_spec(requested, symref, heads, requested_ref) is Ok <==> words(requested).len() > 0,
        inspect_spec(requested, symref, heads, requested_ref) matches Ok(c) ==> c == words(requested)[0]
            && inspect_spec(requested, other_symref, other_heads, requested_ref) == Ok::<Seq<char>, Seq<char>>(c),
{
}

} // verus!
