//! Inventory: source classification, per-document evidence, counts, pack
//! discovery and the decisions of a bounded, resumable traversal.

use vstd::prelude::*;

use crate::json::pointer;
use crate::json::items_wf;
use crate::json::json_wf;
use crate::json::lemma_items_wf;
use crate::json::resolve_pointer;
use crate::json::JsonMember;
use crate::json::JsonValue;
use crate::model::count_view;
use crate::model::Compatibility;
use crate::model::Diagnostic;
use crate::model::Limits;
use crate::model::RepositoryReceipt;
use crate::model::ResumeState;
use crate::model::SurveyProfile;
use crate::model::SCHEMA_VERSION;
use crate::model::InventoryReceipt;
use crate::model::PackInventory;
use crate::model::ReceiptStatus;
use crate::model::SystemManifest;
use crate::model::opt_view;
use crate::model::DocumentEvidence;
use crate::model::InventoryCounts;
use crate::model::KeyCount;
use crate::model::SourceFallback;
use crate::model::SourceIdentity;
use crate::model::SubtypeCounts;
use crate::order::insert_stable;
use crate::order::insert_unique;
use crate::order::lemma_insert_stable_at;
use crate::order::sort_stable;
use crate::order::lemma_insert_unique_at;
use crate::order::lemma_sorted_unique_members;
use crate::order::sorted_unique;
use crate::order::strict_total;
use crate::shape::signature_of;
use crate::shape::structural_signature;
use crate::tally::add_count;
use crate::tally::insert_text_unique;
use crate::tally::lemma_group_step;
use crate::tally::lemma_occurrences_bound;
use crate::tally::tally;
use crate::text::chars_lt;
use crate::text::chars_of;
use crate::text::chars_order;
use crate::text::concat2;
use crate::text::concat3;
use crate::text::decimal;
use crate::text::join_strings;
use crate::text::join_text;
use crate::text::usize_text;
use crate::text::lemma_chars_order_total;
use crate::text::str_eq;
use crate::text::str_less;
use crate::text::string_views;
use crate::text::trim;
use crate::text::trimmed;

verus! {

/// Pointers at which documents commonly name their source.
pub open spec fn default_pointers_spec() -> Seq<Seq<char>> {
    seq![
        "/system/source/id"@,
        "/system/source/book"@,
        "/system/source/title"@,
        "/system/publication/title"@,
        "/source/id"@,
        "/source"@,
        "/_stats/compendiumSource"@,
    ]
}

/// Pointers at which documents commonly name their source.
pub fn default_source_pointers() -> (r: Vec<String>)
    ensures
        string_views(r@) == default_pointers_spec(),
{
    let mut r = Vec::new();
    r.push(String::from_str("/system/source/id"));
    r.push(String::from_str("/system/source/book"));
    r.push(String::from_str("/system/source/title"));
    r.push(String::from_str("/system/publication/title"));
    r.push(String::from_str("/source/id"));
    r.push(String::from_str("/source"));
    r.push(String::from_str("/_stats/compendiumSource"));
    assert(string_views(r@) =~= default_pointers_spec());
    r
}

/// The source text a pointer yields in a document: a string, trimmed, not empty.
pub open spec fn source_at(value: JsonValue, p: Seq<char>) -> Option<Seq<char>> {
    match resolve_pointer(value, p) {
        Some(w) => match w.spec_str() {
            Some(s) => if trim(s).len() > 0 {
                Some(trim(s))
            } else {
                None
            },
            None => None,
        },
        None => None,
    }
}

/// The `(source, pointer)` evidence of each pointer that yields a source, in
/// pointer order.
pub open spec fn source_evidence(value: JsonValue, pointers: Seq<Seq<char>>) -> Seq<(Seq<char>, Seq<char>)>
    decreases pointers.len(),
{
    if pointers.len() == 0 {
        Seq::empty()
    } else {
        let prev = source_evidence(value, pointers.drop_last());
        match source_at(value, pointers.last()) {
            Some(s) => prev.push((s, pointers.last())),
            None => prev,
        }
    }
}

/// Order of evidence: by source, then by pointer.
pub open spec fn pair_order() -> spec_fn((Seq<char>, Seq<char>), (Seq<char>, Seq<char>)) -> bool {
    |a: (Seq<char>, Seq<char>), b: (Seq<char>, Seq<char>)|
        chars_lt(a.0, b.0) || (a.0 == b.0 && chars_lt(a.1, b.1))
}

pub proof fn lemma_pair_order_total()
    ensures
        strict_total(pair_order()),
{
    lemma_chars_order_total();
    assert forall|a: (Seq<char>, Seq<char>), b: (Seq<char>, Seq<char>)| a != b implies #[trigger] pair_order()(
        a,
        b,
    ) || pair_order()(b, a) by {
        assert(chars_order()(a.0, b.0) || chars_order()(b.0, a.0) || a.0 == b.0);
        if a.0 == b.0 {
            assert(a.1 != b.1);
            assert(chars_order()(a.1, b.1) || chars_order()(b.1, a.1));
        }
    }
    assert forall|a: (Seq<char>, Seq<char>), b: (Seq<char>, Seq<char>), c: (Seq<char>, Seq<char>)|
        #[trigger] pair_order()(a, b) && #[trigger] pair_order()(b, c) implies pair_order()(a, c) by {
        if chars_lt(a.0, b.0) && chars_lt(b.0, c.0) {
            assert(chars_order()(a.0, b.0) && chars_order()(b.0, c.0));
        }
        if a.0 == b.0 && b.0 == c.0 && chars_lt(a.1, b.1) && chars_lt(b.1, c.1) {
            assert(chars_order()(a.1, b.1) && chars_order()(b.1, c.1));
        }
    }
    assert forall|a: (Seq<char>, Seq<char>)| !(#[trigger] pair_order()(a, a)) by {
        assert(!chars_order()(a.0, a.0));
        assert(!chars_order()(a.1, a.1));
    }
    assert forall|a: (Seq<char>, Seq<char>), b: (Seq<char>, Seq<char>)| #[trigger] pair_order()(a, b) implies !pair_order()(
        b,
        a,
    ) by {
        assert(chars_order()(a.0, b.0) ==> !chars_order()(b.0, a.0));
        assert(chars_order()(a.1, b.1) ==> !chars_order()(b.1, a.1));
        assert(!chars_order()(a.0, a.0));
    }
}

/// The evidence, sorted, without repetitions.
pub open spec fn sorted_evidence(value: JsonValue, pointers: Seq<Seq<char>>) -> Seq<(Seq<char>, Seq<char>)> {
    sorted_unique(source_evidence(value, pointers), pair_order())
}

/// The distinct sources that the evidence names, in ascending order.
pub open spec fn evidence_sources(value: JsonValue, pointers: Seq<Seq<char>>) -> Seq<Seq<char>> {
    sorted_unique(
        sorted_evidence(value, pointers).map_values(|e: (Seq<char>, Seq<char>)| e.0),
        chars_order(),
    )
}

/// How the evidence classifies a document: no source is missing, exactly one
/// distinct source is classified (with the least pointer that names it),
/// two or more are ambiguous (all sources, and the pointers in evidence order).
pub open spec fn classification_matches(value: JsonValue, pointers: Seq<Seq<char>>, r: SourceIdentity) -> bool {
    let ev = sorted_evidence(value, pointers);
    let sources = evidence_sources(value, pointers);
    if sources.len() == 0 {
        r is Missing
    } else if sources.len() == 1 {
        r matches SourceIdentity::Classified { value: v, pointer: p } && v@ == sources[0] && p@
            == ev[0].1
    } else {
        r matches SourceIdentity::Ambiguous { values: vs, pointers: ps } && string_views(vs@)
            == sources && string_views(ps@) == ev.map_values(|e: (Seq<char>, Seq<char>)| e.1)
    }
}

pub open spec fn pair_views(v: Seq<(String, String)>) -> Seq<(Seq<char>, Seq<char>)> {
    v.map_values(|e: (String, String)| (e.0@, e.1@))
}

fn pair_less(a: &(String, String), b: &(String, String)) -> (r: bool)
    ensures
        r == pair_order()((a.0@, a.1@), (b.0@, b.1@)),
{
    if str_less(a.0.as_str(), b.0.as_str()) {
        true
    } else if str_eq(a.0.as_str(), b.0.as_str()) {
        str_less(a.1.as_str(), b.1.as_str())
    } else {
        false
    }
}

pub fn insert_pair_unique(set: &mut Vec<(String, String)>, x: (String, String))
    ensures
        pair_views(final(set)@) == insert_unique(pair_views(old(set)@), (x.0@, x.1@), pair_order()),
{
    proof {
        lemma_pair_order_total();
    }
    let ghost s = pair_views(set@);
    let ghost xv = (x.0@, x.1@);
    let mut j: usize = 0;
    while j < set.len() && pair_less(&set[j], &x)
        invariant
            s == pair_views(set@),
            xv == (x.0@, x.1@),
            j <= set.len(),
            forall|i: int| 0 <= i < j ==> pair_order()(#[trigger] s[i], xv),
        decreases set.len() - j,
    {
        j = j + 1;
    }
    proof {
        lemma_insert_unique_at(s, xv, j as int, pair_order());
    }
    if j < set.len() && str_eq(set[j].0.as_str(), x.0.as_str()) && str_eq(
        set[j].1.as_str(),
        x.1.as_str(),
    ) {
        assert(s[j as int] == xv);
    } else {
        proof {
            if j < set.len() {
                assert(s[j as int] != xv);
            }
        }
        set.insert(j, x);
        assert(pair_views(set@) =~= s.insert(j as int, xv));
    }
}

/// The source text the pointer `p` yields in `value`.
fn source_text(value: &JsonValue, p: &str) -> (r: Option<String>)
    requires
        json_wf(*value),
    ensures
        r is Some <==> source_at(*value, p@) is Some,
        r is Some ==> source_at(*value, p@) == Some(r->0@),
{
    match pointer(value, p) {
        Some(found) => match found.as_str() {
            Some(text) => {
                let t = trimmed(text);
                if t.unicode_len() > 0 {
                    Some(t)
                } else {
                    None
                }
            },
            None => None,
        },
        None => None,
    }
}

/// Classifies the source of a document from the texts its configured
/// pointers yield: missing when none yields a non-blank string, classified
/// when all such strings agree after trimming, ambiguous otherwise.
pub fn classify_source(value: &JsonValue, pointers: &Vec<String>) -> (r: SourceIdentity)
    requires
        json_wf(*value),
    ensures
        classification_matches(*value, string_views(pointers@), r),
{
    let ghost ps = string_views(pointers@);
    let mut evidence: Vec<(String, String)> = Vec::new();
    let mut i: usize = 0;
    while i < pointers.len()
        invariant
            ps == string_views(pointers@),
            i <= pointers.len(),
            json_wf(*value),
            pair_views(evidence@) == sorted_unique(
                source_evidence(*value, ps.take(i as int)),
                pair_order(),
            ),
        decreases pointers.len() - i,
    {
        let ghost prefix = ps.take(i + 1);
        assert(prefix.drop_last() =~= ps.take(i as int));
        assert(prefix.last() == pointers@[i as int]@);
        match source_text(value, pointers[i].as_str()) {
            Some(text) => {
                let entry = (text, pointers[i].clone());
                insert_pair_unique(&mut evidence, entry);
                let ghost ev = source_evidence(*value, ps.take(i as int));
                assert(source_evidence(*value, prefix) == ev.push(
                    (source_at(*value, prefix.last())->0, prefix.last()),
                ));
                assert(ev.push((source_at(*value, prefix.last())->0, prefix.last())).drop_last()
                    =~= ev);
            },
            None => {},
        }
        i = i + 1;
    }
    assert(ps.take(pointers.len() as int) =~= ps);
    let ghost ev = sorted_evidence(*value, ps);
    let mut values: Vec<String> = Vec::new();
    let mut k: usize = 0;
    while k < evidence.len()
        invariant
            pair_views(evidence@) == ev,
            k <= evidence.len(),
            string_views(values@) == sorted_unique(
                ev.map_values(|e: (Seq<char>, Seq<char>)| e.0).take(k as int),
                chars_order(),
            ),
        decreases evidence.len() - k,
    {
        let ghost firsts = ev.map_values(|e: (Seq<char>, Seq<char>)| e.0);
        assert(firsts.take(k + 1).drop_last() =~= firsts.take(k as int));
        assert(firsts.take(k + 1).last() == evidence@[k as int].0@);
        insert_text_unique(&mut values, evidence[k].0.clone());
        k = k + 1;
    }
    let ghost firsts = ev.map_values(|e: (Seq<char>, Seq<char>)| e.0);
    assert(firsts.take(evidence.len() as int) =~= firsts);
    if values.len() == 0 {
        SourceIdentity::Missing
    } else if values.len() == 1 {
        let value = values[0].clone();
        let pointer = evidence[0].1.clone();
        SourceIdentity::Classified { value, pointer }
    } else {
        let mut pointers_out: Vec<String> = Vec::new();
        let mut q: usize = 0;
        while q < evidence.len()
            invariant
                pair_views(evidence@) == ev,
                q <= evidence.len(),
                string_views(pointers_out@) == ev.map_values(|e: (Seq<char>, Seq<char>)| e.1).take(
                    q as int,
                ),
            decreases evidence.len() - q,
        {
            assert(ev[q as int] == (evidence@[q as int].0@, evidence@[q as int].1@));
            let ghost before = string_views(pointers_out@);
            pointers_out.push(evidence[q].1.clone());
            assert(string_views(pointers_out@) =~= before.push(evidence@[q as int].1@));
            q = q + 1;
            assert(string_views(pointers_out@) =~= ev.map_values(
                |e: (Seq<char>, Seq<char>)| e.1,
            ).take(q as int));
        }
        assert(ev.map_values(|e: (Seq<char>, Seq<char>)| e.1).take(evidence.len() as int) =~= ev.map_values(
            |e: (Seq<char>, Seq<char>)| e.1,
        ));
        SourceIdentity::Ambiguous { values, pointers: pointers_out }
    }
}


/// A pack: a directory or file that the manifest or an explicit content root
/// names, with the document type the manifest declares for it.
#[derive(Clone, Debug, PartialEq, Eq)]
pub struct PackSource {
    pub id: String,
    pub path: String,
    pub document_type: Option<String>,
}

/// Fallbacks as an option gives them: pack ids strictly ascending, so one
/// entry per pack.
pub open spec fn fallbacks_wf(fallbacks: Seq<SourceFallback>) -> bool {
    forall|i: int, j: int|
        0 <= i < j < fallbacks.len() ==> chars_lt(#[trigger] fallbacks[i].pack_id@, #[trigger] fallbacks[j].pack_id@)
}

/// The source that the fallbacks assign to a pack (the first entry for it).
pub open spec fn fallback_for(fallbacks: Seq<SourceFallback>, pack_id: Seq<char>) -> Option<Seq<char>>
    decreases fallbacks.len(),
{
    if fallbacks.len() == 0 {
        None
    } else if fallbacks[0].pack_id@ == pack_id {
        Some(fallbacks[0].source@)
    } else {
        fallback_for(fallbacks.drop_first(), pack_id)
    }
}

/// The document type a document declares (`documentType`, else
/// `documentName`, when a string), else the pack's, else `Unknown`.
pub open spec fn document_type_of(value: JsonValue, pack_type: Option<Seq<char>>) -> Seq<char> {
    let named = match value.spec_get("documentType"@) {
        Some(x) => Some(x),
        None => value.spec_get("documentName"@),
    };
    let fallback = match pack_type {
        Some(t) => t,
        None => "Unknown"@,
    };
    match named {
        Some(x) => match x.spec_str() {
            Some(t) => t,
            None => fallback,
        },
        None => fallback,
    }
}

/// The subtype a document declares: its `type`, when a string.
pub open spec fn subtype_of(value: JsonValue) -> Option<Seq<char>> {
    match value.spec_get("type"@) {
        Some(x) => x.spec_str(),
        None => None,
    }
}

/// A document's type is the string under its `documentType`; where it has
/// no `documentType`, the string under its `documentName`; otherwise the
/// type its pack declares, or `Unknown` where the pack declares none.
pub proof fn law_document_type_precedence(value: JsonValue, pack_type: Option<Seq<char>>)
    ensures
        value.spec_get("documentType"@) matches Some(x) ==> (x.spec_str() matches Some(t) ==> document_type_of(
            value,
            pack_type,
        ) == t),
        value.spec_get("documentType"@) is None ==> (value.spec_get("documentName"@) matches Some(x) ==> (
        x.spec_str() matches Some(t) ==> document_type_of(value, pack_type) == t)),
        !(value.spec_get("documentType"@) matches Some(x) && x.spec_str() is Some) && !(value.spec_get(
            "documentType"@,
        ) is None && (value.spec_get("documentName"@) matches Some(x) && x.spec_str() is Some))
            ==> document_type_of(value, pack_type) == match pack_type {
            Some(t) => t,
            None => "Unknown"@,
        },
{
}

/// The source recorded for a document: its own classification, except that a
/// document with no source of its own takes the fallback of its pack, if any.
pub open spec fn source_matches(
    value: JsonValue,
    pointers: Seq<Seq<char>>,
    fallbacks: Seq<SourceFallback>,
    pack_id: Seq<char>,
    r: SourceIdentity,
) -> bool {
    if evidence_sources(value, pointers).len() == 0 {
        match fallback_for(fallbacks, pack_id) {
            Some(f) => r matches SourceIdentity::Classified { value: v, pointer: p } && v@ == f && p@
                == "fallback:pack:"@ + pack_id,
            None => r is Missing,
        }
    } else {
        classification_matches(value, pointers, r)
    }
}

fn lookup_fallback(fallbacks: &Vec<SourceFallback>, pack_id: &str) -> (r: Option<String>)
    ensures
        r is Some <==> fallback_for(fallbacks@, pack_id@) is Some,
        r is Some ==> fallback_for(fallbacks@, pack_id@) == Some(r->0@),
{
    let mut i: usize = 0;
    assert(fallbacks@.skip(0) =~= fallbacks@);
    while i < fallbacks.len()
        invariant
            i <= fallbacks.len(),
            fallback_for(fallbacks@, pack_id@) == fallback_for(fallbacks@.skip(i as int), pack_id@),
        decreases fallbacks.len() - i,
    {
        assert(fallbacks@.skip(i as int)[0] == fallbacks@[i as int]);
        if str_eq(fallbacks[i].pack_id.as_str(), pack_id) {
            return Some(fallbacks[i].source.clone());
        }
        assert(fallbacks@.skip(i as int).drop_first() =~= fallbacks@.skip(i + 1));
        i = i + 1;
    }
    None
}

/// The evidence recorded for one decoded document.
pub fn evidence_for(
    pointer: String,
    pack: &PackSource,
    value: &JsonValue,
    source_pointers: &Vec<String>,
    source_fallbacks: &Vec<SourceFallback>,
    normalize_identifier_maps: bool,
) -> (r: DocumentEvidence)
    requires
        json_wf(*value),
        fallbacks_wf(source_fallbacks@),
    ensures
        r.pointer@ == pointer@,
        r.pack_id@ == pack.id@,
        r.document_type@ == document_type_of(*value, opt_view(pack.document_type)),
        opt_view(r.subtype) == subtype_of(*value),
        source_matches(
            *value,
            string_views(source_pointers@),
            source_fallbacks@,
            pack.id@,
            r.source,
        ),
        r.structural_signature@ == signature_of(*value, normalize_identifier_maps),
        evidence_view(r) == evidence_spec(
            pointer@,
            pack_view(*pack),
            *value,
            string_views(source_pointers@),
            source_fallbacks@,
            normalize_identifier_maps,
        ),
{
    let classified = classify_source(value, source_pointers);
    let source = match classified {
        SourceIdentity::Missing => match lookup_fallback(source_fallbacks, pack.id.as_str()) {
            Some(found) => SourceIdentity::Classified {
                value: found,
                pointer: concat2("fallback:pack:", pack.id.as_str()),
            },
            None => SourceIdentity::Missing,
        },
        other => other,
    };
    let named = match value.get("documentType") {
        Some(x) => Some(x),
        None => value.get("documentName"),
    };
    let declared = match named {
        Some(x) => x.as_str(),
        None => None,
    };
    let document_type = match declared {
        Some(t) => String::from_str(t),
        None => match &pack.document_type {
            Some(t) => t.clone(),
            None => String::from_str("Unknown"),
        },
    };
    let subtype = match value.get("type") {
        Some(x) => match x.as_str() {
            Some(t) => Some(String::from_str(t)),
            None => None,
        },
        None => None,
    };
    let r = DocumentEvidence {
        pointer,
        pack_id: pack.id.clone(),
        document_type,
        subtype,
        source,
        structural_signature: structural_signature(value, normalize_identifier_maps),
    };
    proof {
        lemma_source_view(*value, string_views(source_pointers@), source_fallbacks@, pack.id@, r.source);
    }
    r
}

/// A source identity as plain values: a tag (0 classified, 1 missing,
/// 2 ambiguous), the classified value and pointer, the ambiguous values and
/// pointers.
pub type SourceView = (int, Seq<char>, Seq<char>, Seq<Seq<char>>, Seq<Seq<char>>);

pub open spec fn source_view(s: SourceIdentity) -> SourceView {
    match s {
        SourceIdentity::Classified { value, pointer } => (0, value@, pointer@, Seq::empty(), Seq::empty()),
        SourceIdentity::Missing => (1, Seq::empty(), Seq::empty(), Seq::empty(), Seq::empty()),
        SourceIdentity::Ambiguous { values, pointers } => (
            2,
            Seq::empty(),
            Seq::empty(),
            string_views(values@),
            string_views(pointers@),
        ),
    }
}

/// The source recorded for a document, as plain values.
pub open spec fn source_spec(
    value: JsonValue,
    pointers: Seq<Seq<char>>,
    fallbacks: Seq<SourceFallback>,
    pack_id: Seq<char>,
) -> SourceView {
    let ev = sorted_evidence(value, pointers);
    let sources = evidence_sources(value, pointers);
    if sources.len() == 0 {
        match fallback_for(fallbacks, pack_id) {
            Some(f) => (0, f, "fallback:pack:"@ + pack_id, Seq::empty(), Seq::empty()),
            None => (1, Seq::empty(), Seq::empty(), Seq::empty(), Seq::empty()),
        }
    } else if sources.len() == 1 {
        (0, sources[0], ev[0].1, Seq::empty(), Seq::empty())
    } else {
        (2, Seq::empty(), Seq::empty(), sources, ev.map_values(|e: (Seq<char>, Seq<char>)| e.1))
    }
}

proof fn lemma_source_view(
    value: JsonValue,
    pointers: Seq<Seq<char>>,
    fallbacks: Seq<SourceFallback>,
    pack_id: Seq<char>,
    r: SourceIdentity,
)
    requires
        source_matches(value, pointers, fallbacks, pack_id, r),
    ensures
        source_view(r) == source_spec(value, pointers, fallbacks, pack_id),
{
}

/// A document's evidence as plain values.
pub type EvidenceView = (Seq<char>, Seq<char>, Seq<char>, Option<Seq<char>>, SourceView, Seq<char>);

pub open spec fn evidence_view(d: DocumentEvidence) -> EvidenceView {
    (d.pointer@, d.pack_id@, d.document_type@, opt_view(d.subtype), source_view(d.source), d.structural_signature@)
}

pub open spec fn evidence_views(v: Seq<DocumentEvidence>) -> Seq<EvidenceView> {
    v.map_values(|d: DocumentEvidence| evidence_view(d))
}

/// The evidence recorded for a document at `pointer` in `pack`.
pub open spec fn evidence_spec(
    pointer: Seq<char>,
    pack: PackView,
    value: JsonValue,
    pointers: Seq<Seq<char>>,
    fallbacks: Seq<SourceFallback>,
    normalize: bool,
) -> EvidenceView {
    (
        pointer,
        pack.0,
        document_type_of(value, pack.2),
        subtype_of(value),
        source_spec(value, pointers, fallbacks, pack.0),
        signature_of(value, normalize),
    )
}

/// How many documents satisfy `pred`.
pub open spec fn count_where(docs: Seq<DocumentEvidence>, pred: spec_fn(DocumentEvidence) -> bool) -> nat
    decreases docs.len(),
{
    if docs.len() == 0 {
        0
    } else {
        count_where(docs.drop_last(), pred) + if pred(docs.last()) {
            1nat
        } else {
            0nat
        }
    }
}

pub proof fn lemma_count_where_bound(docs: Seq<DocumentEvidence>, pred: spec_fn(DocumentEvidence) -> bool)
    ensures
        count_where(docs, pred) <= docs.len(),
    decreases docs.len(),
{
    if docs.len() > 0 {
        lemma_count_where_bound(docs.drop_last(), pred);
    }
}

pub open spec fn is_classified(d: DocumentEvidence) -> bool {
    d.source is Classified
}

pub open spec fn is_missing(d: DocumentEvidence) -> bool {
    d.source is Missing
}

pub open spec fn is_ambiguous(d: DocumentEvidence) -> bool {
    d.source is Ambiguous
}

/// The document types of the documents, in order.
pub open spec fn document_types(docs: Seq<DocumentEvidence>) -> Seq<Seq<char>> {
    docs.map_values(|d: DocumentEvidence| d.document_type@)
}

/// The sources of the classified documents, in order.
pub open spec fn classified_sources(docs: Seq<DocumentEvidence>) -> Seq<Seq<char>>
    decreases docs.len(),
{
    if docs.len() == 0 {
        Seq::empty()
    } else {
        match docs.last().source.spec_classified_value() {
            Some(v) => classified_sources(docs.drop_last()).push(v),
            None => classified_sources(docs.drop_last()),
        }
    }
}

/// `(document type, subtype)` of the documents that declare a subtype, in order.
pub open spec fn subtype_pairs(docs: Seq<DocumentEvidence>) -> Seq<(Seq<char>, Seq<char>)>
    decreases docs.len(),
{
    if docs.len() == 0 {
        Seq::empty()
    } else {
        match docs.last().subtype {
            Some(st) => subtype_pairs(docs.drop_last()).push((docs.last().document_type@, st@)),
            None => subtype_pairs(docs.drop_last()),
        }
    }
}

/// The subtypes recorded for document type `t`, in order.
pub open spec fn values_for(pairs: Seq<(Seq<char>, Seq<char>)>, t: Seq<char>) -> Seq<Seq<char>>
    decreases pairs.len(),
{
    if pairs.len() == 0 {
        Seq::empty()
    } else if pairs.last().0 == t {
        values_for(pairs.drop_last(), t).push(pairs.last().1)
    } else {
        values_for(pairs.drop_last(), t)
    }
}

/// For each document type that has subtypes, in ascending order, the tally
/// of its subtypes.
pub open spec fn subtype_tally(pairs: Seq<(Seq<char>, Seq<char>)>) -> Seq<(Seq<char>, Seq<(Seq<char>, nat)>)> {
    sorted_unique(pair_keys(pairs), chars_order()).map_values(
        |t: Seq<char>| (t, tally(values_for(pairs, t))),
    )
}

/// The first components of the pairs, in order.
pub open spec fn pair_keys(pairs: Seq<(Seq<char>, Seq<char>)>) -> Seq<Seq<char>> {
    pairs.map_values(|p: (Seq<char>, Seq<char>)| p.0)
}

pub open spec fn subtype_view(v: Seq<SubtypeCounts>) -> Seq<(Seq<char>, Seq<(Seq<char>, nat)>)> {
    v.map_values(|e: SubtypeCounts| (e.document_type@, count_view(e.subtypes@)))
}

/// The counts of an inventory's documents are exactly these.
pub open spec fn counts_match(docs: Seq<DocumentEvidence>, c: InventoryCounts) -> bool {
    &&& c.decoded_documents == docs.len()
    &&& c.classified_documents == count_where(docs, |d: DocumentEvidence| is_classified(d))
    &&& c.missing_source_documents == count_where(docs, |d: DocumentEvidence| is_missing(d))
    &&& c.ambiguous_source_documents == count_where(docs, |d: DocumentEvidence| is_ambiguous(d))
    &&& count_view(c.by_document_type@) == tally(document_types(docs))
    &&& subtype_view(c.by_subtype@) == subtype_tally(subtype_pairs(docs))
    &&& count_view(c.by_source@) == tally(classified_sources(docs))
}

proof fn lemma_subtypes_absent(pairs: Seq<(Seq<char>, Seq<char>)>, t: Seq<char>)
    requires
        !pair_keys(pairs).contains(t),
    ensures
        values_for(pairs, t) == Seq::<Seq<char>>::empty(),
    decreases pairs.len(),
{
    if pairs.len() > 0 {
        let keys = pair_keys(pairs);
        assert(keys[pairs.len() - 1] == pairs.last().0);
        assert(pair_keys(pairs.drop_last()) =~= keys.drop_last());
        assert(!keys.drop_last().contains(t)) by {
            if keys.drop_last().contains(t) {
                let i = choose|i: int| 0 <= i < keys.drop_last().len() && keys.drop_last()[i] == t;
                assert(keys[i] == t);
            }
        }
        lemma_subtypes_absent(pairs.drop_last(), t);
    }
}

fn add_subtype(
    by_subtype: &mut Vec<SubtypeCounts>,
    document_type: &str,
    subtype: &str,
    Ghost(pairs): Ghost<Seq<(Seq<char>, Seq<char>)>>,
)
    requires
        subtype_view(old(by_subtype)@) == subtype_tally(pairs),
        pairs.len() < usize::MAX,
    ensures
        subtype_view(final(by_subtype)@) == subtype_tally(pairs.push((document_type@, subtype@))),
{
    proof {
        lemma_chars_order_total();
    }
    let ghost t = document_type@;
    let ghost np = pairs.push((t, subtype@));
    let ghost keys = pair_keys(pairs);
    let ghost s = sorted_unique(keys, chars_order());
    let ghost f = |x: Seq<char>| tally(values_for(pairs, x));
    let ghost g = |x: Seq<char>| tally(values_for(np, x));
    assert(np.drop_last() =~= pairs);
    assert(pair_keys(np) =~= keys.push(t));
    assert forall|x: Seq<char>| x != t implies #[trigger] g(x) == f(x) by {
        assert(values_for(np, x) == values_for(pairs, x));
    }
    assert(values_for(np, t) == values_for(pairs, t).push(subtype@));
    assert(subtype_tally(pairs).len() == s.len());
    let mut j: usize = 0;
    while j < by_subtype.len() && str_less(by_subtype[j].document_type.as_str(), document_type)
        invariant
            subtype_view(by_subtype@) == subtype_tally(pairs),
            s == sorted_unique(keys, chars_order()),
            keys == pair_keys(pairs),
            by_subtype@.len() == s.len(),
            t == document_type@,
            j <= by_subtype.len(),
            forall|i: int| 0 <= i < j ==> chars_order()(#[trigger] s[i], t),
        decreases by_subtype.len() - j,
    {
        assert(subtype_view(by_subtype@)[j as int].0 == s[j as int]);
        j = j + 1;
    }
    if j < by_subtype.len() {
        assert(subtype_view(by_subtype@)[j as int].0 == s[j as int]);
    }
    proof {
        lemma_group_step(keys, t, chars_order(), f, g, j as int);
        lemma_occurrences_bound(pairs, (t, subtype@));
        lemma_subtypes_len(pairs, t);
    }
    assert(subtype_tally(pairs) == s.map_values(|x: Seq<char>| (x, f(x))));
    assert(subtype_tally(np) == sorted_unique(keys.push(t), chars_order()).map_values(
        |x: Seq<char>| (x, g(x)),
    ));
    let ghost before = subtype_view(by_subtype@);
    if j < by_subtype.len() && str_eq(by_subtype[j].document_type.as_str(), document_type) {
        let mut entry = by_subtype.remove(j);
        assert(count_view(entry.subtypes@) == f(t));
        add_count(&mut entry.subtypes, subtype, Ghost(values_for(pairs, t)));
        by_subtype.insert(j, entry);
        assert(subtype_view(by_subtype@) =~= before.update(j as int, (t, g(t))));
    } else {
        proof {
            lemma_subtypes_absent(pairs, t);
        }
        let mut subtypes: Vec<KeyCount> = Vec::new();
        assert(count_view(subtypes@) =~= tally(Seq::<Seq<char>>::empty()));
        add_count(&mut subtypes, subtype, Ghost(Seq::<Seq<char>>::empty()));
        let entry = SubtypeCounts { document_type: String::from_str(document_type), subtypes };
        by_subtype.insert(j, entry);
        assert(subtype_view(by_subtype@) =~= before.insert(j as int, (t, g(t))));
    }
}

proof fn lemma_subtypes_len(pairs: Seq<(Seq<char>, Seq<char>)>, t: Seq<char>)
    ensures
        values_for(pairs, t).len() <= pairs.len(),
    decreases pairs.len(),
{
    if pairs.len() > 0 {
        lemma_subtypes_len(pairs.drop_last(), t);
    }
}

proof fn lemma_collections_len(docs: Seq<DocumentEvidence>)
    ensures
        classified_sources(docs).len() <= docs.len(),
        subtype_pairs(docs).len() <= docs.len(),
    decreases docs.len(),
{
    if docs.len() > 0 {
        lemma_collections_len(docs.drop_last());
    }
}

/// The counts of a list of document evidence: totals by source kind, and
/// tallies by document type, by document type and subtype, and by source.
pub fn count_documents(documents: &Vec<DocumentEvidence>) -> (r: InventoryCounts)
    ensures
        counts_match(documents@, r),
{
    let mut counts = InventoryCounts::default();
    counts.decoded_documents = documents.len();
    let ghost docs = documents@;
    assert(count_view(counts.by_document_type@) =~= tally(document_types(docs.take(0))));
    assert(subtype_view(counts.by_subtype@) =~= subtype_tally(subtype_pairs(docs.take(0))));
    assert(count_view(counts.by_source@) =~= tally(classified_sources(docs.take(0))));
    let mut i: usize = 0;
    while i < documents.len()
        invariant
            docs == documents@,
            i <= documents.len(),
            counts.decoded_documents == docs.len(),
            counts.classified_documents == count_where(docs.take(i as int), |d: DocumentEvidence| is_classified(d)),
            counts.missing_source_documents == count_where(docs.take(i as int), |d: DocumentEvidence| is_missing(d)),
            counts.ambiguous_source_documents == count_where(docs.take(i as int), |d: DocumentEvidence| is_ambiguous(d)),
            count_view(counts.by_document_type@) == tally(document_types(docs.take(i as int))),
            subtype_view(counts.by_subtype@) == subtype_tally(subtype_pairs(docs.take(i as int))),
            count_view(counts.by_source@) == tally(classified_sources(docs.take(i as int))),
        decreases documents.len() - i,
    {
        let ghost prefix = docs.take(i as int);
        let ghost next = docs.take(i + 1);
        assert(next.drop_last() =~= prefix);
        assert(next.last() == docs[i as int]);
        proof {
            lemma_count_where_bound(prefix, |d: DocumentEvidence| is_classified(d));
            lemma_count_where_bound(prefix, |d: DocumentEvidence| is_missing(d));
            lemma_count_where_bound(prefix, |d: DocumentEvidence| is_ambiguous(d));
            lemma_collections_len(prefix);
        }
        let document = &documents[i];
        assert(document_types(next) =~= document_types(prefix).push(document.document_type@));
        add_count(&mut counts.by_document_type, document.document_type.as_str(), Ghost(document_types(prefix)));
        match &document.subtype {
            Some(subtype) => {
                add_subtype(
                    &mut counts.by_subtype,
                    document.document_type.as_str(),
                    subtype.as_str(),
                    Ghost(subtype_pairs(prefix)),
                );
            },
            None => {},
        }
        match &document.source {
            SourceIdentity::Classified { value, .. } => {
                counts.classified_documents = counts.classified_documents + 1;
                add_count(&mut counts.by_source, value.as_str(), Ghost(classified_sources(prefix)));
            },
            SourceIdentity::Missing => {
                counts.missing_source_documents = counts.missing_source_documents + 1;
            },
            SourceIdentity::Ambiguous { .. } => {
                counts.ambiguous_source_documents = counts.ambiguous_source_documents + 1;
            },
        }
        i = i + 1;
    }
    assert(docs.take(documents.len() as int) =~= docs);
    counts
}

/// The text at a pointer: a string's text or a number's canonical text.
pub open spec fn text_at(value: JsonValue, p: Seq<char>) -> Option<Seq<char>> {
    match resolve_pointer(value, p) {
        Some(JsonValue::String(s)) => Some(s@),
        Some(JsonValue::Number(n)) => Some(n.text@),
        _ => None,
    }
}

/// The text at a pointer: a string's text or a number's canonical text.
pub fn string_at(value: &JsonValue, p: &str) -> (r: Option<String>)
    requires
        json_wf(*value),
    ensures
        opt_view(r) == text_at(*value, p@),
{
    match pointer(value, p) {
        Some(JsonValue::String(s)) => Some(s.clone()),
        Some(JsonValue::Number(n)) => Some(n.text.clone()),
        _ => None,
    }
}

/// What a system manifest declares: `id` (else `name`), `title`, `version`
/// and the compatibility range, each a string or number.
pub fn parse_manifest(path: &str, value: &JsonValue) -> (r: SystemManifest)
    requires
        json_wf(*value),
    ensures
        r.path@ == path@,
        opt_view(r.id) == (match text_at(*value, "/id"@) {
            Some(t) => Some(t),
            None => text_at(*value, "/name"@),
        }),
        opt_view(r.title) == text_at(*value, "/title"@),
        opt_view(r.version) == text_at(*value, "/version"@),
        opt_view(r.compatibility.minimum) == text_at(*value, "/compatibility/minimum"@),
        opt_view(r.compatibility.verified) == text_at(*value, "/compatibility/verified"@),
        opt_view(r.compatibility.maximum) == text_at(*value, "/compatibility/maximum"@),
{
    let id = match string_at(value, "/id") {
        Some(t) => Some(t),
        None => string_at(value, "/name"),
    };
    SystemManifest {
        path: String::from_str(path),
        id,
        title: string_at(value, "/title"),
        version: string_at(value, "/version"),
        compatibility: Compatibility {
            minimum: string_at(value, "/compatibility/minimum"),
            verified: string_at(value, "/compatibility/verified"),
            maximum: string_at(value, "/compatibility/maximum"),
        },
    }
}

/// A pack as plain values: id, path and declared document type.
pub type PackView = (Seq<char>, Seq<char>, Option<Seq<char>>);

pub open spec fn pack_view(p: PackSource) -> PackView {
    (p.id@, p.path@, opt_view(p.document_type))
}

pub open spec fn pack_views(v: Seq<PackSource>) -> Seq<PackView> {
    v.map_values(|p: PackSource| pack_view(p))
}

/// The member named `a`, else the member named `b`.
pub open spec fn member_or(v: JsonValue, a: Seq<char>, b: Seq<char>) -> Option<JsonValue> {
    match v.spec_get(a) {
        Some(x) => Some(x),
        None => v.spec_get(b),
    }
}

pub open spec fn str_of(o: Option<JsonValue>) -> Option<Seq<char>> {
    match o {
        Some(x) => x.spec_str(),
        None => None,
    }
}

/// The document type a pack entry declares (`type`, else `documentType`).
pub open spec fn declared_type(v: JsonValue) -> Option<Seq<char>> {
    str_of(member_or(v, "type"@, "documentType"@))
}

/// The packs of a manifest's `packs` array: entries with a string `path`,
/// named by `name` (else `id`) or by their position.
pub open spec fn array_packs(items: Seq<JsonValue>) -> Seq<PackView>
    decreases items.len(),
{
    if items.len() == 0 {
        Seq::empty()
    } else {
        let prev = array_packs(items.drop_last());
        let v = items.last();
        match str_of(v.spec_get("path"@)) {
            Some(path) => {
                let id = match str_of(member_or(v, "name"@, "id"@)) {
                    Some(n) => n,
                    None => "manifest-pack-"@ + decimal((items.len() - 1) as nat),
                };
                prev.push((id, path, declared_type(v)))
            },
            None => prev,
        }
    }
}

/// The packs of a manifest's `packs` object: members with a string `path`,
/// named by their key.
pub open spec fn object_packs(members: Seq<JsonMember>) -> Seq<PackView>
    decreases members.len(),
{
    if members.len() == 0 {
        Seq::empty()
    } else {
        let prev = object_packs(members.drop_last());
        let m = members.last();
        match str_of(m.value.spec_get("path"@)) {
            Some(path) => prev.push((m.key@, path, declared_type(m.value))),
            None => prev,
        }
    }
}

/// Explicit content roots, named by their position.
pub open spec fn root_packs(roots: Seq<Seq<char>>) -> Seq<PackView>
    decreases roots.len(),
{
    if roots.len() == 0 {
        Seq::empty()
    } else {
        root_packs(roots.drop_last()).push(
            ("explicit-root-"@ + decimal((roots.len() - 1) as nat), roots.last(), None),
        )
    }
}

/// The packs a manifest declares.
pub open spec fn manifest_packs(manifest: JsonValue) -> Seq<PackView> {
    match manifest.spec_get("packs"@) {
        Some(JsonValue::Array(xs)) => array_packs(xs@),
        Some(JsonValue::Object(ms)) => object_packs(ms@),
        _ => Seq::empty(),
    }
}

/// A list without the elements whose path repeats that of the element kept
/// just before them (`Vec::dedup_by` on paths).
pub open spec fn dedup_paths(s: Seq<PackView>) -> Seq<PackView>
    decreases s.len(),
{
    if s.len() == 0 {
        Seq::empty()
    } else {
        let d = dedup_paths(s.drop_last());
        if d.len() > 0 && d.last().1 == s.last().1 {
            d
        } else {
            d.push(s.last())
        }
    }
}

pub open spec fn path_key() -> spec_fn(PackView) -> Seq<char> {
    |p: PackView| p.1
}

/// The packs to survey: those of the manifest and the explicit roots, sorted
/// stably by path, one per path.
pub open spec fn pack_sources_of(manifest: JsonValue, roots: Seq<Seq<char>>) -> Seq<PackView> {
    dedup_paths(sort_stable(manifest_packs(manifest) + root_packs(roots), path_key(), chars_order()))
}

fn pack_entry(v: &JsonValue, id: String, path: &str) -> (r: PackSource)
    ensures
        r.id@ == id@,
        r.path@ == path@,
        opt_view(r.document_type) == declared_type(*v),
{
    let typed = match v.get("type") {
        Some(x) => Some(x),
        None => v.get("documentType"),
    };
    let document_type = match typed {
        Some(x) => match x.as_str() {
            Some(t) => Some(String::from_str(t)),
            None => None,
        },
        None => None,
    };
    PackSource { id, path: String::from_str(path), document_type }
}

fn path_of(v: &JsonValue) -> (r: Option<&str>)
    ensures
        r is Some <==> str_of(v.spec_get("path"@)) is Some,
        r is Some ==> str_of(v.spec_get("path"@)) == Some(r->0@),
{
    match v.get("path") {
        Some(x) => x.as_str(),
        None => None,
    }
}

fn manifest_pack_list(manifest: &JsonValue) -> (r: Vec<PackSource>)
    ensures
        pack_views(r@) == manifest_packs(*manifest),
{
    let mut out: Vec<PackSource> = Vec::new();
    match manifest.get("packs") {
        Some(JsonValue::Array(items)) => {
            let mut i: usize = 0;
            while i < items.len()
                invariant
                    i <= items.len(),
                    pack_views(out@) == array_packs(items@.take(i as int)),
                decreases items.len() - i,
            {
                let ghost prefix = items@.take(i + 1);
                assert(prefix.drop_last() =~= items@.take(i as int));
                assert(prefix.last() == items@[i as int]);
                let v = &items[i];
                match path_of(v) {
                    Some(path) => {
                        let named = match v.get("name") {
                            Some(x) => Some(x),
                            None => v.get("id"),
                        };
                        let id = match named {
                            Some(x) => match x.as_str() {
                                Some(n) => String::from_str(n),
                                None => concat2("manifest-pack-", usize_text(i).as_str()),
                            },
                            None => concat2("manifest-pack-", usize_text(i).as_str()),
                        };
                        let entry = pack_entry(v, id, path);
                        let ghost before = pack_views(out@);
                        out.push(entry);
                        assert(pack_views(out@) =~= before.push(pack_view(entry)));
                    },
                    None => {},
                }
                i = i + 1;
            }
            assert(items@.take(items.len() as int) =~= items@);
        },
        Some(JsonValue::Object(members)) => {
            let mut i: usize = 0;
            while i < members.len()
                invariant
                    i <= members.len(),
                    pack_views(out@) == object_packs(members@.take(i as int)),
                decreases members.len() - i,
            {
                let ghost prefix = members@.take(i + 1);
                assert(prefix.drop_last() =~= members@.take(i as int));
                assert(prefix.last() == members@[i as int]);
                let m = &members[i];
                match path_of(&m.value) {
                    Some(path) => {
                        let entry = pack_entry(&m.value, m.key.clone(), path);
                        let ghost before = pack_views(out@);
                        out.push(entry);
                        assert(pack_views(out@) =~= before.push(pack_view(entry)));
                    },
                    None => {},
                }
                i = i + 1;
            }
            assert(members@.take(members.len() as int) =~= members@);
        },
        _ => {},
    }
    out
}

fn insert_pack_stable(sorted: &mut Vec<PackSource>, x: PackSource)
    ensures
        pack_views(final(sorted)@) == insert_stable(
            pack_views(old(sorted)@),
            pack_view(x),
            path_key(),
            chars_order(),
        ),
{
    let ghost s = pack_views(sorted@);
    let mut j: usize = 0;
    while j < sorted.len() && !str_less(x.path.as_str(), sorted[j].path.as_str())
        invariant
            s == pack_views(sorted@),
            j <= sorted.len(),
            forall|k: int| 0 <= k < j ==> !chars_order()(path_key()(pack_view(x)), path_key()(#[trigger] s[k])),
        decreases sorted.len() - j,
    {
        j = j + 1;
    }
    proof {
        lemma_insert_stable_at(s, pack_view(x), j as int, path_key(), chars_order());
    }
    let ghost xv = pack_view(x);
    sorted.insert(j, x);
    assert(pack_views(sorted@) =~= s.insert(j as int, xv));
}

/// The packs to survey: those the manifest's `packs` (array or object)
/// declares with a string path, then the explicit content roots; sorted
/// stably by path and reduced to one pack per path.
pub fn collect_pack_sources(manifest: &JsonValue, extra_roots: &Vec<String>) -> (r: Vec<PackSource>)
    requires
        json_wf(*manifest),
    ensures
        pack_views(r@) == pack_sources_of(*manifest, string_views(extra_roots@)),
{
    let mut raw = manifest_pack_list(manifest);
    let ghost m = pack_views(raw@);
    let ghost roots = string_views(extra_roots@);
    let mut i: usize = 0;
    while i < extra_roots.len()
        invariant
            roots == string_views(extra_roots@),
            i <= extra_roots.len(),
            pack_views(raw@) == m + root_packs(roots.take(i as int)),
        decreases extra_roots.len() - i,
    {
        let ghost prefix = roots.take(i + 1);
        assert(prefix.drop_last() =~= roots.take(i as int));
        assert(prefix.last() == extra_roots@[i as int]@);
        let entry = PackSource {
            id: concat2("explicit-root-", usize_text(i).as_str()),
            path: extra_roots[i].clone(),
            document_type: None,
        };
        let ghost before = pack_views(raw@);
        raw.push(entry);
        assert(pack_views(raw@) =~= before.push(pack_view(entry)));
        assert(m + root_packs(prefix) =~= (m + root_packs(roots.take(i as int))).push(pack_view(entry)));
        i = i + 1;
    }
    assert(roots.take(extra_roots.len() as int) =~= roots);
    let ghost all = pack_views(raw@);
    let mut sorted: Vec<PackSource> = Vec::new();
    let mut k: usize = 0;
    while k < raw.len()
        invariant
            all == pack_views(raw@),
            k <= raw.len(),
            pack_views(sorted@) == sort_stable(all.take(k as int), path_key(), chars_order()),
        decreases raw.len() - k,
    {
        assert(all.take(k + 1).drop_last() =~= all.take(k as int));
        assert(all.take(k + 1).last() == pack_view(raw@[k as int]));
        insert_pack_stable(&mut sorted, raw[k].clone_pack());
        k = k + 1;
    }
    assert(all.take(raw.len() as int) =~= all);
    let ghost srt = pack_views(sorted@);
    let mut out: Vec<PackSource> = Vec::new();
    let mut q: usize = 0;
    while q < sorted.len()
        invariant
            srt == pack_views(sorted@),
            q <= sorted.len(),
            pack_views(out@) == dedup_paths(srt.take(q as int)),
        decreases sorted.len() - q,
    {
        assert(srt.take(q + 1).drop_last() =~= srt.take(q as int));
        assert(srt.take(q + 1).last() == pack_view(sorted@[q as int]));
        let n = out.len();
        if n > 0 && str_eq(out[n - 1].path.as_str(), sorted[q].path.as_str()) {
            assert(pack_views(out@).last() == pack_view(out@[n - 1]));
        } else {
            let entry = sorted[q].clone_pack();
            let ghost before = pack_views(out@);
            out.push(entry);
            assert(pack_views(out@) =~= before.push(pack_view(entry)));
        }
        q = q + 1;
    }
    assert(srt.take(sorted.len() as int) =~= srt);
    out
}

impl PackSource {
    /// A copy of this pack.
    pub fn clone_pack(&self) -> (r: PackSource)
        ensures
            r == *self,
    {
        PackSource {
            id: self.id.clone(),
            path: self.path.clone(),
            document_type: match &self.document_type {
                Some(t) => Some(t.clone()),
                None => None,
            },
        }
    }
}

/// What the file system shows of one pack: its path does not exist, or the
/// files under it (relative to the checkout, in traversal order).
#[derive(Clone, Debug, PartialEq, Eq)]
pub enum PackListing {
    Missing,
    Files(Vec<String>),
}

/// The unsupported files of one pack.
#[derive(Clone, Debug, PartialEq, Eq)]
pub struct UnsupportedFiles {
    pub pack_id: String,
    pub files: Vec<String>,
}

/// The files found in the packs.
#[derive(Clone, Debug, PartialEq, Eq)]
pub struct FileDiscovery {
    pub document_files: Vec<(String, PackSource)>,
    pub unsupported_by_pack: Vec<UnsupportedFiles>,
    pub missing_packs: Vec<String>,
}

/// The last path segment.
pub open spec fn file_name(path: Seq<char>) -> Seq<char>
    decreases path.len(),
{
    if path.len() == 0 {
        path
    } else if path.last() == '/' {
        Seq::empty()
    } else {
        file_name(path.drop_last()).push(path.last())
    }
}

/// The text after the last `.`, else nothing.
pub open spec fn after_last_dot(name: Seq<char>) -> Option<Seq<char>>
    decreases name.len(),
{
    if name.len() == 0 {
        None
    } else if name.last() == '.' {
        Some(Seq::empty())
    } else {
        match after_last_dot(name.drop_last()) {
            Some(t) => Some(t.push(name.last())),
            None => None,
        }
    }
}

/// The extension of a path (`Path::extension`): what follows the last dot
/// of the file name, unless that dot starts the name or there is none.
pub open spec fn extension_of(path: Seq<char>) -> Option<Seq<char>> {
    let name = file_name(path);
    match after_last_dot(name) {
        Some(ext) => if ext.len() + 1 == name.len() || name == ".."@ {
            None
        } else {
            Some(ext)
        },
        None => None,
    }
}

/// A file that holds JSON documents: `.json`, `.jsonl` or `.ndjson`.
pub open spec fn is_document_file(path: Seq<char>) -> bool {
    match extension_of(path) {
        Some(e) => e == "json"@ || e == "jsonl"@ || e == "ndjson"@,
        None => false,
    }
}

/// A file whose documents are one per line: `.jsonl` or `.ndjson`.
pub open spec fn is_line_delimited(path: Seq<char>) -> bool {
    match extension_of(path) {
        Some(e) => e == "jsonl"@ || e == "ndjson"@,
        None => false,
    }
}

/// A path with every backslash turned into a slash.
pub open spec fn forward_slashes(path: Seq<char>) -> Seq<char> {
    path.map_values(|c: char| if c == '\\' { '/' } else { c })
}

/// The extension of a path.
pub fn extension_text(path: &str) -> (r: Option<String>)
    ensures
        opt_view(r) == extension_of(path@),
{
    let chars = chars_of(path);
    let n = chars.len();
    let mut start: usize = n;
    while start > 0 && chars[start - 1] != '/'
        invariant
            start <= n,
            n == chars.len(),
            chars@ == path@,
            forall|k: int| start <= k < n ==> chars@[k] != '/',
        decreases start,
    {
        start = start - 1;
    }
    proof {
        lemma_file_name(path@, start as int);
    }
    let ghost name = path@.subrange(start as int, n as int);
    let mut dot: usize = n;
    while dot > start && chars[dot - 1] != '.'
        invariant
            start <= dot <= n,
            n == chars.len(),
            chars@ == path@,
            forall|k: int| dot <= k < n ==> chars@[k] != '.',
        decreases dot,
    {
        dot = dot - 1;
    }
    proof {
        lemma_after_last_dot(name, dot - start);
    }
    if dot == start {
        return None;
    }
    let ext = path.substring_char(dot, n);
    assert(ext@ =~= name.subrange(dot - start, name.len() as int));
    if dot - 1 == start {
        return None;
    }
    if n - start == 2 && chars[start] == '.' && chars[start + 1] == '.' {
        proof {
            reveal_strlit("..");
        }
        assert(name =~= ".."@);
        return None;
    }
    proof {
        reveal_strlit("..");
        if name == ".."@ {
            assert(name[0] == '.' && name[1] == '.');
        }
    }
    Some(String::from_str(ext))
}

proof fn lemma_file_name(path: Seq<char>, start: int)
    requires
        0 <= start <= path.len(),
        forall|k: int| start <= k < path.len() ==> path[k] != '/',
        start > 0 ==> path[start - 1] == '/',
    ensures
        file_name(path) == path.subrange(start, path.len() as int),
    decreases path.len(),
{
    if path.len() > 0 {
        if start == path.len() {
            assert(path.subrange(start, path.len() as int) =~= Seq::<char>::empty());
        } else {
            lemma_file_name(path.drop_last(), start);
            assert(path.drop_last().subrange(start, path.len() - 1).push(path.last()) =~= path.subrange(
                start,
                path.len() as int,
            ));
        }
    } else {
        assert(path.subrange(0, 0) =~= path);
    }
}

proof fn lemma_after_last_dot(name: Seq<char>, dot: int)
    requires
        0 <= dot <= name.len(),
        forall|k: int| dot <= k < name.len() ==> name[k] != '.',
        dot > 0 ==> name[dot - 1] == '.',
    ensures
        dot == 0 ==> after_last_dot(name) is None,
        dot > 0 ==> after_last_dot(name) == Some(name.subrange(dot, name.len() as int)),
    decreases name.len(),
{
    if name.len() > 0 {
        if dot == name.len() {
            assert(name.subrange(dot, name.len() as int) =~= Seq::<char>::empty());
        } else {
            lemma_after_last_dot(name.drop_last(), dot);
            if dot > 0 {
                assert(name.drop_last().subrange(dot, name.len() - 1).push(name.last()) =~= name.subrange(
                    dot,
                    name.len() as int,
                ));
            }
        }
    }
}

/// The extension of a path is what follows the last dot of its file name:
/// for a directory part `dir` (empty or ending in `/`), a non-empty stem and
/// an extension free of dots and slashes, `dir + stem + "." + ext` has the
/// extension `ext` (the name `..` aside, which has none).
pub proof fn law_extension_follows_the_last_dot(dir: Seq<char>, stem: Seq<char>, ext: Seq<char>)
    requires
        dir.len() == 0 || dir.last() == '/',
        stem.len() > 0,
        forall|k: int| 0 <= k < stem.len() ==> stem[k] != '/',
        forall|k: int| 0 <= k < ext.len() ==> ext[k] != '/' && ext[k] != '.',
        !(stem == "."@ && ext.len() == 0),
    ensures
        extension_of(dir + stem + "."@ + ext) == Some(ext),
{
    reveal_strlit(".");
    reveal_strlit("..");
    let name = stem + "."@ + ext;
    let path = dir + name;
    assert(path =~= dir + stem + "."@ + ext);
    lemma_file_name(path, dir.len() as int);
    assert(path.subrange(dir.len() as int, path.len() as int) =~= name);
    lemma_after_last_dot(name, stem.len() + 1int);
    assert(name.subrange(stem.len() + 1int, name.len() as int) =~= ext);
    if name == ".."@ {
        assert(name.len() == 2);
        assert(stem.len() == 1 && ext.len() == 0);
        assert(name[0] == ".."@[0]);
        assert(stem[0] == name[0]);
        assert(stem =~= "."@);
    }
}

/// A file name without a dot, or whose only dot starts it (such as
/// `.gitignore`), has no extension.
pub proof fn law_names_without_a_dot_have_no_extension(dir: Seq<char>, name: Seq<char>)
    requires
        dir.len() == 0 || dir.last() == '/',
        forall|k: int| 0 <= k < name.len() ==> name[k] != '/' && name[k] != '.',
    ensures
        extension_of(dir + name) is None,
        extension_of(dir + "."@ + name) is None,
{
    reveal_strlit(".");
    let path = dir + name;
    lemma_file_name(path, dir.len() as int);
    assert(path.subrange(dir.len() as int, path.len() as int) =~= name);
    lemma_after_last_dot(name, 0);
    let dotted = "."@ + name;
    let path2 = dir + dotted;
    assert(path2 =~= dir + "."@ + name);
    lemma_file_name(path2, dir.len() as int);
    assert(path2.subrange(dir.len() as int, path2.len() as int) =~= dotted);
    lemma_after_last_dot(dotted, 1);
    assert(dotted.subrange(1, dotted.len() as int) =~= name);
}

/// Whether a path names a file of JSON documents.
pub fn is_document_path(path: &str) -> (r: bool)
    ensures
        r == is_document_file(path@),
{
    proof {
        reveal_strlit("json");
        reveal_strlit("jsonl");
        reveal_strlit("ndjson");
    }
    match extension_text(path) {
        Some(e) => str_eq(e.as_str(), "json") || str_eq(e.as_str(), "jsonl") || str_eq(
            e.as_str(),
            "ndjson",
        ),
        None => false,
    }
}

/// Whether a path names a file with one document per line.
pub fn is_line_delimited_path(path: &str) -> (r: bool)
    ensures
        r == is_line_delimited(path@),
{
    match extension_text(path) {
        Some(e) => str_eq(e.as_str(), "jsonl") || str_eq(e.as_str(), "ndjson"),
        None => false,
    }
}

/// `path` with backslashes turned into slashes.
pub fn with_forward_slashes(path: &str) -> (r: String)
    ensures
        r@ == forward_slashes(path@),
{
    let n = path.unicode_len();
    let mut out = String::new();
    let mut i: usize = 0;
    proof {
        reveal_strlit("/");
    }
    while i < n
        invariant
            n == path@.len(),
            i <= n,
            out@ == forward_slashes(path@).take(i as int),
        decreases n - i,
    {
        let c = path.get_char(i);
        proof {
            reveal_strlit("/");
        }
        if c == '\\' {
            out.append("/");
        } else {
            out.append(path.substring_char(i, i + 1));
        }
        i = i + 1;
        assert(out@ =~= forward_slashes(path@).take(i as int));
    }
    assert(forward_slashes(path@).take(n as int) =~= forward_slashes(path@));
    out
}

pub open spec fn listing_files(l: PackListing) -> Seq<Seq<char>> {
    match l {
        PackListing::Missing => Seq::empty(),
        PackListing::Files(v) => string_views(v@),
    }
}

/// `(path, pack)` for each JSON document file of one pack, in order.
pub open spec fn pack_documents(files: Seq<Seq<char>>, pack: PackView) -> Seq<(Seq<char>, PackView)>
    decreases files.len(),
{
    if files.len() == 0 {
        Seq::empty()
    } else {
        let prev = pack_documents(files.drop_last(), pack);
        if is_document_file(files.last()) {
            prev.push((forward_slashes(files.last()), pack))
        } else {
            prev
        }
    }
}

/// `(pack id, path)` for each other file of one pack, in order.
pub open spec fn pack_unsupported(files: Seq<Seq<char>>, pack: PackView) -> Seq<(Seq<char>, Seq<char>)>
    decreases files.len(),
{
    if files.len() == 0 {
        Seq::empty()
    } else {
        let prev = pack_unsupported(files.drop_last(), pack);
        if is_document_file(files.last()) {
            prev
        } else {
            prev.push((pack.0, forward_slashes(files.last())))
        }
    }
}

/// The document files of all packs, in pack order then file order.
pub open spec fn documents_found(entries: Seq<(PackView, PackListing)>) -> Seq<(Seq<char>, PackView)>
    decreases entries.len(),
{
    if entries.len() == 0 {
        Seq::empty()
    } else {
        documents_found(entries.drop_last()) + pack_documents(
            listing_files(entries.last().1),
            entries.last().0,
        )
    }
}

/// The unsupported files of all packs, in pack order then file order.
pub open spec fn unsupported_found(entries: Seq<(PackView, PackListing)>) -> Seq<(Seq<char>, Seq<char>)>
    decreases entries.len(),
{
    if entries.len() == 0 {
        Seq::empty()
    } else {
        unsupported_found(entries.drop_last()) + pack_unsupported(
            listing_files(entries.last().1),
            entries.last().0,
        )
    }
}

/// The paths of the packs that do not exist, in order.
pub open spec fn missing_found(entries: Seq<(PackView, PackListing)>) -> Seq<Seq<char>>
    decreases entries.len(),
{
    if entries.len() == 0 {
        Seq::empty()
    } else if entries.last().1 is Missing {
        missing_found(entries.drop_last()).push(entries.last().0.1)
    } else {
        missing_found(entries.drop_last())
    }
}

/// Each group key, in ascending order, with its values in order.
pub open spec fn grouped(events: Seq<(Seq<char>, Seq<char>)>) -> Seq<(Seq<char>, Seq<Seq<char>>)> {
    sorted_unique(pair_keys(events), chars_order()).map_values(
        |k: Seq<char>| (k, values_for(events, k)),
    )
}

pub open spec fn unsupported_view(v: Seq<UnsupportedFiles>) -> Seq<(Seq<char>, Seq<Seq<char>>)> {
    v.map_values(|u: UnsupportedFiles| (u.pack_id@, string_views(u.files@)))
}

pub open spec fn document_file_views(v: Seq<(String, PackSource)>) -> Seq<(Seq<char>, PackView)> {
    v.map_values(|e: (String, PackSource)| (e.0@, pack_view(e.1)))
}

pub open spec fn pair_entries(packs: Seq<PackSource>, listings: Seq<PackListing>) -> Seq<(PackView, PackListing)> {
    Seq::new(packs.len(), |i: int| (pack_view(packs[i]), listings[i]))
}

/// The discovery is exactly what the listings show: document files in pack
/// and file order, other files grouped by pack id, and missing pack paths.
pub open spec fn discovery_matches(entries: Seq<(PackView, PackListing)>, d: FileDiscovery) -> bool {
    &&& document_file_views(d.document_files@) == documents_found(entries)
    &&& unsupported_view(d.unsupported_by_pack@) == grouped(unsupported_found(entries))
    &&& string_views(d.missing_packs@) == missing_found(entries)
}

fn add_unsupported(
    map: &mut Vec<UnsupportedFiles>,
    pack_id: &str,
    file: String,
    Ghost(events): Ghost<Seq<(Seq<char>, Seq<char>)>>,
)
    requires
        unsupported_view(old(map)@) == grouped(events),
    ensures
        unsupported_view(final(map)@) == grouped(events.push((pack_id@, file@))),
{
    proof {
        lemma_chars_order_total();
    }
    let ghost t = pack_id@;
    let ghost np = events.push((t, file@));
    let ghost keys = pair_keys(events);
    let ghost s = sorted_unique(keys, chars_order());
    let ghost f = |x: Seq<char>| values_for(events, x);
    let ghost g = |x: Seq<char>| values_for(np, x);
    assert(np.drop_last() =~= events);
    assert(pair_keys(np) =~= keys.push(t));
    assert forall|x: Seq<char>| x != t implies #[trigger] g(x) == f(x) by {
        assert(values_for(np, x) == values_for(events, x));
    }
    assert(values_for(np, t) == values_for(events, t).push(file@));
    assert(grouped(events).len() == s.len());
    let mut j: usize = 0;
    while j < map.len() && str_less(map[j].pack_id.as_str(), pack_id)
        invariant
            unsupported_view(map@) == grouped(events),
            s == sorted_unique(keys, chars_order()),
            keys == pair_keys(events),
            map@.len() == s.len(),
            t == pack_id@,
            j <= map.len(),
            forall|i: int| 0 <= i < j ==> chars_order()(#[trigger] s[i], t),
        decreases map.len() - j,
    {
        assert(unsupported_view(map@)[j as int].0 == s[j as int]);
        j = j + 1;
    }
    if j < map.len() {
        assert(unsupported_view(map@)[j as int].0 == s[j as int]);
    }
    proof {
        lemma_group_step(keys, t, chars_order(), f, g, j as int);
    }
    assert(grouped(events) == s.map_values(|x: Seq<char>| (x, f(x))));
    assert(grouped(np) == sorted_unique(keys.push(t), chars_order()).map_values(
        |x: Seq<char>| (x, g(x)),
    ));
    let ghost before = unsupported_view(map@);
    let ghost fv = file@;
    if j < map.len() && str_eq(map[j].pack_id.as_str(), pack_id) {
        let mut entry = map.remove(j);
        assert(string_views(entry.files@) == f(t));
        let ghost old_files = string_views(entry.files@);
        entry.files.push(file);
        assert(string_views(entry.files@) =~= old_files.push(fv));
        map.insert(j, entry);
        assert(unsupported_view(map@) =~= before.update(j as int, (t, g(t))));
    } else {
        proof {
            lemma_values_absent(events, t);
        }
        let mut files: Vec<String> = Vec::new();
        files.push(file);
        assert(string_views(files@) =~= seq![fv]);
        assert(values_for(events, t).push(fv) =~= seq![fv]);
        let entry = UnsupportedFiles { pack_id: String::from_str(pack_id), files };
        map.insert(j, entry);
        assert(unsupported_view(map@) =~= before.insert(j as int, (t, g(t))));
    }
}

/// Sorts the files of each pack into JSON document files, unsupported files
/// (grouped by pack id) and missing packs. `listings[i]` is what the file
/// system shows of `packs[i]`.
pub fn discover_pack_files(packs: &Vec<PackSource>, listings: &Vec<PackListing>) -> (r: FileDiscovery)
    requires
        packs.len() == listings.len(),
    ensures
        discovery_matches(pair_entries(packs@, listings@), r),
{
    let ghost entries = pair_entries(packs@, listings@);
    let mut documents: Vec<(String, PackSource)> = Vec::new();
    let mut unsupported: Vec<UnsupportedFiles> = Vec::new();
    let mut missing: Vec<String> = Vec::new();
    assert(unsupported_view(unsupported@) =~= grouped(Seq::empty()));
    let mut i: usize = 0;
    while i < packs.len()
        invariant
            packs.len() == listings.len(),
            entries == pair_entries(packs@, listings@),
            i <= packs.len(),
            document_file_views(documents@) == documents_found(entries.take(i as int)),
            unsupported_view(unsupported@) == grouped(unsupported_found(entries.take(i as int))),
            string_views(missing@) == missing_found(entries.take(i as int)),
        decreases packs.len() - i,
    {
        let ghost prefix = entries.take(i + 1);
        assert(prefix.drop_last() =~= entries.take(i as int));
        assert(prefix.last() == (pack_view(packs@[i as int]), listings@[i as int]));
        let pack = &packs[i];
        match &listings[i] {
            PackListing::Missing => {
                let ghost before = string_views(missing@);
                missing.push(pack.path.clone());
                assert(string_views(missing@) =~= before.push(pack.path@));
                assert(documents_found(prefix) =~= documents_found(entries.take(i as int)));
                assert(unsupported_found(prefix) =~= unsupported_found(entries.take(i as int)));
            },
            PackListing::Files(files) => {
                let ghost fs = string_views(files@);
                let ghost pv = pack_view(*pack);
                let ghost docs0 = documents_found(entries.take(i as int));
                let ghost uns0 = unsupported_found(entries.take(i as int));
                let mut k: usize = 0;
                assert(fs.take(0) =~= Seq::<Seq<char>>::empty());
                assert(docs0 + pack_documents(fs.take(0), pv) =~= docs0);
                assert(uns0 + pack_unsupported(fs.take(0), pv) =~= uns0);
                while k < files.len()
                    invariant
                        fs == string_views(files@),
                        pv == pack_view(*pack),
                        k <= files.len(),
                        document_file_views(documents@) == docs0 + pack_documents(fs.take(k as int), pv),
                        unsupported_view(unsupported@) == grouped(uns0 + pack_unsupported(fs.take(k as int), pv)),
                    decreases files.len() - k,
                {
                    assert(fs.take(k + 1).drop_last() =~= fs.take(k as int));
                    assert(fs.take(k + 1).last() == files@[k as int]@);
                    let file = files[k].as_str();
                    let normalized = with_forward_slashes(file);
                    if is_document_path(file) {
                        let ghost before = document_file_views(documents@);
                        let entry = (normalized, pack.clone_pack());
                        documents.push(entry);
                        assert(document_file_views(documents@) =~= before.push((entry.0@, pv)));
                        assert(docs0 + pack_documents(fs.take(k + 1), pv) =~= (docs0 + pack_documents(fs.take(k as int), pv)).push((entry.0@, pv)));
                    } else {
                        let ghost ev = uns0 + pack_unsupported(fs.take(k as int), pv);
                        let ghost nv = normalized@;
                        add_unsupported(&mut unsupported, pack.id.as_str(), normalized, Ghost(ev));
                        assert(uns0 + pack_unsupported(fs.take(k + 1), pv) =~= ev.push((pv.0, nv)));
                    }
                    k = k + 1;
                }
                assert(fs.take(files.len() as int) =~= fs);
                assert(listing_files(prefix.last().1) == fs);
            },
        }
        i = i + 1;
    }
    assert(entries.take(packs.len() as int) =~= entries);
    FileDiscovery { document_files: documents, unsupported_by_pack: unsupported, missing_packs: missing }
}

proof fn lemma_values_absent(events: Seq<(Seq<char>, Seq<char>)>, t: Seq<char>)
    requires
        !pair_keys(events).contains(t),
    ensures
        values_for(events, t) == Seq::<Seq<char>>::empty(),
{
    lemma_subtypes_absent(events, t);
}

/// A position in the traversal: a document file and a document index in it.
#[derive(Clone, Debug, PartialEq, Eq)]
pub struct DecodeCursor {
    pub file: String,
    pub document_index: usize,
}

pub open spec fn cursor_view(c: Option<DecodeCursor>) -> Option<(Seq<char>, nat)> {
    match c {
        Some(c) => Some((c.file@, c.document_index as nat)),
        None => None,
    }
}

/// The state of a bounded traversal of document files, possibly resumed
/// from an earlier partial one.
pub struct DocumentTraversal {
    pub documents: Vec<DocumentEvidence>,
    pub resume: Option<DecodeCursor>,
    pub start_reached: bool,
    pub limit: Option<DecodeCursor>,
}

/// Documents so far, resume position, whether it was reached, and where the
/// bound stopped the traversal.
pub type TraversalView = (Seq<EvidenceView>, Option<(Seq<char>, nat)>, bool, Option<(Seq<char>, nat)>);

/// Source pointers, fallbacks, decoded-document bound, identifier-map
/// normalisation.
pub type TraversalConfig = (Seq<Seq<char>>, Seq<SourceFallback>, nat, bool);

impl DocumentTraversal {
    pub open spec fn view(&self) -> TraversalView {
        (evidence_views(self.documents@), cursor_view(self.resume), self.start_reached, cursor_view(self.limit))
    }

    /// A traversal that keeps `documents` and, with a resume position, skips
    /// the files before it.
    pub fn start(documents: Vec<DocumentEvidence>, resume: Option<DecodeCursor>) -> (r: Self)
        ensures
            r.view() == (evidence_views(documents@), cursor_view(resume), resume is None, None::<(Seq<char>, nat)>),
    {
        let start_reached = resume.is_none();
        DocumentTraversal { documents, resume, start_reached, limit: None }
    }

    /// Whether the bound stopped the traversal.
    pub fn limit_reached(&self) -> (r: bool)
        ensures
            r == self.view().3 is Some,
    {
        self.limit.is_some()
    }

    /// Enters the next file; says whether its documents are to be decoded
    /// and ingested.
    pub fn enter_file(&mut self, file: &str) -> (decode: bool)
        ensures
            decode == (old(self).view().3 is None && reaches(old(self).view(), file@)),
            decode ==> final(self).view() == (old(self).view().0, old(self).view().1, true, old(self).view().3),
            !decode ==> final(self).view() == old(self).view(),
    {
        if self.limit.is_some() {
            return false;
        }
        if !self.start_reached {
            let reached = match &self.resume {
                Some(c) => str_eq(c.file.as_str(), file),
                None => false,
            };
            if !reached {
                return false;
            }
            self.start_reached = true;
        }
        true
    }

    /// Records the evidence of the documents of `file`, from the resume
    /// index if this is the resume file, until the decoded-document bound.
    pub fn ingest(
        &mut self,
        file: &str,
        pack: &PackSource,
        values: &Vec<JsonValue>,
        source_pointers: &Vec<String>,
        source_fallbacks: &Vec<SourceFallback>,
        max_decoded_documents: usize,
        normalize_identifier_maps: bool,
    )
        requires
            old(self).view().3 is None,
            old(self).view().2,
            items_wf(values@),
            fallbacks_wf(source_fallbacks@),
        ensures
            ({
                let cfg = (string_views(source_pointers@), source_fallbacks@, max_decoded_documents as nat, normalize_identifier_maps);
                let out = ingest_docs(
                    old(self).view().0,
                    file@,
                    pack_view(*pack),
                    values@,
                    start_index(old(self).view().1, file@),
                    cfg,
                );
                final(self).view() == (out.0, old(self).view().1, true, out.1)
            }),
    {
        let ghost cfg = (string_views(source_pointers@), source_fallbacks@, max_decoded_documents as nat, normalize_identifier_maps);
        let ghost start = start_index(self.view().1, file@);
        let ghost target = ingest_docs(self.view().0, file@, pack_view(*pack), values@, start, cfg);
        proof {
            lemma_items_wf(values@);
        }
        let mut index: usize = match &self.resume {
            Some(c) => if str_eq(c.file.as_str(), file) {
                c.document_index
            } else {
                0
            },
            None => 0,
        };
        assert(index == start);
        while index < values.len() && self.documents.len() < max_decoded_documents
            invariant
                self.limit is None,
                self.start_reached,
                cfg == (string_views(source_pointers@), source_fallbacks@, max_decoded_documents as nat, normalize_identifier_maps),
                ingest_docs(self.view().0, file@, pack_view(*pack), values@, index as nat, cfg) == target,
                target == ingest_docs(old(self).view().0, file@, pack_view(*pack), values@, start, cfg),
                self.view().1 == old(self).view().1,
                forall|k: int| 0 <= k < values@.len() ==> json_wf(#[trigger] values@[k]),
                fallbacks_wf(source_fallbacks@),
            decreases values.len() - index,
        {
            let pointer = concat3(file, "#", usize_text(index).as_str());
            let evidence = evidence_for(
                pointer,
                pack,
                &values[index],
                source_pointers,
                source_fallbacks,
                normalize_identifier_maps,
            );
            let ghost before = evidence_views(self.documents@);
            self.documents.push(evidence);
            assert(evidence_views(self.documents@) =~= before.push(evidence_view(evidence)));
            index = index + 1;
        }
        if index < values.len() {
            let cursor = DecodeCursor { file: String::from_str(file), document_index: index };
            self.limit = Some(cursor);
        }
    }
}

/// Where the documents of a file start: at the resume index for the resume
/// file, else at the beginning.
pub open spec fn start_index(resume: Option<(Seq<char>, nat)>, file: Seq<char>) -> nat {
    match resume {
        Some(c) => if c.0 == file {
            c.1
        } else {
            0
        },
        None => 0,
    }
}

/// Whether the traversal has reached its start by `file`.
pub open spec fn reaches(state: TraversalView, file: Seq<char>) -> bool {
    state.2 || (state.1 matches Some(c) && c.0 == file)
}

/// The evidence pointer of a document: its file and index.
pub open spec fn item_pointer(file: Seq<char>, index: nat) -> Seq<char> {
    file + "#"@ + decimal(index)
}

/// Ingesting the documents of one file from `index` on: each document's
/// evidence is recorded until the bound on recorded documents is met, where
/// the traversal stops at that document.
pub open spec fn ingest_docs(
    docs: Seq<EvidenceView>,
    file: Seq<char>,
    pack: PackView,
    values: Seq<JsonValue>,
    index: nat,
    cfg: TraversalConfig,
) -> (Seq<EvidenceView>, Option<(Seq<char>, nat)>)
    decreases values.len() - index,
{
    if index >= values.len() {
        (docs, None)
    } else if docs.len() >= cfg.2 {
        (docs, Some((file, index)))
    } else {
        ingest_docs(
            docs.push(evidence_spec(item_pointer(file, index), pack, values[index as int], cfg.0, cfg.1, cfg.3)),
            file,
            pack,
            values,
            index + 1,
            cfg,
        )
    }
}

/// One file of the traversal: nothing once stopped or before the start;
/// otherwise its documents are ingested.
pub open spec fn file_step(
    state: TraversalView,
    file: Seq<char>,
    pack: PackView,
    values: Seq<JsonValue>,
    cfg: TraversalConfig,
) -> TraversalView {
    if state.3 is Some || !reaches(state, file) {
        state
    } else {
        let out = ingest_docs(state.0, file, pack, values, start_index(state.1, file), cfg);
        (out.0, state.1, true, out.1)
    }
}

/// A traversal of document files, each with the documents it decodes to.
pub open spec fn traverse(
    state: TraversalView,
    files: Seq<(Seq<char>, PackView, Seq<JsonValue>)>,
    cfg: TraversalConfig,
) -> TraversalView
    decreases files.len(),
{
    if files.len() == 0 {
        state
    } else {
        traverse(file_step(state, files[0].0, files[0].1, files[0].2, cfg), files.drop_first(), cfg)
    }
}

pub open spec fn file_path_key() -> spec_fn((Seq<char>, PackView)) -> Seq<char> {
    |e: (Seq<char>, PackView)| e.0
}

fn insert_file_stable(sorted: &mut Vec<(String, PackSource)>, x: (String, PackSource))
    ensures
        document_file_views(final(sorted)@) == insert_stable(
            document_file_views(old(sorted)@),
            (x.0@, pack_view(x.1)),
            file_path_key(),
            chars_order(),
        ),
{
    let ghost s = document_file_views(sorted@);
    let ghost xv = (x.0@, pack_view(x.1));
    let mut j: usize = 0;
    while j < sorted.len() && !str_less(x.0.as_str(), sorted[j].0.as_str())
        invariant
            s == document_file_views(sorted@),
            xv == (x.0@, pack_view(x.1)),
            j <= sorted.len(),
            forall|k: int| 0 <= k < j ==> !chars_order()(file_path_key()(xv), file_path_key()(#[trigger] s[k])),
        decreases sorted.len() - j,
    {
        j = j + 1;
    }
    proof {
        lemma_insert_stable_at(s, xv, j as int, file_path_key(), chars_order());
    }
    sorted.insert(j, x);
    assert(document_file_views(sorted@) =~= s.insert(j as int, xv));
}

/// The document files sorted stably by path, the order of the traversal.
pub fn sort_document_files(files: Vec<(String, PackSource)>) -> (r: Vec<(String, PackSource)>)
    ensures
        document_file_views(r@) == sort_stable(document_file_views(files@), file_path_key(), chars_order()),
{
    let ghost all = document_file_views(files@);
    let mut sorted: Vec<(String, PackSource)> = Vec::new();
    let mut k: usize = 0;
    while k < files.len()
        invariant
            all == document_file_views(files@),
            k <= files.len(),
            document_file_views(sorted@) == sort_stable(all.take(k as int), file_path_key(), chars_order()),
        decreases files.len() - k,
    {
        assert(all.take(k + 1).drop_last() =~= all.take(k as int));
        assert(all.take(k + 1).last() == (files@[k as int].0@, pack_view(files@[k as int].1)));
        let entry = (files[k].0.clone(), files[k].1.clone_pack());
        insert_file_stable(&mut sorted, entry);
        k = k + 1;
    }
    assert(all.take(files.len() as int) =~= all);
    sorted
}

/// Where a previous inventory continues: a partial receipt with a recorded
/// next file and index resumes there; any other starts afresh.
pub open spec fn resume_cursor(previous: InventoryReceipt) -> Option<(Seq<char>, nat)> {
    if previous.status is Partial && previous.resume.next_file is Some
        && previous.resume.next_document_index is Some {
        Some((previous.resume.next_file->0@, previous.resume.next_document_index->0 as nat))
    } else {
        None
    }
}

/// What a previous inventory hands to the next traversal: its documents and
/// resume position when it is resumable, else nothing.
pub fn resume_point(previous: InventoryReceipt) -> (r: (Vec<DocumentEvidence>, Option<DecodeCursor>))
    ensures
        resume_cursor(previous) is Some ==> evidence_views(r.0@) == evidence_views(previous.documents@)
            && cursor_view(r.1) == resume_cursor(previous),
        resume_cursor(previous) is None ==> r.0@.len() == 0 && r.1 is None,
{
    let partial = match previous.status {
        ReceiptStatus::Partial => true,
        ReceiptStatus::Complete => false,
    };
    let cursor = match (previous.resume.next_file, previous.resume.next_document_index) {
        (Some(file), Some(document_index)) => if partial {
            Some(DecodeCursor { file, document_index })
        } else {
            None
        },
        _ => None,
    };
    if cursor.is_some() {
        (previous.documents, cursor)
    } else {
        (Vec::new(), None)
    }
}

/// What the file system shows of a pack's path.
#[derive(Clone, Copy, Debug, PartialEq, Eq)]
pub struct PathFacts {
    pub exists: bool,
    pub bytes: u64,
}

/// How many document files belong to pack `id`.
pub open spec fn files_of_pack(files: Seq<(Seq<char>, PackView)>, id: Seq<char>) -> nat
    decreases files.len(),
{
    if files.len() == 0 {
        0
    } else {
        files_of_pack(files.drop_last(), id) + if files.last().1.0 == id {
            1nat
        } else {
            0nat
        }
    }
}

/// How many documents were recorded for pack `id`.
pub open spec fn documents_of_pack(docs: Seq<EvidenceView>, id: Seq<char>) -> nat
    decreases docs.len(),
{
    if docs.len() == 0 {
        0
    } else {
        documents_of_pack(docs.drop_last(), id) + if docs.last().1 == id {
            1nat
        } else {
            0nat
        }
    }
}

/// The unsupported files recorded for pack `id`.
pub open spec fn unsupported_of(map: Seq<(Seq<char>, Seq<Seq<char>>)>, id: Seq<char>) -> Seq<Seq<char>>
    decreases map.len(),
{
    if map.len() == 0 {
        Seq::empty()
    } else if map[0].0 == id {
        map[0].1
    } else {
        unsupported_of(map.drop_first(), id)
    }
}

/// A pack's inventory as plain values.
pub type PackInventoryView = (Seq<char>, Seq<char>, bool, Option<Seq<char>>, u64, nat, nat, Seq<Seq<char>>);

pub open spec fn pack_inventory_view(p: PackInventory) -> PackInventoryView {
    (p.id@, p.path@, p.exists, opt_view(p.document_type), p.bytes, p.decodable_files as nat, p.decoded_documents as nat, string_views(p.unsupported_files@))
}

pub open spec fn pack_inventory_views(v: Seq<PackInventory>) -> Seq<PackInventoryView> {
    v.map_values(|p: PackInventory| pack_inventory_view(p))
}

/// The inventory of one pack.
pub open spec fn pack_inventory_spec(
    pack: PackView,
    facts: PathFacts,
    discovery: FileDiscovery,
    docs: Seq<EvidenceView>,
) -> PackInventoryView {
    (
        pack.0,
        pack.1,
        facts.exists,
        pack.2,
        facts.bytes,
        files_of_pack(document_file_views(discovery.document_files@), pack.0),
        documents_of_pack(docs, pack.0),
        unsupported_of(unsupported_view(discovery.unsupported_by_pack@), pack.0),
    )
}

pub open spec fn id_key() -> spec_fn(PackInventoryView) -> Seq<char> {
    |p: PackInventoryView| p.0
}

/// The inventories of the packs, sorted stably by id.
pub open spec fn pack_inventories_spec(
    packs: Seq<PackSource>,
    facts: Seq<PathFacts>,
    discovery: FileDiscovery,
    docs: Seq<EvidenceView>,
) -> Seq<PackInventoryView> {
    sort_stable(
        Seq::new(packs.len(), |i: int| pack_inventory_spec(pack_view(packs[i]), facts[i], discovery, docs)),
        id_key(),
        chars_order(),
    )
}

fn count_pack_files(files: &Vec<(String, PackSource)>, id: &str) -> (r: usize)
    ensures
        r == files_of_pack(document_file_views(files@), id@),
{
    let ghost v = document_file_views(files@);
    let mut n: usize = 0;
    let mut i: usize = 0;
    while i < files.len()
        invariant
            v == document_file_views(files@),
            i <= files.len(),
            n == files_of_pack(v.take(i as int), id@),
            n <= i,
        decreases files.len() - i,
    {
        assert(v.take(i + 1).drop_last() =~= v.take(i as int));
        if str_eq(files[i].1.id.as_str(), id) {
            n = n + 1;
        }
        i = i + 1;
    }
    assert(v.take(files.len() as int) =~= v);
    n
}

fn count_pack_documents(docs: &Vec<DocumentEvidence>, id: &str) -> (r: usize)
    ensures
        r == documents_of_pack(evidence_views(docs@), id@),
{
    let ghost v = evidence_views(docs@);
    let mut n: usize = 0;
    let mut i: usize = 0;
    while i < docs.len()
        invariant
            v == evidence_views(docs@),
            i <= docs.len(),
            n == documents_of_pack(v.take(i as int), id@),
            n <= i,
        decreases docs.len() - i,
    {
        assert(v.take(i + 1).drop_last() =~= v.take(i as int));
        if str_eq(docs[i].pack_id.as_str(), id) {
            n = n + 1;
        }
        i = i + 1;
    }
    assert(v.take(docs.len() as int) =~= v);
    n
}

fn copy_strings(v: &Vec<String>) -> (r: Vec<String>)
    ensures
        string_views(r@) == string_views(v@),
{
    let mut out: Vec<String> = Vec::new();
    let mut i: usize = 0;
    while i < v.len()
        invariant
            i <= v.len(),
            string_views(out@) == string_views(v@).take(i as int),
        decreases v.len() - i,
    {
        let ghost before = string_views(out@);
        let item = v[i].clone();
        out.push(item);
        assert(string_views(out@) =~= before.push(v@[i as int]@));
        i = i + 1;
        assert(string_views(out@) =~= string_views(v@).take(i as int));
    }
    assert(string_views(v@).take(v.len() as int) =~= string_views(v@));
    out
}

fn unsupported_files_of(map: &Vec<UnsupportedFiles>, id: &str) -> (r: Vec<String>)
    ensures
        string_views(r@) == unsupported_of(unsupported_view(map@), id@),
{
    let ghost m = unsupported_view(map@);
    let mut i: usize = 0;
    assert(m.skip(0) =~= m);
    while i < map.len()
        invariant
            m == unsupported_view(map@),
            i <= map.len(),
            unsupported_of(m, id@) == unsupported_of(m.skip(i as int), id@),
        decreases map.len() - i,
    {
        assert(m.skip(i as int)[0] == m[i as int]);
        if str_eq(map[i].pack_id.as_str(), id) {
            return copy_strings(&map[i].files);
        }
        assert(m.skip(i as int).drop_first() =~= m.skip(i + 1));
        i = i + 1;
    }
    Vec::new()
}

fn insert_inventory_stable(sorted: &mut Vec<PackInventory>, x: PackInventory)
    ensures
        pack_inventory_views(final(sorted)@) == insert_stable(
            pack_inventory_views(old(sorted)@),
            pack_inventory_view(x),
            id_key(),
            chars_order(),
        ),
{
    let ghost s = pack_inventory_views(sorted@);
    let ghost xv = pack_inventory_view(x);
    let mut j: usize = 0;
    while j < sorted.len() && !str_less(x.id.as_str(), sorted[j].id.as_str())
        invariant
            s == pack_inventory_views(sorted@),
            xv == pack_inventory_view(x),
            j <= sorted.len(),
            forall|k: int| 0 <= k < j ==> !chars_order()(id_key()(xv), id_key()(#[trigger] s[k])),
        decreases sorted.len() - j,
    {
        j = j + 1;
    }
    proof {
        lemma_insert_stable_at(s, xv, j as int, id_key(), chars_order());
    }
    sorted.insert(j, x);
    assert(pack_inventory_views(sorted@) =~= s.insert(j as int, xv));
}

/// The inventory of each pack (`facts[i]` is what the file system shows of
/// `packs[i]`): its files, its decoded documents and its unsupported files,
/// sorted stably by pack id.
pub fn pack_inventories(
    packs: &Vec<PackSource>,
    facts: &Vec<PathFacts>,
    discovery: &FileDiscovery,
    documents: &Vec<DocumentEvidence>,
) -> (r: Vec<PackInventory>)
    requires
        packs.len() == facts.len(),
    ensures
        pack_inventory_views(r@) == pack_inventories_spec(packs@, facts@, *discovery, evidence_views(documents@)),
{
    let ghost docs = evidence_views(documents@);
    let ghost all = Seq::new(packs@.len(), |i: int| pack_inventory_spec(pack_view(packs@[i]), facts@[i], *discovery, docs));
    let mut sorted: Vec<PackInventory> = Vec::new();
    let mut i: usize = 0;
    while i < packs.len()
        invariant
            packs.len() == facts.len(),
            docs == evidence_views(documents@),
            all == Seq::new(packs@.len(), |i: int| pack_inventory_spec(pack_view(packs@[i]), facts@[i], *discovery, docs)),
            i <= packs.len(),
            pack_inventory_views(sorted@) == sort_stable(all.take(i as int), id_key(), chars_order()),
        decreases packs.len() - i,
    {
        assert(all.take(i + 1).drop_last() =~= all.take(i as int));
        let pack = &packs[i];
        let entry = PackInventory {
            id: pack.id.clone(),
            path: pack.path.clone(),
            exists: facts[i].exists,
            document_type: match &pack.document_type {
                Some(t) => Some(t.clone()),
                None => None,
            },
            bytes: facts[i].bytes,
            decodable_files: count_pack_files(&discovery.document_files, pack.id.as_str()),
            decoded_documents: count_pack_documents(documents, pack.id.as_str()),
            unsupported_files: unsupported_files_of(&discovery.unsupported_by_pack, pack.id.as_str()),
        };
        assert(pack_inventory_view(entry) == all[i as int]);
        assert(all.take(i + 1).last() == all[i as int]);
        insert_inventory_stable(&mut sorted, entry);
        i = i + 1;
    }
    assert(all.take(packs.len() as int) =~= all);
    sorted
}

/// What an inventory run is asked to do.
pub struct InventoryOptions {
    pub study_id: String,
    pub profile: SurveyProfile,
    pub repository: String,
    pub requested_ref: String,
    pub manifest_path: String,
    pub content_roots: Vec<String>,
    pub source_pointers: Vec<String>,
    pub source_fallbacks: Vec<SourceFallback>,
    pub limits: Limits,
    pub studies_root: String,
}

/// The version recorded in receipts.
pub fn tool_version() -> (r: String)
    ensures
        r@ == "0.1.0"@,
{
    String::from_str("0.1.0")
}

/// A previous inventory of the study must be of the same repository and ref.
pub fn check_previous_repository(previous: &InventoryReceipt, options: &InventoryOptions) -> (r: Result<(), String>)
    ensures
        r is Ok <==> (previous.repository.url@ == options.repository@
            && previous.repository.requested_ref@ == options.requested_ref@),
        r is Err ==> r->Err_0@ == "existing study repository/ref differs; choose another study id"@,
{
    if !str_eq(previous.repository.url.as_str(), options.repository.as_str()) || !str_eq(
        previous.repository.requested_ref.as_str(),
        options.requested_ref.as_str(),
    ) {
        return Err(String::from_str("existing study repository/ref differs; choose another study id"));
    }
    Ok(())
}

/// The configured source pointers, or the default ones when none are configured.
pub fn effective_source_pointers(configured: &Vec<String>) -> (r: Vec<String>)
    ensures
        configured@.len() > 0 ==> string_views(r@) == string_views(configured@),
        configured@.len() == 0 ==> string_views(r@) == default_pointers_spec(),
{
    if configured.len() == 0 {
        default_source_pointers()
    } else {
        copy_strings(configured)
    }
}

pub open spec fn fallback_views(v: Seq<SourceFallback>) -> Seq<(Seq<char>, Seq<char>)> {
    v.map_values(|f: SourceFallback| (f.pack_id@, f.source@))
}

fn same_strings(a: &Vec<String>, b: &Vec<String>) -> (r: bool)
    ensures
        r == (string_views(a@) == string_views(b@)),
{
    if a.len() != b.len() {
        assert(string_views(a@).len() != string_views(b@).len());
        return false;
    }
    let mut i: usize = 0;
    while i < a.len()
        invariant
            a.len() == b.len(),
            i <= a.len(),
            forall|k: int| 0 <= k < i ==> a@[k]@ == b@[k]@,
        decreases a.len() - i,
    {
        if !str_eq(a[i].as_str(), b[i].as_str()) {
            assert(string_views(a@)[i as int] != string_views(b@)[i as int]);
            return false;
        }
        i = i + 1;
    }
    assert(string_views(a@) =~= string_views(b@));
    true
}

fn same_fallbacks(a: &Vec<SourceFallback>, b: &Vec<SourceFallback>) -> (r: bool)
    ensures
        r == (fallback_views(a@) == fallback_views(b@)),
{
    if a.len() != b.len() {
        assert(fallback_views(a@).len() != fallback_views(b@).len());
        return false;
    }
    let mut i: usize = 0;
    while i < a.len()
        invariant
            a.len() == b.len(),
            i <= a.len(),
            forall|k: int| 0 <= k < i ==> a@[k].pack_id@ == b@[k].pack_id@ && a@[k].source@ == b@[k].source@,
        decreases a.len() - i,
    {
        if !str_eq(a[i].pack_id.as_str(), b[i].pack_id.as_str()) || !str_eq(
            a[i].source.as_str(),
            b[i].source.as_str(),
        ) {
            assert(fallback_views(a@)[i as int] != fallback_views(b@)[i as int]);
            return false;
        }
        i = i + 1;
    }
    assert(fallback_views(a@) =~= fallback_views(b@));
    true
}

/// A previous inventory of the study must have used the same source
/// pointers and fallbacks.
pub fn check_previous_configuration(
    previous: &InventoryReceipt,
    source_pointers: &Vec<String>,
    source_fallbacks: &Vec<SourceFallback>,
) -> (r: Result<(), String>)
    ensures
        r is Ok <==> (string_views(previous.source_pointers@) == string_views(source_pointers@)
            && fallback_views(previous.source_fallbacks@) == fallback_views(source_fallbacks@)),
        r is Err ==> r->Err_0@ == "existing study source-pointer configuration differs; choose another study id"@,
{
    if !same_strings(&previous.source_pointers, source_pointers) || !same_fallbacks(
        &previous.source_fallbacks,
        source_fallbacks,
    ) {
        return Err(
            String::from_str(
                "existing study source-pointer configuration differs; choose another study id",
            ),
        );
    }
    Ok(())
}

fn copy_fallbacks(v: &Vec<SourceFallback>) -> (r: Vec<SourceFallback>)
    ensures
        fallback_views(r@) == fallback_views(v@),
{
    let mut out: Vec<SourceFallback> = Vec::new();
    let mut i: usize = 0;
    while i < v.len()
        invariant
            i <= v.len(),
            fallback_views(out@) == fallback_views(v@).take(i as int),
        decreases v.len() - i,
    {
        let ghost before = fallback_views(out@);
        let item = SourceFallback { pack_id: v[i].pack_id.clone(), source: v[i].source.clone() };
        out.push(item);
        assert(fallback_views(out@) =~= before.push(fallback_views(v@)[i as int]));
        i = i + 1;
        assert(fallback_views(out@) =~= fallback_views(v@).take(i as int));
    }
    assert(fallback_views(v@).take(v.len() as int) =~= fallback_views(v@));
    out
}

/// A diagnostic as plain values.
pub type DiagnosticView = (Seq<char>, Seq<char>, Option<Seq<char>>, Option<u64>, Option<u64>);

pub open spec fn diagnostic_view(d: Diagnostic) -> DiagnosticView {
    (d.code@, d.message@, opt_view(d.limit), d.observed, d.maximum)
}

pub open spec fn diagnostic_views(v: Seq<Diagnostic>) -> Seq<DiagnosticView> {
    v.map_values(|d: Diagnostic| diagnostic_view(d))
}

/// A resume state as plain values.
pub type ResumeView = (bool, Option<Seq<char>>, Option<nat>, Seq<char>);

pub open spec fn resume_view(r: ResumeState) -> ResumeView {
    (
        r.resumable,
        opt_view(r.next_file),
        match r.next_document_index {
            Some(i) => Some(i as nat),
            None => None,
        },
        r.instruction@,
    )
}

/// The total number of unsupported files.
pub open spec fn unsupported_total(map: Seq<(Seq<char>, Seq<Seq<char>>)>) -> nat
    decreases map.len(),
{
    if map.len() == 0 {
        0
    } else {
        unsupported_total(map.drop_last()) + map.last().1.len()
    }
}

/// The diagnostics an inventory reports, in order: the decoded-document
/// bound, the unresolved-document bound, unsupported pack files, missing
/// pack paths.
pub open spec fn inventory_diagnostics_spec(
    limit_hit: bool,
    documents: nat,
    limits: Limits,
    unresolved: nat,
    unsupported: nat,
    missing: Seq<Seq<char>>,
) -> Seq<DiagnosticView> {
    let d1: Seq<DiagnosticView> = if limit_hit {
        seq![(
            "SURVEY_DECODED_DOCUMENT_LIMIT"@,
            "decoded-document bound reached; rerun this study with a larger limit to continue at the pinned revision"@,
            Some("maxDecodedDocuments"@),
            Some(documents as u64),
            Some(limits.max_decoded_documents as u64),
        )]
    } else {
        Seq::empty()
    };
    let d2: Seq<DiagnosticView> = if unresolved > limits.max_unresolved_documents {
        d1.push((
            "SURVEY_UNRESOLVED_DOCUMENT_LIMIT"@,
            "unclassified/ambiguous document bound exceeded; narrow the source layout or raise the explicit limit"@,
            Some("maxUnresolvedDocuments"@),
            Some(unresolved as u64),
            Some(limits.max_unresolved_documents as u64),
        ))
    } else {
        d1
    };
    let d3: Seq<DiagnosticView> = if unsupported > 0 {
        d2.push((
            "SURVEY_UNSUPPORTED_PACK_LAYOUT"@,
            "pack files were not decoded; add a system-specific layout/decoder before claiming a complete inventory"@,
            None,
            Some(unsupported as u64),
            None,
        ))
    } else {
        d2
    };
    if missing.len() > 0 {
        d3.push((
            "SURVEY_PACK_PATH_MISSING"@,
            "manifest/content-root pack paths do not exist: "@ + join_text(missing, ", "@),
            None,
            Some(missing.len() as u64),
            None,
        ))
    } else {
        d3
    }
}

/// The resume state of an inventory: not resumable when complete; otherwise
/// resumable, at the bound's position if the bound stopped the traversal.
pub open spec fn inventory_resume_spec(complete: bool, limit: Option<(Seq<char>, nat)>) -> ResumeView {
    if complete {
        (false, None, None, "inventory traversal completed within configured limits"@)
    } else {
        match limit {
            Some(c) => (
                true,
                Some(c.0),
                Some(c.1),
                "rerun inventory with the same study id and a larger --max-decoded-documents; also resolve any other reported diagnostics"@,
            ),
            None => (
                true,
                None,
                None,
                "adjust the reported bounds or add an explicit system profile/decoder, then rerun at the same pinned revision"@,
            ),
        }
    }
}

fn total_unsupported(map: &Vec<UnsupportedFiles>) -> (r: usize)
    requires
        unsupported_total(unsupported_view(map@)) <= usize::MAX,
    ensures
        r == unsupported_total(unsupported_view(map@)),
{
    let ghost m = unsupported_view(map@);
    let mut total: usize = 0;
    let mut i: usize = 0;
    while i < map.len()
        invariant
            m == unsupported_view(map@),
            i <= map.len(),
            total == unsupported_total(m.take(i as int)),
            unsupported_total(m) <= usize::MAX,
        decreases map.len() - i,
    {
        assert(m.take(i + 1).drop_last() =~= m.take(i as int));
        assert(m[i as int].1.len() == map@[i as int].files@.len());
        proof {
            lemma_unsupported_total_prefix(m, i + 1);
        }
        total = total + map[i].files.len();
        i = i + 1;
    }
    assert(m.take(map.len() as int) =~= m);
    total
}

proof fn lemma_unsupported_total_prefix(m: Seq<(Seq<char>, Seq<Seq<char>>)>, n: int)
    requires
        0 <= n <= m.len(),
    ensures
        unsupported_total(m.take(n)) <= unsupported_total(m),
    decreases m.len() - n,
{
    if n < m.len() {
        lemma_unsupported_total_prefix(m, n + 1);
        assert(m.take(n + 1).drop_last() =~= m.take(n));
    } else {
        assert(m.take(n) =~= m);
    }
}

fn diagnostic(code: &str, message: String, limit: Option<&str>, observed: Option<u64>, maximum: Option<u64>) -> (r: Diagnostic)
    ensures
        diagnostic_view(r) == (code@, message@, match limit {
            Some(l) => Some(l@),
            None => None::<Seq<char>>,
        }, observed, maximum),
{
    Diagnostic {
        code: String::from_str(code),
        message,
        limit: match limit {
            Some(l) => Some(String::from_str(l)),
            None => None,
        },
        observed,
        maximum,
    }
}

/// Everything an inventory recorded, from the parts a run gathered: the
/// counts of its documents, its diagnostics, and a status that is partial
/// exactly when there is a diagnostic.
pub fn finish_inventory(
    options: &InventoryOptions,
    pinned_commit: String,
    repository_bytes: u64,
    manifest: SystemManifest,
    source_pointers: Vec<String>,
    packs: Vec<PackInventory>,
    discovery: &FileDiscovery,
    traversal: DocumentTraversal,
) -> (r: InventoryReceipt)
    requires
        unsupported_total(unsupported_view(discovery.unsupported_by_pack@)) <= usize::MAX,
    ensures
        r.schema_version == SCHEMA_VERSION,
        r.tool_version@ == "0.1.0"@,
        r.study_id@ == options.study_id@,
        r.repository.url@ == options.repository@,
        r.repository.requested_ref@ == options.requested_ref@,
        r.repository.pinned_commit@ == pinned_commit@,
        r.repository.checkout_relative_path@ == "checkout"@,
        r.repository.repository_bytes == repository_bytes,
        r.manifest == manifest,
        r.limits == options.limits,
        r.source_pointers == source_pointers,
        fallback_views(r.source_fallbacks@) == fallback_views(options.source_fallbacks@),
        r.packs == packs,
        evidence_views(r.documents@) == traversal.view().0,
        counts_match(r.documents@, r.counts),
        diagnostic_views(r.diagnostics@) == inventory_diagnostics_spec(
            traversal.view().3 is Some,
            r.documents@.len(),
            options.limits,
            sat_add(r.counts.missing_source_documents as nat, r.counts.ambiguous_source_documents as nat),
            unsupported_total(unsupported_view(discovery.unsupported_by_pack@)),
            string_views(discovery.missing_packs@),
        ),
        (r.status is Complete) <==> r.diagnostics@.len() == 0,
        resume_view(r.resume) == inventory_resume_spec(r.diagnostics@.len() == 0, traversal.view().3),
{
    let limit = traversal.limit;
    let documents = traversal.documents;
    let counts = count_documents(&documents);
    let unresolved = counts.missing_source_documents.saturating_add(counts.ambiguous_source_documents);
    let unsupported_files = total_unsupported(&discovery.unsupported_by_pack);
    let limits = options.limits;
    let mut diagnostics: Vec<Diagnostic> = Vec::new();
    proof {
        reveal_strlit(", ");
    }
    if limit.is_some() {
        diagnostics.push(diagnostic(
            "SURVEY_DECODED_DOCUMENT_LIMIT",
            String::from_str("decoded-document bound reached; rerun this study with a larger limit to continue at the pinned revision"),
            Some("maxDecodedDocuments"),
            Some(documents.len() as u64),
            Some(limits.max_decoded_documents as u64),
        ));
    }
    let ghost d1 = diagnostic_views(diagnostics@);
    if unresolved > limits.max_unresolved_documents {
        diagnostics.push(diagnostic(
            "SURVEY_UNRESOLVED_DOCUMENT_LIMIT",
            String::from_str("unclassified/ambiguous document bound exceeded; narrow the source layout or raise the explicit limit"),
            Some("maxUnresolvedDocuments"),
            Some(unresolved as u64),
            Some(limits.max_unresolved_documents as u64),
        ));
        assert(diagnostic_views(diagnostics@) =~= d1.push(diagnostic_view(diagnostics@.last())));
    }
    let ghost d2 = diagnostic_views(diagnostics@);
    if unsupported_files > 0 {
        diagnostics.push(diagnostic(
            "SURVEY_UNSUPPORTED_PACK_LAYOUT",
            String::from_str("pack files were not decoded; add a system-specific layout/decoder before claiming a complete inventory"),
            None,
            Some(unsupported_files as u64),
            None,
        ));
        assert(diagnostic_views(diagnostics@) =~= d2.push(diagnostic_view(diagnostics@.last())));
    }
    let ghost d3 = diagnostic_views(diagnostics@);
    if discovery.missing_packs.len() > 0 {
        let listed = join_strings(&discovery.missing_packs, ", ");
        let message = concat2("manifest/content-root pack paths do not exist: ", listed.as_str());
        diagnostics.push(diagnostic(
            "SURVEY_PACK_PATH_MISSING",
            message,
            None,
            Some(discovery.missing_packs.len() as u64),
            None,
        ));
        assert(diagnostic_views(diagnostics@) =~= d3.push(diagnostic_view(diagnostics@.last())));
    }
    assert(string_views(discovery.missing_packs@).len() == discovery.missing_packs@.len());
    let complete = diagnostics.len() == 0;
    let status = if complete {
        ReceiptStatus::Complete
    } else {
        ReceiptStatus::Partial
    };
    let resume = if complete {
        ResumeState {
            resumable: false,
            next_file: None,
            next_document_index: None,
            instruction: String::from_str("inventory traversal completed within configured limits"),
        }
    } else {
        let instruction = if limit.is_some() {
            String::from_str("rerun inventory with the same study id and a larger --max-decoded-documents; also resolve any other reported diagnostics")
        } else {
            String::from_str("adjust the reported bounds or add an explicit system profile/decoder, then rerun at the same pinned revision")
        };
        match limit {
            Some(c) => ResumeState {
                resumable: true,
                next_file: Some(c.file),
                next_document_index: Some(c.document_index),
                instruction,
            },
            None => ResumeState { resumable: true, next_file: None, next_document_index: None, instruction },
        }
    };
    InventoryReceipt {
        schema_version: SCHEMA_VERSION,
        tool_version: tool_version(),
        study_id: options.study_id.clone(),
        status,
        repository: RepositoryReceipt {
            url: options.repository.clone(),
            requested_ref: options.requested_ref.clone(),
            pinned_commit,
            checkout_relative_path: String::from_str("checkout"),
            repository_bytes,
        },
        manifest,
        limits,
        source_pointers,
        source_fallbacks: copy_fallbacks(&options.source_fallbacks),
        packs,
        counts,
        documents,
        diagnostics,
        resume,
    }
}

/// `a + b`, saturating at `usize::MAX`.
pub open spec fn sat_add(a: nat, b: nat) -> nat {
    if a + b > usize::MAX {
        usize::MAX as nat
    } else {
        a + b
    }
}

/// The receipt of an inventory stopped because the checkout exceeds the
/// repository-size bound: partial, with no documents, the observed size in
/// its only diagnostic, resumable only with a larger bound.
pub open spec fn size_limited_matches(
    r: InventoryReceipt,
    options: InventoryOptions,
    source_pointers: Seq<Seq<char>>,
    commit: Seq<char>,
    repository_bytes: u64,
) -> bool {
    &&& r.schema_version == SCHEMA_VERSION
    &&& r.tool_version@ == "0.1.0"@
    &&& r.study_id@ == options.study_id@
    &&& r.status is Partial
    &&& r.repository.url@ == options.repository@
    &&& r.repository.requested_ref@ == options.requested_ref@
    &&& r.repository.pinned_commit@ == commit
    &&& r.repository.checkout_relative_path@ == "checkout"@
    &&& r.repository.repository_bytes == repository_bytes
    &&& r.manifest.path@ == options.manifest_path@
    &&& r.manifest.id is None && r.manifest.title is None && r.manifest.version is None
    &&& r.manifest.compatibility.minimum is None && r.manifest.compatibility.verified is None
        && r.manifest.compatibility.maximum is None
    &&& r.limits == options.limits
    &&& string_views(r.source_pointers@) == source_pointers
    &&& fallback_views(r.source_fallbacks@) == fallback_views(options.source_fallbacks@)
    &&& r.packs@.len() == 0
    &&& r.documents@.len() == 0
    &&& counts_match(r.documents@, r.counts)
    &&& diagnostic_views(r.diagnostics@) == seq![(
        "SURVEY_REPOSITORY_SIZE_LIMIT"@,
        "checked-out repository exceeds the configured storage/download safety bound"@,
        Some("maxRepositoryBytes"@),
        Some(repository_bytes),
        Some(options.limits.max_repository_bytes),
    )]
    &&& resume_view(r.resume) == (
        true,
        None::<Seq<char>>,
        None::<nat>,
        "remove the study or rerun with an explicitly larger --max-repository-bytes"@,
    )
}

/// The receipt of an inventory stopped because the checkout exceeds the
/// repository-size bound.
pub fn size_limited_receipt(
    options: &InventoryOptions,
    source_pointers: &Vec<String>,
    commit: &str,
    repository_bytes: u64,
) -> (r: InventoryReceipt)
    ensures
        size_limited_matches(r, *options, string_views(source_pointers@), commit@, repository_bytes),
{
    let mut diagnostics: Vec<Diagnostic> = Vec::new();
    diagnostics.push(diagnostic(
        "SURVEY_REPOSITORY_SIZE_LIMIT",
        String::from_str("checked-out repository exceeds the configured storage/download safety bound"),
        Some("maxRepositoryBytes"),
        Some(repository_bytes),
        Some(options.limits.max_repository_bytes),
    ));
    assert(diagnostic_views(diagnostics@) =~= seq![diagnostic_view(diagnostics@[0])]);
    let documents: Vec<DocumentEvidence> = Vec::new();
    let counts = count_documents(&documents);
    InventoryReceipt {
        schema_version: SCHEMA_VERSION,
        tool_version: tool_version(),
        study_id: options.study_id.clone(),
        status: ReceiptStatus::Partial,
        repository: RepositoryReceipt {
            url: options.repository.clone(),
            requested_ref: options.requested_ref.clone(),
            pinned_commit: String::from_str(commit),
            checkout_relative_path: String::from_str("checkout"),
            repository_bytes,
        },
        manifest: SystemManifest {
            path: options.manifest_path.clone(),
            id: None,
            title: None,
            version: None,
            compatibility: Compatibility::default(),
        },
        limits: options.limits,
        source_pointers: copy_strings(source_pointers),
        source_fallbacks: copy_fallbacks(&options.source_fallbacks),
        packs: Vec::new(),
        counts,
        documents,
        diagnostics,
        resume: ResumeState {
            resumable: true,
            next_file: None,
            next_document_index: None,
            instruction: String::from_str("remove the study or rerun with an explicitly larger --max-repository-bytes"),
        },
    }
}

/// The receipt of an inventory whose checkout of `repository_bytes` exceeds
/// the repository-size bound, and nothing when the checkout is within it.
pub fn oversized_inventory(
    options: &InventoryOptions,
    source_pointers: &Vec<String>,
    commit: &str,
    repository_bytes: u64,
) -> (r: Option<InventoryReceipt>)
    ensures
        r is Some <==> repository_bytes > options.limits.max_repository_bytes,
        r matches Some(receipt) ==> size_limited_matches(
            receipt,
            *options,
            string_views(source_pointers@),
            commit@,
            repository_bytes,
        ),
{
    if repository_bytes > options.limits.max_repository_bytes {
        Some(size_limited_receipt(options, source_pointers, commit, repository_bytes))
    } else {
        None
    }
}

/// The commit a run pins: a rerun of a study keeps the commit its previous
/// inventory pinned, provided it asks for the same repository and ref; a
/// first run pins nothing yet, and the remote decides.
pub fn commit_to_pin(previous: &Option<InventoryReceipt>, options: &InventoryOptions) -> (r: Result<
    Option<String>,
    String,
>)
    ensures
        previous is None ==> r == Ok::<Option<String>, String>(None::<String>),
        previous matches Some(p) ==> (r is Ok <==> p.repository.url@ == options.repository@
            && p.repository.requested_ref@ == options.requested_ref@),
        previous matches Some(p) ==> (r is Ok ==> (r->Ok_0 matches Some(c) && c@ == p.repository.pinned_commit@)),
        previous is Some ==> (r matches Err(e) ==> e@ == "existing study repository/ref differs; choose another study id"@),
{
    match previous {
        None => Ok(None),
        Some(p) => match check_previous_repository(p, options) {
            Ok(()) => Ok(Some(p.repository.pinned_commit.clone())),
            Err(e) => Err(e),
        },
    }
}
/// Without configured pointers, a document's source is read at the seven
/// common pointers, in this order: `/system/source/id`,
/// `/system/source/book`, `/system/source/title`,
/// `/system/publication/title`, `/source/id`, `/source`,
/// `/_stats/compendiumSource`; configured pointers replace them.
pub proof fn law_default_source_pointers(configured: Seq<Seq<char>>, effective: Seq<Seq<char>>)
    requires
        configured.len() > 0 ==> effective == configured,
        configured.len() == 0 ==> effective == default_pointers_spec(),
    ensures
        configured.len() == 0 ==> effective =~= seq![
            "/system/source/id"@,
            "/system/source/book"@,
            "/system/source/title"@,
            "/system/publication/title"@,
            "/source/id"@,
            "/source"@,
            "/_stats/compendiumSource"@,
        ],
        configured.len() > 0 ==> effective == configured,
{
}

} // verus!
