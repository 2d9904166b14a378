//! Scan: the whitelist partition of an inventory's documents and the
//! grouping of the included ones by structural shape.

use vstd::prelude::*;

use crate::inventory::count_where;
use crate::inventory::diagnostic_view;
use crate::inventory::diagnostic_views;
use crate::inventory::resume_view;
use crate::inventory::tool_version;
use crate::inventory::DiagnosticView;
use crate::inventory::ResumeView;
use crate::json::JsonMember;
use crate::json::JsonNumber;
use crate::json::JsonValue;
use crate::inventory::is_ambiguous;
use crate::inventory::is_missing;
use crate::inventory::lemma_count_where_bound;
use crate::model::count_view;
use crate::model::opt_view;
use crate::model::Diagnostic;
use crate::model::DocumentEvidence;
use crate::model::InventoryReceipt;
use crate::model::ReceiptStatus;
use crate::model::ResumeState;
use crate::model::ScanReceipt;
use crate::model::SCHEMA_VERSION;
use crate::model::KeyCount;
use crate::model::Limits;
use crate::model::RepresentativeExample;
use crate::model::ShapeGroup;
use crate::model::SourceAudit;
use crate::model::SourceIdentity;
use crate::model::SourcePartition;
use crate::model::UnclassifiedPartition;
use crate::order::sorted_unique;
use crate::order::strict_total;
use crate::tally::lemma_group_step;
use crate::tally::add_count;
use crate::tally::insert_text_unique;
use crate::tally::tally;
use crate::text::chars_lt;
use crate::text::chars_order;
use crate::text::concat3;
use crate::text::decimal;
use crate::text::usize_text;
use crate::text::lemma_chars_order_total;
use crate::text::str_less;
use crate::text::str_eq;
use crate::text::string_views;

verus! {

/// The whitelist: the included sources, sorted, without repetitions.
pub open spec fn whitelist_of(included: Seq<Seq<char>>) -> Seq<Seq<char>> {
    sorted_unique(included, chars_order())
}

/// The included sources, sorted, without repetitions.
pub fn whitelist(included_sources: &Vec<String>) -> (r: Vec<String>)
    ensures
        string_views(r@) == whitelist_of(string_views(included_sources@)),
{
    let ghost all = string_views(included_sources@);
    let mut set: Vec<String> = Vec::new();
    let mut i: usize = 0;
    while i < included_sources.len()
        invariant
            all == string_views(included_sources@),
            i <= included_sources.len(),
            string_views(set@) == sorted_unique(all.take(i as int), chars_order()),
        decreases included_sources.len() - i,
    {
        assert(all.take(i + 1).drop_last() =~= all.take(i as int));
        assert(all.take(i + 1).last() == included_sources@[i as int]@);
        insert_text_unique(&mut set, included_sources[i].clone());
        i = i + 1;
    }
    assert(all.take(included_sources.len() as int) =~= all);
    set
}

fn contains_text(set: &Vec<String>, x: &str) -> (r: bool)
    ensures
        r == string_views(set@).contains(x@),
{
    let mut i: usize = 0;
    while i < set.len()
        invariant
            i <= set.len(),
            forall|k: int| 0 <= k < i ==> set@[k]@ != x@,
        decreases set.len() - i,
    {
        if str_eq(set[i].as_str(), x) {
            assert(string_views(set@)[i as int] == x@);
            return true;
        }
        i = i + 1;
    }
    assert forall|k: int| 0 <= k < string_views(set@).len() implies string_views(set@)[k] != x@ by {
        assert(string_views(set@)[k] == set@[k]@);
    }
    false
}

/// A document whose source is classified and whitelisted.
pub open spec fn is_included(d: DocumentEvidence, wl: Seq<Seq<char>>) -> bool {
    d.source.spec_classified_value() matches Some(v) && wl.contains(v)
}

/// A document whose source is classified but not whitelisted.
pub open spec fn is_excluded(d: DocumentEvidence, wl: Seq<Seq<char>>) -> bool {
    d.source.spec_classified_value() matches Some(v) && !wl.contains(v)
}

/// The sources of the documents of one side of the partition, in order.
pub open spec fn partition_sources(docs: Seq<DocumentEvidence>, wl: Seq<Seq<char>>, included: bool) -> Seq<Seq<char>>
    decreases docs.len(),
{
    if docs.len() == 0 {
        Seq::empty()
    } else {
        let prev = partition_sources(docs.drop_last(), wl, included);
        match docs.last().source.spec_classified_value() {
            Some(v) => if wl.contains(v) == included {
                prev.push(v)
            } else {
                prev
            },
            None => prev,
        }
    }
}

/// The pointers of the documents whose source is missing or ambiguous, in order.
pub open spec fn unresolved_pointers(docs: Seq<DocumentEvidence>) -> Seq<Seq<char>>
    decreases docs.len(),
{
    if docs.len() == 0 {
        Seq::empty()
    } else if docs.last().source is Classified {
        unresolved_pointers(docs.drop_last())
    } else {
        unresolved_pointers(docs.drop_last()).push(docs.last().pointer@)
    }
}

/// The audit is the partition of the documents: included (classified and
/// whitelisted), excluded by the whitelist (classified otherwise), and
/// unresolved (missing or ambiguous).
pub open spec fn audit_matches(docs: Seq<DocumentEvidence>, wl: Seq<Seq<char>>, a: SourceAudit) -> bool {
    &&& a.included.document_count == count_where(docs, |d: DocumentEvidence| is_included(d, wl))
    &&& count_view(a.included.sources@) == tally(partition_sources(docs, wl, true))
    &&& a.excluded_by_whitelist.document_count == count_where(docs, |d: DocumentEvidence| is_excluded(d, wl))
    &&& count_view(a.excluded_by_whitelist.sources@) == tally(partition_sources(docs, wl, false))
    &&& a.unclassified_or_ambiguous.missing == count_where(docs, |d: DocumentEvidence| is_missing(d))
    &&& a.unclassified_or_ambiguous.ambiguous == count_where(docs, |d: DocumentEvidence| is_ambiguous(d))
    &&& a.unclassified_or_ambiguous.document_count == count_where(
        docs,
        |d: DocumentEvidence| !(d.source is Classified),
    )
    &&& string_views(a.unclassified_or_ambiguous.pointers@) == unresolved_pointers(docs)
}

proof fn lemma_partition_len(docs: Seq<DocumentEvidence>, wl: Seq<Seq<char>>)
    ensures
        partition_sources(docs, wl, true).len() <= docs.len(),
        partition_sources(docs, wl, false).len() <= docs.len(),
    decreases docs.len(),
{
    if docs.len() > 0 {
        lemma_partition_len(docs.drop_last(), wl);
    }
}

/// Partitions the documents by the whitelist.
pub fn audit_sources(documents: &Vec<DocumentEvidence>, whitelist: &Vec<String>) -> (r: SourceAudit)
    ensures
        audit_matches(documents@, string_views(whitelist@), r),
{
    let ghost docs = documents@;
    let ghost wl = string_views(whitelist@);
    let mut included = SourcePartition::default();
    let mut excluded = SourcePartition::default();
    let mut unresolved = UnclassifiedPartition::default();
    assert(count_view(included.sources@) =~= tally(partition_sources(docs.take(0), wl, true)));
    assert(count_view(excluded.sources@) =~= tally(partition_sources(docs.take(0), wl, false)));
    assert(string_views(unresolved.pointers@) =~= unresolved_pointers(docs.take(0)));
    let mut i: usize = 0;
    while i < documents.len()
        invariant
            docs == documents@,
            wl == string_views(whitelist@),
            i <= documents.len(),
            included.document_count == count_where(docs.take(i as int), |d: DocumentEvidence| is_included(d, wl)),
            count_view(included.sources@) == tally(partition_sources(docs.take(i as int), wl, true)),
            excluded.document_count == count_where(docs.take(i as int), |d: DocumentEvidence| is_excluded(d, wl)),
            count_view(excluded.sources@) == tally(partition_sources(docs.take(i as int), wl, false)),
            unresolved.missing == count_where(docs.take(i as int), |d: DocumentEvidence| is_missing(d)),
            unresolved.ambiguous == count_where(docs.take(i as int), |d: DocumentEvidence| is_ambiguous(d)),
            unresolved.document_count == count_where(docs.take(i as int), |d: DocumentEvidence| !(d.source is Classified)),
            string_views(unresolved.pointers@) == unresolved_pointers(docs.take(i as int)),
        decreases documents.len() - i,
    {
        let ghost prefix = docs.take(i as int);
        let ghost next = docs.take(i + 1);
        assert(next.drop_last() =~= prefix);
        assert(next.last() == docs[i as int]);
        proof {
            lemma_count_where_bound(prefix, |d: DocumentEvidence| is_included(d, wl));
            lemma_count_where_bound(prefix, |d: DocumentEvidence| is_excluded(d, wl));
            lemma_count_where_bound(prefix, |d: DocumentEvidence| is_missing(d));
            lemma_count_where_bound(prefix, |d: DocumentEvidence| is_ambiguous(d));
            lemma_count_where_bound(prefix, |d: DocumentEvidence| !(d.source is Classified));
            lemma_partition_len(prefix, wl);
        }
        let document = &documents[i];
        match &document.source {
            SourceIdentity::Classified { value, .. } => {
                if contains_text(whitelist, value.as_str()) {
                    included.document_count = included.document_count + 1;
                    add_count(&mut included.sources, value.as_str(), Ghost(partition_sources(prefix, wl, true)));
                } else {
                    excluded.document_count = excluded.document_count + 1;
                    add_count(&mut excluded.sources, value.as_str(), Ghost(partition_sources(prefix, wl, false)));
                }
            },
            SourceIdentity::Missing => {
                unresolved.missing = unresolved.missing + 1;
                unresolved.document_count = unresolved.document_count + 1;
                let ghost before = string_views(unresolved.pointers@);
                unresolved.pointers.push(document.pointer.clone());
                assert(string_views(unresolved.pointers@) =~= before.push(document.pointer@));
            },
            SourceIdentity::Ambiguous { .. } => {
                unresolved.ambiguous = unresolved.ambiguous + 1;
                unresolved.document_count = unresolved.document_count + 1;
                let ghost before = string_views(unresolved.pointers@);
                unresolved.pointers.push(document.pointer.clone());
                assert(string_views(unresolved.pointers@) =~= before.push(document.pointer@));
            },
        }
        i = i + 1;
    }
    assert(docs.take(documents.len() as int) =~= docs);
    SourceAudit { included, excluded_by_whitelist: excluded, unclassified_or_ambiguous: unresolved }
}


proof fn lemma_partition_counts(docs: Seq<DocumentEvidence>, wl: Seq<Seq<char>>)
    ensures
        count_where(docs, |d: DocumentEvidence| is_included(d, wl)) + count_where(
            docs,
            |d: DocumentEvidence| is_excluded(d, wl),
        ) + count_where(docs, |d: DocumentEvidence| !(d.source is Classified)) == docs.len(),
        count_where(docs, |d: DocumentEvidence| !(d.source is Classified)) == count_where(
            docs,
            |d: DocumentEvidence| is_missing(d),
        ) + count_where(docs, |d: DocumentEvidence| is_ambiguous(d)),
    decreases docs.len(),
{
    if docs.len() > 0 {
        lemma_partition_counts(docs.drop_last(), wl);
    }
}

/// The audit partitions the documents: every document is included,
/// excluded by the whitelist, or unresolved, and exactly one of these; the
/// unresolved ones are the missing and the ambiguous ones.
pub proof fn law_audit_partitions_documents(docs: Seq<DocumentEvidence>, wl: Seq<Seq<char>>, a: SourceAudit)
    requires
        audit_matches(docs, wl, a),
    ensures
        a.included.document_count + a.excluded_by_whitelist.document_count
            + a.unclassified_or_ambiguous.document_count == docs.len(),
        a.unclassified_or_ambiguous.document_count == a.unclassified_or_ambiguous.missing
            + a.unclassified_or_ambiguous.ambiguous,
{
    lemma_partition_counts(docs, wl);
}

/// The key of a shape group: signature, document type, subtype.
pub type GroupKey = (Seq<char>, Seq<char>, Option<Seq<char>>);

pub open spec fn group_key_of(d: DocumentEvidence) -> GroupKey {
    (d.structural_signature@, d.document_type@, opt_view(d.subtype))
}

/// Order on optional texts: nothing first, then by text.
pub open spec fn opt_lt(a: Option<Seq<char>>, b: Option<Seq<char>>) -> bool {
    match b {
        Some(y) => match a {
            Some(x) => chars_lt(x, y),
            None => true,
        },
        None => false,
    }
}

/// Order on group keys: by signature, then document type, then subtype.
pub open spec fn key_order() -> spec_fn(GroupKey, GroupKey) -> bool {
    |a: GroupKey, b: GroupKey|
        chars_lt(a.0, b.0) || (a.0 == b.0 && (chars_lt(a.1, b.1) || (a.1 == b.1 && opt_lt(a.2, b.2))))
}

pub proof fn lemma_key_order_total()
    ensures
        strict_total(key_order()),
{
    lemma_chars_order_total();
    assert forall|a: GroupKey| !(#[trigger] key_order()(a, a)) by {
        assert(!chars_order()(a.0, a.0));
        assert(!chars_order()(a.1, a.1));
        if a.2 is Some {
            assert(!chars_order()(a.2->0, a.2->0));
        }
    }
    assert forall|a: GroupKey, b: GroupKey| #[trigger] key_order()(a, b) implies !key_order()(b, a) by {
        assert(chars_order()(a.0, b.0) ==> !chars_order()(b.0, a.0));
        assert(chars_order()(a.1, b.1) ==> !chars_order()(b.1, a.1));
        assert(!chars_order()(a.0, a.0));
        assert(!chars_order()(a.1, a.1));
        if a.2 is Some && b.2 is Some {
            assert(chars_order()(a.2->0, b.2->0) ==> !chars_order()(b.2->0, a.2->0));
        }
    }
    assert forall|a: GroupKey, b: GroupKey| a != b implies #[trigger] key_order()(a, b) || key_order()(b, a) by {
        assert(a.0 == b.0 || chars_order()(a.0, b.0) || chars_order()(b.0, a.0));
        assert(a.1 == b.1 || chars_order()(a.1, b.1) || chars_order()(b.1, a.1));
        if a.2 is Some && b.2 is Some {
            assert(a.2->0 == b.2->0 || chars_order()(a.2->0, b.2->0) || chars_order()(b.2->0, a.2->0));
        }
    }
    assert forall|a: GroupKey, b: GroupKey, c: GroupKey| #[trigger] key_order()(a, b) && #[trigger] key_order()(
        b,
        c,
    ) implies key_order()(a, c) by {
        assert(chars_order()(a.0, b.0) && chars_order()(b.0, c.0) ==> chars_order()(a.0, c.0));
        assert(chars_order()(a.1, b.1) && chars_order()(b.1, c.1) ==> chars_order()(a.1, c.1));
        if a.2 is Some && b.2 is Some && c.2 is Some {
            assert(chars_order()(a.2->0, b.2->0) && chars_order()(b.2->0, c.2->0) ==> chars_order()(
                a.2->0,
                c.2->0,
            ));
        }
    }
}

/// `(key, index)` of each included document, in order.
pub open spec fn group_events(docs: Seq<DocumentEvidence>, wl: Seq<Seq<char>>) -> Seq<(GroupKey, nat)>
    decreases docs.len(),
{
    if docs.len() == 0 {
        Seq::empty()
    } else {
        let prev = group_events(docs.drop_last(), wl);
        if is_included(docs.last(), wl) {
            prev.push((group_key_of(docs.last()), (docs.len() - 1) as nat))
        } else {
            prev
        }
    }
}

pub open spec fn event_keys(events: Seq<(GroupKey, nat)>) -> Seq<GroupKey> {
    events.map_values(|e: (GroupKey, nat)| e.0)
}

/// The document indices of group `k`, in order.
pub open spec fn members_for(events: Seq<(GroupKey, nat)>, k: GroupKey) -> Seq<nat>
    decreases events.len(),
{
    if events.len() == 0 {
        Seq::empty()
    } else if events.last().0 == k {
        members_for(events.drop_last(), k).push(events.last().1)
    } else {
        members_for(events.drop_last(), k)
    }
}

/// The included documents grouped by key: keys in ascending order, each with
/// its document indices in order.
pub open spec fn grouping(docs: Seq<DocumentEvidence>, wl: Seq<Seq<char>>) -> Seq<(GroupKey, Seq<nat>)> {
    let ev = group_events(docs, wl);
    sorted_unique(event_keys(ev), key_order()).map_values(|k: GroupKey| (k, members_for(ev, k)))
}

/// A group under construction.
pub struct PendingGroup {
    pub signature: String,
    pub document_type: String,
    pub subtype: Option<String>,
    pub members: Vec<usize>,
}

pub open spec fn pending_key(g: PendingGroup) -> GroupKey {
    (g.signature@, g.document_type@, opt_view(g.subtype))
}

pub open spec fn index_views(v: Seq<usize>) -> Seq<nat> {
    v.map_values(|i: usize| i as nat)
}

pub open spec fn pending_views(v: Seq<PendingGroup>) -> Seq<(GroupKey, Seq<nat>)> {
    v.map_values(|g: PendingGroup| (pending_key(g), index_views(g.members@)))
}

fn opt_less(a: &Option<String>, b: &Option<String>) -> (r: bool)
    ensures
        r == opt_lt(opt_view(*a), opt_view(*b)),
{
    match b {
        Some(y) => match a {
            Some(x) => str_less(x.as_str(), y.as_str()),
            None => true,
        },
        None => false,
    }
}

fn opt_equal(a: &Option<String>, b: &Option<String>) -> (r: bool)
    ensures
        r == (opt_view(*a) == opt_view(*b)),
{
    match (a, b) {
        (Some(x), Some(y)) => str_eq(x.as_str(), y.as_str()),
        (None, None) => true,
        _ => false,
    }
}

fn key_less(g: &PendingGroup, d: &DocumentEvidence) -> (r: bool)
    ensures
        r == key_order()(pending_key(*g), group_key_of(*d)),
{
    if str_less(g.signature.as_str(), d.structural_signature.as_str()) {
        return true;
    }
    if !str_eq(g.signature.as_str(), d.structural_signature.as_str()) {
        return false;
    }
    if str_less(g.document_type.as_str(), d.document_type.as_str()) {
        return true;
    }
    if !str_eq(g.document_type.as_str(), d.document_type.as_str()) {
        return false;
    }
    opt_less(&g.subtype, &d.subtype)
}

fn key_equal(g: &PendingGroup, d: &DocumentEvidence) -> (r: bool)
    ensures
        r == (pending_key(*g) == group_key_of(*d)),
{
    str_eq(g.signature.as_str(), d.structural_signature.as_str()) && str_eq(
        g.document_type.as_str(),
        d.document_type.as_str(),
    ) && opt_equal(&g.subtype, &d.subtype)
}

proof fn lemma_members_absent(events: Seq<(GroupKey, nat)>, k: GroupKey)
    requires
        !event_keys(events).contains(k),
    ensures
        members_for(events, k) == Seq::<nat>::empty(),
    decreases events.len(),
{
    if events.len() > 0 {
        let keys = event_keys(events);
        assert(keys[events.len() - 1] == events.last().0);
        assert(event_keys(events.drop_last()) =~= keys.drop_last());
        assert(!keys.drop_last().contains(k)) by {
            if keys.drop_last().contains(k) {
                let i = choose|i: int| 0 <= i < keys.drop_last().len() && keys.drop_last()[i] == k;
                assert(keys[i] == k);
            }
        }
        lemma_members_absent(events.drop_last(), k);
    }
}

fn add_member(
    groups: &mut Vec<PendingGroup>,
    d: &DocumentEvidence,
    index: usize,
    Ghost(events): Ghost<Seq<(GroupKey, nat)>>,
)
    requires
        pending_views(old(groups)@) == sorted_unique(event_keys(events), key_order()).map_values(
            |k: GroupKey| (k, members_for(events, k)),
        ),
    ensures
        ({
            let ne = events.push((group_key_of(*d), index as nat));
            pending_views(final(groups)@) == sorted_unique(event_keys(ne), key_order()).map_values(
                |k: GroupKey| (k, members_for(ne, k)),
            )
        }),
{
    proof {
        lemma_key_order_total();
    }
    let ghost t = group_key_of(*d);
    let ghost np = events.push((t, index as nat));
    let ghost keys = event_keys(events);
    let ghost s = sorted_unique(keys, key_order());
    let ghost f = |x: GroupKey| members_for(events, x);
    let ghost g = |x: GroupKey| members_for(np, x);
    assert(np.drop_last() =~= events);
    assert(event_keys(np) =~= keys.push(t));
    assert forall|x: GroupKey| x != t implies #[trigger] g(x) == f(x) by {
        assert(members_for(np, x) == members_for(events, x));
    }
    assert(members_for(np, t) == members_for(events, t).push(index as nat));
    assert(pending_views(groups@) =~= s.map_values(|x: GroupKey| (x, f(x))));
    assert(groups@.len() == s.len());
    let mut j: usize = 0;
    while j < groups.len() && key_less(&groups[j], d)
        invariant
            pending_views(groups@) == s.map_values(|x: GroupKey| (x, f(x))),
            s == sorted_unique(keys, key_order()),
            keys == event_keys(events),
            groups@.len() == s.len(),
            t == group_key_of(*d),
            j <= groups.len(),
            forall|i: int| 0 <= i < j ==> key_order()(#[trigger] s[i], t),
        decreases groups.len() - j,
    {
        assert(pending_views(groups@)[j as int].0 == s[j as int]);
        j = j + 1;
    }
    if j < groups.len() {
        assert(pending_views(groups@)[j as int].0 == s[j as int]);
    }
    proof {
        lemma_group_step(keys, t, key_order(), f, g, j as int);
    }
    let ghost before = pending_views(groups@);
    if j < groups.len() && key_equal(&groups[j], d) {
        let mut entry = groups.remove(j);
        assert(index_views(entry.members@) == f(t));
        let ghost old_members = index_views(entry.members@);
        entry.members.push(index);
        assert(index_views(entry.members@) =~= old_members.push(index as nat));
        groups.insert(j, entry);
        assert(pending_views(groups@) =~= before.update(j as int, (t, g(t))));
    } else {
        proof {
            lemma_members_absent(events, t);
        }
        let mut members: Vec<usize> = Vec::new();
        members.push(index);
        assert(index_views(members@) =~= seq![index as nat]);
        assert(members_for(events, t).push(index as nat) =~= seq![index as nat]);
        let entry = PendingGroup {
            signature: d.structural_signature.clone(),
            document_type: d.document_type.clone(),
            subtype: match &d.subtype {
                Some(t) => Some(t.clone()),
                None => None,
            },
            members,
        };
        groups.insert(j, entry);
        assert(pending_views(groups@) =~= before.insert(j as int, (t, g(t))));
    }
}

/// Groups the included documents by key.
pub fn group_documents(documents: &Vec<DocumentEvidence>, whitelist: &Vec<String>) -> (r: Vec<PendingGroup>)
    ensures
        pending_views(r@) == grouping(documents@, string_views(whitelist@)),
{
    let ghost docs = documents@;
    let ghost wl = string_views(whitelist@);
    let mut groups: Vec<PendingGroup> = Vec::new();
    assert(pending_views(groups@) =~= grouping(docs.take(0), wl));
    let mut i: usize = 0;
    while i < documents.len()
        invariant
            docs == documents@,
            wl == string_views(whitelist@),
            i <= documents.len(),
            pending_views(groups@) == grouping(docs.take(i as int), wl),
        decreases documents.len() - i,
    {
        let ghost prefix = docs.take(i as int);
        let ghost next = docs.take(i + 1);
        assert(next.drop_last() =~= prefix);
        assert(next.last() == docs[i as int]);
        let document = &documents[i];
        let included = match &document.source {
            SourceIdentity::Classified { value, .. } => contains_text(whitelist, value.as_str()),
            _ => false,
        };
        if included {
            add_member(&mut groups, document, i, Ghost(group_events(prefix, wl)));
            assert(group_events(next, wl) == group_events(prefix, wl).push((group_key_of(*document), i as nat)));
        } else {
            assert(group_events(next, wl) == group_events(prefix, wl));
        }
        i = i + 1;
    }
    assert(docs.take(documents.len() as int) =~= docs);
    groups
}

proof fn lemma_members_bounded(events: Seq<(GroupKey, nat)>, k: GroupKey, bound: nat)
    requires
        forall|i: int| 0 <= i < events.len() ==> (#[trigger] events[i]).1 < bound,
    ensures
        forall|i: int| 0 <= i < members_for(events, k).len() ==> #[trigger] members_for(events, k)[i] < bound,
    decreases events.len(),
{
    if events.len() > 0 {
        assert forall|i: int| 0 <= i < events.drop_last().len() implies (#[trigger] events.drop_last()[i]).1 < bound by {
            assert(events.drop_last()[i] == events[i]);
        }
        lemma_members_bounded(events.drop_last(), k, bound);
        assert(events[events.len() - 1] == events.last());
        let prev = members_for(events.drop_last(), k);
        let m = members_for(events, k);
        assert forall|i: int| 0 <= i < m.len() implies #[trigger] m[i] < bound by {
            if i < prev.len() {
                assert(m[i] == prev[i]);
            }
        }
    }
}

proof fn lemma_events_bounded(docs: Seq<DocumentEvidence>, wl: Seq<Seq<char>>)
    ensures
        forall|i: int| 0 <= i < group_events(docs, wl).len() ==> (#[trigger] group_events(docs, wl)[i]).1 < docs.len(),
    decreases docs.len(),
{
    if docs.len() > 0 {
        lemma_events_bounded(docs.drop_last(), wl);
        let prev = group_events(docs.drop_last(), wl);
        assert forall|i: int| 0 <= i < group_events(docs, wl).len() implies (#[trigger] group_events(docs, wl)[i]).1 < docs.len() by {
            if i < prev.len() {
                assert(group_events(docs, wl)[i] == prev[i]);
            }
        }
    }
}

/// The members of every group are documents of the list.
pub proof fn lemma_grouping_bounded(docs: Seq<DocumentEvidence>, wl: Seq<Seq<char>>)
    ensures
        forall|g: int, i: int|
            0 <= g < grouping(docs, wl).len() && 0 <= i < grouping(docs, wl)[g].1.len() ==> #[trigger] grouping(
                docs,
                wl,
            )[g].1[i] < docs.len(),
{
    let ev = group_events(docs, wl);
    lemma_events_bounded(docs, wl);
    assert forall|g: int, i: int|
        0 <= g < grouping(docs, wl).len() && 0 <= i < grouping(docs, wl)[g].1.len() implies #[trigger] grouping(
        docs,
        wl,
    )[g].1[i] < docs.len() by {
        let k = sorted_unique(event_keys(ev), key_order())[g];
        lemma_members_bounded(ev, k, docs.len());
        assert(grouping(docs, wl)[g].1 == members_for(ev, k));
    }
}

/// The source text of a classified document (empty for others).
pub open spec fn source_text_of(d: DocumentEvidence) -> Seq<char> {
    match d.source.spec_classified_value() {
        Some(v) => v,
        None => Seq::empty(),
    }
}

/// A representative example as plain values.
pub type ExampleView = (Seq<char>, Seq<char>, Option<Seq<char>>, Seq<char>);

pub open spec fn example_spec(d: DocumentEvidence) -> ExampleView {
    (d.pointer@, d.document_type@, opt_view(d.subtype), source_text_of(d))
}

pub open spec fn example_view(e: RepresentativeExample) -> ExampleView {
    (e.evidence_pointer@, e.document_type@, opt_view(e.subtype), e.source@)
}

/// The sources of the classified members of a group, in order.
pub open spec fn member_sources(docs: Seq<DocumentEvidence>, members: Seq<nat>) -> Seq<Seq<char>>
    decreases members.len(),
{
    if members.len() == 0 {
        Seq::empty()
    } else {
        let prev = member_sources(docs, members.drop_last());
        match docs[members.last() as int].source.spec_classified_value() {
            Some(v) => prev.push(v),
            None => prev,
        }
    }
}

/// A shape group as plain values.
pub type ShapeGroupView = (Seq<char>, Seq<char>, Option<Seq<char>>, nat, Seq<(Seq<char>, nat)>, Seq<ExampleView>);

pub open spec fn shape_group_view(g: ShapeGroup) -> ShapeGroupView {
    (
        g.structural_signature@,
        g.document_type@,
        opt_view(g.subtype),
        g.document_count as nat,
        count_view(g.sources@),
        g.representative_examples@.map_values(|e: RepresentativeExample| example_view(e)),
    )
}

pub open spec fn shape_group_views(v: Seq<ShapeGroup>) -> Seq<ShapeGroupView> {
    v.map_values(|g: ShapeGroup| shape_group_view(g))
}

pub open spec fn min_nat(a: nat, b: nat) -> nat {
    if a < b {
        a
    } else {
        b
    }
}

/// One shape group: its key, its size, the tally of its sources and the
/// first members (at most `max_samples`) as representative examples.
pub open spec fn shape_group_spec(docs: Seq<DocumentEvidence>, key: GroupKey, members: Seq<nat>, max_samples: nat) -> ShapeGroupView {
    (
        key.0,
        key.1,
        key.2,
        members.len(),
        tally(member_sources(docs, members)),
        members.take(min_nat(max_samples, members.len()) as int).map_values(|i: nat| example_spec(docs[i as int])),
    )
}

/// The shape groups of a scan: the first `max_unique_shapes` groups in key order.
pub open spec fn shape_groups_spec(docs: Seq<DocumentEvidence>, wl: Seq<Seq<char>>, limits: Limits) -> Seq<ShapeGroupView> {
    let gs = grouping(docs, wl);
    gs.take(min_nat(limits.max_unique_shapes as nat, gs.len()) as int).map_values(
        |e: (GroupKey, Seq<nat>)| shape_group_spec(docs, e.0, e.1, limits.max_samples_per_signature as nat),
    )
}

fn build_group(documents: &Vec<DocumentEvidence>, pending: &PendingGroup, max_samples: usize) -> (r: ShapeGroup)
    requires
        forall|i: int| 0 <= i < pending.members@.len() ==> (#[trigger] pending.members@[i]) < documents@.len(),
    ensures
        shape_group_view(r) == shape_group_spec(
            documents@,
            pending_key(*pending),
            index_views(pending.members@),
            max_samples as nat,
        ),
{
    let ghost members = index_views(pending.members@);
    let ghost docs = documents@;
    let mut sources: Vec<KeyCount> = Vec::new();
    let mut examples: Vec<RepresentativeExample> = Vec::new();
    assert(count_view(sources@) =~= tally(member_sources(docs, members.take(0))));
    let mut k: usize = 0;
    while k < pending.members.len()
        invariant
            members == index_views(pending.members@),
            docs == documents@,
            forall|i: int| 0 <= i < pending.members@.len() ==> (#[trigger] pending.members@[i]) < documents@.len(),
            k <= pending.members.len(),
            count_view(sources@) == tally(member_sources(docs, members.take(k as int))),
            member_sources(docs, members.take(k as int)).len() <= k,
            examples@.map_values(|e: RepresentativeExample| example_view(e)) == members.take(
                min_nat(max_samples as nat, k as nat) as int,
            ).map_values(|i: nat| example_spec(docs[i as int])),
        decreases pending.members.len() - k,
    {
        let index = pending.members[k];
        assert(members.take(k + 1).drop_last() =~= members.take(k as int));
        assert(members.take(k + 1).last() == index as nat);
        let document = &documents[index];
        match &document.source {
            SourceIdentity::Classified { value, .. } => {
                add_count(&mut sources, value.as_str(), Ghost(member_sources(docs, members.take(k as int))));
            },
            _ => {},
        }
        let ghost before = examples@.map_values(|e: RepresentativeExample| example_view(e));
        if k < max_samples {
            let example = RepresentativeExample {
                evidence_pointer: document.pointer.clone(),
                document_type: document.document_type.clone(),
                subtype: match &document.subtype {
                    Some(t) => Some(t.clone()),
                    None => None,
                },
                source: match &document.source {
                    SourceIdentity::Classified { value, .. } => value.clone(),
                    _ => String::new(),
                },
            };
            examples.push(example);
            assert(examples@.map_values(|e: RepresentativeExample| example_view(e)) =~= before.push(example_spec(docs[index as int])));
            assert(members.take(min_nat(max_samples as nat, (k + 1) as nat) as int) =~= members.take(
                min_nat(max_samples as nat, k as nat) as int,
            ).push(index as nat));
        } else {
            assert(min_nat(max_samples as nat, (k + 1) as nat) == min_nat(max_samples as nat, k as nat));
        }
        assert(members.take(min_nat(max_samples as nat, (k + 1) as nat) as int).map_values(
            |i: nat| example_spec(docs[i as int]),
        ) =~= examples@.map_values(|e: RepresentativeExample| example_view(e)));
        k = k + 1;
    }
    assert(members.take(pending.members.len() as int) =~= members);
    ShapeGroup {
        structural_signature: pending.signature.clone(),
        document_type: pending.document_type.clone(),
        subtype: match &pending.subtype {
            Some(t) => Some(t.clone()),
            None => None,
        },
        document_count: pending.members.len(),
        sources,
        representative_examples: examples,
    }
}

/// Builds the first `limits.max_unique_shapes` shape groups.
pub fn shape_groups(documents: &Vec<DocumentEvidence>, whitelist: &Vec<String>, limits: &Limits) -> (r: (Vec<ShapeGroup>, usize))
    ensures
        shape_group_views(r.0@) == shape_groups_spec(documents@, string_views(whitelist@), *limits),
        r.1 == grouping(documents@, string_views(whitelist@)).len(),
{
    let pending = group_documents(documents, whitelist);
    let ghost docs = documents@;
    let ghost wl = string_views(whitelist@);
    let ghost gs = grouping(docs, wl);
    proof {
        lemma_grouping_bounded(docs, wl);
    }
    let observed = pending.len();
    let n = if limits.max_unique_shapes < observed {
        limits.max_unique_shapes
    } else {
        observed
    };
    let mut groups: Vec<ShapeGroup> = Vec::new();
    let mut g: usize = 0;
    while g < n
        invariant
            docs == documents@,
            wl == string_views(whitelist@),
            gs == grouping(docs, wl),
            pending_views(pending@) == gs,
            n <= pending.len(),
            n == min_nat(limits.max_unique_shapes as nat, gs.len()),
            g <= n,
            forall|q: int, i: int|
                0 <= q < gs.len() && 0 <= i < gs[q].1.len() ==> #[trigger] gs[q].1[i] < docs.len(),
            shape_group_views(groups@) == gs.take(g as int).map_values(
                |e: (GroupKey, Seq<nat>)| shape_group_spec(docs, e.0, e.1, limits.max_samples_per_signature as nat),
            ),
        decreases n - g,
    {
        assert(gs[g as int] == (pending_key(pending@[g as int]), index_views(pending@[g as int].members@)));
        assert forall|i: int| 0 <= i < pending@[g as int].members@.len() implies (#[trigger] pending@[g as int].members@[i]) < documents@.len() by {
            assert(gs[g as int].1[i] == pending@[g as int].members@[i] as nat);
        }
        let group = build_group(documents, &pending[g], limits.max_samples_per_signature);
        let ghost before = shape_group_views(groups@);
        groups.push(group);
        assert(shape_group_views(groups@) =~= before.push(shape_group_view(group)));
        g = g + 1;
        assert(shape_group_views(groups@) =~= gs.take(g as int).map_values(
            |e: (GroupKey, Seq<nat>)| shape_group_spec(docs, e.0, e.1, limits.max_samples_per_signature as nat),
        ));
    }
    (groups, observed)
}

/// What a scan is asked to do.
pub struct ScanOptions {
    pub study_id: String,
    pub included_sources: Vec<String>,
    pub limits: Limits,
    pub studies_root: String,
}

/// A scan needs at least one included source.
pub fn check_scan_request(options: &ScanOptions) -> (r: Result<(), String>)
    ensures
        r is Ok <==> options.included_sources@.len() > 0,
        r is Err ==> r->Err_0@ == "scan requires at least one --include-source"@,
{
    if options.included_sources.len() == 0 {
        return Err(String::from_str("scan requires at least one --include-source"));
    }
    Ok(())
}

/// A scan needs a complete inventory.
pub fn check_inventory_complete(inventory: &InventoryReceipt) -> (r: Result<(), String>)
    ensures
        r is Ok <==> inventory.status is Complete,
        r is Err ==> r->Err_0@ == "inventory is partial; resume inventory before claiming a scoped scan"@,
{
    match inventory.status {
        ReceiptStatus::Complete => Ok(()),
        ReceiptStatus::Partial => Err(
            String::from_str("inventory is partial; resume inventory before claiming a scoped scan"),
        ),
    }
}

/// A scan needs the checkout to be at the pinned commit.
pub fn check_pinned_head(pinned_commit: &str, head: &str) -> (r: Result<(), String>)
    ensures
        r is Ok <==> head@ == pinned_commit@,
        r is Err ==> r->Err_0@ == "checkout moved from pinned commit "@ + pinned_commit@ + " to "@ + head@
            + "; refusing mixed-revision scan"@,
{
    if !str_eq(head, pinned_commit) {
        let mut message = concat3("checkout moved from pinned commit ", pinned_commit, " to ");
        message.append(head);
        message.append("; refusing mixed-revision scan");
        return Err(message);
    }
    Ok(())
}

/// The diagnostics of a scan, in order: the unique-shape bound, the
/// repository-size bound, the unresolved-document bound.
pub open spec fn scan_diagnostics_spec(
    observed_shapes: nat,
    repository_bytes: u64,
    unresolved: nat,
    limits: Limits,
) -> Seq<DiagnosticView> {
    let d1: Seq<DiagnosticView> = if observed_shapes > limits.max_unique_shapes {
        seq![(
            "SURVEY_UNIQUE_SHAPE_LIMIT"@,
            "unique structural-shape bound reached; report is partial"@,
            Some("maxUniqueShapes"@),
            Some(observed_shapes as u64),
            Some(limits.max_unique_shapes as u64),
        )]
    } else {
        Seq::empty()
    };
    let d2: Seq<DiagnosticView> = if repository_bytes > limits.max_repository_bytes {
        d1.push((
            "SURVEY_REPOSITORY_SIZE_LIMIT"@,
            "pinned checkout exceeds this scan's repository-size bound"@,
            Some("maxRepositoryBytes"@),
            Some(repository_bytes),
            Some(limits.max_repository_bytes),
        ))
    } else {
        d1
    };
    if unresolved > limits.max_unresolved_documents {
        d2.push((
            "SURVEY_UNRESOLVED_DOCUMENT_LIMIT"@,
            "unclassified/ambiguous evidence exceeds this scan's bound"@,
            Some("maxUnresolvedDocuments"@),
            Some(unresolved as u64),
            Some(limits.max_unresolved_documents as u64),
        ))
    } else {
        d2
    }
}

/// The resume state of a scan: resumable exactly when partial, pointing past
/// the retained groups when the unique-shape bound stopped it.
pub open spec fn scan_resume_spec(partial: bool, shape_limit_hit: bool, groups: nat) -> ResumeView {
    if partial {
        (
            true,
            None,
            if shape_limit_hit {
                Some(groups)
            } else {
                None
            },
            "rerun scan at the same pinned revision after raising the reported bounds or refining provenance"@,
        )
    } else {
        (false, None, None, "scoped structural scan completed within configured limits"@)
    }
}

/// The interpretation contract recorded with a scan: an object with the
/// members `candidateLimit` (the candidate bound), `completionMeaning`,
/// `evidenceStrength`, `kind` and `not`, in that order.
pub open spec fn interpretation_matches(v: JsonValue, candidate_limit: usize) -> bool {
    match v {
        JsonValue::Object(ms) => {
            &&& ms@.len() == 5
            &&& ms@[0].key@ == "candidateLimit"@
            &&& integer_text_is(ms@[0].value, decimal(candidate_limit as nat))
            &&& ms@[1].key@ == "completionMeaning"@
            &&& ms@[1].value.spec_str() == Some(
                "configured repository surface traversed; semantic completeness is not claimed"@,
            )
            &&& ms@[2].key@ == "evidenceStrength"@
            &&& text_list_is(
                ms@[2].value,
                seq!["single-witness"@, "repeated-shape"@, "cross-source"@, "unresolved"@],
            )
            &&& ms@[3].key@ == "kind"@
            &&& ms@[3].value.spec_str() == Some("primitive-study-worksheet"@)
            &&& ms@[4].key@ == "not"@
            &&& text_list_is(
                ms@[4].value,
                seq![
                    "Foundry importer"@,
                    "content converter"@,
                    "ASHA IR generator"@,
                    "ruleset implementation"@,
                ],
            )
        },
        _ => false,
    }
}

/// An integer number with the given text.
pub open spec fn integer_text_is(v: JsonValue, t: Seq<char>) -> bool {
    match v {
        JsonValue::Number(n) => n.integer && n.text@ == t,
        _ => false,
    }
}

/// An array of strings with the given texts.
pub open spec fn text_list_is(v: JsonValue, items: Seq<Seq<char>>) -> bool {
    match v {
        JsonValue::Array(xs) => xs@.len() == items.len() && forall|i: int|
            0 <= i < items.len() ==> (#[trigger] xs@[i]).spec_str() == Some(items[i]),
        _ => false,
    }
}

fn text_value(s: &str) -> (r: JsonValue)
    ensures
        r.spec_str() == Some(s@),
{
    JsonValue::String(String::from_str(s))
}

fn member(key: &str, value: JsonValue) -> (r: JsonMember)
    ensures
        r.key@ == key@,
        r.value == value,
{
    JsonMember { key: String::from_str(key), value }
}

/// The interpretation contract of a scan.
pub fn interpretation_contract(candidate_limit: usize) -> (r: JsonValue)
    ensures
        interpretation_matches(r, candidate_limit),
{
    let mut strengths: Vec<JsonValue> = Vec::new();
    strengths.push(text_value("single-witness"));
    strengths.push(text_value("repeated-shape"));
    strengths.push(text_value("cross-source"));
    strengths.push(text_value("unresolved"));
    let mut not: Vec<JsonValue> = Vec::new();
    not.push(text_value("Foundry importer"));
    not.push(text_value("content converter"));
    not.push(text_value("ASHA IR generator"));
    not.push(text_value("ruleset implementation"));
    let mut members: Vec<JsonMember> = Vec::new();
    members.push(member(
        "candidateLimit",
        JsonValue::Number(JsonNumber { text: usize_text(candidate_limit), integer: true }),
    ));
    members.push(member(
        "completionMeaning",
        text_value("configured repository surface traversed; semantic completeness is not claimed"),
    ));
    members.push(member("evidenceStrength", JsonValue::Array(strengths)));
    members.push(member("kind", text_value("primitive-study-worksheet")));
    members.push(member("not", JsonValue::Array(not)));
    JsonValue::Object(members)
}

fn scan_diagnostic(code: &str, message: &str, limit: &str, observed: u64, maximum: u64) -> (r: Diagnostic)
    ensures
        diagnostic_view(r) == (code@, message@, Some(limit@), Some(observed), Some(maximum)),
{
    Diagnostic {
        code: String::from_str(code),
        message: String::from_str(message),
        limit: Some(String::from_str(limit)),
        observed: Some(observed),
        maximum: Some(maximum),
    }
}

/// Everything a scan records of a complete inventory: the whitelist, the
/// source audit, the retained shape groups, the diagnostics of the bounds
/// that were exceeded, a status that is partial exactly when there is a
/// diagnostic, and the resume state.
pub fn build_scan_receipt(options: &ScanOptions, inventory: &InventoryReceipt) -> (r: ScanReceipt)
    ensures
        ({
            let wl = whitelist_of(string_views(options.included_sources@));
            let docs = inventory.documents@;
            &&& r.schema_version == SCHEMA_VERSION
            &&& r.tool_version@ == "0.1.0"@
            &&& r.study_id@ == options.study_id@
            &&& r.repository == inventory.repository
            &&& r.system == inventory.manifest
            &&& string_views(r.included_source_whitelist@) == wl
            &&& r.limits == options.limits
            &&& audit_matches(docs, wl, r.source_audit)
            &&& shape_group_views(r.shape_groups@) == shape_groups_spec(docs, wl, options.limits)
            &&& diagnostic_views(r.diagnostics@) == scan_diagnostics_spec(
                grouping(docs, wl).len(),
                inventory.repository.repository_bytes,
                r.source_audit.unclassified_or_ambiguous.document_count as nat,
                options.limits,
            )
            &&& (r.status is Complete <==> r.diagnostics@.len() == 0)
            &&& resume_view(r.resume) == scan_resume_spec(
                r.diagnostics@.len() > 0,
                grouping(docs, wl).len() > options.limits.max_unique_shapes,
                r.shape_groups@.len() as nat,
            )
            &&& interpretation_matches(r.interpretation_contract, options.limits.max_candidate_primitives)
        }),
{
    let wl = whitelist(&options.included_sources);
    let source_audit = audit_sources(&inventory.documents, &wl);
    let (groups, observed) = shape_groups(&inventory.documents, &wl, &options.limits);
    let limits = options.limits;
    let shape_limit_hit = observed > limits.max_unique_shapes;
    let repository_limit_hit = inventory.repository.repository_bytes > limits.max_repository_bytes;
    let unresolved = source_audit.unclassified_or_ambiguous.document_count;
    let unresolved_limit_hit = unresolved > limits.max_unresolved_documents;
    let mut diagnostics: Vec<Diagnostic> = Vec::new();
    if shape_limit_hit {
        diagnostics.push(scan_diagnostic(
            "SURVEY_UNIQUE_SHAPE_LIMIT",
            "unique structural-shape bound reached; report is partial",
            "maxUniqueShapes",
            observed as u64,
            limits.max_unique_shapes as u64,
        ));
    }
    let ghost d1 = diagnostic_views(diagnostics@);
    if repository_limit_hit {
        diagnostics.push(scan_diagnostic(
            "SURVEY_REPOSITORY_SIZE_LIMIT",
            "pinned checkout exceeds this scan's repository-size bound",
            "maxRepositoryBytes",
            inventory.repository.repository_bytes,
            limits.max_repository_bytes,
        ));
        assert(diagnostic_views(diagnostics@) =~= d1.push(diagnostic_view(diagnostics@.last())));
    }
    let ghost d2 = diagnostic_views(diagnostics@);
    if unresolved_limit_hit {
        diagnostics.push(scan_diagnostic(
            "SURVEY_UNRESOLVED_DOCUMENT_LIMIT",
            "unclassified/ambiguous evidence exceeds this scan's bound",
            "maxUnresolvedDocuments",
            unresolved as u64,
            limits.max_unresolved_documents as u64,
        ));
        assert(diagnostic_views(diagnostics@) =~= d2.push(diagnostic_view(diagnostics@.last())));
    }
    let partial = diagnostics.len() > 0;
    let status = if partial {
        ReceiptStatus::Partial
    } else {
        ReceiptStatus::Complete
    };
    let resume = if partial {
        ResumeState {
            resumable: true,
            next_file: None,
            next_document_index: if shape_limit_hit {
                Some(groups.len())
            } else {
                None
            },
            instruction: String::from_str(
                "rerun scan at the same pinned revision after raising the reported bounds or refining provenance",
            ),
        }
    } else {
        ResumeState {
            resumable: false,
            next_file: None,
            next_document_index: None,
            instruction: String::from_str("scoped structural scan completed within configured limits"),
        }
    };
    ScanReceipt {
        schema_version: SCHEMA_VERSION,
        tool_version: tool_version(),
        study_id: options.study_id.clone(),
        status,
        repository: inventory.repository.copied(),
        system: inventory.manifest.copied(),
        included_source_whitelist: wl,
        limits,
        source_audit,
        shape_groups: groups,
        diagnostics,
        resume,
        interpretation_contract: interpretation_contract(limits.max_candidate_primitives),
    }
}
} // verus!
