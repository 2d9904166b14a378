//! Properties that relate several operations of the survey: resuming a
//! bounded traversal, the totals of the counts, what a pack fallback may
//! decide, and which documents a scan samples.

use vstd::prelude::*;

use crate::inventory::ingest_docs;
use crate::inventory::start_index;
use crate::inventory::traverse;
use crate::inventory::TraversalConfig;
use crate::inventory::TraversalView;
use crate::inventory::EvidenceView;
use crate::inventory::PackView;
use crate::inventory::PathFacts;
use crate::inventory::FileDiscovery;
use crate::inventory::documents_of_pack;
use crate::inventory::pack_inventory_spec;
use crate::inventory::count_where;
use crate::inventory::counts_match;
use crate::inventory::evidence_sources;
use crate::inventory::evidence_spec;
use crate::inventory::fallback_for;
use crate::inventory::is_ambiguous;
use crate::inventory::is_classified;
use crate::inventory::is_missing;
use crate::json::JsonValue;
use crate::model::DocumentEvidence;
use crate::model::InventoryCounts;
use crate::model::Limits;
use crate::model::SourceFallback;
use crate::scan::event_keys;
use crate::scan::group_events;
use crate::scan::grouping;
use crate::scan::is_included;
use crate::scan::is_excluded;
use crate::scan::audit_matches;
use crate::model::SourceAudit;
use crate::text::string_views;
use crate::scan::key_order;
use crate::scan::members_for;
use crate::scan::shape_groups_spec;
use crate::scan::GroupKey;
use crate::scan::group_key_of;
use crate::order::sorted_unique;
use crate::order::lemma_sorted_unique_members;
use crate::order::lemma_sorted_unique_sorted;
use crate::inventory::classification_matches;
use crate::inventory::source_at;
use crate::inventory::source_evidence;
use crate::inventory::sorted_evidence;
use crate::inventory::pair_order;
use crate::text::chars_order;
use crate::text::lemma_chars_order_total;
use crate::model::SourceIdentity;
use crate::tally::total_count;
use crate::tally::law_tally_counts_every_key;
use crate::model::count_view;
use crate::inventory::classified_sources;
use crate::inventory::document_types;
use crate::scan::partition_sources;
use crate::inventory::inventory_diagnostics_spec;
use crate::inventory::inventory_resume_spec;
use crate::inventory::diagnostic_views;
use crate::inventory::resume_cursor;
use crate::inventory::resume_view;
use crate::model::InventoryReceipt;
use crate::scan::scan_diagnostics_spec;
use crate::scan::scan_resume_spec;

verus! {

/// The names of the files are pairwise distinct.
pub open spec fn distinct_files(files: Seq<(Seq<char>, PackView, Seq<JsonValue>)>) -> bool {
    forall|i: int, j: int| 0 <= i < j < files.len() ==> #[trigger] files[i].0 != #[trigger] files[j].0
}

/// No file is named `name`.
pub open spec fn avoids(files: Seq<(Seq<char>, PackView, Seq<JsonValue>)>, name: Seq<char>) -> bool {
    forall|i: int| 0 <= i < files.len() ==> #[trigger] files[i].0 != name
}

/// The configuration with another bound on recorded documents.
pub open spec fn with_bound(cfg: TraversalConfig, bound: nat) -> TraversalConfig {
    (cfg.0, cfg.1, bound, cfg.3)
}

/// A fresh traversal state holding `docs`.
pub open spec fn fresh(docs: Seq<EvidenceView>) -> TraversalView {
    (docs, None, true, None)
}

/// Where the bound stops a file's ingestion, it stops it in that file.
proof fn lemma_ingest_stops_in_file(
    docs: Seq<EvidenceView>,
    file: Seq<char>,
    pack: PackView,
    values: Seq<JsonValue>,
    index: nat,
    cfg: TraversalConfig,
)
    ensures
        ingest_docs(docs, file, pack, values, index, cfg).1 matches Some(c) ==> c.0 == file,
    decreases values.len() - index,
{
    if index < values.len() && docs.len() < cfg.2 {
        lemma_ingest_stops_in_file(
            docs.push(crate::inventory::evidence_spec(
                crate::inventory::item_pointer(file, index),
                pack,
                values[index as int],
                cfg.0,
                cfg.1,
                cfg.3,
            )),
            file,
            pack,
            values,
            index + 1,
            cfg,
        );
    }
}

/// An ingestion the smaller bound did not stop is the same under a larger
/// bound.
proof fn lemma_ingest_unstopped(
    docs: Seq<EvidenceView>,
    file: Seq<char>,
    pack: PackView,
    values: Seq<JsonValue>,
    index: nat,
    cfg: TraversalConfig,
    bound: nat,
)
    requires
        cfg.2 <= bound,
        ingest_docs(docs, file, pack, values, index, cfg).1 is None,
    ensures
        ingest_docs(docs, file, pack, values, index, with_bound(cfg, bound)) == ingest_docs(
            docs,
            file,
            pack,
            values,
            index,
            cfg,
        ),
    decreases values.len() - index,
{
    if index < values.len() && docs.len() < cfg.2 {
        lemma_ingest_unstopped(
            docs.push(crate::inventory::evidence_spec(
                crate::inventory::item_pointer(file, index),
                pack,
                values[index as int],
                cfg.0,
                cfg.1,
                cfg.3,
            )),
            file,
            pack,
            values,
            index + 1,
            cfg,
            bound,
        );
    }
}

/// An ingestion the smaller bound stopped at `(file, at)` goes on under a
/// larger bound exactly as an ingestion from that document with what was
/// recorded until then.
proof fn lemma_ingest_stopped(
    docs: Seq<EvidenceView>,
    file: Seq<char>,
    pack: PackView,
    values: Seq<JsonValue>,
    index: nat,
    cfg: TraversalConfig,
    bound: nat,
)
    requires
        cfg.2 <= bound,
        ingest_docs(docs, file, pack, values, index, cfg).1 is Some,
    ensures
        ({
            let out = ingest_docs(docs, file, pack, values, index, cfg);
            ingest_docs(docs, file, pack, values, index, with_bound(cfg, bound)) == ingest_docs(
                out.0,
                file,
                pack,
                values,
                (out.1->0).1,
                with_bound(cfg, bound),
            )
        }),
    decreases values.len() - index,
{
    if index < values.len() && docs.len() < cfg.2 {
        lemma_ingest_stopped(
            docs.push(crate::inventory::evidence_spec(
                crate::inventory::item_pointer(file, index),
                pack,
                values[index as int],
                cfg.0,
                cfg.1,
                cfg.3,
            )),
            file,
            pack,
            values,
            index + 1,
            cfg,
            bound,
        );
    }
}

/// Once stopped, a traversal records nothing more.
proof fn lemma_stopped_stays(
    state: TraversalView,
    files: Seq<(Seq<char>, PackView, Seq<JsonValue>)>,
    cfg: TraversalConfig,
)
    requires
        state.3 is Some,
    ensures
        traverse(state, files, cfg) == state,
    decreases files.len(),
{
    if files.len() > 0 {
        lemma_stopped_stays(state, files.drop_first(), cfg);
    }
}

/// Past its resume file, a resumed traversal records what a fresh one does.
proof fn lemma_after_resume_file(
    docs: Seq<EvidenceView>,
    cursor: (Seq<char>, nat),
    limit: Option<(Seq<char>, nat)>,
    files: Seq<(Seq<char>, PackView, Seq<JsonValue>)>,
    cfg: TraversalConfig,
)
    requires
        avoids(files, cursor.0),
    ensures
        ({
            let resumed = traverse((docs, Some(cursor), true, limit), files, cfg);
            let plain = traverse((docs, None, true, limit), files, cfg);
            resumed.0 == plain.0 && resumed.3 == plain.3
        }),
    decreases files.len(),
{
    if files.len() > 0 {
        assert(files[0].0 != cursor.0);
        assert(start_index(Some(cursor), files[0].0) == 0);
        assert forall|i: int| 0 <= i < files.drop_first().len() implies #[trigger] files.drop_first()[i].0
            != cursor.0 by {
            assert(files.drop_first()[i] == files[i + 1]);
        }
        if limit is Some {
            lemma_stopped_stays((docs, Some(cursor), true, limit), files, cfg);
            lemma_stopped_stays((docs, None, true, limit), files, cfg);
        } else {
            let out = ingest_docs(docs, files[0].0, files[0].1, files[0].2, 0, cfg);
            lemma_after_resume_file(out.0, cursor, out.1, files.drop_first(), cfg);
        }
    }
}

/// Where a traversal stopped, the stop lies in one of its files.
proof fn lemma_stop_in_files(
    docs: Seq<EvidenceView>,
    files: Seq<(Seq<char>, PackView, Seq<JsonValue>)>,
    cfg: TraversalConfig,
)
    ensures
        traverse(fresh(docs), files, cfg).3 matches Some(c) ==> exists|i: int|
            0 <= i < files.len() && #[trigger] files[i].0 == c.0,
    decreases files.len(),
{
    if files.len() > 0 {
        let out = ingest_docs(docs, files[0].0, files[0].1, files[0].2, 0, cfg);
        lemma_ingest_stops_in_file(docs, files[0].0, files[0].1, files[0].2, 0, cfg);
        if out.1 is Some {
            lemma_stopped_stays((out.0, None, true, out.1), files.drop_first(), cfg);
            assert(files[0].0 == (out.1->0).0);
        } else {
            lemma_stop_in_files(out.0, files.drop_first(), cfg);
            let rest = files.drop_first();
            if let Some(c) = traverse(fresh(out.0), rest, cfg).3 {
                let i = choose|i: int| 0 <= i < rest.len() && #[trigger] rest[i].0 == c.0;
                assert(files[i + 1] == rest[i]);
            }
        }
    }
}

/// Resuming a stopped traversal: when a traversal of files with distinct
/// names, bounded to `cfg.2` recorded documents, stops, a second traversal of
/// the same files with any bound at least as large, started from what the
/// first one recorded and at the position where it stopped, records exactly
/// the documents, and stops exactly where, an uninterrupted traversal with
/// the larger bound does.
pub proof fn law_resumed_traversal_matches_uninterrupted(
    files: Seq<(Seq<char>, PackView, Seq<JsonValue>)>,
    cfg: TraversalConfig,
    bound: nat,
)
    requires
        distinct_files(files),
        cfg.2 <= bound,
        traverse(fresh(Seq::empty()), files, cfg).3 is Some,
    ensures
        ({
            let first = traverse(fresh(Seq::empty()), files, cfg);
            let resumed = traverse((first.0, first.3, false, None), files, with_bound(cfg, bound));
            let uninterrupted = traverse(fresh(Seq::empty()), files, with_bound(cfg, bound));
            resumed.0 == uninterrupted.0 && resumed.3 == uninterrupted.3
        }),
{
    lemma_resume_from(Seq::empty(), files, cfg, bound);
}

proof fn lemma_resume_from(
    docs: Seq<EvidenceView>,
    files: Seq<(Seq<char>, PackView, Seq<JsonValue>)>,
    cfg: TraversalConfig,
    bound: nat,
)
    requires
        distinct_files(files),
        cfg.2 <= bound,
        traverse(fresh(docs), files, cfg).3 is Some,
    ensures
        ({
            let first = traverse(fresh(docs), files, cfg);
            let resumed = traverse((first.0, first.3, false, None), files, with_bound(cfg, bound));
            let uninterrupted = traverse(fresh(docs), files, with_bound(cfg, bound));
            resumed.0 == uninterrupted.0 && resumed.3 == uninterrupted.3
        }),
    decreases files.len(),
{
    let big = with_bound(cfg, bound);
    let f = files[0];
    let rest = files.drop_first();
    assert forall|i: int, j: int| 0 <= i < j < rest.len() implies #[trigger] rest[i].0 != #[trigger] rest[j].0 by {
        assert(rest[i] == files[i + 1]);
        assert(rest[j] == files[j + 1]);
    }
    assert forall|i: int| 0 <= i < rest.len() implies #[trigger] rest[i].0 != f.0 by {
        assert(rest[i] == files[i + 1]);
        assert(files[0].0 != files[i + 1].0);
    }
    let out = ingest_docs(docs, f.0, f.1, f.2, 0, cfg);
    lemma_ingest_stops_in_file(docs, f.0, f.1, f.2, 0, cfg);
    if out.1 is Some {
        // The first traversal stops in `f`; the resumed one starts there.
        lemma_stopped_stays((out.0, None, true, out.1), rest, cfg);
        let c = out.1->0;
        assert(start_index(Some(c), f.0) == c.1);
        lemma_ingest_stopped(docs, f.0, f.1, f.2, 0, cfg, bound);
        let out2 = ingest_docs(out.0, f.0, f.1, f.2, c.1, big);
        lemma_after_resume_file(out2.0, c, out2.1, rest, big);
    } else {
        // The first traversal goes past `f`; the resumed one skips it.
        lemma_ingest_unstopped(docs, f.0, f.1, f.2, 0, cfg, bound);
        lemma_stop_in_files(out.0, rest, cfg);
        let first = traverse(fresh(out.0), rest, cfg);
        let c = first.3->0;
        let i = choose|i: int| 0 <= i < rest.len() && #[trigger] rest[i].0 == c.0;
        assert(f.0 != c.0);
        lemma_resume_from(out.0, rest, cfg, bound);
    }
}

/// A bound never truncates silently. An inventory reports a diagnostic
/// exactly when a bound was met or exceeded or the pack layout was not fully
/// surveyed; the decoded-document bound comes first, with the documents
/// recorded and the bound; a receipt with a diagnostic is resumable, at the
/// position where the traversal stopped if it stopped.
pub proof fn law_inventory_bounds_are_reported(
    stopped: Option<(Seq<char>, nat)>,
    documents: nat,
    limits: Limits,
    unresolved: nat,
    unsupported: nat,
    missing: Seq<Seq<char>>,
)
    ensures
        ({
            let d = inventory_diagnostics_spec(stopped is Some, documents, limits, unresolved, unsupported, missing);
            let resume = inventory_resume_spec(d.len() == 0, stopped);
            &&& d.len() > 0 <==> (stopped is Some || unresolved > limits.max_unresolved_documents
                || unsupported > 0 || missing.len() > 0)
            &&& stopped is Some ==> d[0].0 == "SURVEY_DECODED_DOCUMENT_LIMIT"@ && d[0].3 == Some(
                documents as u64,
            ) && d[0].4 == Some(limits.max_decoded_documents as u64)
            &&& resume.0 <==> d.len() > 0
            &&& stopped matches Some(c) ==> resume.1 == Some(c.0) && resume.2 == Some(c.1)
        }),
{
}

/// An inventory stopped by the decoded-document bound resumes where it
/// stopped: a receipt finished from a traversal that stopped at `stop`
/// (partial exactly when it has diagnostics, with the diagnostics and resume
/// record of a stopped traversal) hands `stop` to the next run.
pub proof fn law_stopped_inventory_resumes_where_it_stopped(
    receipt: InventoryReceipt,
    stop: (Seq<char>, nat),
    documents: nat,
    limits: Limits,
    unresolved: nat,
    unsupported: nat,
    missing: Seq<Seq<char>>,
)
    requires
        (receipt.status is Complete) <==> receipt.diagnostics@.len() == 0,
        diagnostic_views(receipt.diagnostics@) == inventory_diagnostics_spec(
            true,
            documents,
            limits,
            unresolved,
            unsupported,
            missing,
        ),
        resume_view(receipt.resume) == inventory_resume_spec(receipt.diagnostics@.len() == 0, Some(stop)),
    ensures
        resume_cursor(receipt) == Some(stop),
{
    assert(diagnostic_views(receipt.diagnostics@).len() > 0);
}

/// A scan reports a diagnostic exactly when a bound was exceeded; the
/// unique-shape bound comes first, with the number of shapes observed; a
/// partial scan is resumable, past the retained groups when the shape bound
/// stopped it.
pub proof fn law_scan_bounds_are_reported(
    observed_shapes: nat,
    repository_bytes: u64,
    unresolved: nat,
    limits: Limits,
    retained: nat,
)
    ensures
        ({
            let d = scan_diagnostics_spec(observed_shapes, repository_bytes, unresolved, limits);
            let shape_hit = observed_shapes > limits.max_unique_shapes;
            let resume = scan_resume_spec(d.len() > 0, shape_hit, retained);
            &&& d.len() > 0 <==> (shape_hit || repository_bytes > limits.max_repository_bytes
                || unresolved > limits.max_unresolved_documents)
            &&& shape_hit ==> d[0].0 == "SURVEY_UNIQUE_SHAPE_LIMIT"@ && d[0].3 == Some(observed_shapes as u64)
            &&& resume.0 <==> d.len() > 0
            &&& shape_hit ==> resume.2 == Some(retained)
        }),
{
}

proof fn lemma_kinds_sum(docs: Seq<DocumentEvidence>)
    ensures
        count_where(docs, |d: DocumentEvidence| is_classified(d)) + count_where(
            docs,
            |d: DocumentEvidence| is_missing(d),
        ) + count_where(docs, |d: DocumentEvidence| is_ambiguous(d)) == docs.len(),
    decreases docs.len(),
{
    if docs.len() > 0 {
        lemma_kinds_sum(docs.drop_last());
    }
}

/// Every decoded document is counted exactly once: as classified, as
/// missing its source, or as ambiguous.
pub proof fn law_counts_cover_decoded_documents(docs: Seq<DocumentEvidence>, counts: InventoryCounts)
    requires
        counts_match(docs, counts),
    ensures
        counts.decoded_documents == counts.classified_documents + counts.missing_source_documents
            + counts.ambiguous_source_documents,
{
    lemma_kinds_sum(docs);
}

/// A pack fallback decides only where a document names no source: evidence
/// that names a source gives the same record whatever the fallbacks, two or
/// more distinct sources stay ambiguous, and a document naming none is
/// classified exactly when its pack has a fallback, as that fallback's
/// source under the pointer `fallback:pack:<pack id>`.
pub proof fn law_fallback_decides_only_missing_sources(
    pointer: Seq<char>,
    pack: PackView,
    value: JsonValue,
    pointers: Seq<Seq<char>>,
    fallbacks: Seq<SourceFallback>,
    other_fallbacks: Seq<SourceFallback>,
    normalize: bool,
)
    ensures
        ({
            let sources = evidence_sources(value, pointers);
            let record = evidence_spec(pointer, pack, value, pointers, fallbacks, normalize);
            &&& sources.len() > 0 ==> record == evidence_spec(
                pointer,
                pack,
                value,
                pointers,
                other_fallbacks,
                normalize,
            )
            &&& sources.len() >= 2 ==> record.4.0 == 2
            &&& sources.len() == 1 ==> record.4.0 == 0 && record.4.1 == sources[0]
            &&& sources.len() == 0 ==> (record.4.0 == 0 <==> fallback_for(fallbacks, pack.0) is Some)
            &&& sources.len() == 0 && fallback_for(fallbacks, pack.0) is Some ==> record.4.1 == fallback_for(
                fallbacks,
                pack.0,
            )->0 && record.4.2 == "fallback:pack:"@ + pack.0
        }),
{
}

proof fn lemma_events_included(docs: Seq<DocumentEvidence>, wl: Seq<Seq<char>>)
    ensures
        forall|i: int|
            0 <= i < group_events(docs, wl).len() ==> {
                let e = #[trigger] group_events(docs, wl)[i];
                e.1 < docs.len() && is_included(docs[e.1 as int], wl)
            },
    decreases docs.len(),
{
    if docs.len() > 0 {
        let prev_docs = docs.drop_last();
        lemma_events_included(prev_docs, wl);
        let prev = group_events(prev_docs, wl);
        assert forall|i: int| 0 <= i < group_events(docs, wl).len() implies {
            let e = #[trigger] group_events(docs, wl)[i];
            e.1 < docs.len() && is_included(docs[e.1 as int], wl)
        } by {
            if i < prev.len() {
                let e = prev[i];
                assert(group_events(docs, wl)[i] == e);
                assert(docs[e.1 as int] == prev_docs[e.1 as int]);
            }
        }
    }
}

proof fn lemma_members_from_events(events: Seq<(GroupKey, nat)>, k: GroupKey, i: int)
    requires
        0 <= i < members_for(events, k).len(),
    ensures
        exists|j: int| 0 <= j < events.len() && #[trigger] events[j].1 == members_for(events, k)[i],
    decreases events.len(),
{
    let prev = members_for(events.drop_last(), k);
    if i < prev.len() {
        lemma_members_from_events(events.drop_last(), k, i);
        let j = choose|j: int| 0 <= j < events.drop_last().len() && #[trigger] events.drop_last()[j].1 == prev[i];
        assert(events[j] == events.drop_last()[j]);
    } else {
        assert(events[events.len() - 1] == events.last());
    }
}

/// A scan samples only included documents: every member of every shape
/// group is a document whose source is classified and whitelisted, and so
/// is the source of every representative example.
pub proof fn law_scan_samples_only_included_documents(
    docs: Seq<DocumentEvidence>,
    wl: Seq<Seq<char>>,
    limits: Limits,
)
    ensures
        forall|g: int, i: int|
            0 <= g < grouping(docs, wl).len() && 0 <= i < grouping(docs, wl)[g].1.len() ==> {
                let m = #[trigger] grouping(docs, wl)[g].1[i];
                m < docs.len() && is_included(docs[m as int], wl)
            },
        forall|g: int, k: int|
            0 <= g < shape_groups_spec(docs, wl, limits).len() && 0 <= k < shape_groups_spec(
                docs,
                wl,
                limits,
            )[g].5.len() ==> wl.contains(#[trigger] shape_groups_spec(docs, wl, limits)[g].5[k].3),
{
    let ev = group_events(docs, wl);
    let gs = grouping(docs, wl);
    lemma_events_included(docs, wl);
    assert forall|g: int, i: int| 0 <= g < gs.len() && 0 <= i < gs[g].1.len() implies {
        let m = #[trigger] grouping(docs, wl)[g].1[i];
        m < docs.len() && is_included(docs[m as int], wl)
    } by {
        let key = sorted_unique(event_keys(ev), key_order())[g];
        assert(gs[g].1 == members_for(ev, key));
        lemma_members_from_events(ev, key, i);
        let j = choose|j: int| 0 <= j < ev.len() && #[trigger] ev[j].1 == members_for(ev, key)[i];
        assert(ev[j].1 == gs[g].1[i]);
    }
    let sg = shape_groups_spec(docs, wl, limits);
    assert forall|g: int, k: int| 0 <= g < sg.len() && 0 <= k < sg[g].5.len() implies wl.contains(
        #[trigger] shape_groups_spec(docs, wl, limits)[g].5[k].3,
    ) by {
        let members = gs[g].1;
        let n = crate::scan::min_nat(limits.max_samples_per_signature as nat, members.len());
        assert(sg[g].5 == members.take(n as int).map_values(|m: nat| crate::scan::example_spec(docs[m as int])));
        let m = members[k];
        assert(members.take(n as int)[k] == m);
        assert(grouping(docs, wl)[g].1[k] == m);
        assert(is_included(docs[m as int], wl));
    }
}

proof fn lemma_count_where_monotone(
    docs: Seq<DocumentEvidence>,
    p: spec_fn(DocumentEvidence) -> bool,
    q: spec_fn(DocumentEvidence) -> bool,
)
    requires
        forall|d: DocumentEvidence| #[trigger] p(d) ==> q(d),
    ensures
        count_where(docs, p) <= count_where(docs, q),
    decreases docs.len(),
{
    if docs.len() > 0 {
        lemma_count_where_monotone(docs.drop_last(), p, q);
    }
}

proof fn lemma_classified_split(docs: Seq<DocumentEvidence>, wl: Seq<Seq<char>>)
    ensures
        count_where(docs, |d: DocumentEvidence| is_included(d, wl)) + count_where(
            docs,
            |d: DocumentEvidence| is_excluded(d, wl),
        ) == count_where(docs, |d: DocumentEvidence| is_classified(d)),
    decreases docs.len(),
{
    if docs.len() > 0 {
        lemma_classified_split(docs.drop_last(), wl);
    }
}

/// Widening the whitelist moves documents only from the excluded side to
/// the included one: the unresolved documents stay exactly the same, the
/// included ones can only grow, and included plus excluded stays the number
/// of classified documents.
pub proof fn law_wider_whitelist_only_moves_excluded_documents(
    docs: Seq<DocumentEvidence>,
    narrow: Seq<Seq<char>>,
    wide: Seq<Seq<char>>,
    a: SourceAudit,
    b: SourceAudit,
)
    requires
        forall|s: Seq<char>| #[trigger] narrow.contains(s) ==> wide.contains(s),
        audit_matches(docs, narrow, a),
        audit_matches(docs, wide, b),
    ensures
        b.unclassified_or_ambiguous.missing == a.unclassified_or_ambiguous.missing,
        b.unclassified_or_ambiguous.ambiguous == a.unclassified_or_ambiguous.ambiguous,
        b.unclassified_or_ambiguous.document_count == a.unclassified_or_ambiguous.document_count,
        string_views(b.unclassified_or_ambiguous.pointers@) == string_views(a.unclassified_or_ambiguous.pointers@),
        b.included.document_count >= a.included.document_count,
        b.included.document_count + b.excluded_by_whitelist.document_count == a.included.document_count
            + a.excluded_by_whitelist.document_count,
{
    let p = |d: DocumentEvidence| is_included(d, narrow);
    let q = |d: DocumentEvidence| is_included(d, wide);
    assert forall|d: DocumentEvidence| #[trigger] p(d) implies q(d) by {
        let v = d.source.spec_classified_value()->0;
        assert(narrow.contains(v));
    }
    lemma_count_where_monotone(docs, p, q);
    lemma_classified_split(docs, narrow);
    lemma_classified_split(docs, wide);
}

/// The total of a per-pack figure over a list of pack ids.
pub open spec fn documents_over(docs: Seq<EvidenceView>, ids: Seq<Seq<char>>) -> nat
    decreases ids.len(),
{
    if ids.len() == 0 {
        0
    } else {
        documents_over(docs, ids.drop_last()) + documents_of_pack(docs, ids.last())
    }
}

/// How many of the ids equal `x`.
pub open spec fn id_hits(ids: Seq<Seq<char>>, x: Seq<char>) -> nat
    decreases ids.len(),
{
    if ids.len() == 0 {
        0
    } else {
        id_hits(ids.drop_last(), x) + if ids.last() == x { 1nat } else { 0nat }
    }
}

proof fn lemma_id_hits_once(ids: Seq<Seq<char>>, x: Seq<char>)
    requires
        forall|i: int, j: int| 0 <= i < j < ids.len() ==> ids[i] != ids[j],
        ids.contains(x),
    ensures
        id_hits(ids, x) == 1,
    decreases ids.len(),
{
    let p = ids.drop_last();
    assert forall|i: int, j: int| 0 <= i < j < p.len() implies p[i] != p[j] by {
        assert(p[i] == ids[i] && p[j] == ids[j]);
    }
    if ids.last() == x {
        lemma_id_hits_zero(p, x, ids);
    } else {
        let k = choose|k: int| 0 <= k < ids.len() && ids[k] == x;
        assert(k < ids.len() - 1);
        assert(p[k] == x);
        lemma_id_hits_once(p, x);
    }
}

proof fn lemma_id_hits_zero(p: Seq<Seq<char>>, x: Seq<char>, ids: Seq<Seq<char>>)
    requires
        p == ids.drop_last(),
        ids.len() > 0,
        ids.last() == x,
        forall|i: int, j: int| 0 <= i < j < ids.len() ==> ids[i] != ids[j],
    ensures
        id_hits(p, x) == 0,
{
    assert forall|i: int| 0 <= i < p.len() implies p[i] != x by {
        assert(p[i] == ids[i]);
        assert(ids[ids.len() - 1] == x);
    }
    lemma_id_hits_absent(p, x);
}

proof fn lemma_id_hits_absent(p: Seq<Seq<char>>, x: Seq<char>)
    requires
        forall|i: int| 0 <= i < p.len() ==> p[i] != x,
    ensures
        id_hits(p, x) == 0,
    decreases p.len(),
{
    if p.len() > 0 {
        assert(p[p.len() - 1] == p.last());
        assert forall|i: int| 0 <= i < p.drop_last().len() implies p.drop_last()[i] != x by {
            assert(p.drop_last()[i] == p[i]);
        }
        lemma_id_hits_absent(p.drop_last(), x);
    }
}

proof fn lemma_documents_over_step(docs: Seq<EvidenceView>, ids: Seq<Seq<char>>)
    requires
        docs.len() > 0,
    ensures
        documents_over(docs, ids) == documents_over(docs.drop_last(), ids) + id_hits(ids, docs.last().1),
    decreases ids.len(),
{
    if ids.len() > 0 {
        lemma_documents_over_step(docs, ids.drop_last());
    }
}

proof fn lemma_documents_over_nothing(docs: Seq<EvidenceView>, ids: Seq<Seq<char>>)
    requires
        docs.len() == 0,
    ensures
        documents_over(docs, ids) == 0,
    decreases ids.len(),
{
    if ids.len() > 0 {
        lemma_documents_over_nothing(docs, ids.drop_last());
    }
}

/// Per-pack document counts add up: over packs with distinct ids that
/// cover every document's pack, the numbers of decoded documents of the
/// packs sum to the number of documents; a pack owning none reports none.
pub proof fn law_pack_document_counts_partition(docs: Seq<EvidenceView>, ids: Seq<Seq<char>>)
    requires
        forall|i: int, j: int| 0 <= i < j < ids.len() ==> ids[i] != ids[j],
        forall|k: int| 0 <= k < docs.len() ==> ids.contains(#[trigger] docs[k].1),
    ensures
        documents_over(docs, ids) == docs.len(),
    decreases docs.len(),
{
    if docs.len() == 0 {
        lemma_documents_over_nothing(docs, ids);
    } else {
        let p = docs.drop_last();
        assert forall|k: int| 0 <= k < p.len() implies ids.contains(#[trigger] p[k].1) by {
            assert(p[k] == docs[k]);
        }
        law_pack_document_counts_partition(p, ids);
        lemma_documents_over_step(docs, ids);
        assert(docs[docs.len() - 1] == docs.last());
        assert(ids.contains(docs[docs.len() - 1].1));
        lemma_id_hits_once(ids, docs.last().1);
        assert(documents_over(p, ids) == p.len());
    }
}

/// Whether a document carries the pack id `id`.
pub open spec fn carries(id: Seq<char>) -> spec_fn(EvidenceView) -> bool {
    |d: EvidenceView| d.1 == id
}

/// A pack's decoded documents are the recorded documents of that pack: the
/// inventory of a pack reports as many as there are documents carrying its
/// id, and none when no document carries it.
pub proof fn law_pack_reports_its_own_documents(
    pack: PackView,
    facts: PathFacts,
    discovery: FileDiscovery,
    docs: Seq<EvidenceView>,
)
    ensures
        pack_inventory_spec(pack, facts, discovery, docs).6 == docs.filter(carries(pack.0)).len(),
    decreases docs.len(),
{
    lemma_documents_filter(docs, pack.0);
    assert(pack_inventory_spec(pack, facts, discovery, docs).6 == documents_of_pack(docs, pack.0));
}

proof fn lemma_documents_filter(docs: Seq<EvidenceView>, id: Seq<char>)
    ensures
        documents_of_pack(docs, id) == docs.filter(carries(id)).len(),
    decreases docs.len(),
{
    let pred = carries(id);
    reveal(Seq::filter);
    if docs.len() > 0 {
        lemma_documents_filter(docs.drop_last(), id);
        assert(docs.filter(pred) == if pred(docs.last()) {
            docs.drop_last().filter(pred).push(docs.last())
        } else {
            docs.drop_last().filter(pred)
        });
    } else {
        assert(docs.filter(pred) == docs);
    }
}

proof fn lemma_classified_sources_len(docs: Seq<DocumentEvidence>)
    ensures
        classified_sources(docs).len() == count_where(docs, |d: DocumentEvidence| is_classified(d)),
    decreases docs.len(),
{
    if docs.len() > 0 {
        lemma_classified_sources_len(docs.drop_last());
    }
}

proof fn lemma_partition_sources_len(docs: Seq<DocumentEvidence>, wl: Seq<Seq<char>>)
    ensures
        partition_sources(docs, wl, true).len() == count_where(docs, |d: DocumentEvidence| is_included(d, wl)),
        partition_sources(docs, wl, false).len() == count_where(docs, |d: DocumentEvidence| is_excluded(d, wl)),
    decreases docs.len(),
{
    if docs.len() > 0 {
        lemma_partition_sources_len(docs.drop_last(), wl);
    }
}

/// The tallies of an inventory count each document once: the counts by
/// document type sum to the decoded documents, and the counts by source to
/// the classified ones.
pub proof fn law_inventory_tallies_count_each_document(docs: Seq<DocumentEvidence>, counts: InventoryCounts)
    requires
        counts_match(docs, counts),
    ensures
        total_count(count_view(counts.by_document_type@)) == counts.decoded_documents,
        total_count(count_view(counts.by_source@)) == counts.classified_documents,
{
    law_tally_counts_every_key(document_types(docs));
    law_tally_counts_every_key(classified_sources(docs));
    lemma_classified_sources_len(docs);
}

/// The source tallies of an audit count each document of their side once:
/// the included sources sum to the included documents, and the excluded
/// sources to the excluded ones.
pub proof fn law_audit_tallies_count_each_document(docs: Seq<DocumentEvidence>, wl: Seq<Seq<char>>, a: SourceAudit)
    requires
        audit_matches(docs, wl, a),
    ensures
        total_count(count_view(a.included.sources@)) == a.included.document_count,
        total_count(count_view(a.excluded_by_whitelist.sources@)) == a.excluded_by_whitelist.document_count,
{
    law_tally_counts_every_key(partition_sources(docs, wl, true));
    law_tally_counts_every_key(partition_sources(docs, wl, false));
    lemma_partition_sources_len(docs, wl);
}

proof fn lemma_source_evidence_members(value: JsonValue, ps: Seq<Seq<char>>)
    ensures
        forall|e: (Seq<char>, Seq<char>)| #[trigger] source_evidence(value, ps).contains(e) <==> exists|i: int|
            0 <= i < ps.len() && ps[i] == e.1 && source_at(value, ps[i]) == Some(e.0),
    decreases ps.len(),
{
    if ps.len() > 0 {
        let q = ps.drop_last();
        lemma_source_evidence_members(value, q);
        let prev = source_evidence(value, q);
        let cur = source_evidence(value, ps);
        assert forall|e: (Seq<char>, Seq<char>)| #[trigger] cur.contains(e) <==> exists|i: int|
            0 <= i < ps.len() && ps[i] == e.1 && source_at(value, ps[i]) == Some(e.0) by {
            if cur.contains(e) {
                if prev.contains(e) {
                    let i = choose|i: int| 0 <= i < q.len() && q[i] == e.1 && source_at(value, q[i]) == Some(e.0);
                    assert(ps[i] == q[i]);
                } else {
                    let k = choose|k: int| 0 <= k < cur.len() && cur[k] == e;
                    if k < prev.len() {
                        assert(cur[k] == prev[k]);
                    }
                    assert(ps[ps.len() - 1] == ps.last());
                }
            }
            if exists|i: int| 0 <= i < ps.len() && ps[i] == e.1 && source_at(value, ps[i]) == Some(e.0) {
                let i = choose|i: int| 0 <= i < ps.len() && ps[i] == e.1 && source_at(value, ps[i]) == Some(e.0);
                if i < ps.len() - 1 {
                    assert(q[i] == ps[i]);
                    assert(prev.contains(e));
                    let k = choose|k: int| 0 <= k < prev.len() && prev[k] == e;
                    assert(cur[k] == prev[k]);
                } else {
                    assert(cur[cur.len() - 1] == e);
                }
            }
        }
    }
}

/// Source identity is evidence, not a guess: a document is missing its
/// source exactly when none of the configured pointers yields one; a
/// classified document's source is what its recorded pointer, one of the
/// configured ones, yields, and every pointer that yields a source yields
/// that one; an ambiguous document has two pointers yielding different
/// sources.
pub proof fn law_source_identity_is_evidence(value: JsonValue, pointers: Seq<Seq<char>>, r: SourceIdentity)
    requires
        classification_matches(value, pointers, r),
    ensures
        r is Missing <==> forall|i: int| 0 <= i < pointers.len() ==> (#[trigger] source_at(value, pointers[i])) is None,
        r matches SourceIdentity::Classified { value: v, pointer: q } ==> pointers.contains(q@) && source_at(value, q@)
            == Some(v@) && forall|i: int|
            0 <= i < pointers.len() && (#[trigger] source_at(value, pointers[i])) is Some ==> source_at(
                value,
                pointers[i],
            ) == Some(v@),
        r is Ambiguous ==> exists|i: int, j: int|
            0 <= i < pointers.len() && 0 <= j < pointers.len() && (#[trigger] source_at(value, pointers[i])) is Some
                && (#[trigger] source_at(value, pointers[j])) is Some && source_at(value, pointers[i]) != source_at(
                value,
                pointers[j],
            ),
{
    lemma_chars_order_total();
    crate::inventory::lemma_pair_order_total();
    let raw = source_evidence(value, pointers);
    let ev = sorted_evidence(value, pointers);
    let firsts = ev.map_values(|e: (Seq<char>, Seq<char>)| e.0);
    let sources = sorted_unique(firsts, chars_order());
    lemma_source_evidence_members(value, pointers);
    lemma_sorted_unique_members(raw, pair_order());
    lemma_sorted_unique_members(firsts, chars_order());
    lemma_sorted_unique_sorted(firsts, chars_order());
    // Every yielding pointer's source is among the sources.
    assert forall|i: int| 0 <= i < pointers.len() && (#[trigger] source_at(value, pointers[i])) is Some implies sources.contains(
        source_at(value, pointers[i])->0,
    ) by {
        let e = (source_at(value, pointers[i])->0, pointers[i]);
        assert(raw.contains(e));
        assert(ev.contains(e));
        let k = choose|k: int| 0 <= k < ev.len() && ev[k] == e;
        assert(firsts[k] == e.0);
        assert(firsts.contains(e.0));
    }
    // Every source comes from a yielding pointer.
    assert forall|x: Seq<char>| #[trigger] sources.contains(x) implies exists|i: int|
        0 <= i < pointers.len() && source_at(value, pointers[i]) == Some(x) by {
        assert(firsts.contains(x));
        let k = choose|k: int| 0 <= k < firsts.len() && firsts[k] == x;
        assert(ev.contains(ev[k]));
        assert(raw.contains(ev[k]));
    }
    if sources.len() == 0 {
        assert forall|i: int| 0 <= i < pointers.len() implies (#[trigger] source_at(value, pointers[i])) is None by {
            if source_at(value, pointers[i]) is Some {
                assert(sources.contains(source_at(value, pointers[i])->0));
            }
        }
    } else {
        assert(sources.contains(sources[0]));
        let i0 = choose|i: int| 0 <= i < pointers.len() && source_at(value, pointers[i]) == Some(sources[0]);
        assert(source_at(value, pointers[i0]) is Some);
        if sources.len() == 1 {
            assert(ev.len() > 0) by {
                if ev.len() == 0 {
                    assert(firsts.len() == 0);
                    assert(!firsts.contains(sources[0]));
                }
            }
            assert(ev.contains(ev[0]));
            assert(raw.contains(ev[0]));
            assert(firsts[0] == ev[0].0);
            assert(firsts.contains(ev[0].0));
            assert(sources.contains(ev[0].0));
            assert forall|i: int| 0 <= i < pointers.len() && (#[trigger] source_at(value, pointers[i])) is Some implies source_at(
                value,
                pointers[i],
            ) == Some(sources[0]) by {
                let x = source_at(value, pointers[i])->0;
                assert(sources.contains(x));
            }
            let j = choose|j: int| 0 <= j < pointers.len() && pointers[j] == ev[0].1 && source_at(value, pointers[j]) == Some(ev[0].0);
            assert(pointers.contains(pointers[j]));
        } else {
            assert(sources.contains(sources[1]));
            assert(chars_order()(sources[0], sources[1]));
            let i1 = choose|i: int| 0 <= i < pointers.len() && source_at(value, pointers[i]) == Some(sources[1]);
            assert(source_at(value, pointers[i1]) is Some);
        }
    }
}

/// The number of documents of the files.
pub open spec fn documents_in(files: Seq<(Seq<char>, PackView, Seq<JsonValue>)>) -> nat
    decreases files.len(),
{
    if files.len() == 0 {
        0
    } else {
        files[0].2.len() + documents_in(files.drop_first())
    }
}

proof fn lemma_ingest_bound(
    docs: Seq<EvidenceView>,
    file: Seq<char>,
    pack: PackView,
    values: Seq<JsonValue>,
    index: nat,
    cfg: TraversalConfig,
)
    requires
        docs.len() <= cfg.2,
        index <= values.len(),
    ensures
        ({
            let out = ingest_docs(docs, file, pack, values, index, cfg);
            &&& out.0.len() <= cfg.2
            &&& out.1 is Some ==> out.0.len() == cfg.2
            &&& out.1 is None ==> out.0.len() == docs.len() + (values.len() - index)
        }),
    decreases values.len() - index,
{
    if index < values.len() && docs.len() < cfg.2 {
        lemma_ingest_bound(
            docs.push(crate::inventory::evidence_spec(
                crate::inventory::item_pointer(file, index),
                pack,
                values[index as int],
                cfg.0,
                cfg.1,
                cfg.3,
            )),
            file,
            pack,
            values,
            index + 1,
            cfg,
        );
    }
}

proof fn lemma_traverse_bound(
    docs: Seq<EvidenceView>,
    files: Seq<(Seq<char>, PackView, Seq<JsonValue>)>,
    cfg: TraversalConfig,
)
    requires
        docs.len() <= cfg.2,
    ensures
        ({
            let t = traverse(fresh(docs), files, cfg);
            &&& t.0.len() <= cfg.2
            &&& t.3 is Some ==> t.0.len() == cfg.2
            &&& t.3 is None ==> t.0.len() == docs.len() + documents_in(files)
        }),
    decreases files.len(),
{
    if files.len() > 0 {
        let f = files[0];
        let out = ingest_docs(docs, f.0, f.1, f.2, 0, cfg);
        lemma_ingest_bound(docs, f.0, f.1, f.2, 0, cfg);
        if out.1 is Some {
            lemma_stopped_stays((out.0, None, true, out.1), files.drop_first(), cfg);
        } else {
            lemma_traverse_bound(out.0, files.drop_first(), cfg);
        }
    }
}

/// A bounded traversal never records more documents than its bound; it
/// stops only with the bound reached, and otherwise records every document
/// of every file.
pub proof fn law_traversal_respects_its_bound(files: Seq<(Seq<char>, PackView, Seq<JsonValue>)>, cfg: TraversalConfig)
    ensures
        ({
            let t = traverse(fresh(Seq::empty()), files, cfg);
            &&& t.0.len() <= cfg.2
            &&& t.3 is Some ==> t.0.len() == cfg.2
            &&& t.3 is None ==> t.0.len() == documents_in(files)
        }),
{
    lemma_traverse_bound(Seq::empty(), files, cfg);
}

proof fn lemma_events_keyed(docs: Seq<DocumentEvidence>, wl: Seq<Seq<char>>)
    ensures
        forall|i: int|
            0 <= i < group_events(docs, wl).len() ==> {
                let e = #[trigger] group_events(docs, wl)[i];
                e.1 < docs.len() && e.0 == group_key_of(docs[e.1 as int])
            },
    decreases docs.len(),
{
    if docs.len() > 0 {
        let prev_docs = docs.drop_last();
        lemma_events_keyed(prev_docs, wl);
        let prev = group_events(prev_docs, wl);
        assert forall|i: int| 0 <= i < group_events(docs, wl).len() implies {
            let e = #[trigger] group_events(docs, wl)[i];
            e.1 < docs.len() && e.0 == group_key_of(docs[e.1 as int])
        } by {
            if i < prev.len() {
                let e = prev[i];
                assert(group_events(docs, wl)[i] == e);
                assert(docs[e.1 as int] == prev_docs[e.1 as int]);
            }
        }
    }
}

proof fn lemma_member_events(events: Seq<(GroupKey, nat)>, k: GroupKey, i: int)
    requires
        0 <= i < members_for(events, k).len(),
    ensures
        exists|j: int| 0 <= j < events.len() && #[trigger] events[j] == (k, members_for(events, k)[i]),
    decreases events.len(),
{
    let prev = members_for(events.drop_last(), k);
    if i < prev.len() {
        lemma_member_events(events.drop_last(), k, i);
        let j = choose|j: int| 0 <= j < events.drop_last().len() && #[trigger] events.drop_last()[j] == (k, prev[i]);
        assert(events[j] == events.drop_last()[j]);
    } else {
        assert(events[events.len() - 1] == events.last());
    }
}

/// Shape groups collapse exactly the documents of one key: every member of
/// a group has the group's structural signature, document type and
/// subtype, and a document of that key that is included belongs to it.
pub proof fn law_groups_hold_one_key(docs: Seq<DocumentEvidence>, wl: Seq<Seq<char>>, g: int, i: int)
    requires
        0 <= g < grouping(docs, wl).len(),
    ensures
        0 <= i < grouping(docs, wl)[g].1.len() ==> group_key_of(docs[grouping(docs, wl)[g].1[i] as int])
            == grouping(docs, wl)[g].0,
{
    let ev = group_events(docs, wl);
    let gs = grouping(docs, wl);
    lemma_events_keyed(docs, wl);
    if 0 <= i < gs[g].1.len() {
        let key = sorted_unique(event_keys(ev), key_order())[g];
        assert(gs[g] == (key, members_for(ev, key)));
        lemma_member_events(ev, key, i);
        let j = choose|j: int| 0 <= j < ev.len() && #[trigger] ev[j] == (key, members_for(ev, key)[i]);
        assert(ev[j].0 == group_key_of(docs[ev[j].1 as int]));
    }
}

} // verus!
