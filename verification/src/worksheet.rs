//! The Markdown worksheets written beside a scan receipt.

use vstd::prelude::*;

use crate::model::opt_view;
use crate::model::ReceiptStatus;
use crate::model::ScanReceipt;
use crate::model::ShapeGroup;
use crate::scan::example_view;
use crate::scan::ExampleView;
use crate::text::decimal;
use crate::text::join_strings;
use crate::text::join_text;
use crate::text::string_views;
use crate::text::usize_text;

verus! {

/// How the summary describes a status.
pub open spec fn status_text(status: ReceiptStatus) -> Seq<char> {
    match status {
        ReceiptStatus::Complete => "complete within configured traversal limits"@,
        ReceiptStatus::Partial => "PARTIAL — do not claim study completeness"@,
    }
}

pub open spec fn or_text(o: Option<Seq<char>>, fallback: Seq<char>) -> Seq<char> {
    match o {
        Some(t) => t,
        None => fallback,
    }
}

/// The study summary worksheet.
pub open spec fn summary_text(r: ScanReceipt) -> Seq<char> {
    "# Primitive study: "@ + r.study_id@ + "\n\nStatus: **"@ + status_text(r.status) + "**\n\nPinned source: `"@
        + r.repository.url@ + "` at `"@ + r.repository.requested_ref@ + "` (`"@ + r.repository.pinned_commit@
        + "`)\n\nSystem manifest: `"@ + r.system.path@ + "` version `"@ + or_text(opt_view(r.system.version), "<unknown>"@)
        + "`\n\nIncluded sources: "@ + join_text(string_views(r.included_source_whitelist@), ", "@)
        + "\n\nIncluded documents: "@ + decimal(r.source_audit.included.document_count as nat)
        + "\nExcluded-by-whitelist documents: "@ + decimal(r.source_audit.excluded_by_whitelist.document_count as nat)
        + "\nUnclassified or ambiguous documents: "@ + decimal(r.source_audit.unclassified_or_ambiguous.document_count as nat)
        + "\nUnique structural groups retained: "@ + decimal(r.shape_groups@.len() as nat)
        + "\n\nThis is a structural evidence worksheet, not an importer, ASHA implementation, or claim of semantic completeness.\n"@
}

/// The candidate-primitives worksheet.
pub open spec fn candidates_text(r: ScanReceipt) -> Seq<char> {
    "# Candidate primitives\n\nCandidate limit: "@ + decimal(r.limits.max_candidate_primitives as nat)
        + ".\n\nFor each candidate, record:\n\n- stable local candidate ID;\n- concise behavior or data requirement;\n- evidence strength: single-witness, repeated-shape, cross-source, or unresolved;\n- supporting structural signatures and source pointers from `scan.json`;\n- boundary and meaningful counterexample;\n- whether it is generic, system-profile-specific, or content-specific.\n\nNo candidates are generated automatically. A survey agent must interpret evidence without copying source expression.\n"@
}

/// The lines of the representative examples of a group.
pub open spec fn example_lines(examples: Seq<ExampleView>) -> Seq<char>
    decreases examples.len(),
{
    if examples.len() == 0 {
        Seq::empty()
    } else {
        example_lines(examples.drop_last()) + "- `"@ + examples.last().0 + "` (source `"@ + examples.last().3
            + "`)\n\n"@
    }
}

/// The section of one shape group.
pub open spec fn group_section(g: ShapeGroup) -> Seq<char> {
    "## `"@ + g.structural_signature@ + "`\n\nDocument: `"@ + g.document_type@ + "` / `"@ + or_text(
        opt_view(g.subtype),
        "<none>"@,
    ) + "`; witnesses: "@ + decimal(g.document_count as nat) + ".\n\n"@ + example_lines(
        g.representative_examples@.map_values(|e: crate::model::RepresentativeExample| example_view(e)),
    ) + "\nBoundary to investigate: _unresolved_\n\n"@
}

pub open spec fn group_sections(groups: Seq<ShapeGroup>) -> Seq<char>
    decreases groups.len(),
{
    if groups.len() == 0 {
        Seq::empty()
    } else {
        group_sections(groups.drop_last()) + group_section(groups.last())
    }
}

/// The representative-examples worksheet.
pub open spec fn examples_text(r: ScanReceipt) -> Seq<char> {
    "# Representative structural examples\n\nThese pointers identify local evidence; they do not reproduce source content.\n\n"@
        + group_sections(r.shape_groups@)
}

/// The ASHA coverage worksheet.
pub open spec fn coverage_text() -> Seq<char> {
    "# ASHA coverage assessment\n\nFor every interpreted candidate, record one of: supported, composable from existing primitives, missing primitive, content concern, or unresolved. Cite an exact ASHA surface and local evidence pointer. This worksheet does not authorize implementation.\n"@
}

/// The open-questions worksheet.
pub open spec fn questions_text() -> Seq<char> {
    "# Open questions and source pointers\n\nRecord ambiguity, competing interpretations, missing evidence, limit effects, and the smallest additional source witness that could resolve each question.\n"@
}

fn append_opt(out: &mut String, o: &Option<String>, fallback: &str)
    ensures
        final(out)@ == old(out)@ + or_text(opt_view(*o), fallback@),
{
    match o {
        Some(t) => out.append(t.as_str()),
        None => out.append(fallback),
    }
}

/// The study summary worksheet of a scan.
pub fn summary_worksheet(r: &ScanReceipt) -> (s: String)
    ensures
        s@ == summary_text(*r),
{
    let mut out = String::from_str("# Primitive study: ");
    out.append(r.study_id.as_str());
    out.append("\n\nStatus: **");
    match r.status {
        ReceiptStatus::Complete => out.append("complete within configured traversal limits"),
        ReceiptStatus::Partial => out.append("PARTIAL — do not claim study completeness"),
    }
    out.append("**\n\nPinned source: `");
    out.append(r.repository.url.as_str());
    out.append("` at `");
    out.append(r.repository.requested_ref.as_str());
    out.append("` (`");
    out.append(r.repository.pinned_commit.as_str());
    out.append("`)\n\nSystem manifest: `");
    out.append(r.system.path.as_str());
    out.append("` version `");
    append_opt(&mut out, &r.system.version, "<unknown>");
    out.append("`\n\nIncluded sources: ");
    out.append(join_strings(&r.included_source_whitelist, ", ").as_str());
    out.append("\n\nIncluded documents: ");
    out.append(usize_text(r.source_audit.included.document_count).as_str());
    out.append("\nExcluded-by-whitelist documents: ");
    out.append(usize_text(r.source_audit.excluded_by_whitelist.document_count).as_str());
    out.append("\nUnclassified or ambiguous documents: ");
    out.append(usize_text(r.source_audit.unclassified_or_ambiguous.document_count).as_str());
    out.append("\nUnique structural groups retained: ");
    out.append(usize_text(r.shape_groups.len()).as_str());
    out.append(
        "\n\nThis is a structural evidence worksheet, not an importer, ASHA implementation, or claim of semantic completeness.\n",
    );
    assert(out@ =~= summary_text(*r));
    out
}

/// The candidate-primitives worksheet of a scan.
pub fn candidates_worksheet(r: &ScanReceipt) -> (s: String)
    ensures
        s@ == candidates_text(*r),
{
    let mut out = String::from_str("# Candidate primitives\n\nCandidate limit: ");
    out.append(usize_text(r.limits.max_candidate_primitives).as_str());
    out.append(
        ".\n\nFor each candidate, record:\n\n- stable local candidate ID;\n- concise behavior or data requirement;\n- evidence strength: single-witness, repeated-shape, cross-source, or unresolved;\n- supporting structural signatures and source pointers from `scan.json`;\n- boundary and meaningful counterexample;\n- whether it is generic, system-profile-specific, or content-specific.\n\nNo candidates are generated automatically. A survey agent must interpret evidence without copying source expression.\n",
    );
    assert(out@ =~= candidates_text(*r));
    out
}

fn append_group(out: &mut String, g: &ShapeGroup)
    ensures
        final(out)@ == old(out)@ + group_section(*g),
{
    let ghost start = out@;
    out.append("## `");
    out.append(g.structural_signature.as_str());
    out.append("`\n\nDocument: `");
    out.append(g.document_type.as_str());
    out.append("` / `");
    append_opt(out, &g.subtype, "<none>");
    out.append("`; witnesses: ");
    out.append(usize_text(g.document_count).as_str());
    out.append(".\n\n");
    let ghost head = out@;
    let ghost ex = g.representative_examples@.map_values(|e: crate::model::RepresentativeExample| example_view(e));
    let mut i: usize = 0;
    while i < g.representative_examples.len()
        invariant
            ex == g.representative_examples@.map_values(|e: crate::model::RepresentativeExample| example_view(e)),
            i <= g.representative_examples.len(),
            out@ == head + example_lines(ex.take(i as int)),
        decreases g.representative_examples.len() - i,
    {
        assert(ex.take(i + 1).drop_last() =~= ex.take(i as int));
        assert(ex.take(i + 1).last() == example_view(g.representative_examples@[i as int]));
        let e = &g.representative_examples[i];
        out.append("- `");
        out.append(e.evidence_pointer.as_str());
        out.append("` (source `");
        out.append(e.source.as_str());
        out.append("`)\n\n");
        i = i + 1;
        assert(out@ =~= head + example_lines(ex.take(i as int)));
    }
    assert(ex.take(g.representative_examples.len() as int) =~= ex);
    out.append("\nBoundary to investigate: _unresolved_\n\n");
    assert(out@ =~= start + group_section(*g));
}

/// The representative-examples worksheet of a scan.
pub fn examples_worksheet(r: &ScanReceipt) -> (s: String)
    ensures
        s@ == examples_text(*r),
{
    let mut out = String::from_str(
        "# Representative structural examples\n\nThese pointers identify local evidence; they do not reproduce source content.\n\n",
    );
    let ghost head = out@;
    let ghost gs = r.shape_groups@;
    let mut i: usize = 0;
    while i < r.shape_groups.len()
        invariant
            gs == r.shape_groups@,
            i <= r.shape_groups.len(),
            out@ == head + group_sections(gs.take(i as int)),
        decreases r.shape_groups.len() - i,
    {
        assert(gs.take(i + 1).drop_last() =~= gs.take(i as int));
        assert(gs.take(i + 1).last() == gs[i as int]);
        append_group(&mut out, &r.shape_groups[i]);
        i = i + 1;
        assert(out@ =~= head + group_sections(gs.take(i as int)));
    }
    assert(gs.take(r.shape_groups.len() as int) =~= gs);
    out
}

/// The worksheets of a scan: file name and content, in the order they are written.
pub fn worksheets(r: &ScanReceipt) -> (w: Vec<(String, String)>)
    ensures
        w@.len() == 5,
        w@[0].0@ == "study-summary.md"@ && w@[0].1@ == summary_text(*r),
        w@[1].0@ == "primitive-candidates.md"@ && w@[1].1@ == candidates_text(*r),
        w@[2].0@ == "representative-examples.md"@ && w@[2].1@ == examples_text(*r),
        w@[3].0@ == "asha-coverage.md"@ && w@[3].1@ == coverage_text(),
        w@[4].0@ == "open-questions.md"@ && w@[4].1@ == questions_text(),
{
    let mut w: Vec<(String, String)> = Vec::new();
    w.push((String::from_str("study-summary.md"), summary_worksheet(r)));
    w.push((String::from_str("primitive-candidates.md"), candidates_worksheet(r)));
    w.push((String::from_str("representative-examples.md"), examples_worksheet(r)));
    w.push((
        String::from_str("asha-coverage.md"),
        String::from_str(
            "# ASHA coverage assessment\n\nFor every interpreted candidate, record one of: supported, composable from existing primitives, missing primitive, content concern, or unresolved. Cite an exact ASHA surface and local evidence pointer. This worksheet does not authorize implementation.\n",
        ),
    ));
    w.push((
        String::from_str("open-questions.md"),
        String::from_str(
            "# Open questions and source pointers\n\nRecord ambiguity, competing interpretations, missing evidence, limit effects, and the smallest additional source witness that could resolve each question.\n",
        ),
    ));
    w
}

/// The study summary reports the audit's three figures on lines of their
/// own: the included documents, the documents excluded by the whitelist,
/// and the unclassified or ambiguous ones (missing plus ambiguous), and the
/// number of shape groups retained.
pub proof fn law_summary_reports_the_audit(r: ScanReceipt)
    ensures
        exists|p: Seq<char>, q: Seq<char>|
            summary_text(r) == p + "\nIncluded documents: "@ + decimal(r.source_audit.included.document_count as nat)
                + "\n"@ + q,
        exists|p: Seq<char>, q: Seq<char>|
            summary_text(r) == p + "\nExcluded-by-whitelist documents: "@ + decimal(
                r.source_audit.excluded_by_whitelist.document_count as nat,
            ) + "\n"@ + q,
        exists|p: Seq<char>, q: Seq<char>|
            summary_text(r) == p + "\nUnclassified or ambiguous documents: "@ + decimal(
                r.source_audit.unclassified_or_ambiguous.document_count as nat,
            ) + "\n"@ + q,
        exists|p: Seq<char>, q: Seq<char>|
            summary_text(r) == p + "\nUnique structural groups retained: "@ + decimal(r.shape_groups@.len() as nat)
                + "\n"@ + q,
{
    reveal_strlit("\n\nIncluded documents: ");
    reveal_strlit("\nIncluded documents: ");
    reveal_strlit("\nExcluded-by-whitelist documents: ");
    reveal_strlit("\nUnclassified or ambiguous documents: ");
    reveal_strlit("\nUnique structural groups retained: ");
    reveal_strlit("\n");
    reveal_strlit("\n\nThis is a structural evidence worksheet, not an importer, ASHA implementation, or claim of semantic completeness.\n");
    let a = "# Primitive study: "@ + r.study_id@ + "\n\nStatus: **"@ + status_text(r.status) + "**\n\nPinned source: `"@
        + r.repository.url@ + "` at `"@ + r.repository.requested_ref@ + "` (`"@ + r.repository.pinned_commit@
        + "`)\n\nSystem manifest: `"@ + r.system.path@ + "` version `"@ + or_text(opt_view(r.system.version), "<unknown>"@)
        + "`\n\nIncluded sources: "@ + join_text(string_views(r.included_source_whitelist@), ", "@);
    let inc = decimal(r.source_audit.included.document_count as nat);
    let exc = decimal(r.source_audit.excluded_by_whitelist.document_count as nat);
    let unclassified = r.source_audit.unclassified_or_ambiguous;
    let unr = decimal(unclassified.document_count as nat);
    let grp = decimal(r.shape_groups@.len() as nat);
    let nl = "\n"@;
    let l1 = "\nIncluded documents: "@ + inc;
    let l2 = "\nExcluded-by-whitelist documents: "@ + exc;
    let l3 = "\nUnclassified or ambiguous documents: "@ + unr;
    let l4 = "\nUnique structural groups retained: "@ + grp;
    let tail = "\n\nThis is a structural evidence worksheet, not an importer, ASHA implementation, or claim of semantic completeness.\n"@;
    assert("\n\nIncluded documents: "@ =~= nl + "\nIncluded documents: "@);
    assert(tail =~= nl + tail.drop_first());
    let full = a + nl + l1 + l2 + l3 + l4 + tail;
    assert(summary_text(r) =~= full);
    let q1 = l2.drop_first() + l3 + l4 + tail;
    let q2 = l3.drop_first() + l4 + tail;
    let q3 = l4.drop_first() + tail;
    let q4 = tail.drop_first();
    assert(summary_text(r) =~= (a + nl) + "\nIncluded documents: "@ + inc + nl + q1);
    assert(summary_text(r) =~= (a + nl + l1) + "\nExcluded-by-whitelist documents: "@ + exc + nl + q2);
    assert(summary_text(r) =~= (a + nl + l1 + l2) + "\nUnclassified or ambiguous documents: "@ + unr + nl + q3);
    assert(summary_text(r) =~= (a + nl + l1 + l2 + l3) + "\nUnique structural groups retained: "@ + grp + nl + q4);
}

/// The summary states the scan's status: a partial scan is marked as one
/// that must not be taken as a complete study.
pub proof fn law_summary_states_the_status(r: ScanReceipt)
    ensures
        r.status is Partial ==> exists|p: Seq<char>, q: Seq<char>|
            summary_text(r) == p + "PARTIAL — do not claim study completeness"@ + q,
        r.status is Complete ==> exists|p: Seq<char>, q: Seq<char>|
            summary_text(r) == p + "complete within configured traversal limits"@ + q,
{
    let p = "# Primitive study: "@ + r.study_id@ + "\n\nStatus: **"@;
    let q = "**\n\nPinned source: `"@ + r.repository.url@ + "` at `"@ + r.repository.requested_ref@ + "` (`"@
        + r.repository.pinned_commit@ + "`)\n\nSystem manifest: `"@ + r.system.path@ + "` version `"@ + or_text(
        opt_view(r.system.version),
        "<unknown>"@,
    ) + "`\n\nIncluded sources: "@ + join_text(string_views(r.included_source_whitelist@), ", "@)
        + "\n\nIncluded documents: "@ + decimal(r.source_audit.included.document_count as nat)
        + "\nExcluded-by-whitelist documents: "@ + decimal(r.source_audit.excluded_by_whitelist.document_count as nat)
        + "\nUnclassified or ambiguous documents: "@ + decimal(
        r.source_audit.unclassified_or_ambiguous.document_count as nat,
    )
        + "\nUnique structural groups retained: "@ + decimal(r.shape_groups@.len() as nat)
        + "\n\nThis is a structural evidence worksheet, not an importer, ASHA implementation, or claim of semantic completeness.\n"@;
    assert(summary_text(r) =~= p + status_text(r.status) + q);
}

/// The candidates worksheet names the candidate limit the scan was run with.
pub proof fn law_candidates_name_the_limit(r: ScanReceipt)
    ensures
        exists|q: Seq<char>|
            candidates_text(r) == "# Candidate primitives\n\nCandidate limit: "@ + decimal(
                r.limits.max_candidate_primitives as nat,
            ) + q,
{
    let q = ".\n\nFor each candidate, record:\n\n- stable local candidate ID;\n- concise behavior or data requirement;\n- evidence strength: single-witness, repeated-shape, cross-source, or unresolved;\n- supporting structural signatures and source pointers from `scan.json`;\n- boundary and meaningful counterexample;\n- whether it is generic, system-profile-specific, or content-specific.\n\nNo candidates are generated automatically. A survey agent must interpret evidence without copying source expression.\n"@;
    assert(candidates_text(r) =~= "# Candidate primitives\n\nCandidate limit: "@ + decimal(
        r.limits.max_candidate_primitives as nat,
    ) + q);
}

/// The heading of a shape group's section: its signature, document type,
/// subtype and number of witnesses.
pub open spec fn section_heading(g: ShapeGroup) -> Seq<char> {
    "## `"@ + g.structural_signature@ + "`\n\nDocument: `"@ + g.document_type@ + "` / `"@ + or_text(
        opt_view(g.subtype),
        "<none>"@,
    ) + "`; witnesses: "@ + decimal(g.document_count as nat) + ".\n\n"@
}

/// The line of one representative example: its evidence pointer and source.
pub open spec fn example_line(pointer: Seq<char>, source: Seq<char>) -> Seq<char> {
    "- `"@ + pointer + "` (source `"@ + source + "`)\n\n"@
}

proof fn lemma_regroup(p: Seq<char>, a: Seq<char>, b: Seq<char>, q: Seq<char>)
    ensures
        p + (a + b) + q =~= p + a + (b + q),
{
}

proof fn lemma_example_line_in(es: Seq<ExampleView>, k: int)
    requires
        0 <= k < es.len(),
    ensures
        exists|p: Seq<char>, q: Seq<char>| example_lines(es) == p + example_line(es[k].0, es[k].3) + q,
    decreases es.len(),
{
    let prev = es.drop_last();
    if k == es.len() - 1 {
        assert(example_lines(es) =~= example_lines(prev) + example_line(es[k].0, es[k].3) + Seq::<char>::empty());
    } else {
        lemma_example_line_in(prev, k);
        assert(prev[k] == es[k]);
        let (p, q) = choose|p: Seq<char>, q: Seq<char>| example_lines(prev) == p + example_line(prev[k].0, prev[k].3) + q;
        let tail = example_line(es.last().0, es.last().3);
        assert(example_lines(es) == example_lines(prev) + tail);
        assert(p + example_line(es[k].0, es[k].3) + q + tail =~= p + example_line(es[k].0, es[k].3) + (q + tail));
    }
}

proof fn lemma_group_section_in(gs: Seq<ShapeGroup>, k: int)
    requires
        0 <= k < gs.len(),
    ensures
        exists|p: Seq<char>, q: Seq<char>| group_sections(gs) == p + group_section(gs[k]) + q,
    decreases gs.len(),
{
    let prev = gs.drop_last();
    if k == gs.len() - 1 {
        assert(group_sections(gs) =~= group_sections(prev) + group_section(gs[k]) + Seq::<char>::empty());
    } else {
        lemma_group_section_in(prev, k);
        assert(prev[k] == gs[k]);
        let (p, q) = choose|p: Seq<char>, q: Seq<char>| group_sections(prev) == p + group_section(prev[k]) + q;
        let tail = group_section(gs.last());
        assert(p + group_section(gs[k]) + q + tail =~= p + group_section(gs[k]) + (q + tail));
    }
}

/// The section of a group: its heading, its example lines, its closing line.
proof fn lemma_section_parts(g: ShapeGroup)
    ensures
        group_section(g) == section_heading(g) + (example_lines(
            g.representative_examples@.map_values(|e: crate::model::RepresentativeExample| example_view(e)),
        ) + "\nBoundary to investigate: _unresolved_\n\n"@),
{
    let es = g.representative_examples@.map_values(|e: crate::model::RepresentativeExample| example_view(e));
    assert(section_heading(g) + example_lines(es) + "\nBoundary to investigate: _unresolved_\n\n"@ =~= section_heading(g)
        + (example_lines(es) + "\nBoundary to investigate: _unresolved_\n\n"@));
}

#[verifier::spinoff_prover]
proof fn lemma_heading_in(r: ScanReceipt, k: int)
    requires
        0 <= k < r.shape_groups@.len(),
    ensures
        exists|p: Seq<char>, q: Seq<char>| examples_text(r) == p + section_heading(r.shape_groups@[k]) + q,
{
    let g = r.shape_groups@[k];
    let head = "# Representative structural examples\n\nThese pointers identify local evidence; they do not reproduce source content.\n\n"@;
    lemma_group_section_in(r.shape_groups@, k);
    let (p, q) = choose|p: Seq<char>, q: Seq<char>| group_sections(r.shape_groups@) == p + group_section(r.shape_groups@[k]) + q;
    lemma_section_parts(g);
    let h = section_heading(g);
    let t = group_section(g).skip(h.len() as int);
    assert(group_section(g) =~= h + t);
    lemma_regroup(p, h, t, q);
    lemma_regroup(head, p + h, t + q, Seq::<char>::empty());
    assert(examples_text(r) =~= (head + p) + h + (t + q));
}

#[verifier::spinoff_prover]
proof fn lemma_line_in(r: ScanReceipt, k: int, m: int)
    requires
        0 <= k < r.shape_groups@.len(),
        0 <= m < r.shape_groups@[k].representative_examples@.len(),
    ensures
        exists|p: Seq<char>, q: Seq<char>|
            examples_text(r) == p + example_line(
                r.shape_groups@[k].representative_examples@[m].evidence_pointer@,
                r.shape_groups@[k].representative_examples@[m].source@,
            ) + q,
{
    let g = r.shape_groups@[k];
    let head = "# Representative structural examples\n\nThese pointers identify local evidence; they do not reproduce source content.\n\n"@;
    lemma_group_section_in(r.shape_groups@, k);
    let (p, q) = choose|p: Seq<char>, q: Seq<char>| group_sections(r.shape_groups@) == p + group_section(r.shape_groups@[k]) + q;
    lemma_section_parts(g);
    let es = g.representative_examples@.map_values(|e: crate::model::RepresentativeExample| example_view(e));
    lemma_example_line_in(es, m);
    let (a, b) = choose|a: Seq<char>, b: Seq<char>| example_lines(es) == a + example_line(es[m].0, es[m].3) + b;
    let line = example_line(es[m].0, es[m].3);
    let h = section_heading(g);
    let rest = "\nBoundary to investigate: _unresolved_\n\n"@;
    let before = head + p + h + a;
    let after = b + rest + q;
    assert(examples_text(r) == head + (p + (h + ((a + line + b) + rest)) + q));
    assert(head + (p + (h + ((a + line + b) + rest)) + q) =~= before + line + after);
}

/// The examples worksheet lists every retained shape group under a heading
/// with its signature, document type, subtype and number of witnesses, and
/// every representative example of the group with its evidence pointer and
/// source.
pub proof fn law_examples_list_every_group(r: ScanReceipt, k: int, m: int)
    requires
        0 <= k < r.shape_groups@.len(),
    ensures
        exists|p: Seq<char>, q: Seq<char>| examples_text(r) == p + section_heading(r.shape_groups@[k]) + q,
        0 <= m < r.shape_groups@[k].representative_examples@.len() ==> exists|p: Seq<char>, q: Seq<char>|
            examples_text(r) == p + example_line(
                r.shape_groups@[k].representative_examples@[m].evidence_pointer@,
                r.shape_groups@[k].representative_examples@[m].source@,
            ) + q,
{
    lemma_heading_in(r, k);
    if 0 <= m < r.shape_groups@[k].representative_examples@.len() {
        lemma_line_in(r, k, m);
    }
}

} // verus!
