use rpg_primitive_survey::inventory::default_source_pointers;
use rpg_primitive_survey::inventory::size_limited_receipt;
use rpg_primitive_survey::inventory::InventoryOptions;
use rpg_primitive_survey::json::JsonValue;
use rpg_primitive_survey::model::DocumentEvidence;
use rpg_primitive_survey::model::InventoryReceipt;
use rpg_primitive_survey::model::Limits;
use rpg_primitive_survey::model::ReceiptStatus;
use rpg_primitive_survey::model::SourceIdentity;
use rpg_primitive_survey::model::SurveyProfile;
use rpg_primitive_survey::scan::audit_sources;
use rpg_primitive_survey::scan::build_scan_receipt;
use rpg_primitive_survey::scan::check_inventory_complete;
use rpg_primitive_survey::scan::check_pinned_head;
use rpg_primitive_survey::scan::check_scan_request;
use rpg_primitive_survey::scan::interpretation_contract;
use rpg_primitive_survey::scan::shape_groups;
use rpg_primitive_survey::scan::whitelist;
use rpg_primitive_survey::scan::ScanOptions;
use rpg_primitive_survey::worksheet::examples_worksheet;
use rpg_primitive_survey::worksheet::summary_worksheet;
use rpg_primitive_survey::worksheet::worksheets;

fn strings(items: &[&str]) -> Vec<String> {
    items.iter().map(|s| s.to_string()).collect()
}

fn classified(value: &str) -> SourceIdentity {
    SourceIdentity::Classified { value: value.to_owned(), pointer: "/source".to_owned() }
}

fn document(pointer: &str, signature: &str, subtype: Option<&str>, source: SourceIdentity) -> DocumentEvidence {
    DocumentEvidence {
        pointer: pointer.to_owned(),
        pack_id: "items".to_owned(),
        document_type: "Item".to_owned(),
        subtype: subtype.map(str::to_owned),
        source,
        structural_signature: signature.to_owned(),
    }
}

fn documents() -> Vec<DocumentEvidence> {
    vec![
        document("f.json#0", "bbbb", Some("weapon"), classified("core")),
        document("f.json#1", "aaaa", Some("weapon"), classified("supplement")),
        document("f.json#2", "bbbb", Some("weapon"), classified("core")),
        document("f.json#3", "aaaa", None, SourceIdentity::Missing),
        document(
            "f.json#4",
            "aaaa",
            None,
            SourceIdentity::Ambiguous { values: strings(&["core", "x"]), pointers: strings(&["/a", "/b"]) },
        ),
        document("f.json#5", "bbbb", Some("weapon"), classified("core")),
        document("f.json#6", "aaaa", Some("spell"), classified("core")),
        document("f.json#7", "cccc", None, classified("guide")),
    ]
}

fn inventory(limits: Limits) -> InventoryReceipt {
    let options = InventoryOptions {
        study_id: "synthetic".to_owned(),
        profile: SurveyProfile::Generic,
        repository: "https://example.invalid/system.git".to_owned(),
        requested_ref: "main".to_owned(),
        manifest_path: "system.json".to_owned(),
        content_roots: Vec::new(),
        source_pointers: Vec::new(),
        source_fallbacks: Vec::new(),
        limits,
        studies_root: "work/studies".to_owned(),
    };
    let mut receipt = size_limited_receipt(&options, &default_source_pointers(), "abc123", 2048);
    receipt.status = ReceiptStatus::Complete;
    receipt.diagnostics = Vec::new();
    receipt.documents = documents();
    receipt
}

fn scan_options(included: &[&str], limits: Limits) -> ScanOptions {
    ScanOptions {
        study_id: "synthetic".to_owned(),
        included_sources: strings(included),
        limits,
        studies_root: "work/studies".to_owned(),
    }
}

#[test]
fn whitelist_is_sorted_without_repetitions() {
    assert_eq!(whitelist(&strings(&["supplement", "core", "supplement"])), strings(&["core", "supplement"]));
}

#[test]
fn audit_partitions_every_document() {
    let audit = audit_sources(&documents(), &strings(&["core", "guide"]));
    assert_eq!(audit.included.document_count, 5);
    let included: Vec<(String, usize)> = audit.included.sources.iter().map(|c| (c.key.clone(), c.count)).collect();
    assert_eq!(included, vec![("core".to_owned(), 4), ("guide".to_owned(), 1)]);
    assert_eq!(audit.excluded_by_whitelist.document_count, 1);
    assert_eq!(audit.excluded_by_whitelist.sources[0].key, "supplement");
    assert_eq!(audit.unclassified_or_ambiguous.document_count, 2);
    assert_eq!(audit.unclassified_or_ambiguous.missing, 1);
    assert_eq!(audit.unclassified_or_ambiguous.ambiguous, 1);
    assert_eq!(audit.unclassified_or_ambiguous.pointers, strings(&["f.json#3", "f.json#4"]));
    assert_eq!(
        audit.included.document_count
            + audit.excluded_by_whitelist.document_count
            + audit.unclassified_or_ambiguous.document_count,
        documents().len()
    );
}

#[test]
fn shape_groups_collapse_identical_keys_and_sample_in_order() {
    let mut limits = Limits::default();
    limits.max_samples_per_signature = 2;
    let (groups, observed) = shape_groups(&documents(), &strings(&["core", "guide"]), &limits);
    assert_eq!(observed, 3);
    let keys: Vec<(&str, Option<&str>, usize)> = groups
        .iter()
        .map(|g| (g.structural_signature.as_str(), g.subtype.as_deref(), g.document_count))
        .collect();
    assert_eq!(keys, vec![("aaaa", Some("spell"), 1), ("bbbb", Some("weapon"), 3), ("cccc", None, 1)]);
    let samples: Vec<&str> = groups[1].representative_examples.iter().map(|e| e.evidence_pointer.as_str()).collect();
    assert_eq!(samples, vec!["f.json#0", "f.json#2"]);
    assert_eq!(groups[1].sources.len(), 1);
    assert_eq!(groups[1].sources[0].count, 3);
    assert_eq!(groups[2].representative_examples[0].source, "guide");
}

#[test]
fn unique_shape_limit_gives_a_resumable_partial_scan() {
    let mut limits = Limits::default();
    limits.max_unique_shapes = 1;
    let inventory = inventory(Limits::default());
    let receipt = build_scan_receipt(&scan_options(&["core", "supplement"], limits), &inventory);
    assert_eq!(receipt.status, ReceiptStatus::Partial);
    assert_eq!(receipt.diagnostics.len(), 1);
    assert_eq!(receipt.diagnostics[0].code, "SURVEY_UNIQUE_SHAPE_LIMIT");
    assert_eq!(receipt.diagnostics[0].observed, Some(3));
    assert_eq!(receipt.diagnostics[0].maximum, Some(1));
    assert_eq!(receipt.shape_groups.len(), 1);
    assert!(receipt.resume.resumable);
    assert_eq!(receipt.resume.next_document_index, Some(1));
    assert_eq!(receipt.resume.next_file, None);
    assert_eq!(receipt.included_source_whitelist, strings(&["core", "supplement"]));
}

#[test]
fn scan_within_bounds_is_complete() {
    let inventory = inventory(Limits::default());
    let receipt = build_scan_receipt(&scan_options(&["core"], Limits::default()), &inventory);
    assert_eq!(receipt.status, ReceiptStatus::Complete);
    assert!(receipt.diagnostics.is_empty());
    assert!(!receipt.resume.resumable);
    assert_eq!(receipt.resume.instruction, "scoped structural scan completed within configured limits");
    assert_eq!(receipt.repository.pinned_commit, "abc123");
    assert_eq!(receipt.tool_version, "0.1.0");
    assert_eq!(receipt.shape_groups.len(), 2);
    assert_eq!(receipt.source_audit.excluded_by_whitelist.document_count, 2);
}

#[test]
fn unresolved_and_repository_bounds_are_reported_in_order() {
    let mut limits = Limits::default();
    limits.max_unresolved_documents = 1;
    limits.max_repository_bytes = 1000;
    let inventory = inventory(Limits::default());
    let receipt = build_scan_receipt(&scan_options(&["core"], limits), &inventory);
    let codes: Vec<&str> = receipt.diagnostics.iter().map(|d| d.code.as_str()).collect();
    assert_eq!(codes, vec!["SURVEY_REPOSITORY_SIZE_LIMIT", "SURVEY_UNRESOLVED_DOCUMENT_LIMIT"]);
    assert_eq!(receipt.diagnostics[0].observed, Some(2048));
    assert_eq!(receipt.diagnostics[1].observed, Some(2));
    assert_eq!(receipt.resume.next_document_index, None);
    assert_eq!(receipt.status, ReceiptStatus::Partial);
}

#[test]
fn interpretation_contract_names_the_candidate_limit() {
    match interpretation_contract(1000) {
        JsonValue::Object(members) => {
            let keys: Vec<&str> = members.iter().map(|m| m.key.as_str()).collect();
            assert_eq!(keys, vec!["candidateLimit", "completionMeaning", "evidenceStrength", "kind", "not"]);
            assert!(matches!(&members[0].value, JsonValue::Number(n) if n.text == "1000" && n.integer));
            assert!(matches!(&members[3].value, JsonValue::String(s) if s == "primitive-study-worksheet"));
            assert!(matches!(&members[4].value, JsonValue::Array(items) if items.len() == 4));
        }
        _ => panic!("the interpretation contract is an object"),
    }
}

#[test]
fn scan_preconditions_are_checked() {
    assert_eq!(
        check_scan_request(&scan_options(&[], Limits::default())),
        Err("scan requires at least one --include-source".to_owned())
    );
    assert_eq!(check_scan_request(&scan_options(&["core"], Limits::default())), Ok(()));
    let mut partial = inventory(Limits::default());
    assert_eq!(check_inventory_complete(&partial), Ok(()));
    partial.status = ReceiptStatus::Partial;
    assert_eq!(
        check_inventory_complete(&partial),
        Err("inventory is partial; resume inventory before claiming a scoped scan".to_owned())
    );
    assert_eq!(check_pinned_head("abc", "abc"), Ok(()));
    assert_eq!(
        check_pinned_head("abc", "def"),
        Err("checkout moved from pinned commit abc to def; refusing mixed-revision scan".to_owned())
    );
}

#[test]
fn worksheets_describe_the_scan() {
    let inventory = inventory(Limits::default());
    let mut limits = Limits::default();
    limits.max_samples_per_signature = 1;
    let receipt = build_scan_receipt(&scan_options(&["guide"], limits), &inventory);
    let summary = summary_worksheet(&receipt);
    assert!(summary.starts_with("# Primitive study: synthetic\n\nStatus: **complete within configured traversal limits**\n"));
    assert!(summary.contains("System manifest: `system.json` version `<unknown>`"));
    assert!(summary.contains("Included sources: guide\n\nIncluded documents: 1\nExcluded-by-whitelist documents: 5\n"));
    let examples = examples_worksheet(&receipt);
    assert_eq!(
        examples,
        "# Representative structural examples\n\nThese pointers identify local evidence; they do not reproduce source content.\n\n## `cccc`\n\nDocument: `Item` / `<none>`; witnesses: 1.\n\n- `f.json#7` (source `guide`)\n\n\nBoundary to investigate: _unresolved_\n\n"
    );
    let all = worksheets(&receipt);
    let names: Vec<&str> = all.iter().map(|(name, _)| name.as_str()).collect();
    assert_eq!(
        names,
        vec!["study-summary.md", "primitive-candidates.md", "representative-examples.md", "asha-coverage.md", "open-questions.md"]
    );
    assert!(all[1].1.starts_with("# Candidate primitives\n\nCandidate limit: 1000.\n"));
}

#[test]
fn a_wider_whitelist_only_moves_excluded_documents() {
    let narrow = audit_sources(&documents(), &strings(&["core"]));
    let wide = audit_sources(&documents(), &strings(&["core", "guide", "supplement"]));
    assert_eq!(wide.unclassified_or_ambiguous, narrow.unclassified_or_ambiguous);
    assert!(wide.included.document_count >= narrow.included.document_count);
    assert_eq!(
        wide.included.document_count + wide.excluded_by_whitelist.document_count,
        narrow.included.document_count + narrow.excluded_by_whitelist.document_count
    );
    assert_eq!(wide.excluded_by_whitelist.document_count, 0);
}
