use rpg_primitive_survey::decode::decode_documents;
use rpg_primitive_survey::decode::parse_json_file;
use rpg_primitive_survey::inventory::collect_pack_sources;
use rpg_primitive_survey::inventory::discover_pack_files;
use rpg_primitive_survey::inventory::effective_source_pointers;
use rpg_primitive_survey::inventory::finish_inventory;
use rpg_primitive_survey::inventory::is_line_delimited_path;
use rpg_primitive_survey::inventory::pack_inventories;
use rpg_primitive_survey::inventory::parse_manifest;
use rpg_primitive_survey::inventory::resume_point;
use rpg_primitive_survey::inventory::sort_document_files;
use rpg_primitive_survey::inventory::DocumentTraversal;
use rpg_primitive_survey::inventory::InventoryOptions;
use rpg_primitive_survey::inventory::PackListing;
use rpg_primitive_survey::inventory::PathFacts;
use rpg_primitive_survey::json::JsonValue;
use rpg_primitive_survey::model::InventoryReceipt;
use rpg_primitive_survey::model::Limits;
use rpg_primitive_survey::model::ReceiptStatus;
use rpg_primitive_survey::model::SourceFallback;
use rpg_primitive_survey::model::SourceIdentity;
use rpg_primitive_survey::model::SurveyProfile;
use rpg_primitive_survey::scan::build_scan_receipt;
use rpg_primitive_survey::scan::ScanOptions;
use rpg_primitive_survey::worksheet::worksheets;

/// A synthetic system repository: its manifest and its files.
struct Fixture {
    manifest: String,
    files: Vec<(String, String)>,
}

fn synthetic() -> Fixture {
    let manifest = r#"{
        "id": "synthetic", "title": "Synthetic System", "version": "1.0.0",
        "packs": [
            {"name": "synthetic-actions", "path": "packs/actions", "type": "Item"},
            {"name": "synthetic-items", "path": "packs/items", "type": "Item"}
        ]
    }"#;
    let actions = r#"[
        {"name": "Dash", "type": "action", "system": {"source": {"id": "core"}, "cost": 1}},
        {"name": "Mystery", "type": "action", "system": {"cost": 2}}
    ]"#;
    let items = [
        r#"{"name": "Sprint", "type": "action", "system": {"source": {"id": "core"}, "cost": 5}}"#,
        "",
        r#"{"name": "Wand", "type": "equipment", "system": {"source": {"id": "supplement"}}}"#,
        r#"{"name": "Odd", "type": "equipment", "source": "core", "system": {"source": {"id": "supplement"}}}"#,
    ]
    .join("\n");
    Fixture {
        manifest: manifest.to_owned(),
        files: vec![
            ("packs/actions/actions.json".to_owned(), actions.to_owned()),
            ("packs/items/items.jsonl".to_owned(), items),
            ("system.json".to_owned(), manifest.to_owned()),
        ],
    }
}

fn listing(fixture: &Fixture, path: &str) -> PackListing {
    let prefix = format!("{path}/");
    let mut files: Vec<String> = fixture
        .files
        .iter()
        .filter(|(file, _)| file == path || file.starts_with(&prefix))
        .map(|(file, _)| file.clone())
        .collect();
    if files.is_empty() {
        return PackListing::Missing;
    }
    files.sort();
    PackListing::Files(files)
}

fn bytes_under(fixture: &Fixture, path: &str) -> u64 {
    let prefix = format!("{path}/");
    fixture
        .files
        .iter()
        .filter(|(file, _)| file == path || file.starts_with(&prefix))
        .map(|(_, content)| content.len() as u64)
        .sum()
}

fn decode(fixture: &Fixture, file: &str) -> Vec<JsonValue> {
    let content = &fixture.files.iter().find(|(name, _)| name == file).expect("fixture file").1;
    decode_documents(content.as_bytes(), is_line_delimited_path(file), file).expect("fixture documents")
}

fn options(limits: Limits, fallbacks: Vec<SourceFallback>) -> InventoryOptions {
    InventoryOptions {
        study_id: "synthetic".to_owned(),
        profile: SurveyProfile::Generic,
        repository: "fixture".to_owned(),
        requested_ref: "main".to_owned(),
        manifest_path: "system.json".to_owned(),
        content_roots: Vec::new(),
        source_pointers: Vec::new(),
        source_fallbacks: fallbacks,
        limits,
        studies_root: "work/studies".to_owned(),
    }
}

fn inventory(fixture: &Fixture, opts: &InventoryOptions, previous: Option<InventoryReceipt>) -> InventoryReceipt {
    let manifest_value = parse_json_file(fixture.manifest.as_bytes(), "system.json").expect("manifest");
    let manifest = parse_manifest(&opts.manifest_path, &manifest_value);
    let packs = collect_pack_sources(&manifest_value, &opts.content_roots);
    let listings: Vec<PackListing> = packs.iter().map(|pack| listing(fixture, &pack.path)).collect();
    let discovery = discover_pack_files(&packs, &listings);
    let files = sort_document_files(discovery.document_files.clone());
    let pointers = effective_source_pointers(&opts.source_pointers);
    let (documents, cursor) = match previous {
        Some(receipt) => resume_point(receipt),
        None => (Vec::new(), None),
    };
    let mut traversal = DocumentTraversal::start(documents, cursor);
    for (file, pack) in &files {
        if traversal.enter_file(file) {
            let values = decode(fixture, file);
            traversal.ingest(
                file,
                pack,
                &values,
                &pointers,
                &opts.source_fallbacks,
                opts.limits.max_decoded_documents,
                opts.profile.normalizes_identifier_maps(),
            );
            if traversal.limit_reached() {
                break;
            }
        }
    }
    let facts: Vec<PathFacts> = listings
        .iter()
        .zip(&packs)
        .map(|(listing, pack)| PathFacts {
            exists: matches!(listing, PackListing::Files(_)),
            bytes: bytes_under(fixture, &pack.path),
        })
        .collect();
    let records = pack_inventories(&packs, &facts, &discovery, &traversal.documents);
    let total = fixture.files.iter().map(|(_, content)| content.len() as u64).sum();
    finish_inventory(opts, "pinned-commit".to_owned(), total, manifest, pointers, records, &discovery, traversal)
}

fn subtype_count(receipt: &InventoryReceipt, document_type: &str, subtype: &str) -> usize {
    receipt
        .counts
        .by_subtype
        .iter()
        .find(|entry| entry.document_type == document_type)
        .and_then(|entry| entry.subtypes.iter().find(|count| count.key == subtype))
        .map_or(0, |count| count.count)
}

#[test]
fn pinned_inventory_scan_partition_dedupe_and_resume() {
    let fixture = synthetic();
    let mut limits = Limits::default();
    limits.max_decoded_documents = 2;
    let partial = inventory(&fixture, &options(limits, Vec::new()), None);
    assert_eq!(partial.status, ReceiptStatus::Partial);
    assert_eq!(partial.diagnostics[0].code, "SURVEY_DECODED_DOCUMENT_LIMIT");
    assert!(partial.resume.resumable);
    assert_eq!(partial.repository.pinned_commit, "pinned-commit");

    limits.max_decoded_documents = 20;
    let complete = inventory(&fixture, &options(limits, Vec::new()), Some(partial));
    assert_eq!(complete.status, ReceiptStatus::Complete);
    assert_eq!(complete.repository.pinned_commit, "pinned-commit");
    assert_eq!(complete.counts.decoded_documents, 5);
    assert_eq!(complete.counts.missing_source_documents, 1);
    assert_eq!(complete.counts.ambiguous_source_documents, 1);
    assert_eq!(subtype_count(&complete, "Item", "action"), 3);

    let uninterrupted = inventory(&fixture, &options(limits, Vec::new()), None);
    assert_eq!(complete.documents, uninterrupted.documents);

    let scan = build_scan_receipt(
        &ScanOptions {
            study_id: "synthetic".to_owned(),
            included_sources: vec!["core".to_owned()],
            limits: Limits::default(),
            studies_root: "work/studies".to_owned(),
        },
        &complete,
    );
    assert_eq!(scan.status, ReceiptStatus::Complete);
    assert_eq!(scan.source_audit.included.document_count, 2);
    assert_eq!(scan.source_audit.excluded_by_whitelist.document_count, 1);
    assert_eq!(scan.source_audit.unclassified_or_ambiguous.document_count, 2);
    assert_eq!(scan.shape_groups.len(), 1);
    assert_eq!(scan.shape_groups[0].document_count, 2);
    assert_eq!(scan.shape_groups[0].representative_examples.len(), 2);
    let names: Vec<String> = worksheets(&scan).into_iter().map(|(name, _)| name).collect();
    assert_eq!(
        names,
        vec![
            "study-summary.md",
            "primitive-candidates.md",
            "representative-examples.md",
            "asha-coverage.md",
            "open-questions.md",
        ]
    );
}

#[test]
fn unique_shape_limit_is_an_explicit_partial_scan() {
    let fixture = synthetic();
    let complete = inventory(&fixture, &options(Limits::default(), Vec::new()), None);
    assert_eq!(complete.status, ReceiptStatus::Complete);
    let mut limits = Limits::default();
    limits.max_unique_shapes = 1;
    let scan = build_scan_receipt(
        &ScanOptions {
            study_id: "shape-limit".to_owned(),
            included_sources: vec!["core".to_owned(), "supplement".to_owned()],
            limits,
            studies_root: "work/studies".to_owned(),
        },
        &complete,
    );
    assert_eq!(scan.status, ReceiptStatus::Partial);
    assert_eq!(scan.diagnostics[0].code, "SURVEY_UNIQUE_SHAPE_LIMIT");
    assert!(scan.resume.resumable);
}

#[test]
fn pack_fallback_classifies_missing_but_not_ambiguous_provenance() {
    let fixture = synthetic();
    let fallbacks = vec![SourceFallback { pack_id: "synthetic-actions".to_owned(), source: "core".to_owned() }];
    let receipt = inventory(&fixture, &options(Limits::default(), fallbacks), None);
    assert_eq!(receipt.status, ReceiptStatus::Complete);
    assert_eq!(receipt.counts.classified_documents, 4);
    assert_eq!(receipt.counts.missing_source_documents, 0);
    assert_eq!(receipt.counts.ambiguous_source_documents, 1);
    assert!(receipt.documents.iter().any(|document| matches!(
        &document.source,
        SourceIdentity::Classified { pointer, .. } if pointer == "fallback:pack:synthetic-actions"
    )));
}

#[test]
fn unsupported_pack_layout_cannot_claim_complete_inventory() {
    let mut fixture = synthetic();
    let mut manifest: serde_json::Value = serde_json::from_str(&fixture.manifest).expect("manifest");
    manifest["packs"][0]["path"] = serde_json::Value::String("packs".to_owned());
    fixture.manifest = serde_json::to_string_pretty(&manifest).expect("encode manifest");
    fixture.files.push(("packs/CURRENT".to_owned(), "MANIFEST-000001\n".to_owned()));
    let receipt = inventory(&fixture, &options(Limits::default(), Vec::new()), None);
    assert_eq!(receipt.status, ReceiptStatus::Partial);
    assert!(receipt.diagnostics.iter().any(|diagnostic| diagnostic.code == "SURVEY_UNSUPPORTED_PACK_LAYOUT"));
    assert_eq!(receipt.packs[0].unsupported_files[0], "packs/CURRENT");
}
