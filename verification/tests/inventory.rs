use rpg_primitive_survey::inventory::check_previous_configuration;
use rpg_primitive_survey::inventory::check_previous_repository;
use rpg_primitive_survey::inventory::classify_source;
use rpg_primitive_survey::inventory::collect_pack_sources;
use rpg_primitive_survey::inventory::commit_to_pin;
use rpg_primitive_survey::inventory::count_documents;
use rpg_primitive_survey::inventory::default_source_pointers;
use rpg_primitive_survey::inventory::discover_pack_files;
use rpg_primitive_survey::inventory::effective_source_pointers;
use rpg_primitive_survey::inventory::evidence_for;
use rpg_primitive_survey::inventory::extension_text;
use rpg_primitive_survey::inventory::finish_inventory;
use rpg_primitive_survey::inventory::is_document_path;
use rpg_primitive_survey::inventory::is_line_delimited_path;
use rpg_primitive_survey::inventory::oversized_inventory;
use rpg_primitive_survey::inventory::pack_inventories;
use rpg_primitive_survey::inventory::parse_manifest;
use rpg_primitive_survey::inventory::resume_point;
use rpg_primitive_survey::inventory::size_limited_receipt;
use rpg_primitive_survey::inventory::sort_document_files;
use rpg_primitive_survey::inventory::string_at;
use rpg_primitive_survey::inventory::tool_version;
use rpg_primitive_survey::inventory::with_forward_slashes;
use rpg_primitive_survey::inventory::DecodeCursor;
use rpg_primitive_survey::inventory::DocumentTraversal;
use rpg_primitive_survey::inventory::InventoryOptions;
use rpg_primitive_survey::inventory::PackListing;
use rpg_primitive_survey::inventory::PackSource;
use rpg_primitive_survey::inventory::PathFacts;
use rpg_primitive_survey::json::JsonMember;
use rpg_primitive_survey::json::JsonNumber;
use rpg_primitive_survey::json::JsonValue;
use rpg_primitive_survey::model::DocumentEvidence;
use rpg_primitive_survey::model::Limits;
use rpg_primitive_survey::model::ReceiptStatus;
use rpg_primitive_survey::model::SourceFallback;
use rpg_primitive_survey::model::SourceIdentity;
use rpg_primitive_survey::model::SurveyProfile;

fn model(value: &serde_json::Value) -> JsonValue {
    match value {
        serde_json::Value::Null => JsonValue::Null,
        serde_json::Value::Bool(b) => JsonValue::Bool(*b),
        serde_json::Value::Number(n) => JsonValue::Number(JsonNumber {
            text: n.to_string(),
            integer: n.is_i64() || n.is_u64(),
        }),
        serde_json::Value::String(s) => JsonValue::String(s.clone()),
        serde_json::Value::Array(items) => JsonValue::Array(items.iter().map(model).collect()),
        serde_json::Value::Object(map) => JsonValue::Object(
            map.iter()
                .map(|(key, value)| JsonMember { key: key.clone(), value: model(value) })
                .collect(),
        ),
    }
}

fn parse(text: &str) -> JsonValue {
    model(&serde_json::from_str::<serde_json::Value>(text).expect("test JSON"))
}

fn strings(items: &[&str]) -> Vec<String> {
    items.iter().map(|s| s.to_string()).collect()
}

fn pack(id: &str, path: &str, document_type: Option<&str>) -> PackSource {
    PackSource {
        id: id.to_owned(),
        path: path.to_owned(),
        document_type: document_type.map(str::to_owned),
    }
}

fn options(limits: Limits) -> InventoryOptions {
    InventoryOptions {
        study_id: "synthetic".to_owned(),
        profile: SurveyProfile::Generic,
        repository: "https://example.invalid/system.git".to_owned(),
        requested_ref: "main".to_owned(),
        manifest_path: "system.json".to_owned(),
        content_roots: Vec::new(),
        source_pointers: Vec::new(),
        source_fallbacks: Vec::new(),
        limits,
        studies_root: "work/studies".to_owned(),
    }
}

#[test]
fn source_identity_is_classified_missing_or_ambiguous() {
    let pointers = vec!["/system/source/id".to_owned(), "/source".to_owned()];
    assert!(matches!(
        classify_source(&parse(r#"{"system": {"source": {"id": "core"}}}"#), &pointers),
        SourceIdentity::Classified { value, .. } if value == "core"
    ));
    assert_eq!(
        classify_source(&parse(r#"{"name": "No Source"}"#), &pointers),
        SourceIdentity::Missing
    );
    assert!(matches!(
        classify_source(
            &parse(r#"{"system": {"source": {"id": "core"}}, "source": "supplement"}"#),
            &pointers
        ),
        SourceIdentity::Ambiguous { .. }
    ));
}

#[test]
fn agreeing_sources_are_trimmed_and_keep_the_least_pointer() {
    let pointers = strings(&["/system/source/id", "/source"]);
    let value = parse(r#"{"system": {"source": {"id": "core"}}, "source": "  core "}"#);
    assert_eq!(
        classify_source(&value, &pointers),
        SourceIdentity::Classified { value: "core".to_owned(), pointer: "/source".to_owned() }
    );
}

#[test]
fn conflicting_sources_list_values_and_pointers_in_evidence_order() {
    let pointers = strings(&["/source", "/system/source/id"]);
    let value = parse(r#"{"system": {"source": {"id": "alpha"}}, "source": "zeta"}"#);
    assert_eq!(
        classify_source(&value, &pointers),
        SourceIdentity::Ambiguous {
            values: strings(&["alpha", "zeta"]),
            pointers: strings(&["/system/source/id", "/source"]),
        }
    );
}

#[test]
fn blank_and_non_text_sources_are_missing() {
    let pointers = strings(&["/source", "/system/source/id"]);
    let value = parse(r#"{"system": {"source": {"id": 7}}, "source": "   "}"#);
    assert_eq!(classify_source(&value, &pointers), SourceIdentity::Missing);
}

#[test]
fn fallback_classifies_only_missing_sources() {
    let pointers = strings(&["/source"]);
    let fallbacks = vec![SourceFallback { pack_id: "actions".to_owned(), source: "core".to_owned() }];
    let actions = pack("actions", "packs/actions", Some("Item"));

    let missing = evidence_for(
        "packs/actions/a.json#0".to_owned(),
        &actions,
        &parse(r#"{"name": "Strike", "type": "action"}"#),
        &pointers,
        &fallbacks,
        false,
    );
    assert_eq!(
        missing.source,
        SourceIdentity::Classified {
            value: "core".to_owned(),
            pointer: "fallback:pack:actions".to_owned(),
        }
    );
    assert_eq!(missing.document_type, "Item");
    assert_eq!(missing.subtype.as_deref(), Some("action"));
    assert_eq!(missing.pack_id, "actions");
    assert_eq!(missing.pointer, "packs/actions/a.json#0");

    let ambiguous_pointers = strings(&["/source", "/system/source"]);
    let ambiguous = evidence_for(
        "packs/actions/a.json#1".to_owned(),
        &actions,
        &parse(r#"{"source": "core", "system": {"source": "supplement"}}"#),
        &ambiguous_pointers,
        &fallbacks,
        false,
    );
    assert!(matches!(ambiguous.source, SourceIdentity::Ambiguous { .. }));

    let other = pack("other", "packs/other", None);
    let unassigned = evidence_for(
        "packs/other/b.json#0".to_owned(),
        &other,
        &parse(r#"{"documentName": "JournalEntry"}"#),
        &pointers,
        &fallbacks,
        false,
    );
    assert_eq!(unassigned.source, SourceIdentity::Missing);
    assert_eq!(unassigned.document_type, "JournalEntry");
    assert_eq!(unassigned.subtype, None);
}

#[test]
fn document_type_prefers_the_document_then_the_pack() {
    let pointers = strings(&["/source"]);
    let typed = pack("p", "packs/p", Some("Actor"));
    let declared = evidence_for(
        "f.json#0".to_owned(),
        &typed,
        &parse(r#"{"documentType": "Item", "documentName": "Scene"}"#),
        &pointers,
        &Vec::new(),
        false,
    );
    assert_eq!(declared.document_type, "Item");
    let untyped = pack("q", "packs/q", None);
    let unknown = evidence_for("f.json#1".to_owned(), &untyped, &parse("{}"), &pointers, &Vec::new(), false);
    assert_eq!(unknown.document_type, "Unknown");
}

fn evidence(pointer: &str, document_type: &str, subtype: Option<&str>, source: SourceIdentity) -> DocumentEvidence {
    DocumentEvidence {
        pointer: pointer.to_owned(),
        pack_id: "p".to_owned(),
        document_type: document_type.to_owned(),
        subtype: subtype.map(str::to_owned),
        source,
        structural_signature: "sig".to_owned(),
    }
}

fn classified(value: &str) -> SourceIdentity {
    SourceIdentity::Classified { value: value.to_owned(), pointer: "/source".to_owned() }
}

#[test]
fn counts_tally_types_subtypes_and_sources() {
    let documents = vec![
        evidence("a#0", "Item", Some("weapon"), classified("core")),
        evidence("a#1", "Actor", None, SourceIdentity::Missing),
        evidence("a#2", "Item", Some("armor"), classified("supplement")),
        evidence("a#3", "Item", Some("weapon"), classified("core")),
        evidence(
            "a#4",
            "Actor",
            Some("npc"),
            SourceIdentity::Ambiguous { values: strings(&["x", "y"]), pointers: strings(&["/a", "/b"]) },
        ),
    ];
    let counts = count_documents(&documents);
    assert_eq!(counts.decoded_documents, 5);
    assert_eq!(counts.classified_documents, 3);
    assert_eq!(counts.missing_source_documents, 1);
    assert_eq!(counts.ambiguous_source_documents, 1);
    let by_type: Vec<(String, usize)> = counts.by_document_type.iter().map(|c| (c.key.clone(), c.count)).collect();
    assert_eq!(by_type, vec![("Actor".to_owned(), 2), ("Item".to_owned(), 3)]);
    let by_source: Vec<(String, usize)> = counts.by_source.iter().map(|c| (c.key.clone(), c.count)).collect();
    assert_eq!(by_source, vec![("core".to_owned(), 2), ("supplement".to_owned(), 1)]);
    assert_eq!(counts.by_subtype.len(), 2);
    assert_eq!(counts.by_subtype[0].document_type, "Actor");
    assert_eq!(counts.by_subtype[0].subtypes.len(), 1);
    assert_eq!(counts.by_subtype[0].subtypes[0].key, "npc");
    assert_eq!(counts.by_subtype[1].document_type, "Item");
    let items: Vec<(String, usize)> =
        counts.by_subtype[1].subtypes.iter().map(|c| (c.key.clone(), c.count)).collect();
    assert_eq!(items, vec![("armor".to_owned(), 1), ("weapon".to_owned(), 2)]);
    assert_eq!(
        counts.decoded_documents,
        counts.classified_documents + counts.missing_source_documents + counts.ambiguous_source_documents
    );
}

#[test]
fn manifest_fields_are_strings_or_numbers() {
    let value = parse(
        r#"{"name": "synthetic", "title": "Synthetic", "version": 12,
            "compatibility": {"minimum": "11", "verified": 12.5, "maximum": true}}"#,
    );
    let manifest = parse_manifest("system.json", &value);
    assert_eq!(manifest.path, "system.json");
    assert_eq!(manifest.id.as_deref(), Some("synthetic"));
    assert_eq!(manifest.title.as_deref(), Some("Synthetic"));
    assert_eq!(manifest.version.as_deref(), Some("12"));
    assert_eq!(manifest.compatibility.minimum.as_deref(), Some("11"));
    assert_eq!(manifest.compatibility.verified.as_deref(), Some("12.5"));
    assert_eq!(manifest.compatibility.maximum, None);

    let with_id = parse_manifest("system.json", &parse(r#"{"id": "primary", "name": "secondary"}"#));
    assert_eq!(with_id.id.as_deref(), Some("primary"));
    assert_eq!(string_at(&parse(r#"{"a": [null, "x"]}"#), "/a/1").as_deref(), Some("x"));
    assert_eq!(string_at(&parse(r#"{"a": {"b~c": 3}}"#), "/a/b~0c").as_deref(), Some("3"));
}

#[test]
fn packs_come_from_the_manifest_and_content_roots_sorted_by_path() {
    let manifest = parse(
        r#"{"packs": [
            {"name": "spells", "path": "packs/spells", "type": "Item"},
            {"id": "monsters", "path": "packs/monsters", "documentType": "Actor"},
            {"path": "packs/misc"},
            {"name": "no-path"},
            {"name": "spells-again", "path": "packs/spells"}
        ]}"#,
    );
    let packs = collect_pack_sources(&manifest, &strings(&["content/extra", "packs/monsters"]));
    let summary: Vec<(String, String, Option<String>)> =
        packs.iter().map(|p| (p.id.clone(), p.path.clone(), p.document_type.clone())).collect();
    assert_eq!(
        summary,
        vec![
            ("explicit-root-0".to_owned(), "content/extra".to_owned(), None),
            ("manifest-pack-2".to_owned(), "packs/misc".to_owned(), None),
            ("monsters".to_owned(), "packs/monsters".to_owned(), Some("Actor".to_owned())),
            ("spells".to_owned(), "packs/spells".to_owned(), Some("Item".to_owned())),
        ]
    );

    let object_manifest = parse(r#"{"packs": {"b": {"path": "packs/b"}, "a": {"path": "packs/z", "type": "Scene"}}}"#);
    let object_packs = collect_pack_sources(&object_manifest, &Vec::new());
    let ids: Vec<&str> = object_packs.iter().map(|p| p.id.as_str()).collect();
    assert_eq!(ids, vec!["b", "a"]);
    assert_eq!(object_packs[1].document_type.as_deref(), Some("Scene"));
}

#[test]
fn file_extensions_follow_path_semantics() {
    assert_eq!(extension_text("packs/a/items.json").as_deref(), Some("json"));
    assert_eq!(extension_text("packs/a.d/items").as_deref(), None);
    assert_eq!(extension_text("packs/a/.json"), None);
    assert_eq!(extension_text("packs/a/archive.tar.gz").as_deref(), Some("gz"));
    assert!(is_document_path("x/y.jsonl"));
    assert!(is_document_path("x/y.ndjson"));
    assert!(!is_document_path("x/y.JSON"));
    assert!(!is_document_path("x/000005.ldb"));
    assert!(is_line_delimited_path("x/y.ndjson"));
    assert!(!is_line_delimited_path("x/y.json"));
    assert_eq!(with_forward_slashes("packs\\a\\b.json"), "packs/a/b.json");
}

#[test]
fn discovery_separates_documents_unsupported_files_and_missing_packs() {
    let packs = vec![
        pack("alpha", "packs/alpha", Some("Item")),
        pack("beta", "packs/beta", None),
        pack("gamma", "packs/gamma", None),
    ];
    let listings = vec![
        PackListing::Files(strings(&["packs/alpha/b.json", "packs/alpha/CURRENT", "packs/alpha/a.jsonl"])),
        PackListing::Missing,
        PackListing::Files(strings(&["packs/gamma/MANIFEST-000001", "packs/gamma/LOG"])),
    ];
    let discovery = discover_pack_files(&packs, &listings);
    let files: Vec<(&str, &str)> =
        discovery.document_files.iter().map(|(f, p)| (f.as_str(), p.id.as_str())).collect();
    assert_eq!(files, vec![("packs/alpha/b.json", "alpha"), ("packs/alpha/a.jsonl", "alpha")]);
    assert_eq!(discovery.missing_packs, strings(&["packs/beta"]));
    assert_eq!(discovery.unsupported_by_pack.len(), 2);
    assert_eq!(discovery.unsupported_by_pack[0].pack_id, "alpha");
    assert_eq!(discovery.unsupported_by_pack[0].files, strings(&["packs/alpha/CURRENT"]));
    assert_eq!(discovery.unsupported_by_pack[1].pack_id, "gamma");
    assert_eq!(
        discovery.unsupported_by_pack[1].files,
        strings(&["packs/gamma/MANIFEST-000001", "packs/gamma/LOG"])
    );

    let sorted = sort_document_files(discovery.document_files.clone());
    let order: Vec<&str> = sorted.iter().map(|(f, _)| f.as_str()).collect();
    assert_eq!(order, vec!["packs/alpha/a.jsonl", "packs/alpha/b.json"]);

    let facts = vec![
        PathFacts { exists: true, bytes: 120 },
        PathFacts { exists: false, bytes: 0 },
        PathFacts { exists: true, bytes: 40 },
    ];
    let inventories = pack_inventories(&packs, &facts, &discovery, &Vec::new());
    let summary: Vec<(&str, bool, u64, usize, usize)> = inventories
        .iter()
        .map(|p| (p.id.as_str(), p.exists, p.bytes, p.decodable_files, p.unsupported_files.len()))
        .collect();
    assert_eq!(
        summary,
        vec![("alpha", true, 120, 2, 1), ("beta", false, 0, 0, 0), ("gamma", true, 40, 0, 2)]
    );
}

fn run(
    traversal: &mut DocumentTraversal,
    files: &[(&str, Vec<JsonValue>)],
    owner: &PackSource,
    max_decoded_documents: usize,
) {
    let pointers = strings(&["/source"]);
    for (file, values) in files {
        if traversal.enter_file(file) {
            traversal.ingest(file, owner, values, &pointers, &Vec::new(), max_decoded_documents, false);
        }
    }
}

fn traversal_files() -> Vec<(&'static str, Vec<JsonValue>)> {
    vec![
        ("packs/p/a.json", vec![parse(r#"{"source": "core"}"#), parse(r#"{"source": "core", "x": 1}"#)]),
        (
            "packs/p/b.json",
            vec![parse(r#"{"n": 1}"#), parse(r#"{"source": "supplement"}"#), parse(r#"{"source": "core"}"#)],
        ),
        ("packs/p/c.json", vec![parse(r#"{"source": "core"}"#)]),
    ]
}

#[test]
fn a_bounded_traversal_stops_with_a_cursor_and_resumes_there() {
    let owner = pack("p", "packs/p", Some("Item"));
    let files = traversal_files();

    let mut first = DocumentTraversal::start(Vec::new(), None);
    run(&mut first, &files, &owner, 3);
    assert!(first.limit_reached());
    assert_eq!(
        first.limit,
        Some(DecodeCursor { file: "packs/p/b.json".to_owned(), document_index: 1 })
    );
    let pointers: Vec<&str> = first.documents.iter().map(|d| d.pointer.as_str()).collect();
    assert_eq!(pointers, vec!["packs/p/a.json#0", "packs/p/a.json#1", "packs/p/b.json#0"]);

    let mut resumed = DocumentTraversal::start(first.documents.clone(), first.limit.clone());
    run(&mut resumed, &files, &owner, 10);
    assert!(!resumed.limit_reached());

    let mut uninterrupted = DocumentTraversal::start(Vec::new(), None);
    run(&mut uninterrupted, &files, &owner, 10);
    assert_eq!(resumed.documents, uninterrupted.documents);
    assert_eq!(resumed.documents.len(), 6);
    assert_eq!(resumed.documents[5].pointer, "packs/p/c.json#0");
}

#[test]
fn a_bound_met_at_a_file_boundary_stops_at_the_next_document() {
    let owner = pack("p", "packs/p", None);
    let files = traversal_files();
    let mut traversal = DocumentTraversal::start(Vec::new(), None);
    run(&mut traversal, &files, &owner, 2);
    assert_eq!(
        traversal.limit,
        Some(DecodeCursor { file: "packs/p/b.json".to_owned(), document_index: 0 })
    );
    let mut exact = DocumentTraversal::start(Vec::new(), None);
    run(&mut exact, &files, &owner, 6);
    assert!(!exact.limit_reached());
    assert_eq!(exact.documents.len(), 6);
}

#[test]
fn finished_inventory_is_partial_exactly_with_diagnostics() {
    let owner = pack("p", "packs/p", Some("Item"));
    let files = traversal_files();
    let mut limits = Limits::default();
    limits.max_decoded_documents = 3;
    let opts = options(limits);
    let mut traversal = DocumentTraversal::start(Vec::new(), None);
    run(&mut traversal, &files, &owner, 3);
    let packs = vec![owner.clone()];
    let listings = vec![PackListing::Files(strings(&["packs/p/a.json", "packs/p/b.json", "packs/p/CURRENT"]))];
    let discovery = discover_pack_files(&packs, &listings);
    let manifest = parse_manifest("system.json", &parse(r#"{"id": "synthetic"}"#));
    let receipt = finish_inventory(
        &opts,
        "0123abcd".to_owned(),
        4096,
        manifest,
        default_source_pointers(),
        Vec::new(),
        &discovery,
        traversal,
    );
    assert_eq!(receipt.status, ReceiptStatus::Partial);
    assert_eq!(receipt.tool_version, "0.1.0");
    assert_eq!(receipt.repository.pinned_commit, "0123abcd");
    assert_eq!(receipt.repository.checkout_relative_path, "checkout");
    let codes: Vec<&str> = receipt.diagnostics.iter().map(|d| d.code.as_str()).collect();
    assert_eq!(codes, vec!["SURVEY_DECODED_DOCUMENT_LIMIT", "SURVEY_UNSUPPORTED_PACK_LAYOUT"]);
    assert_eq!(receipt.diagnostics[0].observed, Some(3));
    assert_eq!(receipt.diagnostics[0].maximum, Some(3));
    assert_eq!(receipt.diagnostics[1].observed, Some(1));
    assert!(receipt.resume.resumable);
    assert_eq!(receipt.resume.next_file.as_deref(), Some("packs/p/b.json"));
    assert_eq!(receipt.resume.next_document_index, Some(1));
    assert_eq!(receipt.counts.decoded_documents, 3);
    assert_eq!(receipt.counts.missing_source_documents, 1);

    let (documents, cursor) = resume_point(receipt.clone());
    assert_eq!(documents, receipt.documents);
    assert_eq!(cursor, Some(DecodeCursor { file: "packs/p/b.json".to_owned(), document_index: 1 }));
}

#[test]
fn finished_inventory_without_diagnostics_is_complete() {
    let owner = pack("p", "packs/p", Some("Item"));
    let files = traversal_files();
    let opts = options(Limits::default());
    let mut traversal = DocumentTraversal::start(Vec::new(), None);
    run(&mut traversal, &files, &owner, opts.limits.max_decoded_documents);
    let packs = vec![owner.clone()];
    let listings = vec![PackListing::Files(strings(&["packs/p/a.json", "packs/p/b.json", "packs/p/c.json"]))];
    let discovery = discover_pack_files(&packs, &listings);
    let manifest = parse_manifest("system.json", &parse("{}"));
    let receipt = finish_inventory(
        &opts,
        "feed".to_owned(),
        10,
        manifest,
        default_source_pointers(),
        Vec::new(),
        &discovery,
        traversal,
    );
    assert_eq!(receipt.status, ReceiptStatus::Complete);
    assert!(receipt.diagnostics.is_empty());
    assert!(!receipt.resume.resumable);
    assert_eq!(receipt.resume.instruction, "inventory traversal completed within configured limits");
    assert_eq!(receipt.counts.decoded_documents, 6);

    let (documents, cursor) = resume_point(receipt);
    assert!(documents.is_empty());
    assert_eq!(cursor, None);
}

#[test]
fn missing_packs_and_unresolved_documents_are_reported() {
    let owner = pack("p", "packs/p", None);
    let files = traversal_files();
    let mut limits = Limits::default();
    limits.max_unresolved_documents = 0;
    let opts = options(limits);
    let mut traversal = DocumentTraversal::start(Vec::new(), None);
    run(&mut traversal, &files, &owner, 100);
    let packs = vec![owner.clone(), pack("q", "packs/q", None), pack("r", "packs/r", None)];
    let listings = vec![PackListing::Files(Vec::new()), PackListing::Missing, PackListing::Missing];
    let discovery = discover_pack_files(&packs, &listings);
    let receipt = finish_inventory(
        &opts,
        "c0ffee".to_owned(),
        1,
        parse_manifest("system.json", &parse("{}")),
        default_source_pointers(),
        Vec::new(),
        &discovery,
        traversal,
    );
    let codes: Vec<&str> = receipt.diagnostics.iter().map(|d| d.code.as_str()).collect();
    assert_eq!(codes, vec!["SURVEY_UNRESOLVED_DOCUMENT_LIMIT", "SURVEY_PACK_PATH_MISSING"]);
    assert_eq!(receipt.diagnostics[0].observed, Some(1));
    assert_eq!(
        receipt.diagnostics[1].message,
        "manifest/content-root pack paths do not exist: packs/q, packs/r"
    );
    assert_eq!(receipt.diagnostics[1].observed, Some(2));
    assert!(receipt.resume.resumable);
    assert_eq!(receipt.resume.next_file, None);
    assert_eq!(
        receipt.resume.instruction,
        "adjust the reported bounds or add an explicit system profile/decoder, then rerun at the same pinned revision"
    );
}

#[test]
fn oversized_checkout_gives_a_partial_receipt_without_documents() {
    let opts = options(Limits::default());
    let receipt = size_limited_receipt(&opts, &default_source_pointers(), "abc", 3_000_000_000);
    assert_eq!(receipt.status, ReceiptStatus::Partial);
    assert!(receipt.documents.is_empty());
    assert_eq!(receipt.diagnostics.len(), 1);
    assert_eq!(receipt.diagnostics[0].code, "SURVEY_REPOSITORY_SIZE_LIMIT");
    assert_eq!(receipt.diagnostics[0].observed, Some(3_000_000_000));
    assert_eq!(receipt.diagnostics[0].maximum, Some(2_000_000_000));
    assert_eq!(receipt.manifest.path, "system.json");
    assert!(receipt.resume.resumable);
    let (documents, cursor) = resume_point(receipt);
    assert!(documents.is_empty());
    assert_eq!(cursor, None);
}

#[test]
fn previous_studies_must_match_repository_and_configuration() {
    let opts = options(Limits::default());
    let receipt = size_limited_receipt(&opts, &default_source_pointers(), "abc", 1);
    assert_eq!(check_previous_repository(&receipt, &opts), Ok(()));
    let mut other = options(Limits::default());
    other.requested_ref = "develop".to_owned();
    assert_eq!(
        check_previous_repository(&receipt, &other),
        Err("existing study repository/ref differs; choose another study id".to_owned())
    );
    assert_eq!(check_previous_configuration(&receipt, &default_source_pointers(), &Vec::new()), Ok(()));
    assert_eq!(
        check_previous_configuration(&receipt, &strings(&["/source"]), &Vec::new()),
        Err("existing study source-pointer configuration differs; choose another study id".to_owned())
    );
    let fallbacks = vec![SourceFallback { pack_id: "p".to_owned(), source: "core".to_owned() }];
    assert!(check_previous_configuration(&receipt, &default_source_pointers(), &fallbacks).is_err());
}

#[test]
fn default_source_pointers_apply_when_none_are_configured() {
    let defaults = default_source_pointers();
    assert_eq!(
        defaults,
        strings(&[
            "/system/source/id",
            "/system/source/book",
            "/system/source/title",
            "/system/publication/title",
            "/source/id",
            "/source",
            "/_stats/compendiumSource",
        ])
    );
    assert_eq!(effective_source_pointers(&Vec::new()), defaults);
    assert_eq!(effective_source_pointers(&strings(&["/x"])), strings(&["/x"]));
    assert_eq!(tool_version(), "0.1.0");
}

#[test]
fn only_classified_sources_have_a_value() {
    assert_eq!(classified("core").classified_value(), Some("core"));
    assert_eq!(SourceIdentity::Missing.classified_value(), None);
    let ambiguous = SourceIdentity::Ambiguous { values: strings(&["a", "b"]), pointers: strings(&["/x", "/y"]) };
    assert_eq!(ambiguous.classified_value(), None);
}

#[test]
fn only_oversized_checkouts_stop_the_inventory() {
    let opts = options(Limits::default());
    assert!(oversized_inventory(&opts, &default_source_pointers(), "abc", 2_000_000_000).is_none());
    let receipt = oversized_inventory(&opts, &default_source_pointers(), "abc", 2_000_000_001).expect("oversized");
    assert_eq!(receipt.diagnostics[0].code, "SURVEY_REPOSITORY_SIZE_LIMIT");
    assert_eq!(receipt.repository.repository_bytes, 2_000_000_001);
}

#[test]
fn a_rerun_pins_the_commit_of_the_previous_inventory() {
    let opts = options(Limits::default());
    assert_eq!(commit_to_pin(&None, &opts), Ok(None));
    let previous = size_limited_receipt(&opts, &default_source_pointers(), "0123abcd", 1);
    assert_eq!(commit_to_pin(&Some(previous.clone()), &opts), Ok(Some("0123abcd".to_owned())));
    let mut other = options(Limits::default());
    other.repository = "https://example.invalid/other.git".to_owned();
    assert_eq!(
        commit_to_pin(&Some(previous), &other),
        Err("existing study repository/ref differs; choose another study id".to_owned())
    );
}
