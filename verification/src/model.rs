//! The records that inventories and scans produce.

use vstd::prelude::*;

use crate::json::JsonValue;

verus! {

pub const SCHEMA_VERSION: u32 = 1;

/// Safety bounds of a survey run.
#[derive(Clone, Copy, Debug, PartialEq, Eq)]
pub struct Limits {
    pub max_repository_bytes: u64,
    pub max_decoded_documents: usize,
    pub max_samples_per_signature: usize,
    pub max_unique_shapes: usize,
    pub max_candidate_primitives: usize,
    pub max_unresolved_documents: usize,
}

impl Default for Limits {
    fn default() -> (r: Self)
        ensures
            r.max_repository_bytes == 2_000_000_000,
            r.max_decoded_documents == 100_000,
            r.max_samples_per_signature == 3,
            r.max_unique_shapes == 5_000,
            r.max_candidate_primitives == 1_000,
            r.max_unresolved_documents == 10_000,
    {
        Limits {
            max_repository_bytes: 2_000_000_000,
            max_decoded_documents: 100_000,
            max_samples_per_signature: 3,
            max_unique_shapes: 5_000,
            max_candidate_primitives: 1_000,
            max_unresolved_documents: 10_000,
        }
    }
}

/// A machine-readable note that a bound was reached or a layout is unsupported.
#[derive(Clone, Debug, PartialEq, Eq)]
pub struct Diagnostic {
    pub code: String,
    pub message: String,
    pub limit: Option<String>,
    pub observed: Option<u64>,
    pub maximum: Option<u64>,
}

/// How a partial run can be continued.
#[derive(Clone, Debug, PartialEq, Eq)]
pub struct ResumeState {
    pub resumable: bool,
    pub next_file: Option<String>,
    pub next_document_index: Option<usize>,
    pub instruction: String,
}

/// Whether a run traversed its whole configured surface.
#[derive(Clone, Copy, Debug, PartialEq, Eq)]
pub enum ReceiptStatus {
    Complete,
    Partial,
}

/// The repository and the exact revision a study is pinned to.
#[derive(Clone, Debug, PartialEq, Eq)]
pub struct RepositoryReceipt {
    pub url: String,
    pub requested_ref: String,
    pub pinned_commit: String,
    pub checkout_relative_path: String,
    pub repository_bytes: u64,
}

/// Version compatibility declared by a system manifest.
#[derive(Clone, Debug, PartialEq, Eq)]
pub struct Compatibility {
    pub minimum: Option<String>,
    pub verified: Option<String>,
    pub maximum: Option<String>,
}

impl Default for Compatibility {
    fn default() -> (r: Self)
        ensures
            r.minimum is None,
            r.verified is None,
            r.maximum is None,
    {
        Compatibility { minimum: None, verified: None, maximum: None }
    }
}

/// What a system manifest says of the system.
#[derive(Clone, Debug, PartialEq, Eq)]
pub struct SystemManifest {
    pub path: String,
    pub id: Option<String>,
    pub title: Option<String>,
    pub version: Option<String>,
    pub compatibility: Compatibility,
}

/// What was found for one pack.
#[derive(Clone, Debug, PartialEq, Eq)]
pub struct PackInventory {
    pub id: String,
    pub path: String,
    pub exists: bool,
    pub document_type: Option<String>,
    pub bytes: u64,
    pub decodable_files: usize,
    pub decoded_documents: usize,
    pub unsupported_files: Vec<String>,
}

/// The source a document comes from, as its own content shows it.
#[derive(Clone, Debug, PartialEq, Eq)]
pub enum SourceIdentity {
    Classified { value: String, pointer: String },
    Missing,
    Ambiguous { values: Vec<String>, pointers: Vec<String> },
}

impl SourceIdentity {
    /// The source of a classified document.
    pub open spec fn spec_classified_value(self) -> Option<Seq<char>> {
        match self {
            SourceIdentity::Classified { value, .. } => Some(value@),
            _ => None,
        }
    }

    /// The source of a classified document; nothing for a missing or
    /// ambiguous one.
    pub fn classified_value(&self) -> (r: Option<&str>)
        ensures
            r is Some <==> self.spec_classified_value() is Some,
            r is Some ==> self.spec_classified_value() == Some(r->0@),
    {
        match self {
            SourceIdentity::Classified { value, .. } => Some(value.as_str()),
            SourceIdentity::Missing => None,
            SourceIdentity::Ambiguous { .. } => None,
        }
    }
}

/// The evidence recorded for one decoded document.
#[derive(Clone, Debug, PartialEq, Eq)]
pub struct DocumentEvidence {
    pub pointer: String,
    pub pack_id: String,
    pub document_type: String,
    pub subtype: Option<String>,
    pub source: SourceIdentity,
    pub structural_signature: String,
}

/// One entry of a count keyed by text, kept in ascending key order.
#[derive(Clone, Debug, PartialEq, Eq)]
pub struct KeyCount {
    pub key: String,
    pub count: usize,
}

/// The subtype counts of one document type.
#[derive(Clone, Debug, PartialEq, Eq)]
pub struct SubtypeCounts {
    pub document_type: String,
    pub subtypes: Vec<KeyCount>,
}

/// Document counts of an inventory.
#[derive(Clone, Debug, PartialEq, Eq)]
pub struct InventoryCounts {
    pub decoded_documents: usize,
    pub classified_documents: usize,
    pub missing_source_documents: usize,
    pub ambiguous_source_documents: usize,
    pub by_document_type: Vec<KeyCount>,
    pub by_subtype: Vec<SubtypeCounts>,
    pub by_source: Vec<KeyCount>,
}

impl Default for InventoryCounts {
    fn default() -> (r: Self)
        ensures
            r.decoded_documents == 0,
            r.classified_documents == 0,
            r.missing_source_documents == 0,
            r.ambiguous_source_documents == 0,
            r.by_document_type@.len() == 0,
            r.by_subtype@.len() == 0,
            r.by_source@.len() == 0,
    {
        InventoryCounts {
            decoded_documents: 0,
            classified_documents: 0,
            missing_source_documents: 0,
            ambiguous_source_documents: 0,
            by_document_type: Vec::new(),
            by_subtype: Vec::new(),
            by_source: Vec::new(),
        }
    }
}

/// A source explicitly assigned to the documents of one pack that carry no
/// source of their own.
#[derive(Clone, Debug, PartialEq, Eq)]
pub struct SourceFallback {
    pub pack_id: String,
    pub source: String,
}

/// Everything an inventory recorded.
#[derive(Clone, Debug, PartialEq, Eq)]
pub struct InventoryReceipt {
    pub schema_version: u32,
    pub tool_version: String,
    pub study_id: String,
    pub status: ReceiptStatus,
    pub repository: RepositoryReceipt,
    pub manifest: SystemManifest,
    pub limits: Limits,
    pub source_pointers: Vec<String>,
    pub source_fallbacks: Vec<SourceFallback>,
    pub packs: Vec<PackInventory>,
    pub counts: InventoryCounts,
    pub documents: Vec<DocumentEvidence>,
    pub diagnostics: Vec<Diagnostic>,
    pub resume: ResumeState,
}

/// Documents of one side of the whitelist partition, by source.
#[derive(Clone, Debug, PartialEq, Eq)]
pub struct SourcePartition {
    pub sources: Vec<KeyCount>,
    pub document_count: usize,
}

impl Default for SourcePartition {
    fn default() -> (r: Self)
        ensures
            r.sources@.len() == 0,
            r.document_count == 0,
    {
        SourcePartition { sources: Vec::new(), document_count: 0 }
    }
}

/// Documents whose source is missing or ambiguous.
#[derive(Clone, Debug, PartialEq, Eq)]
pub struct UnclassifiedPartition {
    pub missing: usize,
    pub ambiguous: usize,
    pub document_count: usize,
    pub pointers: Vec<String>,
}

impl Default for UnclassifiedPartition {
    fn default() -> (r: Self)
        ensures
            r.missing == 0,
            r.ambiguous == 0,
            r.document_count == 0,
            r.pointers@.len() == 0,
    {
        UnclassifiedPartition { missing: 0, ambiguous: 0, document_count: 0, pointers: Vec::new() }
    }
}

/// The three-way partition of an inventory's documents.
#[derive(Clone, Debug, PartialEq, Eq)]
pub struct SourceAudit {
    pub included: SourcePartition,
    pub excluded_by_whitelist: SourcePartition,
    pub unclassified_or_ambiguous: UnclassifiedPartition,
}

/// A pointer to a document that witnesses a shape group.
#[derive(Clone, Debug, PartialEq, Eq)]
pub struct RepresentativeExample {
    pub evidence_pointer: String,
    pub document_type: String,
    pub subtype: Option<String>,
    pub source: String,
}

/// The included documents that share a signature, document type and subtype.
#[derive(Clone, Debug, PartialEq, Eq)]
pub struct ShapeGroup {
    pub structural_signature: String,
    pub document_type: String,
    pub subtype: Option<String>,
    pub document_count: usize,
    pub sources: Vec<KeyCount>,
    pub representative_examples: Vec<RepresentativeExample>,
}

/// Everything a scan recorded.
pub struct ScanReceipt {
    pub schema_version: u32,
    pub tool_version: String,
    pub study_id: String,
    pub status: ReceiptStatus,
    pub repository: RepositoryReceipt,
    pub system: SystemManifest,
    pub included_source_whitelist: Vec<String>,
    pub limits: Limits,
    pub source_audit: SourceAudit,
    pub shape_groups: Vec<ShapeGroup>,
    pub diagnostics: Vec<Diagnostic>,
    pub resume: ResumeState,
    pub interpretation_contract: JsonValue,
}

/// A system-specific survey profile.
#[derive(Clone, Copy, Debug, PartialEq, Eq)]
pub enum SurveyProfile {
    Generic,
    FoundryDnd5e,
    FoundryPf2e,
}

/// Keys and counts of a count list.
pub open spec fn count_view(v: Seq<KeyCount>) -> Seq<(Seq<char>, nat)> {
    v.map_values(|c: KeyCount| (c.key@, c.count as nat))
}

pub open spec fn opt_view(o: Option<String>) -> Option<Seq<char>> {
    match o {
        Some(s) => Some(s@),
        None => None,
    }
}


fn copy_text(o: &Option<String>) -> (r: Option<String>)
    ensures
        r == *o,
{
    match o {
        Some(t) => Some(t.clone()),
        None => None,
    }
}

impl RepositoryReceipt {
    /// A copy of this receipt.
    pub fn copied(&self) -> (r: Self)
        ensures
            r == *self,
    {
        RepositoryReceipt {
            url: self.url.clone(),
            requested_ref: self.requested_ref.clone(),
            pinned_commit: self.pinned_commit.clone(),
            checkout_relative_path: self.checkout_relative_path.clone(),
            repository_bytes: self.repository_bytes,
        }
    }
}

impl SystemManifest {
    /// A copy of this manifest record.
    pub fn copied(&self) -> (r: Self)
        ensures
            r == *self,
    {
        SystemManifest {
            path: self.path.clone(),
            id: copy_text(&self.id),
            title: copy_text(&self.title),
            version: copy_text(&self.version),
            compatibility: Compatibility {
                minimum: copy_text(&self.compatibility.minimum),
                verified: copy_text(&self.compatibility.verified),
                maximum: copy_text(&self.compatibility.maximum),
            },
        }
    }
}
} // verus!
