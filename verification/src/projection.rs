//! Semantic projections: what is known of a record without its exact text.

use crate::json::Member;
use vstd::prelude::*;

verus! {

/// One exact record, as a provider supplies it. The stable identity serves
/// correlation only.
#[derive(Debug, Clone, PartialEq, Eq)]
pub struct CanonicalRecordInput {
    pub stable_id: Option<String>,
    pub path: String,
    pub document: String,
    pub file_size: u64,
    pub file_mtime: Option<String>,
}

impl CanonicalRecordInput {
    /// A copy of the record.
    pub fn copy(&self) -> (result: CanonicalRecordInput)
        ensures
            result == *self,
    {
        CanonicalRecordInput {
            stable_id: crate::text::copy_optional(&self.stable_id),
            path: self.path.clone(),
            document: self.document.clone(),
            file_size: self.file_size,
            file_mtime: crate::text::copy_optional(&self.file_mtime),
        }
    }
}

/// File facts of a projected record.
#[derive(Debug)]
pub struct ProjectedFile {
    pub path: String,
    pub name: String,
    pub basename: String,
    pub extension: String,
    pub size: u64,
    pub mtime: Option<String>,
}

/// What kind of text names a record.
#[derive(Debug, Clone, Copy, PartialEq, Eq, Structural)]
pub enum RecordResolutionKeyKind {
    Path,
    Name,
    Id,
    Alias,
}

/// A text by which links find a record.
#[derive(Debug)]
pub struct RecordResolutionKey {
    pub kind: RecordResolutionKeyKind,
    pub value: String,
}

/// The facts of a projection.
#[derive(Debug)]
pub struct SemanticProjectionFacts {
    pub schema_version: String,
    pub format_version: u32,
    pub semantic_engine_version: String,
    pub catalog_revision: String,
    pub semantic_complete: bool,
    pub path: String,
    pub types: Vec<String>,
    pub file: ProjectedFile,
    pub persisted_frontmatter: Vec<Member>,
    pub effective_frontmatter: Vec<Member>,
    pub resolution_keys: Vec<RecordResolutionKey>,
}

/// Where in a record a link stands.
#[derive(Debug, Clone, Copy, PartialEq, Eq, Structural)]
pub enum StructuralSourceKind {
    Frontmatter,
    Body,
}

/// What became of a link when the record was indexed.
#[derive(Debug, Clone, Copy, PartialEq, Eq, Structural)]
pub enum StructuralResolution {
    Resolved,
    Missing,
    Ambiguous,
    UnsafeTraversal,
    External,
    Malformed,
    Unresolved,
}

/// One link of a record and where it leads.
#[derive(Debug)]
pub struct ResolvedStructuralOccurrence {
    pub source_kind: StructuralSourceKind,
    pub raw_target: String,
    pub normalized_target: Option<String>,
    pub resolution: StructuralResolution,
    pub target_path: Option<String>,
}

/// The links and tags of a projected record.
#[derive(Debug)]
pub struct ResolvedRecordStructure {
    pub schema_version: String,
    pub path: String,
    /// Whether the structure has the digest that it was stored with.
    pub structural_digest_is_valid: bool,
    pub occurrences: Vec<ResolvedStructuralOccurrence>,
    pub body_tags: Vec<String>,
    pub body_links: Vec<String>,
    pub body_embeds: Vec<String>,
}

/// A projected record.
#[derive(Debug)]
pub struct SemanticProjection {
    pub facts: SemanticProjectionFacts,
    pub structure: ResolvedRecordStructure,
}

/// The versions that current projections carry.
#[derive(Debug)]
pub struct ProjectionFormat {
    pub projection_schema: String,
    pub format_version: u32,
    pub structure_schema: String,
}

} // verus!
