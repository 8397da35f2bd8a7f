//! The data model: nodes, edges, embeddings, versions and branches.
//!
//! Identifiers are 128-bit values; timestamps are milliseconds since the
//! Unix epoch; vector components and similarity scores are fixed-point
//! integers, so that every computation over them is exact.

use vstd::prelude::*;
use vstd::string::StringExecFns;
use vstd::string::StrSliceExecFns;
use crate::external::{fresh_id, now_millis, sha256, sha256_of};

verus! {

/// A node identifier: a 128-bit value, unique within a store.
pub type NodeId = u128;

/// A version identifier: assigned by the history store, strictly increasing
/// in recording order, starting at 1.  Zero is a placeholder meaning "not
/// yet recorded".
pub type VersionId = u64;

// ---------------------------------------------------------------------------
// Node types and extensions
// ---------------------------------------------------------------------------

/// What kind of artifact a node represents.
#[derive(Debug, Clone, PartialEq, Eq, Structural)]
pub enum NodeType {
    CodeEntity(CodeEntityKind),
    Doc,
    Test,
    Config,
}

impl NodeType {
    /// The node type of a code entity of the given kind.
    pub fn code_entity(kind: CodeEntityKind) -> (r: NodeType)
        ensures
            r == NodeType::CodeEntity(kind),
    {
        NodeType::CodeEntity(kind)
    }
}

/// The kind of a code entity node.
#[derive(Debug, Clone, Copy, PartialEq, Eq, Structural)]
pub enum CodeEntityKind {
    Function,
    Struct,
    Enum,
    Trait,
    Impl,
    Module,
    Constant,
    TypeAlias,
    Macro,
}

/// The programming language of a code entity.
#[derive(Debug, Clone)]
pub enum Language {
    Rust,
    Python,
    TypeScript,
    JavaScript,
    Go,
    Other(String),
}

/// The visibility of a code entity.
#[derive(Debug, Clone, Copy, PartialEq, Eq, Structural)]
pub enum Visibility {
    Public,
    PubCrate,
    Private,
}

/// Extension data for a code entity node.
#[derive(Debug, Clone)]
pub struct CodeEntityExt {
    pub language: Language,
    pub signature: Option<String>,
    pub visibility: Visibility,
    pub module_segments: Vec<String>,
    pub line_range: Option<(usize, usize)>,
}

impl Default for CodeEntityExt {
    /// The default code-entity extension: a private Rust item with no
    /// signature, module path or line range.
    fn default() -> (r: Self)
        ensures
            r.language is Rust,
            r.signature is None,
            r.visibility is Private,
            r.module_segments@.len() == 0,
            r.line_range is None,
    {
        CodeEntityExt {
            language: Language::Rust,
            signature: None,
            visibility: Visibility::Private,
            module_segments: Vec::new(),
            line_range: None,
        }
    }
}

/// The kind of a documentation node.
#[derive(Debug, Clone, Copy, PartialEq, Eq, Structural)]
pub enum DocType {
    Inline,
    Readme,
    ApiDoc,
    Tutorial,
}

/// The format of a documentation node.
#[derive(Debug, Clone, Copy, PartialEq, Eq, Structural)]
pub enum DocFormat {
    Markdown,
    RustDoc,
    PlainText,
}

/// Extension data for a documentation node.
#[derive(Debug, Clone)]
pub struct DocExt {
    pub doc_type: DocType,
    pub format: DocFormat,
    pub target_id: Option<NodeId>,
}

impl Default for DocExt {
    /// The default documentation extension: a Markdown readme with no target.
    fn default() -> (r: Self)
        ensures
            r.doc_type is Readme,
            r.format is Markdown,
            r.target_id is None,
    {
        DocExt { doc_type: DocType::Readme, format: DocFormat::Markdown, target_id: None }
    }
}

/// The kind of a test node.
#[derive(Debug, Clone, Copy, PartialEq, Eq, Structural)]
pub enum TestKind {
    Unit,
    Integration,
    Property,
    Benchmark,
}

/// The recorded outcome of a test run.
#[derive(Debug, Clone)]
pub struct TestResult {
    pub passed: bool,
    pub timestamp: i64,
    pub message: Option<String>,
}

/// Extension data for a test node.
#[derive(Debug, Clone)]
pub struct TestExt {
    pub test_kind: TestKind,
    pub target_ids: Vec<NodeId>,
    pub last_result: Option<TestResult>,
}

impl Default for TestExt {
    /// The default test extension: a unit test with no targets or result.
    fn default() -> (r: Self)
        ensures
            r.test_kind is Unit,
            r.target_ids@.len() == 0,
            r.last_result is None,
    {
        TestExt { test_kind: TestKind::Unit, target_ids: Vec::new(), last_result: None }
    }
}

/// The kind of a configuration node.
#[derive(Debug, Clone, Copy, PartialEq, Eq, Structural)]
pub enum ConfigType {
    Cargo,
    CI,
    Docker,
    Env,
    Build,
}

/// The format of a configuration node.
#[derive(Debug, Clone, Copy, PartialEq, Eq, Structural)]
pub enum ConfigFormat {
    Toml,
    Yaml,
    Json,
    Ini,
}

/// Extension data for a configuration node.
#[derive(Debug, Clone, Copy, PartialEq, Eq, Structural)]
pub struct ConfigExt {
    pub config_type: ConfigType,
    pub format: ConfigFormat,
}

impl Default for ConfigExt {
    /// The default configuration extension: a Cargo manifest in TOML form.
    fn default() -> (r: Self)
        ensures
            r.config_type is Cargo,
            r.format is Toml,
    {
        ConfigExt { config_type: ConfigType::Cargo, format: ConfigFormat::Toml }
    }
}

/// Type-specific extension data, matching the node's type.
#[derive(Debug, Clone)]
pub enum NodeExtension {
    CodeEntity(CodeEntityExt),
    Doc(DocExt),
    Test(TestExt),
    Config(ConfigExt),
}

/// Whether an extension variant matches a node type.
pub open spec fn extension_matches(nt: NodeType, ext: NodeExtension) -> bool {
    match nt {
        NodeType::CodeEntity(_) => ext is CodeEntity,
        NodeType::Doc => ext is Doc,
        NodeType::Test => ext is Test,
        NodeType::Config => ext is Config,
    }
}

impl NodeExtension {
    /// The default extension for a node type.
    pub fn from_node_type(nt: &NodeType) -> (r: Self)
        ensures
            extension_matches(*nt, r),
    {
        match nt {
            NodeType::CodeEntity(_) => NodeExtension::CodeEntity(CodeEntityExt::default()),
            NodeType::Doc => NodeExtension::Doc(DocExt::default()),
            NodeType::Test => NodeExtension::Test(TestExt::default()),
            NodeType::Config => NodeExtension::Config(ConfigExt::default()),
        }
    }
}

// ---------------------------------------------------------------------------
// Provenance
// ---------------------------------------------------------------------------

/// Where a node came from: file path, line range, commit, repository, branch.
#[derive(Debug, Clone)]
pub struct Provenance {
    pub file_path: Option<String>,
    pub line_range: Option<(usize, usize)>,
    pub commit_id: Option<String>,
    pub repo_url: Option<String>,
    pub branch: Option<String>,
}

impl Default for Provenance {
    /// The empty provenance: all fields absent.
    fn default() -> (r: Self)
        ensures
            r.file_path is None,
            r.line_range is None,
            r.commit_id is None,
            r.repo_url is None,
            r.branch is None,
    {
        Provenance {
            file_path: None,
            line_range: None,
            commit_id: None,
            repo_url: None,
            branch: None,
        }
    }
}

impl Provenance {
    /// Provenance that records only the file path.
    pub fn new(file_path: String) -> (r: Self)
        ensures
            r.file_path == Some(file_path),
            r.line_range is None,
            r.commit_id is None,
            r.repo_url is None,
            r.branch is None,
    {
        Provenance {
            file_path: Some(file_path),
            line_range: None,
            commit_id: None,
            repo_url: None,
            branch: None,
        }
    }

    /// Sets the line range.
    pub fn with_lines(self, start: usize, end: usize) -> (r: Self)
        ensures
            r == (Provenance { line_range: Some((start, end)), ..self }),
    {
        Provenance { line_range: Some((start, end)), ..self }
    }

    /// Sets the commit id.
    pub fn with_commit(self, commit: String) -> (r: Self)
        ensures
            r == (Provenance { commit_id: Some(commit), ..self }),
    {
        Provenance { commit_id: Some(commit), ..self }
    }

    /// Sets the branch name.
    pub fn with_branch(self, branch: String) -> (r: Self)
        ensures
            r == (Provenance { branch: Some(branch), ..self }),
    {
        Provenance { branch: Some(branch), ..self }
    }
}

// ---------------------------------------------------------------------------
// Node
// ---------------------------------------------------------------------------

/// A content-bearing vertex in the knowledge graph.
#[derive(Debug)]
pub struct Node {
    /// Unique identifier.
    pub id: NodeId,
    /// The kind of artifact this node represents.
    pub node_type: NodeType,
    /// Human-readable name.
    pub name: String,
    /// Full source text or document body.
    pub content: String,
    /// SHA-256 digest of the content bytes: always exactly 32 bytes.
    pub content_hash: Vec<u8>,
    /// Open-ended key-value metadata, in insertion order.
    pub metadata: Vec<(String, String)>,
    /// Origin information.
    pub provenance: Provenance,
    /// Fixed-point embedding components, if computed.
    pub embedding: Option<Vec<i64>>,
    /// The latest version of this node in the history store, if recorded.
    pub current_version: Option<VersionId>,
    /// Creation timestamp, milliseconds since the epoch.
    pub created_at: i64,
    /// Last-modification timestamp, milliseconds since the epoch.
    pub updated_at: i64,
    /// Type-specific extension data.
    pub extension: NodeExtension,
}

impl Node {
    /// Creates a node of the given type with a fresh identifier.  The
    /// content hash is the SHA-256 digest of the content bytes.
    pub fn new(node_type: NodeType, name: String, content: String) -> (r: Self)
        ensures
            r.node_type == node_type,
            r.name == name,
            r.content == content,
            r.content_hash@ == sha256_of(content@),
            r.content_hash@.len() == 32,
            r.metadata@.len() == 0,
            r.provenance.file_path is None,
            r.embedding is None,
            r.current_version is None,
            r.created_at == r.updated_at,
            extension_matches(node_type, r.extension),
    {
        let hash: Vec<u8> = sha256(content.as_str());
        let now: i64 = now_millis();
        let extension = NodeExtension::from_node_type(&node_type);
        Node {
            id: fresh_id(),
            node_type,
            name,
            content,
            content_hash: hash,
            metadata: Vec::new(),
            provenance: Provenance::default(),
            embedding: None,
            current_version: None,
            created_at: now,
            updated_at: now,
            extension,
        }
    }

    /// Replaces the provenance.
    pub fn with_provenance(self, provenance: Provenance) -> (r: Self)
        ensures
            r == (Node { provenance, ..self }),
    {
        Node { provenance, ..self }
    }

    /// Appends a metadata entry.  On reads, the last entry for a key wins.
    pub fn with_metadata(self, key: String, value: String) -> (r: Self)
        ensures
            r.metadata@ == self.metadata@.push((key, value)),
            r.id == self.id,
            r.node_type == self.node_type,
            r.name == self.name,
            r.content == self.content,
            r.content_hash == self.content_hash,
            r.provenance == self.provenance,
            r.embedding == self.embedding,
            r.current_version == self.current_version,
            r.created_at == self.created_at,
            r.updated_at == self.updated_at,
            r.extension == self.extension,
    {
        let mut metadata = self.metadata;
        metadata.push((key, value));
        Node { metadata, ..self }
    }

    /// Sets the embedding components.
    pub fn with_embedding(self, embedding: Vec<i64>) -> (r: Self)
        ensures
            r == (Node { embedding: Some(embedding), ..self }),
    {
        Node { embedding: Some(embedding), ..self }
    }
}

// ---------------------------------------------------------------------------
// Edges
// ---------------------------------------------------------------------------

/// The relationship type of an edge.
#[derive(Debug, Clone, Copy, PartialEq, Eq, Structural)]
pub enum EdgeType {
    /// A code entity defines another.
    Defines,
    /// A function calls another function.
    Calls,
    /// A module imports another module or entity.
    Imports,
    /// Documentation describes a code entity.
    Documents,
    /// A test covers a code entity.
    TestsOf,
    /// An entity is versioned by a history entry.
    VersionedBy,
    /// A module contains sub-entities.
    Contains,
    /// A type implements a trait.
    Implements,
    /// A generic dependency.
    DependsOn,
    /// A config file configures an entity.
    Configures,
}

/// The inverse relationship of an edge type, where one exists.
pub open spec fn inverse_of(et: EdgeType) -> Option<EdgeType> {
    match et {
        EdgeType::Calls => Some(EdgeType::Calls),
        EdgeType::Imports => Some(EdgeType::Imports),
        EdgeType::Defines => Some(EdgeType::Contains),
        EdgeType::Contains => Some(EdgeType::Defines),
        EdgeType::Documents => Some(EdgeType::Documents),
        EdgeType::TestsOf => Some(EdgeType::TestsOf),
        _ => None,
    }
}

impl EdgeType {
    /// Returns the inverse relationship type, if one exists.
    pub fn inverse(&self) -> (r: Option<EdgeType>)
        ensures
            r == inverse_of(*self),
    {
        match self {
            EdgeType::Calls => Some(EdgeType::Calls),
            EdgeType::Imports => Some(EdgeType::Imports),
            EdgeType::Defines => Some(EdgeType::Contains),
            EdgeType::Contains => Some(EdgeType::Defines),
            EdgeType::Documents => Some(EdgeType::Documents),
            EdgeType::TestsOf => Some(EdgeType::TestsOf),
            _ => None,
        }
    }
}

/// When a relationship was valid: versions and timestamps bounding its life.
#[derive(Debug, Clone)]
pub struct TemporalContext {
    /// Version when the edge was created.
    pub since: Option<VersionId>,
    /// Version when the edge was removed; `None` means still active.
    pub until: Option<VersionId>,
    /// Commit that introduced the relationship.
    pub via_commit: Option<String>,
    /// Creation timestamp.
    pub since_timestamp: i64,
    /// Removal timestamp; `None` means still active.
    pub until_timestamp: Option<i64>,
}

impl TemporalContext {
    /// A context created now and not yet terminated.
    pub fn new_active() -> (r: Self)
        ensures
            r.since is None,
            r.until is None,
            r.via_commit is None,
            r.until_timestamp is None,
    {
        TemporalContext {
            since: None,
            until: None,
            via_commit: None,
            since_timestamp: now_millis(),
            until_timestamp: None,
        }
    }

    /// Whether the window `[since_timestamp, until_timestamp or infinity]`
    /// contains the given instant.
    pub fn is_valid_at(&self, timestamp: i64) -> (r: bool)
        ensures
            r == self.valid_at(timestamp),
    {
        if timestamp < self.since_timestamp {
            return false;
        }
        match &self.until_timestamp {
            Some(until) => timestamp <= *until,
            None => true,
        }
    }

    /// The temporal-validity window as a predicate on instants.
    pub open spec fn valid_at(self, timestamp: i64) -> bool {
        self.since_timestamp <= timestamp && match self.until_timestamp {
            Some(until) => timestamp <= until,
            None => true,
        }
    }
}

/// A directed, typed, temporally scoped relationship between two nodes.
#[derive(Debug)]
pub struct Edge {
    /// Unique identifier.
    pub id: u128,
    /// The relationship type.
    pub edge_type: EdgeType,
    /// The node this edge leaves from.
    pub source_id: NodeId,
    /// The node this edge points to.
    pub target_id: NodeId,
    /// Confidence in thousandths, between 0 and 1000 inclusive.
    pub confidence: u32,
    /// Open-ended key-value metadata, in insertion order.
    pub metadata: Vec<(String, String)>,
    /// When this relationship was valid.
    pub temporal: TemporalContext,
}

/// The largest confidence value: full confidence, in thousandths.
pub const CONFIDENCE_FULL: u32 = 1000;

impl Edge {
    /// Creates an edge with full confidence and an active temporal context.
    pub fn new(edge_type: EdgeType, source_id: NodeId, target_id: NodeId) -> (r: Self)
        ensures
            r.edge_type == edge_type,
            r.source_id == source_id,
            r.target_id == target_id,
            r.confidence == CONFIDENCE_FULL,
            r.metadata@.len() == 0,
            r.temporal.until is None,
    {
        Edge {
            id: fresh_id(),
            edge_type,
            source_id,
            target_id,
            confidence: CONFIDENCE_FULL,
            metadata: Vec::new(),
            temporal: TemporalContext::new_active(),
        }
    }

    /// Sets the confidence, clamped into `[0, 1000]`.
    pub fn with_confidence(self, confidence: u32) -> (r: Self)
        ensures
            r.confidence == if confidence > CONFIDENCE_FULL { CONFIDENCE_FULL } else { confidence },
            r.id == self.id,
            r.edge_type == self.edge_type,
            r.source_id == self.source_id,
            r.target_id == self.target_id,
            r.metadata == self.metadata,
            r.temporal == self.temporal,
    {
        let c: u32 = if confidence > CONFIDENCE_FULL { CONFIDENCE_FULL } else { confidence };
        Edge { confidence: c, ..self }
    }

    /// Appends a metadata entry.
    pub fn with_metadata(self, key: String, value: String) -> (r: Self)
        ensures
            r.metadata@ == self.metadata@.push((key, value)),
            r.id == self.id,
            r.edge_type == self.edge_type,
            r.source_id == self.source_id,
            r.target_id == self.target_id,
            r.confidence == self.confidence,
            r.temporal == self.temporal,
    {
        let mut metadata = self.metadata;
        metadata.push((key, value));
        Edge { metadata, ..self }
    }

    /// Records the commit that introduced the relationship.
    pub fn with_commit(self, commit: String) -> (r: Self)
        ensures
            r.temporal.via_commit == Some(commit),
            r.temporal.since == self.temporal.since,
            r.temporal.until == self.temporal.until,
            r.temporal.since_timestamp == self.temporal.since_timestamp,
            r.temporal.until_timestamp == self.temporal.until_timestamp,
            r.id == self.id,
            r.edge_type == self.edge_type,
            r.source_id == self.source_id,
            r.target_id == self.target_id,
            r.confidence == self.confidence,
            r.metadata == self.metadata,
    {
        let mut temporal = self.temporal;
        temporal.via_commit = Some(commit);
        Edge { temporal, ..self }
    }

    /// Whether this edge has not been terminated.
    pub fn is_active(&self) -> (r: bool)
        ensures
            r == (self.temporal.until is None),
    {
        self.temporal.until.is_none()
    }

    /// Terminates this edge at the given version, stamping the current time.
    pub fn terminate(&mut self, version: VersionId)
        ensures
            final(self).temporal.until == Some(version),
            final(self).temporal.until_timestamp is Some,
            final(self).temporal.since == old(self).temporal.since,
            final(self).temporal.via_commit == old(self).temporal.via_commit,
            final(self).temporal.since_timestamp == old(self).temporal.since_timestamp,
            final(self).id == old(self).id,
            final(self).edge_type == old(self).edge_type,
            final(self).source_id == old(self).source_id,
            final(self).target_id == old(self).target_id,
            final(self).confidence == old(self).confidence,
            final(self).metadata == old(self).metadata,
    {
        self.temporal.until = Some(version);
        self.temporal.until_timestamp = Some(now_millis());
    }
}

// ---------------------------------------------------------------------------
// Versions, diffs and branches
// ---------------------------------------------------------------------------

/// The content or metadata delta carried by a version entry.
#[derive(Debug)]
pub enum Diff {
    /// The initial version: carries the full content.
    Initial { content: String },
    /// The content changed: carries the post-image of the content.
    ContentChanged { patch: String, additions: usize, deletions: usize },
    /// Metadata fields changed: a list of `(field, (old, new))` entries.
    MetadataChanged { changed_fields: Vec<(String, (String, String))> },
    /// Several changes in one version, applied in order.
    Composite(Vec<Diff>),
}

/// Adds without overflowing: the sum, or the largest `usize` value.
pub open spec fn sat_add(a: usize, b: usize) -> usize {
    if a + b > usize::MAX {
        usize::MAX
    } else {
        (a + b) as usize
    }
}

/// The number of lines a string holds, as `str::lines` counts them: the
/// number of newline characters, plus one more if the text is nonempty and
/// does not end in a newline.
pub open spec fn line_count(s: Seq<char>) -> nat {
    newline_count(s) + if s.len() > 0 && s.last() != '\n' {
        1nat
    } else {
        0nat
    }
}

/// The number of newline characters in a string.
pub open spec fn newline_count(s: Seq<char>) -> nat
    decreases s.len(),
{
    if s.len() == 0 {
        0nat
    } else {
        newline_count(s.drop_last()) + if s.last() == '\n' {
            1nat
        } else {
            0nat
        }
    }
}

/// The number of lines changed by a diff, saturating at the largest `usize`.
pub open spec fn diff_lines(d: Diff) -> usize
    decreases d,
{
    match d {
        Diff::Initial { content } => if line_count(content@) > usize::MAX {
            usize::MAX
        } else {
            line_count(content@) as usize
        },
        Diff::ContentChanged { additions, deletions, .. } => sat_add(additions, deletions),
        Diff::MetadataChanged { changed_fields } => changed_fields.len(),
        Diff::Composite(ds) => diff_lines_sum(ds@),
    }
}

/// The saturating sum of the lines changed by each diff in a sequence.
pub open spec fn diff_lines_sum(ds: Seq<Diff>) -> usize
    decreases ds,
{
    if ds.len() == 0 {
        0
    } else {
        sat_add(diff_lines_sum(ds.drop_last()), diff_lines(ds.last()))
    }
}

/// Adds without overflowing, staying exact below the `usize` ceiling.
pub fn saturating_add(a: usize, b: usize) -> (r: usize)
    ensures
        r == sat_add(a, b),
{
    if a > usize::MAX - b {
        usize::MAX
    } else {
        a + b
    }
}

/// Newline counting never exceeds the text's length, and a text that does
/// not end in a newline has at most `len - 1` newlines.
pub proof fn lemma_newline_count_le(s: Seq<char>)
    ensures
        newline_count(s) <= s.len(),
        s.len() > 0 && s.last() != '\n' ==> newline_count(s) <= s.len() - 1,
    decreases s.len(),
{
    if s.len() > 0 {
        lemma_newline_count_le(s.drop_last());
    }
}

/// Counts lines as `str::lines` does.
pub fn count_lines(s: &str) -> (r: usize)
    ensures
        r == line_count(s@),
{
    let n: usize = s.unicode_len();
    let mut count: usize = 0;
    let mut i: usize = 0;
    while i < n
        invariant
            0 <= i <= n,
            n == s@.len(),
            count == newline_count(s@.subrange(0, i as int)),
        decreases n - i,
    {
        proof {
            lemma_newline_count_le(s@.subrange(0, i as int));
            assert(s@.subrange(0, i + 1 as int).drop_last() =~= s@.subrange(0, i as int));
        }
        let c: char = s.get_char(i);
        if c == '\n' {
            count = count + 1;
        }
        i = i + 1;
    }
    proof {
        assert(s@.subrange(0, n as int) =~= s@);
        lemma_newline_count_le(s@);
    }
    if n > 0 && s.get_char(n - 1) != '\n' {
        count + 1
    } else {
        count
    }
}

impl Diff {
    /// Whether this is the initial-version diff.
    pub fn is_initial(&self) -> (r: bool)
        ensures
            r == (self is Initial),
    {
        matches!(self, Diff::Initial { .. })
    }

    /// The number of lines this diff changes: the line count of an initial
    /// version, additions plus deletions of a content change, the number of
    /// changed fields of a metadata change, and the sum over a composite.
    /// Sums saturate at the largest `usize` value.
    pub fn lines_changed(&self) -> (r: usize)
        ensures
            r == diff_lines(*self),
        decreases *self,
    {
        match self {
            Diff::Initial { content } => count_lines(content.as_str()),
            Diff::ContentChanged { additions, deletions, .. } => saturating_add(
                *additions,
                *deletions,
            ),
            Diff::MetadataChanged { changed_fields } => changed_fields.len(),
            Diff::Composite(ds) => {
                let mut total: usize = 0;
                let mut i: usize = 0;
                while i < ds.len()
                    invariant
                        0 <= i <= ds@.len(),
                        total == diff_lines_sum(ds@.subrange(0, i as int)),
                        *self == Diff::Composite(*ds),
                    decreases ds@.len() - i,
                {
                    proof {
                        assert(s_subrange_step(ds@, i as int));
                        assert(decreases_to!(*self => self->Composite_0@[i as int]));
                        assert(decreases_to!(*self => ds@[i as int]));
                    }
                    let part: usize = ds[i].lines_changed();
                    total = saturating_add(total, part);
                    i = i + 1;
                }
                proof {
                    assert(ds@.subrange(0, ds@.len() as int) =~= ds@);
                }
                total
            },
        }
    }
}

/// A prefix of a sequence grows one element at a time: used to unfold
/// prefix sums.
pub open spec fn s_subrange_step(ds: Seq<Diff>, i: int) -> bool {
    0 <= i < ds.len() ==> ds.subrange(0, i + 1).drop_last() =~= ds.subrange(0, i)
        && ds.subrange(0, i + 1).last() == ds[i]
}

/// A single entry in an entity's history chain.
#[derive(Debug)]
pub struct VersionEntry {
    /// Unique identifier, assigned by the history store when recorded;
    /// zero until then.
    pub version_id: VersionId,
    /// The entity this version belongs to.
    pub entity_id: NodeId,
    /// The previous version in the chain; `None` for an initial version.
    pub parent_version: Option<VersionId>,
    /// The branch this version was recorded on.
    pub branch: String,
    /// The delta from the parent version.
    pub diff: Diff,
    /// Associated commit hash.
    pub commit_id: Option<String>,
    /// Who made the change.
    pub author: Option<String>,
    /// Change description.
    pub message: Option<String>,
    /// When the version was recorded, milliseconds since the epoch.
    pub timestamp: i64,
}

impl VersionEntry {
    /// An initial version on the main branch: full content, no parent.
    pub fn initial(entity_id: NodeId, content: String) -> (r: Self)
        ensures
            r.version_id == 0,
            r.entity_id == entity_id,
            r.parent_version is None,
            r.branch@ == "main"@,
            r.diff == (Diff::Initial { content }),
            r.commit_id is None,
            r.author is None,
            r.message is Some,
    {
        VersionEntry {
            version_id: 0,
            entity_id,
            parent_version: None,
            branch: String::from_str("main"),
            diff: Diff::Initial { content },
            commit_id: None,
            author: None,
            message: Some(String::from_str("Initial version")),
            timestamp: now_millis(),
        }
    }

    /// A content change on the main branch, carrying the post-image.
    pub fn content_change(
        entity_id: NodeId,
        parent_version: VersionId,
        patch: String,
        additions: usize,
        deletions: usize,
    ) -> (r: Self)
        ensures
            r.version_id == 0,
            r.entity_id == entity_id,
            r.parent_version == Some(parent_version),
            r.branch@ == "main"@,
            r.diff == (Diff::ContentChanged { patch, additions, deletions }),
            r.commit_id is None,
            r.author is None,
            r.message is None,
    {
        VersionEntry {
            version_id: 0,
            entity_id,
            parent_version: Some(parent_version),
            branch: String::from_str("main"),
            diff: Diff::ContentChanged { patch, additions, deletions },
            commit_id: None,
            author: None,
            message: None,
            timestamp: now_millis(),
        }
    }

    /// Sets the commit id.
    pub fn with_commit(self, commit: String) -> (r: Self)
        ensures
            r == (VersionEntry { commit_id: Some(commit), ..self }),
    {
        VersionEntry { commit_id: Some(commit), ..self }
    }

    /// Sets the author.
    pub fn with_author(self, author: String) -> (r: Self)
        ensures
            r == (VersionEntry { author: Some(author), ..self }),
    {
        VersionEntry { author: Some(author), ..self }
    }

    /// Sets the message.
    pub fn with_message(self, message: String) -> (r: Self)
        ensures
            r == (VersionEntry { message: Some(message), ..self }),
    {
        VersionEntry { message: Some(message), ..self }
    }

    /// Sets the branch.
    pub fn with_branch(self, branch: String) -> (r: Self)
        ensures
            r == (VersionEntry { branch, ..self }),
    {
        VersionEntry { branch, ..self }
    }
}

/// A named version stream: a head pointer into a version chain.
#[derive(Debug, Clone)]
pub struct Branch {
    /// The branch name; unique within a store.
    pub name: String,
    /// The latest version on this branch.
    pub head: VersionId,
    /// The version this branch was forked from.
    pub base: VersionId,
    /// When the branch was created.
    pub created_at: i64,
    /// If merged, the branch this one was merged into.
    pub merged_into: Option<String>,
}

impl Branch {
    /// A branch forking from the given version: head and base coincide.
    pub fn new(name: String, base_version: VersionId) -> (r: Self)
        ensures
            r.name == name,
            r.head == base_version,
            r.base == base_version,
            r.merged_into is None,
    {
        Branch {
            name,
            head: base_version,
            base: base_version,
            created_at: now_millis(),
            merged_into: None,
        }
    }
}

// ---------------------------------------------------------------------------
// Embeddings
// ---------------------------------------------------------------------------

/// The model or method that produced an embedding.
#[derive(Debug, Clone)]
pub enum EmbeddingModel {
    /// Bag-of-words term counts.
    BagOfWords,
    /// A named transformer model.
    Transformer(String),
    /// An external embedding service.
    ExternalApi(String),
}

/// A dense fixed-point vector attached to a node for similarity search.
/// Components are integers; cosine similarity is scale-invariant, so any
/// fixed-point convention gives the same ordering.
#[derive(Debug)]
pub struct Embedding {
    /// The raw components.
    pub values: Vec<i64>,
    /// The number of components.
    pub dimensions: usize,
    /// The model that produced this embedding.
    pub model: EmbeddingModel,
}

impl Embedding {
    /// Wraps raw components, recording their count.
    pub fn new(values: Vec<i64>, model: EmbeddingModel) -> (r: Self)
        ensures
            r.values == values,
            r.dimensions == values@.len(),
            r.model == model,
    {
        let dimensions: usize = values.len();
        Embedding { values, dimensions, model }
    }
}

} // verus!
