//! Hot reload protocol definitions: template identities, template updates,
//! the messages exchanged with the browser, and capability negotiation.

use vstd::prelude::*;
use vstd::utf8::encode_utf8;

use crate::compression::{
    brotli_compress, brotli_decompress, brotli_of, gunzip_of, gzip_compress, gzip_decompress, gzip_of,
    io_error_message, unbrotli_of,
};
use crate::text::{append_bytes, le_bytes, push_le_bytes};

verus! {

/// The name for what `blake3::hash(..).to_hex()` returns: the lowercase hex
/// digest of the BLAKE3 hash of the given bytes.
pub uninterp spec fn blake3_hex_digest(data: Seq<u8>) -> Seq<char>;

/// A lowercase hexadecimal digit.
pub open spec fn is_lower_hex(c: char) -> bool {
    ('0' <= c <= '9') || ('a' <= c <= 'f')
}

/// Hashes `data` with BLAKE3 and renders the 32-byte digest in hex.
///
/// Wraps `blake3::hash` and `Hash::to_hex`. `to_hex` writes two lowercase
/// hex digits per digest byte, so the text is 64 characters long. What
/// the digest is, is left to the name `blake3_hex_digest`.
#[verifier::external_body]
pub(crate) fn blake3_hex(data: &[u8]) -> (res: String)
    ensures
        res@ == blake3_hex_digest(data@),
        res@.len() == 64,
        forall|i: int| 0 <= i < res@.len() ==> is_lower_hex(#[trigger] res@[i]),
{
    blake3::hash(data).to_hex().to_string()
}

/// Unique identifier for a template: the file it is defined in and its
/// position there.
#[derive(Debug, Clone)]
pub struct TemplateId {
    /// Path of the file where the template is defined
    pub file: String,
    /// Line number in the file
    pub line: u32,
    /// Column number in the file
    pub column: u32,
}

impl PartialEq for TemplateId {
    fn eq(&self, other: &Self) -> (r: bool) {
        self.line == other.line && self.column == other.column && self.file == other.file
    }
}

impl vstd::std_specs::cmp::PartialEqSpecImpl for TemplateId {
    open spec fn obeys_eq_spec() -> bool {
        true
    }

    open spec fn eq_spec(&self, other: &Self) -> bool {
        self.line == other.line && self.column == other.column && self.file@ == other.file@
    }
}

impl TemplateId {
    pub fn new(file: String, line: u32, column: u32) -> (r: Self)
        ensures
            r.file == file,
            r.line == line,
            r.column == column,
    {
        TemplateId { file, line, column }
    }

    /// The bytes that identify a template: the file path in UTF-8, then the
    /// line and the column as little-endian 32-bit integers.
    pub open spec fn id_bytes(&self) -> Seq<u8> {
        encode_utf8(self.file@) + le_bytes(self.line as nat, 4) + le_bytes(self.column as nat, 4)
    }

    /// Two identifiers denote the same template.
    pub open spec fn same_as(&self, other: &Self) -> bool {
        self.line == other.line && self.column == other.column && self.file@ == other.file@
    }

    /// A copy of this identifier.
    pub fn duplicate(&self) -> (r: Self)
        ensures
            r == *self,
    {
        TemplateId { file: self.file.clone(), line: self.line, column: self.column }
    }

    /// The BLAKE3 hex digest of the identifier's bytes.
    pub fn hash(&self) -> (r: String)
        ensures
            r@ == blake3_hex_digest(self.id_bytes()),
            r@.len() == 64,
    {
        let mut bytes: Vec<u8> = Vec::new();
        append_bytes(&mut bytes, self.file.as_str().as_bytes());
        push_le_bytes(&mut bytes, self.line as u64, 4);
        push_le_bytes(&mut bytes, self.column as u64, 4);
        assert(bytes@ == self.id_bytes());
        blake3_hex(bytes.as_slice())
    }
}

/// Type of dynamic content in a template
#[derive(Debug, Clone)]
pub enum DynamicKind {
    /// Simple expression interpolation
    Expression,
    /// Event handler
    EventHandler { event: String },
    /// Conditional rendering
    Conditional,
    /// Loop rendering
    Loop,
}

impl PartialEq for DynamicKind {
    fn eq(&self, other: &Self) -> (r: bool) {
        match self {
            DynamicKind::Expression => match other {
                DynamicKind::Expression => true,
                _ => false,
            },
            DynamicKind::EventHandler { event: a } => match other {
                DynamicKind::EventHandler { event: b } => *a == *b,
                _ => false,
            },
            DynamicKind::Conditional => match other {
                DynamicKind::Conditional => true,
                _ => false,
            },
            DynamicKind::Loop => match other {
                DynamicKind::Loop => true,
                _ => false,
            },
        }
    }
}

impl vstd::std_specs::cmp::PartialEqSpecImpl for DynamicKind {
    open spec fn obeys_eq_spec() -> bool {
        true
    }

    open spec fn eq_spec(&self, other: &Self) -> bool {
        self.same_kind(other)
    }
}

impl DynamicKind {
    /// Two kinds are the same kind, events compared by their text.
    pub open spec fn same_kind(&self, other: &Self) -> bool {
        match *self {
            DynamicKind::Expression => other is Expression,
            DynamicKind::EventHandler { event: a } => match *other {
                DynamicKind::EventHandler { event: b } => a@ == b@,
                _ => false,
            },
            DynamicKind::Conditional => other is Conditional,
            DynamicKind::Loop => other is Loop,
        }
    }

    /// The bytes that stand for this kind in a content hash.
    pub open spec fn tag_bytes(&self) -> Seq<u8> {
        match *self {
            DynamicKind::Expression => encode_utf8("expression"@),
            DynamicKind::EventHandler { event } => encode_utf8("event:"@) + encode_utf8(event@),
            DynamicKind::Conditional => encode_utf8("conditional"@),
            DynamicKind::Loop => encode_utf8("loop"@),
        }
    }

    /// A copy of this kind.
    pub fn duplicate(&self) -> (r: Self)
        ensures
            r == *self,
    {
        match self {
            DynamicKind::Expression => DynamicKind::Expression,
            DynamicKind::EventHandler { event } => DynamicKind::EventHandler { event: event.clone() },
            DynamicKind::Conditional => DynamicKind::Conditional,
            DynamicKind::Loop => DynamicKind::Loop,
        }
    }
}

/// Dynamic part of a template
#[derive(Debug, Clone)]
pub struct DynamicPart {
    /// Index in the template where this dynamic part appears
    pub index: usize,
    /// Type of dynamic content
    pub kind: DynamicKind,
}

impl DynamicPart {
    /// A copy of this part.
    pub fn duplicate(&self) -> (r: Self)
        ensures
            r == *self,
    {
        DynamicPart { index: self.index, kind: self.kind.duplicate() }
    }

    /// The bytes that stand for this part in a content hash: its index in
    /// little-endian machine-word width, then the bytes of its kind.
    pub open spec fn hash_bytes(&self) -> Seq<u8> {
        le_bytes(self.index as nat, (usize::BITS / 8) as nat) + self.kind.tag_bytes()
    }
}

/// A copy of a list of dynamic parts.
pub fn duplicate_parts(parts: &[DynamicPart]) -> (r: Vec<DynamicPart>)
    ensures
        r@ == parts@,
{
    let mut r: Vec<DynamicPart> = Vec::new();
    let mut i: usize = 0;
    while i < parts.len()
        invariant
            i <= parts.len(),
            r@ == parts@.subrange(0, i as int),
        decreases parts.len() - i,
    {
        r.push(parts[i].duplicate());
        i = i + 1;
    }
    r
}

/// The bytes of a list of dynamic parts, in order.
pub open spec fn parts_hash_bytes(parts: Seq<DynamicPart>) -> Seq<u8>
    decreases parts.len(),
{
    if parts.len() == 0 {
        Seq::empty()
    } else {
        parts_hash_bytes(parts.drop_last()) + parts.last().hash_bytes()
    }
}

/// The bytes a template's content hash is taken over: the HTML in UTF-8,
/// then each dynamic part.
pub open spec fn content_bytes(html: Seq<char>, parts: Seq<DynamicPart>) -> Seq<u8> {
    encode_utf8(html) + parts_hash_bytes(parts)
}

/// Template update information
#[derive(Debug, Clone)]
pub struct TemplateUpdate {
    /// Template identifier
    pub id: TemplateId,
    /// Hash of the template ID for quick lookup
    pub hash: String,
    /// Hash of the template content for change detection
    pub content_hash: String,
    /// The compiled HTML template
    pub html: String,
    /// Dynamic parts of the template
    pub dynamic_parts: Vec<DynamicPart>,
}

/// The value of a template update, with its parts as a sequence.
pub struct UpdateModel {
    pub id: TemplateId,
    pub hash: String,
    pub content_hash: String,
    pub html: String,
    pub dynamic_parts: Seq<DynamicPart>,
}

impl View for TemplateUpdate {
    type V = UpdateModel;

    open spec fn view(&self) -> UpdateModel {
        UpdateModel {
            id: self.id,
            hash: self.hash,
            content_hash: self.content_hash,
            html: self.html,
            dynamic_parts: self.dynamic_parts@,
        }
    }
}

impl TemplateUpdate {
    /// A copy of this update.
    pub fn duplicate(&self) -> (r: Self)
        ensures
            r@ == self@,
    {
        TemplateUpdate {
            id: self.id.duplicate(),
            hash: self.hash.clone(),
            content_hash: self.content_hash.clone(),
            html: self.html.clone(),
            dynamic_parts: duplicate_parts(self.dynamic_parts.as_slice()),
        }
    }

    /// Content hash over the HTML and the dynamic parts.
    pub fn compute_content_hash(html: &str, dynamic_parts: &[DynamicPart]) -> (r: String)
        ensures
            r@ == blake3_hex_digest(content_bytes(html@, dynamic_parts@)),
            r@.len() == 64,
    {
        let mut bytes: Vec<u8> = Vec::new();
        append_bytes(&mut bytes, html.as_bytes());
        let mut i: usize = 0;
        while i < dynamic_parts.len()
            invariant
                i <= dynamic_parts.len(),
                bytes@ == encode_utf8(html@) + parts_hash_bytes(dynamic_parts@.subrange(0, i as int)),
            decreases dynamic_parts.len() - i,
        {
            let part = &dynamic_parts[i];
            push_le_bytes(&mut bytes, part.index as u64, usize::BITS / 8);
            match &part.kind {
                DynamicKind::Expression => {
                    append_bytes(&mut bytes, "expression".as_bytes());
                },
                DynamicKind::EventHandler { event } => {
                    append_bytes(&mut bytes, "event:".as_bytes());
                    append_bytes(&mut bytes, event.as_str().as_bytes());
                },
                DynamicKind::Conditional => {
                    append_bytes(&mut bytes, "conditional".as_bytes());
                },
                DynamicKind::Loop => {
                    append_bytes(&mut bytes, "loop".as_bytes());
                },
            }
            proof {
                let prefix = dynamic_parts@.subrange(0, i + 1);
                assert(prefix.drop_last() =~= dynamic_parts@.subrange(0, i as int));
            }
            i = i + 1;
        }
        assert(dynamic_parts@.subrange(0, dynamic_parts@.len() as int) =~= dynamic_parts@);
        blake3_hex(bytes.as_slice())
    }
}

/// Copies of a list of updates.
pub fn duplicate_updates(updates: &[TemplateUpdate]) -> (r: Vec<TemplateUpdate>)
    ensures
        r@.len() == updates@.len(),
        forall|i: int| 0 <= i < r@.len() ==> #[trigger] r@[i]@ == updates@[i]@,
{
    let mut r: Vec<TemplateUpdate> = Vec::new();
    let mut i: usize = 0;
    while i < updates.len()
        invariant
            i <= updates.len(),
            r@.len() == i,
            forall|j: int| 0 <= j < i ==> #[trigger] r@[j]@ == updates@[j]@,
        decreases updates.len() - i,
    {
        r.push(updates[i].duplicate());
        i = i + 1;
    }
    r
}

/// Server status types
#[derive(Debug, Clone, Copy, PartialEq, Eq)]
pub enum ServerStatusType {
    /// Server starting up
    Starting,
    /// Server running normally
    Running,
    /// Server experiencing issues
    Warning,
    /// Server shutting down
    Shutdown,
}

/// Server statistics
#[derive(Debug, Clone, Copy)]
pub struct ServerStats {
    /// Number of connected clients
    pub connected_clients: usize,
    /// Number of cached templates
    pub cached_templates: usize,
    /// Number of files being watched
    pub watched_files: usize,
    /// Uptime in seconds
    pub uptime_seconds: u64,
    /// Number of updates sent
    pub updates_sent: u64,
}

/// Messages sent over the WebSocket connection
#[derive(Debug, Clone)]
pub enum HotReloadMessage {
    /// Initial connection established
    Connected {
        /// Version of the hot reload protocol
        version: String,
    },
    /// Template has been updated
    TemplateUpdated(TemplateUpdate),
    /// Multiple templates updated at once
    BatchUpdate {
        /// List of template updates
        updates: Vec<TemplateUpdate>,
    },
    /// Request from client to reload a specific template
    ReloadRequest {
        /// Template ID to reload
        template_id: TemplateId,
    },
    /// Asset file updated (CSS, JS, etc.)
    AssetUpdated {
        /// Type of asset
        asset_type: String,
        /// Path to the asset
        path: String,
    },
    /// Full page reload requested
    FullReload {
        /// Reason for full reload
        reason: String,
    },
    /// Server status update
    ServerStatus {
        /// Server status
        status: ServerStatusType,
        /// Additional message
        message: Option<String>,
        /// Statistics
        stats: Option<ServerStats>,
    },
    /// File change detected (for debugging)
    FileChangeDetected {
        /// Path that changed
        path: String,
        /// Type of change
        change_type: String,
        /// Number of templates affected
        templates_affected: usize,
    },
    /// Error occurred
    Error {
        /// Error message
        message: String,
        /// Error code
        code: Option<String>,
        /// Suggested actions
        suggestions: Option<Vec<String>>,
    },
    /// Heartbeat to keep connection alive
    Ping,
    /// Response to ping
    Pong,
}


/// The value of a protocol message, its lists as sequences.
pub enum MessageModel {
    Connected { version: Seq<char> },
    TemplateUpdated(UpdateModel),
    BatchUpdate { updates: Seq<UpdateModel> },
    ReloadRequest { template_id: TemplateId },
    AssetUpdated { asset_type: Seq<char>, path: Seq<char> },
    FullReload { reason: Seq<char> },
    ServerStatus { status: ServerStatusType, message: Option<Seq<char>>, stats: Option<ServerStats> },
    FileChangeDetected { path: Seq<char>, change_type: Seq<char>, templates_affected: usize },
    Error { message: Seq<char>, code: Option<Seq<char>>, suggestions: Option<Seq<Seq<char>>> },
    Ping,
    Pong,
}

/// The values of a list of updates.
pub open spec fn updates_view(s: Seq<TemplateUpdate>) -> Seq<UpdateModel> {
    s.map_values(|u: TemplateUpdate| u@)
}

/// The value of an optional text.
pub open spec fn opt_text(o: Option<String>) -> Option<Seq<char>> {
    match o {
        Some(t) => Some(t@),
        None => None,
    }
}

impl View for HotReloadMessage {
    type V = MessageModel;

    open spec fn view(&self) -> MessageModel {
        match *self {
            HotReloadMessage::Connected { version } => MessageModel::Connected { version: version@ },
            HotReloadMessage::TemplateUpdated(u) => MessageModel::TemplateUpdated(u@),
            HotReloadMessage::BatchUpdate { updates } => MessageModel::BatchUpdate {
                updates: updates_view(updates@),
            },
            HotReloadMessage::ReloadRequest { template_id } => MessageModel::ReloadRequest {
                template_id,
            },
            HotReloadMessage::AssetUpdated { asset_type, path } => MessageModel::AssetUpdated {
                asset_type: asset_type@,
                path: path@,
            },
            HotReloadMessage::FullReload { reason } => MessageModel::FullReload { reason: reason@ },
            HotReloadMessage::ServerStatus { status, message, stats } => MessageModel::ServerStatus {
                status,
                message: opt_text(message),
                stats,
            },
            HotReloadMessage::FileChangeDetected { path, change_type, templates_affected } => {
                MessageModel::FileChangeDetected {
                    path: path@,
                    change_type: change_type@,
                    templates_affected,
                }
            },
            HotReloadMessage::Error { message, code, suggestions } => MessageModel::Error {
                message: message@,
                code: opt_text(code),
                suggestions: match suggestions {
                    Some(v) => Some(v@.map_values(|t: String| t@)),
                    None => None,
                },
            },
            HotReloadMessage::Ping => MessageModel::Ping,
            HotReloadMessage::Pong => MessageModel::Pong,
        }
    }
}

/// Type of change detected
#[derive(Debug, Clone, Copy, PartialEq, Eq)]
pub enum ChangeType {
    /// Only template content changed
    TemplateOnly,
    /// Code structure changed
    CodeStructure,
    /// Mixed changes
    Mixed,
    /// Asset files changed
    Assets,
    /// Unknown change type
    Unknown,
}

/// Line range in a file
#[derive(Debug, Clone, Copy, PartialEq, Eq)]
pub struct LineRange {
    pub start: u32,
    pub end: u32,
}

/// Complexity of a change
#[derive(Debug, Clone, Copy, PartialEq, Eq)]
pub enum ChangeComplexity {
    /// Simple change (e.g., text only)
    Simple,
    /// Moderate change (e.g., attributes)
    Moderate,
    /// Complex change (e.g., structure)
    Complex,
}

/// Additional metadata about changes
#[derive(Debug, Clone)]
pub struct ChangeMetadata {
    /// Types of macros found
    pub macro_types: Vec<String>,
    /// Whether this is a new file
    pub is_new_file: bool,
    /// Complexity of the change
    pub complexity: ChangeComplexity,
}

/// Content type classification
#[derive(Debug, Clone, Copy, PartialEq, Eq)]
pub enum ContentType {
    /// Rust source code
    Rust,
    /// CSS/SCSS files
    Style,
    /// JavaScript/TypeScript
    Script,
    /// HTML templates
    Html,
    /// Other asset types
    Asset,
}

// ----------------------------------------------------------------------------
// Wire formats and their negotiation
// ----------------------------------------------------------------------------

/// How messages are encoded on the wire.
#[derive(Debug, Clone, Copy, PartialEq, Eq, Structural)]
pub enum SerializationFormat {
    Json,
    Cbor,
    MessagePack,
}

/// How encoded messages are compressed on the wire.
#[derive(Debug, Clone, Copy, PartialEq, Eq, Structural)]
pub enum CompressionAlgorithm {
    /// No compression: the bytes as they are
    Identity,
    Gzip,
    Brotli,
}

/// What one side of a connection can speak, and what it would rather use.
pub struct ProtocolCapabilities {
    /// Encodings understood
    pub serialization_formats: Vec<SerializationFormat>,
    /// Compressions understood
    pub compression_algorithms: Vec<CompressionAlgorithm>,
    /// Whether template deltas are understood
    pub supports_delta_updates: bool,
    /// Whether batched operations are understood
    pub supports_batch_operations: bool,
    /// The encoding this side would rather use
    pub preferred_serialization: SerializationFormat,
    /// The compression this side would rather use
    pub preferred_compression: CompressionAlgorithm,
}

/// The encodings that `theirs` lists.
pub open spec fn format_in(theirs: Seq<SerializationFormat>) -> spec_fn(SerializationFormat) -> bool {
    |f: SerializationFormat| theirs.contains(f)
}

/// The compressions that `theirs` lists.
pub open spec fn algorithm_in(theirs: Seq<CompressionAlgorithm>) -> spec_fn(CompressionAlgorithm) -> bool {
    |a: CompressionAlgorithm| theirs.contains(a)
}

/// The encodings both sides list, in the order of `mine`.
pub open spec fn shared_formats(mine: Seq<SerializationFormat>, theirs: Seq<SerializationFormat>) -> Seq<
    SerializationFormat,
> {
    mine.filter(format_in(theirs))
}

/// The compressions both sides list, in the order of `mine`.
pub open spec fn shared_algorithms(mine: Seq<CompressionAlgorithm>, theirs: Seq<CompressionAlgorithm>) -> Seq<
    CompressionAlgorithm,
> {
    mine.filter(algorithm_in(theirs))
}

impl Default for ProtocolCapabilities {
    /// JSON without compression, and nothing more.
    fn default() -> (r: Self)
        ensures
            r.serialization_formats@ == seq![SerializationFormat::Json],
            r.compression_algorithms@ == seq![CompressionAlgorithm::Identity],
            !r.supports_delta_updates,
            !r.supports_batch_operations,
            r.preferred_serialization == SerializationFormat::Json,
            r.preferred_compression == CompressionAlgorithm::Identity,
    {
        ProtocolCapabilities {
            serialization_formats: vec![SerializationFormat::Json],
            compression_algorithms: vec![CompressionAlgorithm::Identity],
            supports_delta_updates: false,
            supports_batch_operations: false,
            preferred_serialization: SerializationFormat::Json,
            preferred_compression: CompressionAlgorithm::Identity,
        }
    }
}

impl ProtocolCapabilities {
    /// Every encoding and compression, deltas and batches, preferring CBOR
    /// with gzip.
    pub fn enhanced() -> (r: Self)
        ensures
            r.serialization_formats@ == seq![
                SerializationFormat::Json,
                SerializationFormat::Cbor,
                SerializationFormat::MessagePack,
            ],
            r.compression_algorithms@ == seq![
                CompressionAlgorithm::Identity,
                CompressionAlgorithm::Gzip,
                CompressionAlgorithm::Brotli,
            ],
            r.supports_delta_updates,
            r.supports_batch_operations,
            r.preferred_serialization == SerializationFormat::Cbor,
            r.preferred_compression == CompressionAlgorithm::Gzip,
    {
        ProtocolCapabilities {
            serialization_formats: vec![
                SerializationFormat::Json,
                SerializationFormat::Cbor,
                SerializationFormat::MessagePack,
            ],
            compression_algorithms: vec![
                CompressionAlgorithm::Identity,
                CompressionAlgorithm::Gzip,
                CompressionAlgorithm::Brotli,
            ],
            supports_delta_updates: true,
            supports_batch_operations: true,
            preferred_serialization: SerializationFormat::Cbor,
            preferred_compression: CompressionAlgorithm::Gzip,
        }
    }
}

/// Whether `f` is listed.
fn lists_format(v: &Vec<SerializationFormat>, f: SerializationFormat) -> (r: bool)
    ensures
        r == v@.contains(f),
{
    let mut i: usize = 0;
    while i < v.len()
        invariant
            i <= v@.len(),
            forall|k: int| 0 <= k < i ==> v@[k] != f,
        decreases v@.len() - i,
    {
        if v[i] == f {
            return true;
        }
        i = i + 1;
    }
    false
}

/// Whether `a` is listed.
fn lists_algorithm(v: &Vec<CompressionAlgorithm>, a: CompressionAlgorithm) -> (r: bool)
    ensures
        r == v@.contains(a),
{
    let mut i: usize = 0;
    while i < v.len()
        invariant
            i <= v@.len(),
            forall|k: int| 0 <= k < i ==> v@[k] != a,
        decreases v@.len() - i,
    {
        if v[i] == a {
            return true;
        }
        i = i + 1;
    }
    false
}

/// The encodings of `mine` that `theirs` lists too.
fn common_formats(mine: &Vec<SerializationFormat>, theirs: &Vec<SerializationFormat>) -> (r: Vec<
    SerializationFormat,
>)
    ensures
        r@ == shared_formats(mine@, theirs@),
{
    let mut r: Vec<SerializationFormat> = Vec::new();
    let mut i: usize = 0;
    while i < mine.len()
        invariant
            i <= mine@.len(),
            r@ == mine@.take(i as int).filter(format_in(theirs@)),
        decreases mine@.len() - i,
    {
        proof {
            mine@.take(i as int).lemma_filter_push(mine@[i as int], format_in(theirs@));
            assert(mine@.take(i + 1) =~= mine@.take(i as int).push(mine@[i as int]));
        }
        if lists_format(theirs, mine[i]) {
            r.push(mine[i]);
        }
        i = i + 1;
    }
    assert(mine@.take(i as int) =~= mine@);
    r
}

/// The compressions of `mine` that `theirs` lists too.
fn common_algorithms(mine: &Vec<CompressionAlgorithm>, theirs: &Vec<CompressionAlgorithm>) -> (r: Vec<
    CompressionAlgorithm,
>)
    ensures
        r@ == shared_algorithms(mine@, theirs@),
{
    let mut r: Vec<CompressionAlgorithm> = Vec::new();
    let mut i: usize = 0;
    while i < mine.len()
        invariant
            i <= mine@.len(),
            r@ == mine@.take(i as int).filter(algorithm_in(theirs@)),
        decreases mine@.len() - i,
    {
        proof {
            mine@.take(i as int).lemma_filter_push(mine@[i as int], algorithm_in(theirs@));
            assert(mine@.take(i + 1) =~= mine@.take(i as int).push(mine@[i as int]));
        }
        if lists_algorithm(theirs, mine[i]) {
            r.push(mine[i]);
        }
        i = i + 1;
    }
    assert(mine@.take(i as int) =~= mine@);
    r
}

/// The bytes that `algorithm` makes of `data`.
pub open spec fn compressed(algorithm: CompressionAlgorithm, data: Seq<u8>) -> Seq<u8> {
    match algorithm {
        CompressionAlgorithm::Identity => data,
        CompressionAlgorithm::Gzip => gzip_of(data),
        CompressionAlgorithm::Brotli => brotli_of(data),
    }
}

/// The bytes that undoing `algorithm` makes of `data`, if it can be undone.
pub open spec fn decompressed(algorithm: CompressionAlgorithm, data: Seq<u8>) -> Option<Seq<u8>> {
    match algorithm {
        CompressionAlgorithm::Identity => Some(data),
        CompressionAlgorithm::Gzip => gunzip_of(data),
        CompressionAlgorithm::Brotli => unbrotli_of(data),
    }
}

impl HotReloadMessage {
    /// The capabilities both sides share: the encodings and compressions both
    /// list, in the client's order; deltas and batches where both take them;
    /// the client's preferred encoding and compression where both list them,
    /// else JSON and no compression.
    pub fn negotiate_capabilities(
        client: &ProtocolCapabilities,
        server: &ProtocolCapabilities,
    ) -> (r: ProtocolCapabilities)
        ensures
            r.serialization_formats@ == shared_formats(
                client.serialization_formats@,
                server.serialization_formats@,
            ),
            r.compression_algorithms@ == shared_algorithms(
                client.compression_algorithms@,
                server.compression_algorithms@,
            ),
            r.supports_delta_updates == (client.supports_delta_updates && server.supports_delta_updates),
            r.supports_batch_operations == (client.supports_batch_operations
                && server.supports_batch_operations),
            r.preferred_serialization == if r.serialization_formats@.contains(client.preferred_serialization) {
                client.preferred_serialization
            } else {
                SerializationFormat::Json
            },
            r.preferred_compression == if r.compression_algorithms@.contains(client.preferred_compression) {
                client.preferred_compression
            } else {
                CompressionAlgorithm::Identity
            },
    {
        let formats = common_formats(&client.serialization_formats, &server.serialization_formats);
        let algorithms = common_algorithms(&client.compression_algorithms, &server.compression_algorithms);
        let preferred_serialization = if lists_format(&formats, client.preferred_serialization) {
            client.preferred_serialization
        } else {
            SerializationFormat::Json
        };
        let preferred_compression = if lists_algorithm(&algorithms, client.preferred_compression) {
            client.preferred_compression
        } else {
            CompressionAlgorithm::Identity
        };
        ProtocolCapabilities {
            serialization_formats: formats,
            compression_algorithms: algorithms,
            supports_delta_updates: client.supports_delta_updates && server.supports_delta_updates,
            supports_batch_operations: client.supports_batch_operations && server.supports_batch_operations,
            preferred_serialization,
            preferred_compression,
        }
    }

    /// Compress `data`. Without compression the bytes are copied; gzip and
    /// brotli go through their crates, and whatever they produce decompresses
    /// to `data` again.
    pub fn compress(data: &[u8], algorithm: CompressionAlgorithm) -> (r: Result<Vec<u8>, String>)
        ensures
            algorithm == CompressionAlgorithm::Identity ==> r is Ok,
            r matches Ok(v) ==> v@ == compressed(algorithm, data@) && decompressed(algorithm, v@) == Some(
                data@,
            ),
    {
        match algorithm {
            CompressionAlgorithm::Identity => {
                let mut v: Vec<u8> = Vec::new();
                append_bytes(&mut v, data);
                assert(v@ =~= data@);
                Ok(v)
            },
            CompressionAlgorithm::Gzip => match gzip_compress(data) {
                Ok(v) => Ok(v),
                Err(e) => Err(io_error_message(&e)),
            },
            CompressionAlgorithm::Brotli => match brotli_compress(data) {
                Ok(v) => Ok(v),
                Err(e) => Err(io_error_message(&e)),
            },
        }
    }

    /// Undo the compression of `data`: the bytes when `data` is a stream of
    /// that compression, an error when it is not.
    pub fn decompress(data: &[u8], algorithm: CompressionAlgorithm) -> (r: Result<Vec<u8>, String>)
        ensures
            match r {
                Ok(v) => decompressed(algorithm, data@) == Some(v@),
                Err(_) => decompressed(algorithm, data@) is None,
            },
    {
        match algorithm {
            CompressionAlgorithm::Identity => {
                let mut v: Vec<u8> = Vec::new();
                append_bytes(&mut v, data);
                assert(v@ =~= data@);
                Ok(v)
            },
            CompressionAlgorithm::Gzip => match gzip_decompress(data) {
                Ok(v) => Ok(v),
                Err(e) => Err(io_error_message(&e)),
            },
            CompressionAlgorithm::Brotli => match brotli_decompress(data) {
                Ok(v) => Ok(v),
                Err(e) => Err(io_error_message(&e)),
            },
        }
    }
}


/// Everything negotiated is understood by both sides: each encoding and
/// compression agreed on is listed by the client and by the server.
pub proof fn lemma_negotiated_understood_by_both(client: ProtocolCapabilities, server: ProtocolCapabilities)
    ensures
        forall|f: SerializationFormat|
            #[trigger] shared_formats(client.serialization_formats@, server.serialization_formats@).contains(f)
                ==> client.serialization_formats@.contains(f) && server.serialization_formats@.contains(f),
        forall|a: CompressionAlgorithm|
            #[trigger] shared_algorithms(client.compression_algorithms@, server.compression_algorithms@).contains(a)
                ==> client.compression_algorithms@.contains(a) && server.compression_algorithms@.contains(a),
{
    broadcast use vstd::seq_lib::group_filter_ensures;

    let mine = client.serialization_formats@;
    let theirs = server.serialization_formats@;
    assert forall|f: SerializationFormat| #[trigger] shared_formats(mine, theirs).contains(f) implies mine.contains(f)
        && theirs.contains(f) by {
        let fs = shared_formats(mine, theirs);
        let k = choose|k: int| 0 <= k < fs.len() && fs[k] == f;
        mine.lemma_filter_pred(format_in(theirs), k);
        mine.lemma_filter_contains_rev(format_in(theirs), f);
    }
    let mine_a = client.compression_algorithms@;
    let theirs_a = server.compression_algorithms@;
    assert forall|a: CompressionAlgorithm| #[trigger] shared_algorithms(mine_a, theirs_a).contains(a) implies mine_a.contains(
        a,
    ) && theirs_a.contains(a) by {
        let xs = shared_algorithms(mine_a, theirs_a);
        let k = choose|k: int| 0 <= k < xs.len() && xs[k] == a;
        mine_a.lemma_filter_pred(algorithm_in(theirs_a), k);
        mine_a.lemma_filter_contains_rev(algorithm_in(theirs_a), a);
    }
}

} // verus!
