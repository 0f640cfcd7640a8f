//! Preservation of component state across hot reloads: serialized state is
//! kept per component instance, compressed and checksummed as configured,
//! and checked again when it is restored.
//!
//! Turning a component's value into bytes and back is the business of the
//! serializer registered for its type; the manager here keeps the bytes.

use vstd::prelude::*;
use std::time::SystemTime;

use crate::clock::system_now;
use crate::compression::{gunzip_of, gzip_compress, gzip_decompress, gzip_of, io_error_message};
use crate::keyed::{drop_key, has_key, key_pos, lemma_drop_key, lemma_key_pos, unique_keys, value_of};
use crate::protocol::{blake3_hex, blake3_hex_digest, TemplateId};
use crate::text::push_str;

verus! {

// ----------------------------------------------------------------------------
// Types
// ----------------------------------------------------------------------------

/// Configuration for state management
pub struct StateManagerConfig {
    /// Maximum number of states to keep in memory
    pub max_states: usize,
    /// Whether to compress serialized state
    pub compress_state: bool,
    /// Whether to validate state integrity
    pub validate_integrity: bool,
    /// Timeout for state operations
    pub operation_timeout_ms: u64,
    /// Whether to enable debug logging
    pub debug_mode: bool,
}

impl StateManagerConfig {
    /// The default configuration; debug logging is on in builds with debug
    /// assertions, which `debug_build` tells.
    pub fn defaults(debug_build: bool) -> (r: Self)
        ensures
            r.max_states == 1000,
            r.compress_state,
            r.validate_integrity,
            r.operation_timeout_ms == 5000,
            r.debug_mode == debug_build,
    {
        StateManagerConfig {
            max_states: 1000,
            compress_state: true,
            validate_integrity: true,
            operation_timeout_ms: 5000,
            debug_mode: debug_build,
        }
    }
}

/// Errors that can occur during state serialization
#[derive(Debug)]
pub enum StateSerializationError {
    SerializationFailed { reason: String },
    DeserializationFailed { reason: String },
    TypeMismatch { expected: String, actual: String },
    CompressionFailed { reason: String },
    IntegrityValidationFailed,
    IncompatibleVersion { version: u32 },
    Timeout,
}

impl StateSerializationError {
    /// The message of the error.
    pub fn message(&self) -> (r: String)
        ensures
            r@ == match *self {
                StateSerializationError::SerializationFailed { reason } => "Serialization failed: "@
                    + reason@,
                StateSerializationError::DeserializationFailed { reason } => "Deserialization failed: "@
                    + reason@,
                StateSerializationError::TypeMismatch { expected, actual } => "Type mismatch: expected "@
                    + expected@ + ", got "@ + actual@,
                StateSerializationError::CompressionFailed { reason } => "Compression failed: "@
                    + reason@,
                StateSerializationError::IntegrityValidationFailed => "Integrity validation failed"@,
                StateSerializationError::IncompatibleVersion { version } => "Format version incompatible: "@
                    + crate::text::decimal(version as nat),
                StateSerializationError::Timeout => "Timeout during operation"@,
            },
    {
        let mut r = String::new();
        match self {
            StateSerializationError::SerializationFailed { reason } => {
                push_str(&mut r, "Serialization failed: ");
                push_str(&mut r, reason.as_str());
            },
            StateSerializationError::DeserializationFailed { reason } => {
                push_str(&mut r, "Deserialization failed: ");
                push_str(&mut r, reason.as_str());
            },
            StateSerializationError::TypeMismatch { expected, actual } => {
                push_str(&mut r, "Type mismatch: expected ");
                push_str(&mut r, expected.as_str());
                push_str(&mut r, ", got ");
                push_str(&mut r, actual.as_str());
            },
            StateSerializationError::CompressionFailed { reason } => {
                push_str(&mut r, "Compression failed: ");
                push_str(&mut r, reason.as_str());
            },
            StateSerializationError::IntegrityValidationFailed => {
                push_str(&mut r, "Integrity validation failed");
            },
            StateSerializationError::IncompatibleVersion { version } => {
                push_str(&mut r, "Format version incompatible: ");
                crate::text::push_decimal(&mut r, *version as u64);
            },
            StateSerializationError::Timeout => {
                push_str(&mut r, "Timeout during operation");
            },
        }
        r
    }
}

/// Metadata about serialized state
pub struct StateMetadata {
    /// Size of original state in bytes
    pub original_size: usize,
    /// Size after compression (if enabled)
    pub compressed_size: Option<usize>,
    /// Checksum for integrity validation
    pub checksum: Option<String>,
}

/// Serialized component state container
pub struct SerializedComponentState {
    /// Component instance ID
    pub instance_id: String,
    /// Template ID associated with this state
    pub template_id: TemplateId,
    /// Component type name
    pub component_type: String,
    /// Serialized state data
    pub state_data: Vec<u8>,
    /// State metadata
    pub metadata: StateMetadata,
    /// When this state was captured
    pub captured_at: SystemTime,
    /// State format version for compatibility
    pub format_version: u32,
}

/// What is kept of a preserved state.
pub struct StoredState {
    pub component_type: Seq<char>,
    pub data: Seq<u8>,
    pub original_size: nat,
    pub compressed_size: Option<nat>,
    pub checksum: Option<Seq<char>>,
    pub format_version: u32,
}

impl SerializedComponentState {
    /// What is kept of this state.
    pub open spec fn stored(&self) -> StoredState {
        StoredState {
            component_type: self.component_type@,
            data: self.state_data@,
            original_size: self.metadata.original_size as nat,
            compressed_size: match self.metadata.compressed_size {
                Some(c) => Some(c as nat),
                None => None,
            },
            checksum: match self.metadata.checksum {
                Some(c) => Some(c@),
                None => None,
            },
            format_version: self.format_version,
        }
    }
}

/// Statistics about state management
pub struct StateStatistics {
    /// Total number of preserved states
    pub total_states: usize,
    /// Total size of all preserved states in bytes
    pub total_size_bytes: usize,
    /// Bytes saved through compression
    pub compressed_savings_bytes: usize,
    /// Number of registered serializers
    pub registered_serializers: usize,
    /// States by component type
    pub states_by_type: Vec<(String, usize)>,
}

/// Built-in serializer for JSON-serializable types.
pub struct JsonStateSerializer;

/// Built-in serializer for binary-serializable types (MessagePack).
pub struct BinaryStateSerializer;

impl JsonStateSerializer {
    pub fn new() -> (r: Self) {
        JsonStateSerializer
    }

    /// Format version for compatibility
    pub fn format_version(&self) -> (r: u32)
        ensures
            r == 1,
    {
        1
    }
}

impl BinaryStateSerializer {
    pub fn new() -> (r: Self) {
        BinaryStateSerializer
    }

    /// Format version for compatibility
    pub fn format_version(&self) -> (r: u32)
        ensures
            r == 1,
    {
        1
    }
}

// ----------------------------------------------------------------------------
// The manager
// ----------------------------------------------------------------------------

/// Serialized component states by instance, oldest capture first.
pub struct StateManager {
    component_states: Vec<(String, SerializedComponentState)>,
    config: StateManagerConfig,
}

/// The bytes kept for `data`: compressed where configured.
pub open spec fn kept_bytes(data: Seq<u8>, compress: bool) -> Seq<u8> {
    if compress {
        gzip_of(data)
    } else {
        data
    }
}

/// The record kept when `data` of `component_type` is preserved.
pub open spec fn preserved_record(
    component_type: Seq<char>,
    data: Seq<u8>,
    format_version: u32,
    compress: bool,
    validate: bool,
) -> StoredState {
    StoredState {
        component_type,
        data: kept_bytes(data, compress),
        original_size: data.len(),
        compressed_size: if compress {
            Some(gzip_of(data).len())
        } else {
            None
        },
        checksum: if validate {
            Some(blake3_hex_digest(kept_bytes(data, compress)))
        } else {
            None
        },
        format_version,
    }
}

/// The states kept after `rec` is stored under `id`: it replaces any state
/// of `id` and becomes the newest; the oldest go beyond `max` states.
pub open spec fn stored_states(
    s: Seq<(Seq<char>, StoredState)>,
    id: Seq<char>,
    rec: StoredState,
    max: nat,
) -> Seq<(Seq<char>, StoredState)> {
    let added = drop_key(s, id).push((id, rec));
    if added.len() > max {
        added.subrange(added.len() - max, added.len() as int)
    } else {
        added
    }
}

/// What restoring a state gives.
pub enum RestoreOutcome {
    /// No state is kept for the instance.
    Missing,
    /// The state's bytes, decompressed where they were compressed.
    Restored(Seq<u8>),
    /// The state was kept in another format version.
    IncompatibleVersion(u32),
    /// The kept bytes no longer match their checksum.
    IntegrityFailed,
    /// The kept bytes do not decompress.
    DecompressionFailed,
}

/// What restoring the state kept as `rec` gives, for a serializer of
/// `format_version`, checking integrity where `validate` is set.
pub open spec fn restore_of(rec: StoredState, format_version: u32, validate: bool) -> RestoreOutcome {
    if rec.format_version != format_version {
        RestoreOutcome::IncompatibleVersion(rec.format_version)
    } else if validate && rec.checksum is Some && blake3_hex_digest(rec.data) != rec.checksum.unwrap() {
        RestoreOutcome::IntegrityFailed
    } else if rec.compressed_size is Some {
        match gunzip_of(rec.data) {
            Some(d) => RestoreOutcome::Restored(d),
            None => RestoreOutcome::DecompressionFailed,
        }
    } else {
        RestoreOutcome::Restored(rec.data)
    }
}

impl StateManager {
    /// The kept states by instance, oldest capture first.
    pub closed spec fn states(&self) -> Seq<(Seq<char>, StoredState)> {
        self.component_states@.map_values(
            |e: (String, SerializedComponentState)| (e.0@, e.1.stored()),
        )
    }

    /// The configuration.
    pub closed spec fn config(&self) -> StateManagerConfig {
        self.config
    }

    /// No instance has two states.
    pub closed spec fn wf(&self) -> bool {
        unique_keys(self.states())
    }

    /// What restoring the state of `id` gives for a serializer of
    /// `format_version`.
    pub open spec fn restore_outcome(&self, id: Seq<char>, format_version: u32) -> RestoreOutcome {
        match value_of(self.states(), id) {
            None => RestoreOutcome::Missing,
            Some(rec) => restore_of(rec, format_version, self.config().validate_integrity),
        }
    }

    /// Create a new state manager
    pub fn new(config: StateManagerConfig) -> (r: Self)
        ensures
            r.wf(),
            r.states() == Seq::<(Seq<char>, StoredState)>::empty(),
            r.config() == config,
    {
        let r = StateManager { component_states: Vec::new(), config };
        assert(r.states() =~= Seq::<(Seq<char>, StoredState)>::empty());
        r
    }

    /// The position of the state of `id`.
    fn find(&self, id: &str) -> (r: Option<usize>)
        requires
            self.wf(),
        ensures
            match r {
                Some(i) => i < self.component_states@.len() && key_pos(self.states(), id@) == i
                    && has_key(self.states(), id@),
                None => !has_key(self.states(), id@),
            },
    {
        let key = id.to_owned();
        let mut i: usize = 0;
        while i < self.component_states.len()
            invariant
                self.wf(),
                key@ == id@,
                i <= self.component_states@.len(),
                forall|j: int| 0 <= j < i ==> self.component_states@[j].0@ != id@,
            decreases self.component_states@.len() - i,
        {
            if self.component_states[i].0 == key {
                proof {
                    assert(self.states()[i as int].0 == id@);
                    lemma_key_pos(self.states(), i as int);
                }
                return Some(i);
            }
            i = i + 1;
        }
        proof {
            if has_key(self.states(), id@) {
                let k = key_pos(self.states(), id@);
                assert(self.component_states@[k].0@ == id@);
            }
        }
        None
    }

    /// Store serialized state for a component instance: it is compressed
    /// and checksummed as configured, replaces any earlier state of the
    /// instance, and the oldest states go beyond the configured maximum.
    /// Where the instance's state stays kept, restoring it with the same
    /// format version gives the data back.
    pub fn preserve_state(
        &mut self,
        instance_id: String,
        template_id: TemplateId,
        component_type: String,
        state_data: Vec<u8>,
        format_version: u32,
    ) -> (r: Result<(), StateSerializationError>)
        requires
            old(self).wf(),
        ensures
            final(self).wf(),
            final(self).config() == old(self).config(),
            r is Err ==> r->Err_0 is CompressionFailed && final(self).states() == old(self).states(),
            r is Ok ==> final(self).states() == stored_states(
                old(self).states(),
                instance_id@,
                preserved_record(
                    component_type@,
                    state_data@,
                    format_version,
                    old(self).config().compress_state,
                    old(self).config().validate_integrity,
                ),
                old(self).config().max_states as nat,
            ),
            r is Ok && old(self).config().max_states > 0 ==> final(self).restore_outcome(
                instance_id@,
                format_version,
            ) == RestoreOutcome::Restored(state_data@),
    {
        let original_size = state_data.len();
        let ghost data = state_data@;
        let (final_data, compressed_size) = if self.config.compress_state {
            match gzip_compress(state_data.as_slice()) {
                Ok(c) => {
                    let n = c.len();
                    (c, Some(n))
                },
                Err(e) => {
                    return Err(StateSerializationError::CompressionFailed {
                        reason: io_error_message(&e),
                    });
                },
            }
        } else {
            (state_data, None)
        };
        let checksum = if self.config.validate_integrity {
            Some(blake3_hex(final_data.as_slice()))
        } else {
            None
        };
        let record = SerializedComponentState {
            instance_id: instance_id.clone(),
            template_id,
            component_type,
            state_data: final_data,
            metadata: StateMetadata { original_size, compressed_size, checksum },
            captured_at: system_now(),
            format_version,
        };
        let ghost rec = record.stored();
        assert(rec == preserved_record(
            record.component_type@,
            data,
            format_version,
            self.config.compress_state,
            self.config.validate_integrity,
        ));
        let ghost before = self.states();
        proof {
            lemma_drop_key(before, instance_id@);
        }
        match self.find(instance_id.as_str()) {
            Some(i) => {
                let ghost pre = self.component_states@;
                self.component_states.remove(i);
                assert(self.states() =~= drop_key(before, instance_id@));
            },
            None => {},
        }
        let ghost dropped = self.states();
        self.component_states.push((instance_id, record));
        assert(self.states() =~= dropped.push((instance_id@, rec)));
        let ghost added = self.states();
        proof {
            assert forall|a: int, b: int| 0 <= a < b < added.len() implies #[trigger] added[a].0
                != #[trigger] added[b].0 by {
                if b < dropped.len() {
                    assert(dropped[a].0 != dropped[b].0);
                } else {
                    assert(value_of(dropped, instance_id@) is None);
                    if dropped[a].0 == instance_id@ {
                        lemma_key_pos(dropped, a);
                    }
                }
            }
        }
        let max = self.config.max_states;
        if self.component_states.len() > max {
            let to_remove = self.component_states.len() - max;
            let mut k: usize = 0;
            while k < to_remove
                invariant
                    k <= to_remove,
                    to_remove == added.len() - max,
                    self.config == old(self).config,
                    self.component_states@.len() == added.len() - k,
                    self.states() == added.subrange(k as int, added.len() as int),
                decreases to_remove - k,
            {
                let ghost pre = self.component_states@;
                let ghost pre_states = self.states();
                self.component_states.remove(0);
                assert forall|j: int| 0 <= j < self.states().len() implies #[trigger] self.states()[j]
                    == added.subrange(k + 1, added.len() as int)[j] by {
                    assert(self.component_states@[j] == pre[j + 1]);
                    assert(pre_states[j + 1] == added[k + 1 + j]);
                }
                assert(self.states() =~= added.subrange(k + 1, added.len() as int));
                k = k + 1;
            }
            proof {
                let s = self.states();
                assert forall|a: int, b: int| 0 <= a < b < s.len() implies #[trigger] s[a].0
                    != #[trigger] s[b].0 by {
                    assert(s[a] == added[a + to_remove]);
                    assert(s[b] == added[b + to_remove]);
                }
            }
        }
        proof {
            let s = self.states();
            if max > 0 {
                let n = s.len() as int;
                assert(s[n - 1] == (instance_id@, rec));
                lemma_key_pos(s, n - 1);
                if rec.compressed_size is Some {
                    assert(gunzip_of(rec.data) == Some(data));
                }
            }
        }
        Ok(())
    }

    /// Restore the serialized state of a component instance for a
    /// serializer of `format_version`: nothing if none is kept; an error if
    /// it was kept in another version, no longer matches its checksum (where
    /// integrity is validated) or does not decompress; else its bytes.
    pub fn restore_state(&self, instance_id: &str, format_version: u32) -> (r: Result<
        Option<Vec<u8>>,
        StateSerializationError,
    >)
        requires
            self.wf(),
        ensures
            match self.restore_outcome(instance_id@, format_version) {
                RestoreOutcome::Missing => r matches Ok(None),
                RestoreOutcome::Restored(d) => r matches Ok(Some(v)) && v@ == d,
                RestoreOutcome::IncompatibleVersion(v) => r matches Err(
                    StateSerializationError::IncompatibleVersion { version },
                ) && version == v,
                RestoreOutcome::IntegrityFailed => r matches Err(
                    StateSerializationError::IntegrityValidationFailed,
                ),
                RestoreOutcome::DecompressionFailed => r matches Err(
                    StateSerializationError::CompressionFailed { .. },
                ),
            },
    {
        let i = match self.find(instance_id) {
            Some(i) => i,
            None => return Ok(None),
        };
        proof {
            lemma_key_pos(self.states(), i as int);
        }
        let state = &self.component_states[i].1;
        assert(state.stored() == self.states()[i as int].1);
        if state.format_version != format_version {
            return Err(StateSerializationError::IncompatibleVersion { version: state.format_version });
        }
        if self.config.validate_integrity {
            match &state.metadata.checksum {
                Some(expected) => {
                    let actual = blake3_hex(state.state_data.as_slice());
                    if actual != *expected {
                        return Err(StateSerializationError::IntegrityValidationFailed);
                    }
                },
                None => {},
            }
        }
        match state.metadata.compressed_size {
            Some(_) => match gzip_decompress(state.state_data.as_slice()) {
                Ok(d) => Ok(Some(d)),
                Err(e) => Err(StateSerializationError::CompressionFailed { reason: io_error_message(&e) }),
            },
            None => {
                let mut d: Vec<u8> = Vec::new();
                let mut k: usize = 0;
                while k < state.state_data.len()
                    invariant
                        k <= state.state_data@.len(),
                        d@ == state.state_data@.subrange(0, k as int),
                    decreases state.state_data@.len() - k,
                {
                    d.push(state.state_data[k]);
                    k = k + 1;
                }
                assert(d@ =~= state.state_data@);
                Ok(Some(d))
            },
        }
    }

    /// Remove preserved state for a component; tells whether there was any.
    pub fn remove_state(&mut self, instance_id: &str) -> (r: bool)
        requires
            old(self).wf(),
        ensures
            final(self).wf(),
            r == has_key(old(self).states(), instance_id@),
            final(self).states() == drop_key(old(self).states(), instance_id@),
            final(self).config() == old(self).config(),
    {
        proof {
            lemma_drop_key(self.states(), instance_id@);
        }
        let ghost before = self.states();
        match self.find(instance_id) {
            Some(i) => {
                self.component_states.remove(i);
                assert(self.states() =~= drop_key(before, instance_id@));
                true
            },
            None => false,
        }
    }

    /// Get all preserved state instances, oldest capture first.
    pub fn get_all_instances(&self) -> (r: Vec<String>)
        ensures
            r@.map_values(|t: String| t@) == self.states().map_values(
                |e: (Seq<char>, StoredState)| e.0,
            ),
    {
        let mut r: Vec<String> = Vec::new();
        let mut i: usize = 0;
        while i < self.component_states.len()
            invariant
                i <= self.component_states@.len(),
                r@.len() == i,
                forall|j: int| 0 <= j < i ==> (#[trigger] r@[j])@ == self.component_states@[j].0@,
            decreases self.component_states@.len() - i,
        {
            r.push(self.component_states[i].0.clone());
            i = i + 1;
        }
        assert(r@.map_values(|t: String| t@) =~= self.states().map_values(
            |e: (Seq<char>, StoredState)| e.0,
        ));
        r
    }

    /// Clear all preserved states
    pub fn clear_all_states(&mut self)
        ensures
            final(self).wf(),
            final(self).states() == Seq::<(Seq<char>, StoredState)>::empty(),
            final(self).config() == old(self).config(),
    {
        self.component_states.clear();
        assert(self.states() =~= Seq::<(Seq<char>, StoredState)>::empty());
    }
}

/// The total size of the kept bytes.
pub open spec fn total_size(s: Seq<(Seq<char>, StoredState)>) -> nat
    decreases s.len(),
{
    if s.len() == 0 {
        0
    } else {
        total_size(s.drop_last()) + s.last().1.data.len()
    }
}

/// The bytes saved by compression over the kept states.
pub open spec fn total_savings(s: Seq<(Seq<char>, StoredState)>) -> int
    decreases s.len(),
{
    if s.len() == 0 {
        0
    } else {
        total_savings(s.drop_last()) + match s.last().1.compressed_size {
            Some(c) => s.last().1.original_size - c,
            None => 0,
        }
    }
}

/// The number of kept states of each component type, types in the order
/// their first state was kept.
pub open spec fn count_by_type(s: Seq<(Seq<char>, StoredState)>) -> Seq<(Seq<char>, nat)>
    decreases s.len(),
{
    if s.len() == 0 {
        Seq::empty()
    } else {
        let before = count_by_type(s.drop_last());
        let t = s.last().1.component_type;
        crate::keyed::put(before, t, match value_of(before, t) {
            Some(n) => n + 1,
            None => 1,
        })
    }
}

/// Every compressed state is no larger than what it was compressed from,
/// and the sizes fit a `usize`.
pub open spec fn sizes_fit(s: Seq<(Seq<char>, StoredState)>) -> bool {
    &&& forall|i: int|
        0 <= i < s.len() ==> match (#[trigger] s[i]).1.compressed_size {
            Some(c) => c <= s[i].1.original_size,
            None => true,
        }
    &&& total_size(s) <= usize::MAX
    &&& total_savings(s) <= usize::MAX
}

proof fn lemma_count_by_type_unique(s: Seq<(Seq<char>, StoredState)>)
    ensures
        unique_keys(count_by_type(s)),
        forall|k: int| 0 <= k < count_by_type(s).len() ==> #[trigger] count_by_type(s)[k].1 <= s.len(),
    decreases s.len(),
{
    if s.len() > 0 {
        let before = count_by_type(s.drop_last());
        lemma_count_by_type_unique(s.drop_last());
        let t = s.last().1.component_type;
        let v = match value_of(before, t) {
            Some(n) => n + 1,
            None => 1nat,
        };
        crate::keyed::lemma_put(before, t, v);
        if crate::keyed::has_key(before, t) {
            lemma_key_pos(before, key_pos(before, t));
        }
        let after = count_by_type(s);
        assert forall|k: int| 0 <= k < after.len() implies #[trigger] after[k].1 <= s.len() by {
            if crate::keyed::has_key(before, t) && k == key_pos(before, t) {
            } else if k < before.len() {
                assert(after[k] == before[k]);
            }
        }
    }
}

proof fn lemma_savings_prefix(s: Seq<(Seq<char>, StoredState)>, i: int)
    requires
        0 <= i <= s.len(),
        forall|j: int|
            0 <= j < s.len() ==> match (#[trigger] s[j]).1.compressed_size {
                Some(c) => c <= s[j].1.original_size,
                None => true,
            },
    ensures
        0 <= total_savings(s.subrange(0, i)) <= total_savings(s),
        total_size(s.subrange(0, i)) <= total_size(s),
    decreases s.len() - i,
{
    let p = s.subrange(0, i);
    assert forall|j: int| 0 <= j < p.len() implies match (#[trigger] p[j]).1.compressed_size {
        Some(c) => c <= p[j].1.original_size,
        None => true,
    } by {
        assert(p[j] == s[j]);
    }
    lemma_savings_nonneg(p);
    if i < s.len() {
        lemma_savings_prefix(s, i + 1);
        let q = s.subrange(0, i + 1);
        assert(q.drop_last() =~= p);
        assert(q.last() == s[i]);
    } else {
        assert(p =~= s);
    }
}

proof fn lemma_savings_nonneg(s: Seq<(Seq<char>, StoredState)>)
    requires
        forall|j: int|
            0 <= j < s.len() ==> match (#[trigger] s[j]).1.compressed_size {
                Some(c) => c <= s[j].1.original_size,
                None => true,
            },
    ensures
        total_savings(s) >= 0,
    decreases s.len(),
{
    if s.len() > 0 {
        lemma_savings_nonneg(s.drop_last());
        assert(s.last() == s[s.len() - 1]);
    }
}

impl StateManager {
    /// Get metadata about preserved state
    pub fn get_state_metadata(&self, instance_id: &str) -> (r: Option<StateMetadata>)
        requires
            self.wf(),
        ensures
            match value_of(self.states(), instance_id@) {
                None => r is None,
                Some(rec) => r matches Some(m) && m.original_size == rec.original_size && match (
                    m.compressed_size,
                    rec.compressed_size,
                ) {
                    (Some(a), Some(b)) => a == b,
                    (None, None) => true,
                    _ => false,
                } && match (m.checksum, rec.checksum) {
                    (Some(a), Some(b)) => a@ == b,
                    (None, None) => true,
                    _ => false,
                },
            },
    {
        match self.find(instance_id) {
            Some(i) => {
                proof {
                    lemma_key_pos(self.states(), i as int);
                }
                let m = &self.component_states[i].1.metadata;
                Some(StateMetadata {
                    original_size: m.original_size,
                    compressed_size: m.compressed_size,
                    checksum: crate::text::copy_opt_text(&m.checksum),
                })
            },
            None => None,
        }
    }

    /// Get statistics about state management; `registered_serializers` is
    /// the number of serializers registered with the caller.
    pub fn get_statistics(&self, registered_serializers: usize) -> (r: StateStatistics)
        requires
            sizes_fit(self.states()),
        ensures
            r.total_states == self.states().len(),
            r.total_size_bytes == total_size(self.states()),
            r.compressed_savings_bytes == total_savings(self.states()),
            r.registered_serializers == registered_serializers,
            r.states_by_type@.map_values(|e: (String, usize)| (e.0@, e.1 as nat)) == count_by_type(
                self.states(),
            ),
    {
        let ghost s = self.states();
        let mut total: usize = 0;
        let mut savings: usize = 0;
        let mut by_type: Vec<(String, usize)> = Vec::new();
        let mut i: usize = 0;
        while i < self.component_states.len()
            invariant
                s == self.states(),
                sizes_fit(s),
                i <= s.len(),
                total == total_size(s.subrange(0, i as int)),
                savings == total_savings(s.subrange(0, i as int)),
                by_type@.map_values(|e: (String, usize)| (e.0@, e.1 as nat)) == count_by_type(
                    s.subrange(0, i as int),
                ),
            decreases s.len() - i,
        {
            let state = &self.component_states[i].1;
            let ghost prefix = s.subrange(0, i + 1);
            proof {
                assert(prefix.drop_last() =~= s.subrange(0, i as int));
                assert(prefix.last() == s[i as int]);
                assert(s[i as int].1 == state.stored());
                lemma_savings_prefix(s, i + 1);
                lemma_count_by_type_unique(s.subrange(0, i as int));
            }
            total = total + state.state_data.len();
            match state.metadata.compressed_size {
                Some(c) => {
                    savings = savings + (state.metadata.original_size - c);
                },
                None => {},
            }
            let ghost before = by_type@.map_values(|e: (String, usize)| (e.0@, e.1 as nat));
            let mut j: usize = 0;
            let mut found = false;
            while j < by_type.len() && !found
                invariant
                    j <= by_type@.len(),
                    before == by_type@.map_values(|e: (String, usize)| (e.0@, e.1 as nat)),
                    found ==> j < by_type@.len() && by_type@[j as int].0@ == state.component_type@,
                    forall|m: int| 0 <= m < j ==> by_type@[m].0@ != state.component_type@,
                decreases by_type@.len() - j + (if found { 0int } else { 1int }),
            {
                if by_type[j].0 == state.component_type {
                    found = true;
                } else {
                    j = j + 1;
                }
            }
            proof {
                assert(unique_keys(before));
                crate::keyed::lemma_put(before, state.component_type@, match value_of(before, state.component_type@) {
                    Some(n) => n + 1,
                    None => 1nat,
                });
            }
            if found {
                proof {
                    assert(before[j as int].0 == state.component_type@);
                    lemma_key_pos(before, j as int);
                    assert(before[j as int].1 <= i);
                }
                let n = by_type[j].1;
                let name = by_type[j].0.clone();
                by_type.set(j, (name, n + 1));
                assert(by_type@.map_values(|e: (String, usize)| (e.0@, e.1 as nat)) =~= crate::keyed::put(
                    before,
                    state.component_type@,
                    (n + 1) as nat,
                ));
            } else {
                proof {
                    if crate::keyed::has_key(before, state.component_type@) {
                        let k = key_pos(before, state.component_type@);
                        assert(by_type@[k].0@ == state.component_type@);
                    }
                }
                by_type.push((state.component_type.clone(), 1));
                assert(by_type@.map_values(|e: (String, usize)| (e.0@, e.1 as nat)) =~= crate::keyed::put(
                    before,
                    state.component_type@,
                    1nat,
                ));
            }
            i = i + 1;
        }
        assert(s.subrange(0, i as int) =~= s);
        StateStatistics {
            total_states: self.component_states.len(),
            total_size_bytes: total,
            compressed_savings_bytes: savings,
            registered_serializers,
            states_by_type: by_type,
        }
    }
}

} // verus!
