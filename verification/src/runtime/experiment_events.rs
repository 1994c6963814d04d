//! What a running experiment reports about itself. These records are facts: no
//! threshold is evaluated here, and nothing here stops or starts a process.
use crate::error::{invalid, Error};
use crate::excerpt;
use crate::excerpt::{floor_boundary, part};
use crate::json;
use crate::json::{number_field, parse_json, text_field};
use crate::planning::scope;
use crate::planning::scope::{any_piece, ProtectedPath};
use crate::planning::validation;
use crate::planning::validation::unless;
use crate::repository;
use crate::repository::{to_hex, WorkspaceId};
use crate::runtime::worktree;
use crate::runtime::worktree::lies_inside;
use crate::store::Store;
use crate::text;
use vstd::bytes::*;
use vstd::prelude::*;
use vstd::string::*;
use vstd::utf8::*;

verus! {

/// The variable that tells a process where to write its events.
pub const EVENT_FILE_ENV: &'static str = "AGENTCTL_EVENT_FILE";

pub const MAX_EVENT_FRAME_BYTES: usize = 65_536;

pub const DEFAULT_EVENT_QUERY_LIMIT: usize = 1_000;

pub const MAX_EVENT_QUERY_LIMIT: usize = 10_000;

/// How much one poll reads.
pub const READ_BYTES_PER_POLL: usize = 262_144;

/// How many events one poll takes in before it stops reading.
pub const DRAFTS_PER_POLL: usize = 512;

/// The largest checkpoint whose content is hashed.
pub const MAX_CHECKPOINT_HASH_BYTES: u64 = 67_108_864;

// ---------------------------------------------------------------------------
// Events
// ---------------------------------------------------------------------------

/// A label of a metric series.
#[derive(Debug, PartialEq, Eq)]
pub struct Tag {
    pub key: String,
    pub value: String,
}

impl Clone for Tag {
    fn clone(&self) -> (r: Self)
        ensures
            r == *self,
    {
        Tag { key: self.key.clone(), value: self.value.clone() }
    }
}

pub fn copied_tags(tags: &Vec<Tag>) -> (r: Vec<Tag>)
    ensures
        r@ == tags@,
{
    let mut out: Vec<Tag> = Vec::new();
    let mut i: usize = 0;
    while i < tags.len()
        invariant
            i <= tags@.len(),
            out@ == tags@.take(i as int),
        decreases tags@.len() - i,
    {
        out.push(tags[i].clone());
        i += 1;
        assert(out@ =~= tags@.take(i as int));
    }
    assert(out@ =~= tags@);
    out
}

#[derive(Debug, Clone, Copy, PartialEq, Eq, Structural)]
pub enum ExperimentHealthKind {
    Heartbeat,
    Warning,
    Error,
    IngestionError,
    NonfiniteMetric,
}

#[derive(Debug, PartialEq, Eq)]
pub enum ExperimentEventData {
    Metric {
        name: String,
        /// The bits of the value, in double precision.
        value: u64,
        step: Option<u64>,
        epoch: Option<u64>,
        index: Option<u64>,
        unit: Option<String>,
        /// In the order of their keys.
        tags: Vec<Tag>,
    },
    Checkpoint {
        name: String,
        path: String,
        step: Option<u64>,
        epoch: Option<u64>,
        byte_size: u64,
        modified_at_ms: Option<u64>,
        content_hash: Option<String>,
    },
    Health { kind: ExperimentHealthKind, message: Option<String> },
    ProcessStatus { status: String, message: Option<String> },
}

/// Whether two events say the same.
pub open spec fn same_event(a: ExperimentEventData, b: ExperimentEventData) -> bool {
    match (a, b) {
        (
            ExperimentEventData::Metric { name: n, value: v, step: s, epoch: e, index: i, unit: u, tags: t },
            ExperimentEventData::Metric {
                name: n2,
                value: v2,
                step: s2,
                epoch: e2,
                index: i2,
                unit: u2,
                tags: t2,
            },
        ) => n == n2 && v == v2 && s == s2 && e == e2 && i == i2 && u == u2 && t@ == t2@,
        (ExperimentEventData::Metric { .. }, _) => false,
        (_, ExperimentEventData::Metric { .. }) => false,
        _ => a == b,
    }
}

impl ExperimentEventData {
    pub open spec fn kind_name(self) -> Seq<char> {
        match self {
            ExperimentEventData::Metric { .. } => "METRIC"@,
            ExperimentEventData::Checkpoint { .. } => "CHECKPOINT"@,
            ExperimentEventData::Health { .. } => "HEALTH"@,
            ExperimentEventData::ProcessStatus { .. } => "PROCESS_STATUS"@,
        }
    }

    pub fn event_type(&self) -> (r: &'static str)
        ensures
            r@ == self.kind_name(),
    {
        match self {
            ExperimentEventData::Metric { .. } => "METRIC",
            ExperimentEventData::Checkpoint { .. } => "CHECKPOINT",
            ExperimentEventData::Health { .. } => "HEALTH",
            ExperimentEventData::ProcessStatus { .. } => "PROCESS_STATUS",
        }
    }

    /// Whether this is a metric of a name.
    pub open spec fn measures(self, name: Seq<char>) -> bool {
        self matches ExperimentEventData::Metric { name: n, .. } && n@ == name
    }

    pub fn metric_name(&self) -> (r: Option<&str>)
        ensures
            match r {
                Some(n) => self.measures(n@),
                None => !(self is Metric),
            },
    {
        match self {
            ExperimentEventData::Metric { name, .. } => Some(name.as_str()),
            _ => None,
        }
    }

    pub fn copy(&self) -> (r: Self)
        ensures
            same_event(r, *self),
    {
        match self {
            ExperimentEventData::Metric {
                name,
                value,
                step,
                epoch,
                index,
                unit,
                tags,
            } => ExperimentEventData::Metric {
                name: name.clone(),
                value: *value,
                step: *step,
                epoch: *epoch,
                index: *index,
                unit: unit.clone(),
                tags: copied_tags(tags),
            },
            ExperimentEventData::Checkpoint {
                name,
                path,
                step,
                epoch,
                byte_size,
                modified_at_ms,
                content_hash,
            } => ExperimentEventData::Checkpoint {
                name: name.clone(),
                path: path.clone(),
                step: *step,
                epoch: *epoch,
                byte_size: *byte_size,
                modified_at_ms: *modified_at_ms,
                content_hash: content_hash.clone(),
            },
            ExperimentEventData::Health { kind, message } => ExperimentEventData::Health {
                kind: *kind,
                message: message.clone(),
            },
            ExperimentEventData::ProcessStatus {
                status,
                message,
            } => ExperimentEventData::ProcessStatus {
                status: status.clone(),
                message: message.clone(),
            },
        }
    }
}

#[derive(Debug, PartialEq, Eq)]
pub struct ExperimentRuntimeEvent {
    pub arrival_sequence: i64,
    pub experiment_id: String,
    pub workspace_id: WorkspaceId,
    pub attempt: u32,
    pub channel: String,
    pub source_sequence: u64,
    pub timestamp_ms: u64,
    pub observed_at_ms: u64,
    pub source: String,
    pub event: ExperimentEventData,
}

/// A recorded event and the hash of the frame that it came in.
#[derive(Debug, PartialEq, Eq)]
pub struct StoredEvent {
    pub event: ExperimentRuntimeEvent,
    pub frame_hash: String,
}

/// A value of a metric: its bits.
#[derive(Debug, PartialEq, Eq)]
pub struct LatestMetric {
    pub name: String,
    pub value: u64,
}

#[derive(Debug, PartialEq, Eq)]
pub struct ExperimentEventSummary {
    pub event_count: u64,
    pub last_event_timestamp_ms: Option<u64>,
    /// In the order of their names.
    pub latest_metrics: Vec<LatestMetric>,
    pub latest_checkpoint: Option<String>,
    pub ingestion_errors: u64,
}

#[derive(Debug, PartialEq, Eq)]
pub struct ExperimentEventQuery {
    pub attempt: Option<u32>,
    pub event_type: Option<String>,
    pub metric_name: Option<String>,
    pub limit: usize,
}

/// What a process writes on one line.
#[derive(Debug, PartialEq, Eq)]
pub enum EventFrame {
    Metric {
        sequence: u64,
        timestamp_ms: u64,
        source: String,
        name: String,
        value: u64,
        step: Option<u64>,
        epoch: Option<u64>,
        index: Option<u64>,
        unit: Option<String>,
        tags: Vec<Tag>,
    },
    Checkpoint {
        sequence: u64,
        timestamp_ms: u64,
        source: String,
        name: String,
        path: String,
        step: Option<u64>,
        epoch: Option<u64>,
    },
    Health {
        sequence: u64,
        timestamp_ms: u64,
        source: String,
        kind: ExperimentHealthKind,
        message: Option<String>,
    },
    Status {
        sequence: u64,
        timestamp_ms: u64,
        source: String,
        status: String,
        message: Option<String>,
    },
}

/// An event that is about to be recorded.
#[derive(Debug, PartialEq, Eq)]
pub struct Draft {
    pub channel: &'static str,
    pub source_sequence: u64,
    pub timestamp_ms: u64,
    pub observed_at_ms: u64,
    pub source: String,
    pub event: ExperimentEventData,
    pub frame_hash: String,
    pub line_number: u64,
}

pub const EVENT_FILE: &'static str = "EVENT_FILE";

pub const INGESTION: &'static str = "INGESTION";

// ---------------------------------------------------------------------------
// Hashes
// ---------------------------------------------------------------------------

/// The BLAKE3 hash of a byte sequence.
pub uninterp spec fn blake3_of(bytes: Seq<u8>) -> Seq<u8>;

/// `blake3::hash`: the hash is a function of the bytes and is 32 bytes long.
#[verifier::external_body]
fn blake3_hash(bytes: &[u8]) -> (r: Vec<u8>)
    ensures
        r@ == blake3_of(bytes@),
        r@.len() == 32,
{
    blake3::hash(bytes).as_bytes().to_vec()
}

/// How a hash is written.
pub open spec fn hash_text(hash: Seq<u8>) -> Seq<char> {
    "blake3:"@ + repository::hex(hash)
}

pub fn write_hash(hash: &Vec<u8>) -> (r: String)
    ensures
        r@ == hash_text(hash@),
{
    let digits: String = to_hex(hash);
    text::join2("blake3:", digits.as_str())
}

/// The hash of some bytes, as it is written.
pub fn content_hash(bytes: &Vec<u8>) -> (r: String)
    ensures
        r@ == hash_text(blake3_of(bytes@)),
{
    let hash: Vec<u8> = blake3_hash(bytes.as_slice());
    write_hash(&hash)
}

// ---------------------------------------------------------------------------
// Rules
// ---------------------------------------------------------------------------

/// Why a text is not a bounded line, if it is not.
pub open spec fn bounded_refusal(value: Seq<char>, name: Seq<char>, max: nat) -> Option<Seq<char>> {
    if text::blank(value) {
        Some(name + " cannot be blank"@)
    } else if text::size(value) > max {
        Some(name + " exceeds "@ + text::digits(max) + " bytes"@)
    } else if exists|i: int| 0 <= i < value.len() && text::is_control(#[trigger] value[i]) {
        Some(name + " contains control characters"@)
    } else {
        None
    }
}

pub fn bounded(value: &str, name: &str, max: usize) -> (r: Result<(), Error>)
    ensures
        crate::error::settles(r, bounded_refusal(value@, name@, max as nat)),
{
    if text::is_blank(value) {
        let said: String = text::join2(name, " cannot be blank");
        return invalid(said.as_str());
    }
    if text::byte_len(value) > max {
        let most: String = text::decimal(max as u64);
        let said: String = text::join3(name, " exceeds ", most.as_str());
        let said: String = text::join2(said.as_str(), " bytes");
        return invalid(said.as_str());
    }
    if text::has_control(value) {
        let said: String = text::join2(name, " contains control characters");
        return invalid(said.as_str());
    }
    Ok(())
}

/// The same of a text that may be missing.
pub open spec fn optional_refusal(value: Option<String>, name: Seq<char>, max: nat) -> Option<
    Seq<char>,
> {
    match value {
        Some(v) => bounded_refusal(v@, name, max),
        None => None,
    }
}

fn bounded_if_any(value: &Option<String>, name: &str, max: usize) -> (r: Result<(), Error>)
    ensures
        crate::error::settles(r, optional_refusal(*value, name@, max as nat)),
{
    match value {
        Some(v) => bounded(v.as_str(), name, max),
        None => Ok(()),
    }
}

/// Whether a character may stand in the name of a metric.
pub open spec fn is_name_char(c: char) -> bool {
    text::is_alphanumeric(c) || c == '_' || c == '.' || c == '/' || c == '-'
}

pub const NAME_START: &'static str = "metric name must start with an ASCII letter, digit, or '_'";

pub const NAME_CHARACTERS: &'static str =
    "metric name may contain only ASCII letters, digits, '_', '.', '/', and '-'";

/// Why a text is not the name of a metric, if it is not.
pub open spec fn name_refusal(name: Seq<char>) -> Option<Seq<char>> {
    crate::error::either(
        bounded_refusal(name, "metric name"@, 128),
        if !(name.len() > 0 && (text::is_alphanumeric(name[0]) || name[0] == '_')) {
            Some(NAME_START@)
        } else if !(forall|i: int| 0 <= i < name.len() ==> is_name_char(#[trigger] name[i])) {
            Some(NAME_CHARACTERS@)
        } else {
            None
        },
    )
}

pub fn metric_name(name: &str) -> (r: Result<(), Error>)
    ensures
        crate::error::settles(r, name_refusal(name@)),
{
    match bounded(name, "metric name", 128) {
        Ok(()) => {},
        Err(e) => return Err(e),
    }
    let all: Vec<char> = text::chars(name);
    if all.len() == 0 || !(text::alphanumeric(all[0]) || all[0] == '_') {
        return invalid(NAME_START);
    }
    let mut i: usize = 0;
    while i < all.len()
        invariant
            i <= all@.len(),
            all@ == name@,
            bounded_refusal(name@, "metric name"@, 128) is None,
            name@.len() > 0 && (text::is_alphanumeric(name@[0]) || name@[0] == '_'),
            forall|j: int| 0 <= j < i ==> is_name_char(#[trigger] name@[j]),
        decreases all@.len() - i,
    {
        let c: char = all[i];
        if !(text::alphanumeric(c) || c == '_' || c == '.' || c == '/' || c == '-') {
            assert(!is_name_char(name@[i as int]));
            return invalid(NAME_CHARACTERS);
        }
        i += 1;
    }
    Ok(())
}

/// The largest number that the event store holds.
pub const LARGEST: u64 = 9_223_372_036_854_775_807;

pub const SEQUENCE_RANGE: &'static str = "event sequence exceeds SQLite range";

pub const TIMESTAMP_RANGE: &'static str = "event timestamp exceeds SQLite range";

/// Why what all frames have in common is not acceptable, if it is not.
pub open spec fn common_refusal(sequence: u64, timestamp_ms: u64, source: Seq<char>) -> Option<
    Seq<char>,
> {
    if sequence > LARGEST {
        Some(SEQUENCE_RANGE@)
    } else if timestamp_ms > LARGEST {
        Some(TIMESTAMP_RANGE@)
    } else {
        bounded_refusal(source, "event source"@, 128)
    }
}

pub fn validate_common(sequence: u64, timestamp_ms: u64, source: &str) -> (r: Result<(), Error>)
    ensures
        crate::error::settles(r, common_refusal(sequence, timestamp_ms, source@)),
{
    if sequence > LARGEST {
        return invalid(SEQUENCE_RANGE);
    }
    if timestamp_ms > LARGEST {
        return invalid(TIMESTAMP_RANGE);
    }
    bounded(source, "event source", 128)
}

// ---------------------------------------------------------------------------
// Values
// ---------------------------------------------------------------------------

/// Whether the bits of a double precision number are those of a finite one: its
/// exponent is not the largest.
pub open spec fn finite(bits: u64) -> bool {
    (bits / 4_503_599_627_370_496) % 2_048 != 2_047
}

pub fn is_finite(bits: u64) -> (r: bool)
    ensures
        r == finite(bits),
{
    (bits / 4_503_599_627_370_496) % 2_048 != 2_047
}

// ---------------------------------------------------------------------------
// Checkpoints
// ---------------------------------------------------------------------------

pub const PATH_BYTES: &'static str = "checkpoint path exceeds 1024 bytes";

pub const PATH_ADMINISTRATIVE: &'static str =
    "checkpoint path may not enter Git or agentctl administrative storage";

pub const PATH_ESCAPES: &'static str = "checkpoint path escapes workspace";

pub const PATH_RESOLVES: &'static str =
    "checkpoint path resolves into Git or agentctl administrative storage";

pub const PATH_REGULAR: &'static str = "checkpoint path must name a regular file";

/// The first protected path from the `i`-th on that a path is or lies below.
pub open spec fn protected_refusal(rules: Seq<ProtectedPath>, path: Seq<char>, i: int) -> Option<
    Seq<char>,
>
    decreases rules.len() - i,
{
    if i < 0 || i >= rules.len() {
        None
    } else if scope::below(path, rules[i].path@) {
        Some("checkpoint path intersects protected path "@ + rules[i].path@)
    } else {
        protected_refusal(rules, path, i + 1)
    }
}

/// Why a checkpoint cannot have a name and a path, if it cannot. `path_rule` is
/// what the path rule of the repository has against the path.
pub open spec fn checkpoint_refusal(
    name: Seq<char>,
    path: Seq<char>,
    path_rule: Option<String>,
    rules: Seq<ProtectedPath>,
) -> Option<Seq<char>> {
    crate::error::either(
        bounded_refusal(name, "checkpoint name"@, 128),
        if text::size(path) > 1_024 {
            Some(PATH_BYTES@)
        } else {
            crate::error::either(
                validation::message(path_rule),
                if text::pieces(path, '/').contains(".git"@) || text::pieces(path, '/').contains(
                    ".agentctl"@,
                ) {
                    Some(PATH_ADMINISTRATIVE@)
                } else {
                    protected_refusal(rules, path, 0)
                },
            )
        },
    )
}

/// Checks what a checkpoint is called, before anything is looked up.
pub fn check_checkpoint(
    name: &str,
    path: &str,
    path_rule: &Option<String>,
    rules: &Vec<ProtectedPath>,
) -> (r: Result<(), Error>)
    ensures
        crate::error::settles(r, checkpoint_refusal(name@, path@, *path_rule, rules@)),
{
    match bounded(name, "checkpoint name", 128) {
        Ok(()) => {},
        Err(e) => return Err(e),
    }
    if text::byte_len(path) > 1_024 {
        return invalid(PATH_BYTES);
    }
    match unless(path_rule) {
        Ok(()) => {},
        Err(e) => return Err(e),
    }
    let pieces: Vec<&str> = text::split_ascii(path, 47u8);
    assert(47u8 as char == '/');
    if any_piece(&pieces, ".git") || any_piece(&pieces, ".agentctl") {
        return invalid(PATH_ADMINISTRATIVE);
    }
    let mut i: usize = 0;
    while i < rules.len()
        invariant
            i <= rules@.len(),
            checkpoint_refusal(name@, path@, *path_rule, rules@) == protected_refusal(
                rules@,
                path@,
                i as int,
            ),
        decreases rules@.len() - i,
    {
        if scope::inside(path, rules[i].path.as_str()) {
            let said: String = text::join2(
                "checkpoint path intersects protected path ",
                rules[i].path.as_str(),
            );
            return invalid(said.as_str());
        }
        i += 1;
    }
    Ok(())
}

/// Where a path leads, and what it must not lead into: components of canonical
/// paths. A protected path that leads nowhere has none.
#[derive(Debug, PartialEq, Eq)]
pub struct Places {
    pub canonical: Vec<String>,
    pub root: Vec<String>,
    pub administrative: Vec<Vec<String>>,
    pub protected: Vec<Option<Vec<String>>>,
}

/// Whether a path lies in one of some directories.
pub open spec fn within_any(path: Seq<Seq<char>>, directories: Seq<Vec<String>>) -> bool {
    exists|i: int|
        0 <= i < directories.len() && worktree::inside(
            path,
            text::texts((#[trigger] directories[i])@),
        )
}

/// The first protected path from the `i`-th on that a path leads into.
pub open spec fn resolves_refusal(
    rules: Seq<ProtectedPath>,
    protected: Seq<Option<Vec<String>>>,
    path: Seq<Seq<char>>,
    i: int,
) -> Option<Seq<char>>
    decreases rules.len() - i,
{
    if i < 0 || i >= rules.len() {
        None
    } else if protected[i] matches Some(p) && worktree::inside(path, text::texts(p@)) {
        Some("checkpoint path resolves into protected path "@ + rules[i].path@)
    } else {
        resolves_refusal(rules, protected, path, i + 1)
    }
}

/// Why a checkpoint cannot lie where its path leads, if it cannot.
pub open spec fn place_refusal(places: Places, rules: Seq<ProtectedPath>) -> Option<Seq<char>> {
    let path = text::texts(places.canonical@);
    if !worktree::inside(path, text::texts(places.root@)) {
        Some(PATH_ESCAPES@)
    } else if within_any(path, places.administrative@) {
        Some(PATH_RESOLVES@)
    } else {
        resolves_refusal(rules, places.protected@, path, 0)
    }
}

fn lies_within_any(path: &Vec<String>, directories: &Vec<Vec<String>>) -> (r: bool)
    ensures
        r == within_any(text::texts(path@), directories@),
{
    let mut i: usize = 0;
    while i < directories.len()
        invariant
            i <= directories@.len(),
            forall|k: int|
                0 <= k < i ==> !worktree::inside(
                    text::texts(path@),
                    text::texts((#[trigger] directories@[k])@),
                ),
        decreases directories@.len() - i,
    {
        if lies_inside(path, &directories[i]) {
            return true;
        }
        i += 1;
    }
    false
}

/// Checks where the path of a checkpoint leads.
pub fn check_place(places: &Places, rules: &Vec<ProtectedPath>) -> (r: Result<(), Error>)
    requires
        places.protected@.len() == rules@.len(),
    ensures
        crate::error::settles(r, place_refusal(*places, rules@)),
{
    if !lies_inside(&places.canonical, &places.root) {
        return invalid(PATH_ESCAPES);
    }
    if lies_within_any(&places.canonical, &places.administrative) {
        return invalid(PATH_RESOLVES);
    }
    let mut i: usize = 0;
    while i < rules.len()
        invariant
            i <= rules@.len(),
            places.protected@.len() == rules@.len(),
            place_refusal(*places, rules@) == resolves_refusal(
                rules@,
                places.protected@,
                text::texts(places.canonical@),
                i as int,
            ),
        decreases rules@.len() - i,
    {
        match &places.protected[i] {
            Some(p) => {
                if lies_inside(&places.canonical, p) {
                    let said: String = text::join2(
                        "checkpoint path resolves into protected path ",
                        rules[i].path.as_str(),
                    );
                    return invalid(said.as_str());
                }
            },
            None => {},
        }
        i += 1;
    }
    Ok(())
}

/// What was read of a checkpoint. Its content is read only where it is small
/// enough to be hashed.
#[derive(Debug, PartialEq, Eq)]
pub struct FileFacts {
    pub is_file: bool,
    pub byte_size: u64,
    pub modified_at_ms: Option<u64>,
    pub content: Vec<u8>,
    /// Whether size and time were the same after the content was read.
    pub unchanged: bool,
}

/// What is recorded of the file of a checkpoint.
#[derive(Debug, PartialEq, Eq)]
pub struct CheckpointFile {
    pub byte_size: u64,
    pub modified_at_ms: Option<u64>,
    pub content_hash: Option<String>,
}

/// Whether the content of a file is to be hashed.
pub fn is_hashed(byte_size: u64) -> (r: bool)
    ensures
        r == (byte_size <= MAX_CHECKPOINT_HASH_BYTES),
{
    byte_size <= MAX_CHECKPOINT_HASH_BYTES
}

/// Describes the file of a checkpoint. A file that changed while it was read has
/// no hash.
pub fn describe(file: &FileFacts) -> (r: Result<CheckpointFile, Error>)
    ensures
        crate::error::settles(
            r,
            if !file.is_file {
                Some(PATH_REGULAR@)
            } else {
                None
            },
        ),
        r matches Ok(c) ==> {
            &&& c.byte_size == file.byte_size
            &&& c.modified_at_ms == file.modified_at_ms
            &&& validation::message(c.content_hash) == if file.byte_size
                <= MAX_CHECKPOINT_HASH_BYTES && file.unchanged {
                Some(hash_text(blake3_of(file.content@)))
            } else {
                None
            }
        },
{
    if !file.is_file {
        return invalid(PATH_REGULAR);
    }
    let hash: Option<String> = if is_hashed(file.byte_size) && file.unchanged {
        Some(content_hash(&file.content))
    } else {
        None
    };
    Ok(
        CheckpointFile {
            byte_size: file.byte_size,
            modified_at_ms: file.modified_at_ms,
            content_hash: hash,
        },
    )
}

// ---------------------------------------------------------------------------
// Frames
// ---------------------------------------------------------------------------

pub const NOT_FINITE: &'static str = "metric value must be finite";

pub const TOO_MANY_TAGS: &'static str = "metric tags exceed 16 entries";

pub const RESERVED_KIND: &'static str = "controller-reserved health kind";

/// Why the tags from the `i`-th on are not acceptable, if they are not.
pub open spec fn tags_refusal(tags: Seq<Tag>, i: int) -> Option<Seq<char>>
    decreases tags.len() - i,
{
    if i < 0 || i >= tags.len() {
        None
    } else {
        crate::error::either(
            bounded_refusal(tags[i].key@, "metric tag key"@, 64),
            crate::error::either(
                bounded_refusal(tags[i].value@, "metric tag value"@, 256),
                tags_refusal(tags, i + 1),
            ),
        )
    }
}

fn check_tags(tags: &Vec<Tag>) -> (r: Result<(), Error>)
    ensures
        crate::error::settles(r, tags_refusal(tags@, 0)),
{
    let mut i: usize = 0;
    while i < tags.len()
        invariant
            i <= tags@.len(),
            tags_refusal(tags@, 0) == tags_refusal(tags@, i as int),
        decreases tags@.len() - i,
    {
        match bounded(tags[i].key.as_str(), "metric tag key", 64) {
            Ok(()) => {},
            Err(e) => return Err(e),
        }
        match bounded(tags[i].value.as_str(), "metric tag value", 256) {
            Ok(()) => {},
            Err(e) => return Err(e),
        }
        i += 1;
    }
    Ok(())
}

/// Why a metric is not acceptable, if it is not.
pub open spec fn metric_refusal(
    name: Seq<char>,
    value: u64,
    unit: Option<String>,
    tags: Seq<Tag>,
) -> Option<Seq<char>> {
    crate::error::either(
        name_refusal(name),
        if !finite(value) {
            Some(NOT_FINITE@)
        } else {
            crate::error::either(
                optional_refusal(unit, "metric unit"@, 32),
                if tags.len() > 16 {
                    Some(TOO_MANY_TAGS@)
                } else {
                    tags_refusal(tags, 0)
                },
            )
        },
    )
}

fn check_metric(name: &str, value: u64, unit: &Option<String>, tags: &Vec<Tag>) -> (r: Result<
    (),
    Error,
>)
    ensures
        crate::error::settles(r, metric_refusal(name@, value, *unit, tags@)),
{
    match metric_name(name) {
        Ok(()) => {},
        Err(e) => return Err(e),
    }
    if !is_finite(value) {
        return invalid(NOT_FINITE);
    }
    match bounded_if_any(unit, "metric unit", 32) {
        Ok(()) => {},
        Err(e) => return Err(e),
    }
    if tags.len() > 16 {
        return invalid(TOO_MANY_TAGS);
    }
    check_tags(tags)
}

impl EventFrame {
    pub open spec fn sequence(self) -> u64 {
        match self {
            EventFrame::Metric { sequence, .. } => sequence,
            EventFrame::Checkpoint { sequence, .. } => sequence,
            EventFrame::Health { sequence, .. } => sequence,
            EventFrame::Status { sequence, .. } => sequence,
        }
    }

    pub open spec fn timestamp_ms(self) -> u64 {
        match self {
            EventFrame::Metric { timestamp_ms, .. } => timestamp_ms,
            EventFrame::Checkpoint { timestamp_ms, .. } => timestamp_ms,
            EventFrame::Health { timestamp_ms, .. } => timestamp_ms,
            EventFrame::Status { timestamp_ms, .. } => timestamp_ms,
        }
    }

    pub open spec fn source(self) -> String {
        match self {
            EventFrame::Metric { source, .. } => source,
            EventFrame::Checkpoint { source, .. } => source,
            EventFrame::Health { source, .. } => source,
            EventFrame::Status { source, .. } => source,
        }
    }
}

/// Why a frame is not acceptable, if it is not. Of a checkpoint, `file` is what
/// was found out about its file, or why that was refused.
pub open spec fn frame_refusal(frame: EventFrame, file: Result<CheckpointFile, String>) -> Option<
    Seq<char>,
> {
    crate::error::either(
        match frame {
            EventFrame::Metric { name, value, unit, tags, .. } => metric_refusal(
                name@,
                value,
                unit,
                tags@,
            ),
            EventFrame::Checkpoint { .. } => match file {
                Ok(_) => None,
                Err(m) => Some(m@),
            },
            EventFrame::Health { kind, message, .. } => if kind is IngestionError
                || kind is NonfiniteMetric {
                Some(RESERVED_KIND@)
            } else {
                optional_refusal(message, "health message"@, 512)
            },
            EventFrame::Status { status, message, .. } => crate::error::either(
                bounded_refusal(status@, "process status"@, 64),
                optional_refusal(message, "process status message"@, 512),
            ),
        },
        common_refusal(frame.sequence(), frame.timestamp_ms(), frame.source()@),
    )
}

/// The event that a frame reports.
pub open spec fn reported(frame: EventFrame, file: Result<CheckpointFile, String>) -> ExperimentEventData {
    match frame {
        EventFrame::Metric {
            name,
            value,
            step,
            epoch,
            index,
            unit,
            tags,
            ..
        } => ExperimentEventData::Metric { name, value, step, epoch, index, unit, tags },
        EventFrame::Checkpoint {
            name,
            path,
            step,
            epoch,
            ..
        } => ExperimentEventData::Checkpoint {
            name,
            path,
            step,
            epoch,
            byte_size: file->Ok_0.byte_size,
            modified_at_ms: file->Ok_0.modified_at_ms,
            content_hash: file->Ok_0.content_hash,
        },
        EventFrame::Health { kind, message, .. } => ExperimentEventData::Health { kind, message },
        EventFrame::Status {
            status,
            message,
            ..
        } => ExperimentEventData::ProcessStatus { status, message },
    }
}

/// A frame that was accepted.
#[derive(Debug, PartialEq, Eq)]
pub struct Accepted {
    pub sequence: u64,
    pub timestamp_ms: u64,
    pub source: String,
    pub event: ExperimentEventData,
}

/// Checks a frame and takes its event.
pub fn validate_frame(frame: EventFrame, file: Result<CheckpointFile, String>) -> (r: Result<
    Accepted,
    Error,
>)
    ensures
        crate::error::settles(r, frame_refusal(frame, file)),
        r matches Ok(a) ==> a.sequence == frame.sequence() && a.timestamp_ms
            == frame.timestamp_ms() && a.source == frame.source() && a.event == reported(
            frame,
            file,
        ),
{
    let accepted: Accepted = match frame {
        EventFrame::Metric {
            sequence,
            timestamp_ms,
            source,
            name,
            value,
            step,
            epoch,
            index,
            unit,
            tags,
        } => {
            match check_metric(name.as_str(), value, &unit, &tags) {
                Ok(()) => {},
                Err(e) => return Err(e),
            }
            Accepted {
                sequence,
                timestamp_ms,
                source,
                event: ExperimentEventData::Metric { name, value, step, epoch, index, unit, tags },
            }
        },
        EventFrame::Checkpoint { sequence, timestamp_ms, source, name, path, step, epoch } => {
            let found: CheckpointFile = match file {
                Ok(f) => f,
                Err(m) => return invalid(m.as_str()),
            };
            Accepted {
                sequence,
                timestamp_ms,
                source,
                event: ExperimentEventData::Checkpoint {
                    name,
                    path,
                    step,
                    epoch,
                    byte_size: found.byte_size,
                    modified_at_ms: found.modified_at_ms,
                    content_hash: found.content_hash,
                },
            }
        },
        EventFrame::Health { sequence, timestamp_ms, source, kind, message } => {
            match kind {
                ExperimentHealthKind::IngestionError | ExperimentHealthKind::NonfiniteMetric => {
                    return invalid(RESERVED_KIND);
                },
                _ => {},
            }
            match bounded_if_any(&message, "health message", 512) {
                Ok(()) => {},
                Err(e) => return Err(e),
            }
            Accepted {
                sequence,
                timestamp_ms,
                source,
                event: ExperimentEventData::Health { kind, message },
            }
        },
        EventFrame::Status { sequence, timestamp_ms, source, status, message } => {
            match bounded(status.as_str(), "process status", 64) {
                Ok(()) => {},
                Err(e) => return Err(e),
            }
            match bounded_if_any(&message, "process status message", 512) {
                Ok(()) => {},
                Err(e) => return Err(e),
            }
            Accepted {
                sequence,
                timestamp_ms,
                source,
                event: ExperimentEventData::ProcessStatus { status, message },
            }
        },
    };
    match validate_common(accepted.sequence, accepted.timestamp_ms, accepted.source.as_str()) {
        Ok(()) => Ok(accepted),
        Err(e) => Err(e),
    }
}

// ---------------------------------------------------------------------------
// Rejections
// ---------------------------------------------------------------------------

/// The longest message that a rejection carries, in bytes.
pub const MAX_MESSAGE_BYTES: usize = 512;

/// Whether a text is a message cut to what a rejection may carry.
pub open spec fn shortens(s: Seq<char>, message: Seq<char>) -> bool {
    encode_utf8(s) == if text::size(message) > MAX_MESSAGE_BYTES {
        encode_utf8(message).subrange(
            0,
            excerpt::floor(encode_utf8(message), MAX_MESSAGE_BYTES as int),
        )
    } else {
        encode_utf8(message)
    }
}

fn shorten(message: &str) -> (r: String)
    ensures
        shortens(r@, message@),
{
    if text::byte_len(message) > MAX_MESSAGE_BYTES {
        let end: usize = floor_boundary(message, MAX_MESSAGE_BYTES);
        proof {
            encode_utf8_valid_utf8(message@);
            is_char_boundary_start_end_of_seq(message.spec_bytes());
        }
        part(message, 0, end).to_owned()
    } else {
        message.to_owned()
    }
}

/// Whether a draft says that a line was rejected. `hash` is the hash of its
/// number.
pub open spec fn rejects(
    d: Draft,
    line: u64,
    message: Seq<char>,
    nonfinite: bool,
    now_ms: u64,
    hash: Seq<u8>,
) -> bool {
    &&& d.channel@ == INGESTION@
    &&& d.source_sequence == line
    &&& d.timestamp_ms == now_ms
    &&& d.observed_at_ms == now_ms
    &&& d.source@ == "agentctl"@
    &&& d.frame_hash@ == hash_text(hash)
    &&& d.line_number == line
    &&& rejection(d.event, message, nonfinite)
}

/// Whether an event says that something was rejected.
pub open spec fn rejection(e: ExperimentEventData, message: Seq<char>, nonfinite: bool) -> bool {
    e matches ExperimentEventData::Health { kind, message: Some(m) } && kind == (if nonfinite {
        ExperimentHealthKind::NonfiniteMetric
    } else {
        ExperimentHealthKind::IngestionError
    }) && shortens(m@, message)
}

/// The draft that says that a line was rejected, given the hash of its number.
pub fn rejected(line: u64, message: &str, nonfinite: bool, now_ms: u64, hash: &Vec<u8>) -> (r: Draft)
    ensures
        rejects(r, line, message@, nonfinite, now_ms, hash@),
{
    Draft {
        channel: INGESTION,
        source_sequence: line,
        timestamp_ms: now_ms,
        observed_at_ms: now_ms,
        source: "agentctl".to_owned(),
        frame_hash: write_hash(hash),
        event: ExperimentEventData::Health {
            kind: if nonfinite {
                ExperimentHealthKind::NonfiniteMetric
            } else {
                ExperimentHealthKind::IngestionError
            },
            message: Some(shorten(message)),
        },
        line_number: line,
    }
}

/// The draft that says that a line was rejected.
pub fn ingestion_error(line: u64, message: &str, nonfinite: bool, now_ms: u64) -> (r: Draft)
    ensures
        rejects(r, line, message@, nonfinite, now_ms, blake3_of(spec_u64_to_le_bytes(line))),
{
    let number: Vec<u8> = u64_to_le_bytes(line);
    let hash: Vec<u8> = blake3_hash(number.as_slice());
    rejected(line, message, nonfinite, now_ms, &hash)
}

// ---------------------------------------------------------------------------
// Lines
// ---------------------------------------------------------------------------

/// Whether a frame reports a metric whose value is no finite number, given its
/// kind, its value where that is a text, and where it is a number whether it can
/// be held.
pub open spec fn is_nonfinite(
    kind: Option<Seq<char>>,
    value: Option<Seq<char>>,
    number: Option<bool>,
) -> bool {
    &&& kind == Some("metric"@)
    &&& number == Some(false) || value == Some("NaN"@) || value == Some("+Inf"@) || value == Some(
        "-Inf"@,
    ) || value == Some("Infinity"@) || value == Some("-Infinity"@)
}

pub fn reports_nonfinite(kind: &Option<String>, value: &Option<String>, number: &Option<bool>) -> (r:
    bool)
    ensures
        r == is_nonfinite(validation::message(*kind), validation::message(*value), *number),
{
    let unheld: bool = match number {
        Some(held) => !*held,
        None => false,
    };
    validation::holds_text(kind, "metric") && (unheld || validation::holds_text(value, "NaN")
        || validation::holds_text(value, "+Inf") || validation::holds_text(value, "-Inf")
        || validation::holds_text(value, "Infinity") || validation::holds_text(value, "-Infinity"))
}

/// What a line turned out to be: why it is no JSON, or whether its metric is not
/// finite.
pub open spec fn read_line(line: Seq<u8>) -> Result<bool, Seq<char>> {
    match json::json_of(line) {
        Ok(v) => Ok(
            is_nonfinite(
                json::field_text(v, "type"@),
                json::field_text(v, "value"@),
                json::field_number(v, "value"@),
            ),
        ),
        Err(m) => Err(m),
    }
}

/// Why a line is rejected, if it is: it is no JSON, no frame, or a frame that the
/// rules refuse.
pub open spec fn line_refusal(
    read: Result<bool, Seq<char>>,
    frame: Result<EventFrame, String>,
    file: Result<CheckpointFile, String>,
) -> Option<Seq<char>> {
    match (read, frame) {
        (Err(m), _) => Some(m),
        (Ok(_), Err(m)) => Some(m@),
        (Ok(_), Ok(f)) => frame_refusal(f, file),
    }
}

/// Whether a draft is what a line comes to. `hash` is the hash of the line and
/// `number_hash` that of its number.
pub open spec fn drafts(
    d: Draft,
    line: u64,
    read: Result<bool, Seq<char>>,
    frame: Result<EventFrame, String>,
    file: Result<CheckpointFile, String>,
    times: (u64, u64),
    hash: Seq<u8>,
    number_hash: Seq<u8>,
) -> bool {
    match line_refusal(read, frame, file) {
        Some(m) => rejects(
            d,
            line,
            "rejected event frame: "@ + m,
            read == Ok::<bool, Seq<char>>(true),
            times.1,
            number_hash,
        ),
        None => {
            let f = frame->Ok_0;
            &&& d.channel@ == EVENT_FILE@
            &&& d.source_sequence == f.sequence()
            &&& d.timestamp_ms == f.timestamp_ms()
            &&& d.observed_at_ms == times.0
            &&& d.source == f.source()
            &&& d.event == reported(f, file)
            &&& d.frame_hash@ == hash_text(hash)
            &&& d.line_number == line
        },
    }
}

/// What a line comes to, given what it turned out to be and the hashes of the
/// line and of its number.
pub fn draft_of(
    line_number: u64,
    read: &Result<bool, String>,
    frame: Result<EventFrame, String>,
    file: Result<CheckpointFile, String>,
    times: (u64, u64),
    hash: &Vec<u8>,
    number_hash: &Vec<u8>,
) -> (r: Draft)
    ensures
        drafts(
            r,
            line_number,
            match *read {
                Ok(b) => Ok(b),
                Err(m) => Err(m@),
            },
            frame,
            file,
            times,
            hash@,
            number_hash@,
        ),
{
    let nonfinite: bool = match read {
        Ok(b) => *b,
        Err(m) => {
            let said: String = text::join2("rejected event frame: ", m.as_str());
            return rejected(line_number, said.as_str(), false, times.1, number_hash);
        },
    };
    let found: EventFrame = match frame {
        Ok(f) => f,
        Err(m) => {
            let said: String = text::join2("rejected event frame: ", m.as_str());
            return rejected(line_number, said.as_str(), nonfinite, times.1, number_hash);
        },
    };
    match validate_frame(found, file) {
        Ok(a) => Draft {
            channel: EVENT_FILE,
            source_sequence: a.sequence,
            timestamp_ms: a.timestamp_ms,
            observed_at_ms: times.0,
            source: a.source,
            event: a.event,
            frame_hash: write_hash(hash),
            line_number,
        },
        Err(e) => match e {
            Error::Invalid(m) => {
                let said: String = text::join2("rejected event frame: ", m.as_str());
                rejected(line_number, said.as_str(), nonfinite, times.1, number_hash)
            },
        },
    }
}

/// What a line comes to. `frame` is the frame that its JSON is, or why it is
/// none; `times` are when it was seen and when it was rejected.
pub fn decode_line(
    line: &Vec<u8>,
    line_number: u64,
    frame: Result<EventFrame, String>,
    file: Result<CheckpointFile, String>,
    times: (u64, u64),
) -> (r: Draft)
    ensures
        drafts(
            r,
            line_number,
            read_line(line@),
            frame,
            file,
            times,
            blake3_of(line@),
            blake3_of(spec_u64_to_le_bytes(line_number)),
        ),
{
    let hash: Vec<u8> = blake3_hash(line.as_slice());
    let number: Vec<u8> = u64_to_le_bytes(line_number);
    let number_hash: Vec<u8> = blake3_hash(number.as_slice());
    let read: Result<bool, String> = match parse_json(line.as_slice()) {
        Ok(v) => Ok(
            reports_nonfinite(
                &text_field(&v, "type"),
                &text_field(&v, "value"),
                &number_field(&v, "value"),
            ),
        ),
        Err(m) => Err(m),
    };
    draft_of(line_number, &read, frame, file, times, &hash, &number_hash)
}

// ---------------------------------------------------------------------------
// Reading
// ---------------------------------------------------------------------------

/// What was cut out of the stream of bytes.
#[derive(Debug, PartialEq, Eq)]
pub enum Cut {
    Line { number: u64, bytes: Vec<u8> },
    /// A line with nothing on it.
    Empty { number: u64 },
    /// A line that is longer than a frame may be.
    Oversize { number: u64 },
    /// A line that the process never finished.
    Partial { number: u64 },
}

/// A cut, mathematically.
pub enum CutView {
    Line { number: int, bytes: Seq<u8> },
    Empty { number: int },
    Oversize { number: int },
    Partial { number: int },
}

impl View for Cut {
    type V = CutView;

    open spec fn view(&self) -> CutView {
        match *self {
            Cut::Line { number, bytes } => CutView::Line { number: number as int, bytes: bytes@ },
            Cut::Empty { number } => CutView::Empty { number: number as int },
            Cut::Oversize { number } => CutView::Oversize { number: number as int },
            Cut::Partial { number } => CutView::Partial { number: number as int },
        }
    }
}

/// The views of some cuts.
pub open spec fn cuts(v: Seq<Cut>) -> Seq<CutView> {
    v.map_values(|c: Cut| c@)
}

/// Cuts a stream of bytes into lines.
#[derive(Debug, PartialEq, Eq)]
pub struct EventIngestor {
    pub pending: Vec<u8>,
    pub discarding_oversize: bool,
    pub line_number: u64,
}

/// Where the reading of a stream stands.
pub struct Reading {
    pub pending: Seq<u8>,
    pub discarding: bool,
    pub line: int,
}

impl View for EventIngestor {
    type V = Reading;

    open spec fn view(&self) -> Reading {
        Reading {
            pending: self.pending@,
            discarding: self.discarding_oversize,
            line: self.line_number as int,
        }
    }
}

/// Where the reading stands after one byte, and what was cut.
pub open spec fn step(at: Reading, byte: u8) -> (Reading, Seq<CutView>) {
    if byte == 10u8 {
        let next = Reading { pending: Seq::empty(), discarding: false, line: at.line + 1 };
        if at.discarding {
            (Reading { pending: at.pending, ..next }, Seq::empty())
        } else if at.pending.len() == 0 {
            (next, seq![CutView::Empty { number: at.line + 1 }])
        } else {
            (next, seq![CutView::Line { number: at.line + 1, bytes: at.pending }])
        }
    } else if at.discarding {
        (at, Seq::empty())
    } else if at.pending.len() == MAX_EVENT_FRAME_BYTES {
        (
            Reading { pending: Seq::empty(), discarding: true, ..at },
            seq![CutView::Oversize { number: at.line + 1 }],
        )
    } else {
        (Reading { pending: at.pending.push(byte), ..at }, Seq::empty())
    }
}

/// Where the reading stands after some bytes, and what was cut.
pub open spec fn read(at: Reading, bytes: Seq<u8>) -> (Reading, Seq<CutView>)
    decreases bytes.len(),
{
    if bytes.len() == 0 {
        (at, Seq::empty())
    } else {
        let front = read(at, bytes.drop_last());
        let last = step(front.0, bytes.last());
        (last.0, front.1 + last.1)
    }
}

impl EventIngestor {
    pub fn new() -> (r: Self)
        ensures
            r@ == (Reading { pending: Seq::empty(), discarding: false, line: 0 }),
    {
        EventIngestor { pending: Vec::new(), discarding_oversize: false, line_number: 0 }
    }

    fn take_byte(&mut self, byte: u8, out: &mut Vec<Cut>)
        requires
            old(self).line_number < u64::MAX,
        ensures
            ({
                let next = step(old(self)@, byte);
                &&& final(self)@ == next.0
                &&& cuts(final(out)@) == cuts(old(out)@) + next.1
            }),
    {
        let ghost before = out@;
        let ghost at = self@;
        if byte == 10 {
            self.line_number += 1;
            if self.discarding_oversize {
                self.discarding_oversize = false;
            } else {
                let mut line: Vec<u8> = Vec::new();
                line.append(&mut self.pending);
                if line.len() == 0 {
                    out.push(Cut::Empty { number: self.line_number });
                } else {
                    out.push(Cut::Line { number: self.line_number, bytes: line });
                }
                assert(self.pending@ =~= Seq::<u8>::empty());
                assert(line@ =~= at.pending);
            }
        } else if !self.discarding_oversize {
            if self.pending.len() == MAX_EVENT_FRAME_BYTES {
                self.pending = Vec::new();
                self.discarding_oversize = true;
                out.push(Cut::Oversize { number: self.line_number + 1 });
            } else {
                self.pending.push(byte);
            }
        }
        assert(cuts(out@) =~= cuts(before) + step(at, byte).1);
    }

    /// Takes bytes in, and hands out what they complete.
    pub fn feed(&mut self, bytes: &[u8]) -> (r: Vec<Cut>)
        requires
            old(self).line_number + bytes@.len() <= u64::MAX,
        ensures
            ({
                let next = read(old(self)@, bytes@);
                &&& final(self)@ == next.0
                &&& cuts(r@) == next.1
            }),
            final(self).line_number <= old(self).line_number + bytes@.len(),
    {
        let mut out: Vec<Cut> = Vec::new();
        let ghost start = self@;
        let mut i: usize = 0;
        assert(bytes@.take(0) =~= Seq::<u8>::empty());
        assert(cuts(out@) =~= Seq::<CutView>::empty());
        while i < bytes.len()
            invariant
                i <= bytes@.len(),
                start.line + bytes@.len() <= u64::MAX,
                self.line_number <= start.line + i,
                self@ == read(start, bytes@.take(i as int)).0,
                cuts(out@) == read(start, bytes@.take(i as int)).1,
            decreases bytes@.len() - i,
        {
            self.take_byte(bytes[i], &mut out);
            proof {
                let next = bytes@.take(i + 1);
                assert(next.drop_last() =~= bytes@.take(i as int));
                assert(next.last() == bytes@[i as int]);
            }
            i += 1;
        }
        assert(bytes@.take(i as int) =~= bytes@);
        out
    }

    /// The stream has ended for good: what was not finished is given up.
    pub fn end(&mut self) -> (r: Option<Cut>)
        requires
            old(self).line_number < u64::MAX,
        ensures
            if old(self).pending@.len() > 0 {
                &&& r == Some(Cut::Partial { number: (old(self).line_number + 1) as u64 })
                &&& final(self).line_number == old(self).line_number + 1
                &&& final(self).pending@.len() == 0
                &&& final(self).discarding_oversize == old(self).discarding_oversize
            } else {
                r is None && *final(self) == *old(self)
            },
    {
        if self.pending.len() > 0 {
            self.line_number += 1;
            self.pending = Vec::new();
            Some(Cut::Partial { number: self.line_number })
        } else {
            None
        }
    }
}

/// Whether a poll goes on reading.
pub fn reads_on(read_total: usize, drafts: usize) -> (r: bool)
    ensures
        r == (read_total < READ_BYTES_PER_POLL && drafts < DRAFTS_PER_POLL),
{
    read_total < READ_BYTES_PER_POLL && drafts < DRAFTS_PER_POLL
}

/// What is said of a cut that is no line, if it is none.
pub open spec fn cut_message(c: Cut) -> Option<Seq<char>> {
    match c {
        Cut::Line { .. } => None,
        Cut::Empty { .. } => Some("rejected empty event frame"@),
        Cut::Oversize { .. } => Some(
            "rejected event frame larger than "@ + text::digits(MAX_EVENT_FRAME_BYTES as nat)
                + " bytes"@,
        ),
        Cut::Partial { .. } => Some("rejected partial event frame at process exit"@),
    }
}

/// The number of a cut.
pub open spec fn cut_number(c: Cut) -> u64 {
    match c {
        Cut::Line { number, .. } => number,
        Cut::Empty { number } => number,
        Cut::Oversize { number } => number,
        Cut::Partial { number } => number,
    }
}

/// The draft of a cut that is no line.
pub fn reject_cut(cut: &Cut, now_ms: u64) -> (r: Option<Draft>)
    ensures
        match cut_message(*cut) {
            None => r is None,
            Some(m) => r matches Some(d) && rejects(
                d,
                cut_number(*cut),
                m,
                false,
                now_ms,
                blake3_of(spec_u64_to_le_bytes(cut_number(*cut))),
            ),
        },
{
    match cut {
        Cut::Line { .. } => None,
        Cut::Empty { number } => Some(
            ingestion_error(*number, "rejected empty event frame", false, now_ms),
        ),
        Cut::Oversize { number } => {
            let most: String = text::decimal(MAX_EVENT_FRAME_BYTES as u64);
            let said: String = text::join3(
                "rejected event frame larger than ",
                most.as_str(),
                " bytes",
            );
            Some(ingestion_error(*number, said.as_str(), false, now_ms))
        },
        Cut::Partial { number } => Some(
            ingestion_error(
                *number,
                "rejected partial event frame at process exit",
                false,
                now_ms,
            ),
        ),
    }
}

// ---------------------------------------------------------------------------
// Recording
// ---------------------------------------------------------------------------

/// What tells events apart, and the hash of the frame that an event came in.
pub struct Entry {
    pub experiment: Seq<char>,
    pub attempt: int,
    pub channel: Seq<char>,
    pub sequence: int,
    pub hash: Seq<char>,
}

pub open spec fn entry_of(e: StoredEvent) -> Entry {
    Entry {
        experiment: e.event.experiment_id@,
        attempt: e.event.attempt as int,
        channel: e.event.channel@,
        sequence: e.event.source_sequence as int,
        hash: e.frame_hash@,
    }
}

pub open spec fn entries(events: Seq<StoredEvent>) -> Seq<Entry> {
    events.map_values(|e: StoredEvent| entry_of(e))
}

/// What a draft of an attempt would be recorded under.
pub open spec fn entry_for(d: Draft, id: Seq<char>, attempt: u32) -> Entry {
    Entry {
        experiment: id,
        attempt: attempt as int,
        channel: d.channel@,
        sequence: d.source_sequence as int,
        hash: d.frame_hash@,
    }
}

/// The same event, whatever its frame.
pub open spec fn same_entry(a: Entry, b: Entry) -> bool {
    a.experiment == b.experiment && a.attempt == b.attempt && a.channel == b.channel && a.sequence
        == b.sequence
}

/// The position of an event, looked up from the `i`-th on.
pub open spec fn entry_at(all: Seq<Entry>, e: Entry, i: int) -> Option<int>
    decreases all.len() - i,
{
    if i < 0 || i >= all.len() {
        None
    } else if same_entry(all[i], e) {
        Some(i)
    } else {
        entry_at(all, e, i + 1)
    }
}

/// Which drafts from the `i`-th on are recorded, and the numbers of the lines of
/// those that contradict what is recorded under the same sequence.
pub open spec fn taken(
    known: Seq<Entry>,
    drafts: Seq<Draft>,
    id: Seq<char>,
    attempt: u32,
    i: int,
) -> (Seq<int>, Seq<u64>)
    decreases drafts.len() - i,
{
    if i < 0 || i >= drafts.len() {
        (Seq::empty(), Seq::empty())
    } else {
        let e = entry_for(drafts[i], id, attempt);
        match entry_at(known, e, 0) {
            None => {
                let rest = taken(known.push(e), drafts, id, attempt, i + 1);
                (seq![i] + rest.0, rest.1)
            },
            Some(k) => {
                let rest = taken(known, drafts, id, attempt, i + 1);
                if drafts[i].channel@ == EVENT_FILE@ && known[k].hash != e.hash {
                    (rest.0, seq![drafts[i].line_number] + rest.1)
                } else {
                    rest
                }
            },
        }
    }
}

/// Whether a record is that of a draft.
pub open spec fn records(
    e: StoredEvent,
    d: Draft,
    workspace: Seq<char>,
    id: Seq<char>,
    attempt: u32,
    arrival: int,
) -> bool {
    &&& e.event.arrival_sequence == arrival
    &&& e.event.experiment_id@ == id
    &&& e.event.workspace_id@ == workspace
    &&& e.event.attempt == attempt
    &&& e.event.channel@ == d.channel@
    &&& e.event.source_sequence == d.source_sequence
    &&& e.event.timestamp_ms == d.timestamp_ms
    &&& e.event.observed_at_ms == d.observed_at_ms
    &&& e.event.source@ == d.source@
    &&& same_event(e.event.event, d.event)
    &&& e.frame_hash@ == d.frame_hash@
}

fn find_entry(events: &Vec<StoredEvent>, d: &Draft, id: &str, attempt: u32) -> (r: Option<usize>)
    ensures
        match r {
            Some(k) => k < events@.len() && entry_at(
                entries(events@),
                entry_for(*d, id@, attempt),
                0,
            ) == Some(k as int),
            None => entry_at(entries(events@), entry_for(*d, id@, attempt), 0) is None,
        },
{
    let ghost all = entries(events@);
    let ghost e = entry_for(*d, id@, attempt);
    let mut i: usize = 0;
    while i < events.len()
        invariant
            i <= events@.len(),
            all == entries(events@),
            e == entry_for(*d, id@, attempt),
            entry_at(all, e, 0) == entry_at(all, e, i as int),
        decreases events@.len() - i,
    {
        let known: &ExperimentRuntimeEvent = &events[i].event;
        assert(all[i as int] == entry_of(events@[i as int]));
        if text::same(known.experiment_id.as_str(), id) && known.attempt == attempt && text::same(
            known.channel.as_str(),
            d.channel,
        ) && known.source_sequence == d.source_sequence {
            return Some(i);
        }
        i += 1;
    }
    None
}

/// Records drafts that are not recorded yet. The result is the lines of those
/// that contradict what is recorded under the same sequence.
fn take_in(
    events: &mut Vec<StoredEvent>,
    workspace: &WorkspaceId,
    id: &str,
    attempt: u32,
    drafts: &Vec<Draft>,
) -> (r: Vec<u64>)
    requires
        old(events)@.len() + drafts@.len() < i64::MAX,
    ensures
        ({
            let t = taken(entries(old(events)@), drafts@, id@, attempt, 0);
            let n = old(events)@.len() as int;
            &&& r@ == t.1
            &&& final(events)@.len() == n + t.0.len()
            &&& final(events)@.take(n) == old(events)@
            &&& forall|k: int|
                n <= k < final(events)@.len() ==> records(
                    #[trigger] final(events)@[k],
                    drafts@[t.0[k - n]],
                    workspace@,
                    id@,
                    attempt,
                    k + 1,
                )
        }),
        final(events)@.len() <= old(events)@.len() + drafts@.len(),
        r@.len() <= drafts@.len(),
{
    let ghost start = events@;
    let ghost n = start.len() as int;
    let ghost t = taken(entries(start), drafts@, id@, attempt, 0);
    let ghost mut chosen: Seq<int> = Seq::empty();
    let mut conflicts: Vec<u64> = Vec::new();
    let mut i: usize = 0;
    proof {
        assert(events@.take(n) =~= start);
        assert(chosen + t.0 =~= t.0);
        assert(conflicts@ + t.1 =~= t.1);
    }
    while i < drafts.len()
        invariant
            i <= drafts@.len(),
            n == start.len(),
            n + drafts@.len() < i64::MAX,
            events@.len() == n + chosen.len(),
            chosen.len() <= i,
            conflicts@.len() <= i,
            events@.take(n) == start,
            ({
                let rest = taken(entries(events@), drafts@, id@, attempt, i as int);
                &&& chosen + rest.0 == t.0
                &&& conflicts@ + rest.1 == t.1
            }),
            forall|k: int|
                n <= k < events@.len() ==> records(
                    #[trigger] events@[k],
                    drafts@[chosen[k - n]],
                    workspace@,
                    id@,
                    attempt,
                    k + 1,
                ),
        decreases drafts@.len() - i,
    {
        let d: &Draft = &drafts[i];
        let ghost known = events@;
        let ghost so_far = chosen;
        let ghost e = entry_for(*d, id@, attempt);
        let ghost lines = conflicts@;
        match find_entry(events, d, id, attempt) {
            None => {
                let entry: StoredEvent = StoredEvent {
                    event: ExperimentRuntimeEvent {
                        arrival_sequence: events.len() as i64 + 1,
                        experiment_id: id.to_owned(),
                        workspace_id: workspace.clone(),
                        attempt,
                        channel: d.channel.to_owned(),
                        source_sequence: d.source_sequence,
                        timestamp_ms: d.timestamp_ms,
                        observed_at_ms: d.observed_at_ms,
                        source: d.source.clone(),
                        event: d.event.copy(),
                    },
                    frame_hash: d.frame_hash.clone(),
                };
                events.push(entry);
                proof {
                    chosen = chosen.push(i as int);
                    assert(entries(events@) =~= entries(known).push(e));
                    let rest = taken(entries(known).push(e), drafts@, id@, attempt, i + 1);
                    assert(so_far.push(i as int) + rest.0 =~= so_far + (seq![i as int] + rest.0));
                    assert(events@.take(n) =~= start);
                    assert forall|k: int| n <= k < events@.len() implies records(
                        #[trigger] events@[k],
                        drafts@[chosen[k - n]],
                        workspace@,
                        id@,
                        attempt,
                        k + 1,
                    ) by {
                        if k < known.len() {
                            assert(events@[k] == known[k]);
                            assert(chosen[k - n] == so_far[k - n]);
                        }
                    }
                }
            },
            Some(k) => {
                assert(entries(known)[k as int] == entry_of(known[k as int]));
                if text::same(d.channel, EVENT_FILE) && !text::same(
                    events[k].frame_hash.as_str(),
                    d.frame_hash.as_str(),
                ) {
                    conflicts.push(d.line_number);
                    proof {
                        let rest = taken(entries(known), drafts@, id@, attempt, i + 1);
                        assert(lines.push(d.line_number) + rest.1 =~= lines + (seq![d.line_number]
                            + rest.1));
                    }
                }
            },
        }
        i += 1;
    }
    proof {
        let rest = taken(entries(events@), drafts@, id@, attempt, i as int);
        assert(chosen + rest.0 =~= chosen);
        assert(conflicts@ + rest.1 =~= conflicts@);
    }
    conflicts
}

pub const CONFLICTING_REPLAY: &'static str =
    "rejected conflicting replay for an existing source sequence";

pub const OUT_OF_RANGE: &'static str = "out of range integral type conversion attempted";

/// Whether the numbers of a draft can be stored.
pub open spec fn storable(d: Draft) -> bool {
    d.source_sequence <= LARGEST && d.timestamp_ms <= LARGEST && d.observed_at_ms <= LARGEST
}

pub open spec fn all_storable(drafts: Seq<Draft>) -> bool {
    forall|i: int| 0 <= i < drafts.len() ==> storable(#[trigger] drafts[i])
}

fn are_storable(drafts: &Vec<Draft>) -> (r: bool)
    ensures
        r == all_storable(drafts@),
{
    let mut i: usize = 0;
    while i < drafts.len()
        invariant
            i <= drafts@.len(),
            forall|k: int| 0 <= k < i ==> storable(#[trigger] drafts@[k]),
        decreases drafts@.len() - i,
    {
        let d: &Draft = &drafts[i];
        if !(d.source_sequence <= LARGEST && d.timestamp_ms <= LARGEST && d.observed_at_ms
            <= LARGEST) {
            assert(!storable(drafts@[i as int]));
            return false;
        }
        i += 1;
    }
    true
}

/// Whether drafts say of some lines that they contradict what is recorded.
pub open spec fn replays(drafts: Seq<Draft>, lines: Seq<u64>, now_ms: u64) -> bool {
    &&& drafts.len() == lines.len()
    &&& forall|i: int|
        0 <= i < drafts.len() ==> rejects(
            #[trigger] drafts[i],
            lines[i],
            CONFLICTING_REPLAY@,
            false,
            now_ms,
            blake3_of(spec_u64_to_le_bytes(lines[i])),
        )
}

fn replay_errors(lines: &Vec<u64>, now_ms: u64) -> (r: Vec<Draft>)
    ensures
        replays(r@, lines@, now_ms),
{
    let mut out: Vec<Draft> = Vec::new();
    let mut i: usize = 0;
    while i < lines.len()
        invariant
            i <= lines@.len(),
            out@.len() == i,
            forall|k: int|
                0 <= k < i ==> rejects(
                    #[trigger] out@[k],
                    lines@[k],
                    CONFLICTING_REPLAY@,
                    false,
                    now_ms,
                    blake3_of(spec_u64_to_le_bytes(lines@[k])),
                ),
        decreases lines@.len() - i,
    {
        out.push(ingestion_error(lines[i], CONFLICTING_REPLAY, false, now_ms));
        i += 1;
    }
    out
}

/// Whether recording drafts turned one list of events into another: those not
/// known yet are added in turn, and after them a rejection for each that
/// contradicts what is known.
pub open spec fn persisted(
    before: Seq<StoredEvent>,
    after: Seq<StoredEvent>,
    workspace: Seq<char>,
    id: Seq<char>,
    attempt: u32,
    drafts: Seq<Draft>,
    errors: Seq<Draft>,
) -> bool {
    let first = taken(entries(before), drafts, id, attempt, 0);
    let n = before.len() as int;
    let m = n + first.0.len();
    let second = taken(entries(after.take(m)), errors, id, attempt, 0);
    &&& after.len() == m + second.0.len()
    &&& after.take(n) == before
    &&& forall|k: int|
        n <= k < m ==> records(
            #[trigger] after[k],
            drafts[first.0[k - n]],
            workspace,
            id,
            attempt,
            k + 1,
        )
    &&& forall|k: int|
        m <= k < after.len() ==> records(
            #[trigger] after[k],
            errors[second.0[k - m]],
            workspace,
            id,
            attempt,
            k + 1,
        )
}

/// Whether every event was numbered on arrival, one after the other.
pub open spec fn arrived_in_order(events: Seq<StoredEvent>) -> bool {
    forall|i: int|
        0 <= i < events.len() ==> (#[trigger] events[i]).event.arrival_sequence == i + 1
}

/// Whether a store is as before but for its events.
pub open spec fn only_events_changed(before: Store, after: Store) -> bool {
    &&& after.plans == before.plans
    &&& after.requests == before.requests
    &&& after.jobs == before.jobs
    &&& after.experiments == before.experiments
    &&& after.decisions == before.decisions
    &&& after.cursors == before.cursors
    &&& after.journal == before.journal
}

impl Store {
    /// Records drafts, all or none of them. The result is how many events were
    /// added. The rejections of contradictions carry the time `now_ms`.
    pub fn persist(
        &mut self,
        workspace: &WorkspaceId,
        id: &str,
        attempt: u32,
        drafts: &Vec<Draft>,
        now_ms: u64,
    ) -> (r: Result<usize, Error>)
        requires
            old(self).events@.len() + 2 * drafts@.len() < i64::MAX,
        ensures
            only_events_changed(*old(self), *final(self)),
            arrived_in_order(old(self).events@) ==> arrived_in_order(final(self).events@),
            ({
                let first = taken(entries(old(self).events@), drafts@, id@, attempt, 0);
                let fits = all_storable(drafts@) && (first.1.len() > 0 ==> now_ms <= LARGEST)
                    && forall|i: int| 0 <= i < first.1.len() ==> #[trigger] first.1[i] <= LARGEST;
                &&& crate::error::settles(
                    r,
                    if fits {
                        None
                    } else {
                        Some(OUT_OF_RANGE@)
                    },
                )
                &&& !fits ==> final(self).events@ == old(self).events@
                &&& fits ==> {
                    &&& r matches Ok(n) && n == final(self).events@.len() - old(self).events@.len()
                    &&& exists|errors: Seq<Draft>|
                        #[trigger] replays(errors, first.1, now_ms) && persisted(
                            old(self).events@,
                            final(self).events@,
                            workspace@,
                            id@,
                            attempt,
                            drafts@,
                            errors,
                        )
                }
            }),
    {
        if !are_storable(drafts) {
            return invalid(OUT_OF_RANGE);
        }
        let ghost before = self.events@;
        let n: usize = self.events.len();
        let conflicts: Vec<u64> = take_in(&mut self.events, workspace, id, attempt, drafts);
        let errors: Vec<Draft> = replay_errors(&conflicts, now_ms);
        let ghost first = taken(entries(before), drafts@, id@, attempt, 0);
        if !are_storable(&errors) {
            self.events.truncate(n);
            proof {
                assert(self.events@ =~= before);
                let i = choose|i: int|
                    0 <= i < errors@.len() && !storable(#[trigger] errors@[i]);
                assert(rejects(
                    errors@[i],
                    first.1[i],
                    CONFLICTING_REPLAY@,
                    false,
                    now_ms,
                    blake3_of(spec_u64_to_le_bytes(first.1[i])),
                ));
            }
            return invalid(OUT_OF_RANGE);
        }
        proof {
            assert forall|i: int| 0 <= i < first.1.len() implies #[trigger] first.1[i]
                <= LARGEST by {
                assert(storable(errors@[i]));
            }
            if first.1.len() > 0 {
                assert(storable(errors@[0]));
            }
        }
        let ghost middle = self.events@;
        let ghost m = middle.len() as int;
        let _again: Vec<u64> = take_in(&mut self.events, workspace, id, attempt, &errors);
        proof {
            let after = self.events@;
            assert(after.take(m) == middle);
            assert(after.take(n as int) =~= middle.take(n as int));
            assert forall|k: int| n <= k < m implies records(
                #[trigger] after[k],
                drafts@[first.0[k - n]],
                workspace@,
                id@,
                attempt,
                k + 1,
            ) by {
                assert(after.take(m)[k] == middle[k]);
            }
            assert(persisted(before, after, workspace@, id@, attempt, drafts@, errors@));
            if arrived_in_order(before) {
                assert forall|k: int| 0 <= k < after.len() implies (
                #[trigger] after[k]).event.arrival_sequence == k + 1 by {
                    if k < n {
                        assert(after.take(n as int)[k] == before[k]);
                    }
                }
            }
        }
        Ok(self.events.len() - n)
    }
}

// ---------------------------------------------------------------------------
// Queries
// ---------------------------------------------------------------------------

pub const ATTEMPT_FLOOR: &'static str = "attempt must be at least 1";

pub const UNKNOWN_TYPE: &'static str = "unknown experiment event type";

/// How many events a query asks for.
pub open spec fn query_limit(query: ExperimentEventQuery) -> nat {
    if query.limit == 0 {
        DEFAULT_EVENT_QUERY_LIMIT as nat
    } else {
        query.limit as nat
    }
}

/// Why a query is refused, if it is.
pub open spec fn query_refusal(query: ExperimentEventQuery) -> Option<Seq<char>> {
    if query_limit(query) > MAX_EVENT_QUERY_LIMIT {
        Some("event query limit must be at most "@ + text::digits(MAX_EVENT_QUERY_LIMIT as nat))
    } else if query.attempt == Some(0u32) {
        Some(ATTEMPT_FLOOR@)
    } else {
        crate::error::either(
            match query.metric_name {
                Some(n) => name_refusal(n@),
                None => None,
            },
            match query.event_type {
                Some(t) => if t@ != "METRIC"@ && t@ != "CHECKPOINT"@ && t@ != "HEALTH"@ && t@
                    != "PROCESS_STATUS"@ {
                    Some(UNKNOWN_TYPE@)
                } else {
                    None
                },
                None => None,
            },
        )
    }
}

fn check_query(query: &ExperimentEventQuery) -> (r: Result<usize, Error>)
    ensures
        crate::error::settles(r, query_refusal(*query)),
        r matches Ok(n) ==> n == query_limit(*query),
{
    let limit: usize = if query.limit == 0 {
        DEFAULT_EVENT_QUERY_LIMIT
    } else {
        query.limit
    };
    if limit > MAX_EVENT_QUERY_LIMIT {
        let most: String = text::decimal(MAX_EVENT_QUERY_LIMIT as u64);
        let said: String = text::join2("event query limit must be at most ", most.as_str());
        return invalid(said.as_str());
    }
    match query.attempt {
        Some(a) => {
            if a == 0 {
                return invalid(ATTEMPT_FLOOR);
            }
        },
        None => {},
    }
    match &query.metric_name {
        Some(n) => match metric_name(n.as_str()) {
            Ok(()) => {},
            Err(e) => return Err(e),
        },
        None => {},
    }
    match &query.event_type {
        Some(t) => {
            if !text::same(t.as_str(), "METRIC") && !text::same(t.as_str(), "CHECKPOINT")
                && !text::same(t.as_str(), "HEALTH") && !text::same(t.as_str(), "PROCESS_STATUS") {
                return invalid(UNKNOWN_TYPE);
            }
        },
        None => {},
    }
    Ok(limit)
}

/// Whether an event is one of an experiment of a workspace.
pub open spec fn belongs(e: StoredEvent, workspace: Seq<char>, id: Seq<char>) -> bool {
    e.event.workspace_id@ == workspace && e.event.experiment_id@ == id
}

fn does_belong(e: &StoredEvent, workspace: &WorkspaceId, id: &str) -> (r: bool)
    ensures
        r == belongs(*e, workspace@, id@),
{
    text::same(e.event.workspace_id.as_str(), workspace.as_str()) && text::same(
        e.event.experiment_id.as_str(),
        id,
    )
}

/// Whether a query asks for an event. A query for a metric name asks for metrics.
pub open spec fn asks_for(query: ExperimentEventQuery, e: StoredEvent) -> bool {
    &&& query.attempt is Some ==> query.attempt == Some(e.event.attempt)
    &&& query.event_type matches Some(t) ==> t@ == e.event.event.kind_name()
    &&& query.metric_name matches Some(n) ==> e.event.event.measures(n@)
}

fn does_ask(query: &ExperimentEventQuery, e: &StoredEvent) -> (r: bool)
    ensures
        r == asks_for(*query, *e),
{
    match query.attempt {
        Some(a) => {
            if a != e.event.attempt {
                return false;
            }
        },
        None => {},
    }
    match &query.event_type {
        Some(t) => {
            if !text::same(t.as_str(), e.event.event.event_type()) {
                return false;
            }
        },
        None => {},
    }
    match &query.metric_name {
        Some(n) => match e.event.event.metric_name() {
            Some(m) => text::same(m, n.as_str()),
            None => false,
        },
        None => true,
    }
}

/// The positions of the events that a query asks for, from the `i`-th on.
pub open spec fn matching(
    events: Seq<StoredEvent>,
    workspace: Seq<char>,
    id: Seq<char>,
    query: ExperimentEventQuery,
    i: int,
) -> Seq<int>
    decreases events.len() - i,
{
    if i < 0 || i >= events.len() {
        Seq::empty()
    } else if belongs(events[i], workspace, id) && asks_for(query, events[i]) {
        seq![i] + matching(events, workspace, id, query, i + 1)
    } else {
        matching(events, workspace, id, query, i + 1)
    }
}

/// The last of some positions, at most so many.
pub open spec fn newest(all: Seq<int>, limit: nat) -> Seq<int> {
    if all.len() > limit {
        all.skip(all.len() - limit)
    } else {
        all
    }
}

impl Store {
    fn find_matching(&self, workspace: &WorkspaceId, id: &str, query: &ExperimentEventQuery) -> (r:
        Vec<usize>)
        ensures
            r@.map_values(|i: usize| i as int) == matching(
                self.events@,
                workspace@,
                id@,
                *query,
                0,
            ),
            forall|k: int| 0 <= k < r@.len() ==> (#[trigger] r@[k]) < self.events@.len(),
    {
        let mut out: Vec<usize> = Vec::new();
        let ghost all = matching(self.events@, workspace@, id@, *query, 0);
        assert(out@.map_values(|i: usize| i as int) + all =~= all);
        let mut i: usize = 0;
        while i < self.events.len()
            invariant
                i <= self.events@.len(),
                out@.map_values(|i: usize| i as int) + matching(
                    self.events@,
                    workspace@,
                    id@,
                    *query,
                    i as int,
                ) == all,
                forall|k: int| 0 <= k < out@.len() ==> (#[trigger] out@[k]) < self.events@.len(),
            decreases self.events@.len() - i,
        {
            if does_belong(&self.events[i], workspace, id) && does_ask(query, &self.events[i]) {
                let ghost so_far = out@.map_values(|i: usize| i as int);
                let ghost rest = matching(self.events@, workspace@, id@, *query, i + 1);
                out.push(i);
                proof {
                    assert(out@.map_values(|i: usize| i as int) =~= so_far.push(i as int));
                    assert(so_far.push(i as int) + rest =~= so_far + (seq![i as int] + rest));
                }
            }
            i += 1;
        }
        assert(out@.map_values(|i: usize| i as int) + matching(
            self.events@,
            workspace@,
            id@,
            *query,
            i as int,
        ) =~= out@.map_values(|i: usize| i as int));
        out
    }

    /// The newest events that a query asks for, oldest first.
    pub fn experiment_events(
        &self,
        workspace: &WorkspaceId,
        id: &str,
        query: &ExperimentEventQuery,
    ) -> (r: Result<Vec<&ExperimentRuntimeEvent>, Error>)
        ensures
            crate::error::settles(r, query_refusal(*query)),
            r matches Ok(v) ==> {
                let chosen = newest(
                    matching(self.events@, workspace@, id@, *query, 0),
                    query_limit(*query),
                );
                &&& v@.len() == chosen.len()
                &&& forall|k: int|
                    0 <= k < v@.len() ==> *(#[trigger] v@[k]) == self.events@[chosen[k]].event
            },
    {
        let limit: usize = match check_query(query) {
            Ok(n) => n,
            Err(e) => return Err(e),
        };
        let all: Vec<usize> = self.find_matching(workspace, id, query);
        let ghost places = all@.map_values(|i: usize| i as int);
        let from: usize = if all.len() > limit {
            all.len() - limit
        } else {
            0
        };
        let mut out: Vec<&ExperimentRuntimeEvent> = Vec::new();
        let mut i: usize = from;
        while i < all.len()
            invariant
                from <= i <= all@.len(),
                out@.len() == i - from,
                forall|k: int| 0 <= k < all@.len() ==> (#[trigger] all@[k]) < self.events@.len(),
                forall|k: int|
                    0 <= k < out@.len() ==> *(#[trigger] out@[k]) == self.events@[all@[from
                        + k] as int].event,
            decreases all@.len() - i,
        {
            out.push(&self.events[all[i]].event);
            i += 1;
        }
        proof {
            let chosen = newest(places, limit as nat);
            assert(chosen.len() == out@.len());
            assert forall|k: int| 0 <= k < out@.len() implies *(#[trigger] out@[k])
                == self.events@[chosen[k]].event by {
                assert(chosen[k] == places[from + k]);
                assert(places[from + k] == all@[from + k]);
            }
        }
        Ok(out)
    }
}

// ---------------------------------------------------------------------------
// Summaries
// ---------------------------------------------------------------------------

/// Whether an event says that something was rejected.
pub open spec fn is_ingestion_error(e: ExperimentEventData) -> bool {
    e matches ExperimentEventData::Health { kind, .. } && (kind is IngestionError
        || kind is NonfiniteMetric)
}

/// How many of the first `n` events belong to an experiment.
pub open spec fn count(events: Seq<StoredEvent>, workspace: Seq<char>, id: Seq<char>, n: int) -> int
    decreases n,
{
    if n <= 0 {
        0
    } else {
        count(events, workspace, id, n - 1) + if belongs(events[n - 1], workspace, id) {
            1int
        } else {
            0
        }
    }
}

/// How many of them say that something was rejected.
pub open spec fn count_errors(
    events: Seq<StoredEvent>,
    workspace: Seq<char>,
    id: Seq<char>,
    n: int,
) -> int
    decreases n,
{
    if n <= 0 {
        0
    } else {
        count_errors(events, workspace, id, n - 1) + if belongs(events[n - 1], workspace, id)
            && is_ingestion_error(events[n - 1].event.event) {
            1int
        } else {
            0
        }
    }
}

/// When the last of them was reported.
pub open spec fn last_time(
    events: Seq<StoredEvent>,
    workspace: Seq<char>,
    id: Seq<char>,
    n: int,
) -> Option<u64>
    decreases n,
{
    if n <= 0 {
        None
    } else if belongs(events[n - 1], workspace, id) {
        Some(events[n - 1].event.timestamp_ms)
    } else {
        last_time(events, workspace, id, n - 1)
    }
}

/// The path of the last checkpoint among them.
pub open spec fn last_checkpoint(
    events: Seq<StoredEvent>,
    workspace: Seq<char>,
    id: Seq<char>,
    n: int,
) -> Option<Seq<char>>
    decreases n,
{
    if n <= 0 {
        None
    } else if belongs(events[n - 1], workspace, id) && events[n - 1].event.event is Checkpoint {
        Some(events[n - 1].event.event->Checkpoint_path@)
    } else {
        last_checkpoint(events, workspace, id, n - 1)
    }
}

/// The position of the last metric of a name that an experiment reported, in
/// whatever workspace, among the first `n` events.
pub open spec fn last_metric(events: Seq<StoredEvent>, id: Seq<char>, name: Seq<char>, n: int) -> Option<
    int,
>
    decreases n,
{
    if n <= 0 {
        None
    } else if events[n - 1].event.experiment_id@ == id && events[n - 1].event.event.measures(name) {
        Some(n - 1)
    } else {
        last_metric(events, id, name, n - 1)
    }
}

/// The names of the metrics from the `i`-th event on that nothing newer
/// replaces.
pub open spec fn latest_names(
    events: Seq<StoredEvent>,
    workspace: Seq<char>,
    id: Seq<char>,
    i: int,
) -> Seq<Seq<char>>
    decreases events.len() - i,
{
    if i < 0 || i >= events.len() {
        Seq::empty()
    } else {
        let rest = latest_names(events, workspace, id, i + 1);
        match events[i].event.event {
            ExperimentEventData::Metric { name, .. } => if belongs(events[i], workspace, id)
                && last_metric(events, id, name@, events.len() as int) == Some(i) {
                seq![name@] + rest
            } else {
                rest
            },
            _ => rest,
        }
    }
}

/// The names of some values.
pub open spec fn metric_names(v: Seq<LatestMetric>) -> Seq<Seq<char>> {
    Seq::new(v.len(), |i: int| v[i].name@)
}

/// Whether a summary is that of the events of an experiment.
pub open spec fn summarizes(
    s: ExperimentEventSummary,
    events: Seq<StoredEvent>,
    workspace: Seq<char>,
    id: Seq<char>,
) -> bool {
    let n = events.len() as int;
    &&& s.event_count == count(events, workspace, id, n)
    &&& s.ingestion_errors == count_errors(events, workspace, id, n)
    &&& s.last_event_timestamp_ms == last_time(events, workspace, id, n)
    &&& validation::message(s.latest_checkpoint) == last_checkpoint(events, workspace, id, n)
    &&& metric_names(s.latest_metrics@) == text::in_order(latest_names(events, workspace, id, 0))
    &&& forall|i: int|
        0 <= i < s.latest_metrics@.len() ==> (last_metric(
            events,
            id,
            (#[trigger] s.latest_metrics@[i]).name@,
            n,
        ) matches Some(k) && s.latest_metrics@[i].value == events[k].event.event->Metric_value)
}

impl Store {
    fn find_last_metric(&self, id: &str, name: &str) -> (r: Option<usize>)
        ensures
            match r {
                Some(k) => k < self.events@.len() && last_metric(
                    self.events@,
                    id@,
                    name@,
                    self.events@.len() as int,
                ) == Some(k as int) && self.events@[k as int].event.event is Metric,
                None => last_metric(self.events@, id@, name@, self.events@.len() as int) is None,
            },
    {
        let mut n: usize = self.events.len();
        while n > 0
            invariant
                n <= self.events@.len(),
                last_metric(self.events@, id@, name@, self.events@.len() as int) == last_metric(
                    self.events@,
                    id@,
                    name@,
                    n as int,
                ),
            decreases n,
        {
            n -= 1;
            let e: &ExperimentRuntimeEvent = &self.events[n].event;
            match e.event.metric_name() {
                Some(m) => {
                    if text::same(e.experiment_id.as_str(), id) && text::same(m, name) {
                        return Some(n);
                    }
                },
                None => {},
            }
        }
        None
    }

    fn list_latest_names(&self, workspace: &WorkspaceId, id: &str) -> (r: Vec<String>)
        ensures
            text::texts(r@) == latest_names(self.events@, workspace@, id@, 0),
    {
        let mut out: Vec<String> = Vec::new();
        let ghost all = latest_names(self.events@, workspace@, id@, 0);
        assert(text::texts(out@) + all =~= all);
        let mut i: usize = 0;
        while i < self.events.len()
            invariant
                i <= self.events@.len(),
                text::texts(out@) + latest_names(self.events@, workspace@, id@, i as int) == all,
            decreases self.events@.len() - i,
        {
            let ghost so_far = text::texts(out@);
            let ghost rest = latest_names(self.events@, workspace@, id@, i + 1);
            match &self.events[i].event.event {
                ExperimentEventData::Metric { name, .. } => {
                    if does_belong(&self.events[i], workspace, id) {
                        match self.find_last_metric(id, name.as_str()) {
                            Some(k) => {
                                if k == i {
                                    out.push(name.clone());
                                    proof {
                                        assert(text::texts(out@) =~= so_far.push(name@));
                                        assert(so_far.push(name@) + rest =~= so_far + (seq![name@]
                                            + rest));
                                    }
                                }
                            },
                            None => {},
                        }
                    }
                },
                _ => {},
            }
            i += 1;
        }
        assert(text::texts(out@) + latest_names(self.events@, workspace@, id@, i as int)
            =~= text::texts(out@));
        out
    }

    fn list_latest(&self, workspace: &WorkspaceId, id: &str) -> (r: Vec<LatestMetric>)
        ensures
            metric_names(r@) == text::in_order(latest_names(self.events@, workspace@, id@, 0)),
            forall|i: int|
                0 <= i < r@.len() ==> (last_metric(
                    self.events@,
                    id@,
                    (#[trigger] r@[i]).name@,
                    self.events@.len() as int,
                ) matches Some(k) && r@[i].value == self.events@[k].event.event->Metric_value),
    {
        let found: Vec<String> = self.list_latest_names(workspace, id);
        let names: Vec<String> = text::set_of(&found);
        proof {
            text::lemma_in_order(text::texts(names@), text::texts(found@));
        }
        let mut out: Vec<LatestMetric> = Vec::new();
        let mut i: usize = 0;
        while i < names.len()
            invariant
                i <= names@.len(),
                metric_names(out@) == text::texts(names@).take(i as int),
                text::texts(found@) == latest_names(self.events@, workspace@, id@, 0),
                forall|t: Seq<char>| #[trigger]
                    text::texts(names@).contains(t) <==> text::texts(found@).contains(t),
                forall|j: int|
                    0 <= j < out@.len() ==> (last_metric(
                        self.events@,
                        id@,
                        (#[trigger] out@[j]).name@,
                        self.events@.len() as int,
                    ) matches Some(k) && out@[j].value
                        == self.events@[k].event.event->Metric_value),
            decreases names@.len() - i,
        {
            proof {
                assert(text::texts(names@)[i as int] == names@[i as int]@);
                assert(text::texts(names@).contains(names@[i as int]@));
                lemma_latest_names(self.events@, workspace@, id@, 0, names@[i as int]@);
            }
            let ghost so_far = out@;
            match self.find_last_metric(id, names[i].as_str()) {
                Some(k) => match &self.events[k].event.event {
                    ExperimentEventData::Metric { value, .. } => {
                        out.push(LatestMetric { name: names[i].clone(), value: *value });
                    },
                    _ => {},
                },
                None => {},
            }
            proof {
                assert(out@.len() == so_far.len() + 1);
                assert(metric_names(out@) =~= metric_names(so_far).push(names@[i as int]@));
                assert(text::texts(names@).take(i + 1) =~= text::texts(names@).take(i as int).push(
                    names@[i as int]@,
                ));
            }
            i += 1;
        }
        assert(text::texts(names@).take(i as int) =~= text::texts(names@));
        out
    }

    pub fn experiment_event_summary(&self, workspace: &WorkspaceId, id: &str) -> (r:
        ExperimentEventSummary)
        ensures
            summarizes(r, self.events@, workspace@, id@),
    {
        let mut total: u64 = 0;
        let mut errors: u64 = 0;
        let mut last: Option<u64> = None;
        let mut checkpoint: Option<String> = None;
        let mut n: usize = 0;
        while n < self.events.len()
            invariant
                n <= self.events@.len(),
                0 <= errors <= total <= n,
                total == count(self.events@, workspace@, id@, n as int),
                errors == count_errors(self.events@, workspace@, id@, n as int),
                last == last_time(self.events@, workspace@, id@, n as int),
                validation::message(checkpoint) == last_checkpoint(
                    self.events@,
                    workspace@,
                    id@,
                    n as int,
                ),
            decreases self.events@.len() - n,
        {
            if does_belong(&self.events[n], workspace, id) {
                total += 1;
                last = Some(self.events[n].event.timestamp_ms);
                match &self.events[n].event.event {
                    ExperimentEventData::Health { kind, .. } => match kind {
                        ExperimentHealthKind::IngestionError
                        | ExperimentHealthKind::NonfiniteMetric => {
                            errors += 1;
                        },
                        _ => {},
                    },
                    ExperimentEventData::Checkpoint { path, .. } => {
                        checkpoint = Some(path.clone());
                    },
                    _ => {},
                }
            }
            n += 1;
        }
        ExperimentEventSummary {
            event_count: total,
            last_event_timestamp_ms: last,
            latest_metrics: self.list_latest(workspace, id),
            latest_checkpoint: checkpoint,
            ingestion_errors: errors,
        }
    }
}

proof fn lemma_latest_names(
    events: Seq<StoredEvent>,
    workspace: Seq<char>,
    id: Seq<char>,
    i: int,
    name: Seq<char>,
)
    requires
        0 <= i,
        latest_names(events, workspace, id, i).contains(name),
    ensures
        last_metric(events, id, name, events.len() as int) is Some,
    decreases events.len() - i,
{
    if i < events.len() {
        let all = latest_names(events, workspace, id, i);
        let rest = latest_names(events, workspace, id, i + 1);
        let k = choose|k: int| 0 <= k < all.len() && all[k] == name;
        if all.len() == rest.len() {
            assert(rest.contains(name));
            lemma_latest_names(events, workspace, id, i + 1, name);
        } else if k > 0 {
            assert(rest[k - 1] == name);
            lemma_latest_names(events, workspace, id, i + 1, name);
        }
    }
}

// ---------------------------------------------------------------------------
// Laws
// ---------------------------------------------------------------------------

/// It makes no difference how a stream is cut into reads.
pub proof fn law_reading_does_not_depend_on_chunks(at: Reading, a: Seq<u8>, b: Seq<u8>)
    ensures
        ({
            let first = read(at, a);
            let second = read(first.0, b);
            read(at, a + b) == (second.0, first.1 + second.1)
        }),
    decreases b.len(),
{
    let first = read(at, a);
    if b.len() == 0 {
        assert(a + b =~= a);
        assert(first.1 + Seq::<CutView>::empty() =~= first.1);
    } else {
        law_reading_does_not_depend_on_chunks(at, a, b.drop_last());
        assert((a + b).drop_last() =~= a + b.drop_last());
        assert((a + b).last() == b.last());
        let second = read(first.0, b.drop_last());
        let last = step(second.0, b.last());
        assert((first.1 + second.1) + last.1 =~= first.1 + (second.1 + last.1));
    }
}

/// Whatever is read, no more than one frame is ever held back, and every line
/// that is handed out fits in a frame.
pub proof fn law_frames_are_bounded(at: Reading, bytes: Seq<u8>)
    requires
        at.pending.len() <= MAX_EVENT_FRAME_BYTES,
    ensures
        read(at, bytes).0.pending.len() <= MAX_EVENT_FRAME_BYTES,
        forall|k: int|
            0 <= k < read(at, bytes).1.len() ==> (#[trigger] read(at, bytes).1[k] matches CutView::Line {
                bytes: line,
                ..
            } ==> 0 < line.len() <= MAX_EVENT_FRAME_BYTES),
    decreases bytes.len(),
{
    if bytes.len() > 0 {
        law_frames_are_bounded(at, bytes.drop_last());
        let front = read(at, bytes.drop_last());
        let last = step(front.0, bytes.last());
        assert forall|k: int| 0 <= k < (front.1 + last.1).len() implies (#[trigger] (front.1
            + last.1)[k] matches CutView::Line { bytes: line, .. } ==> 0 < line.len()
            <= MAX_EVENT_FRAME_BYTES) by {
            if k < front.1.len() {
                assert((front.1 + last.1)[k] == front.1[k]);
            } else {
                assert((front.1 + last.1)[k] == last.1[k - front.1.len()]);
            }
        }
    }
}

proof fn lemma_read_plain(at: Reading, bytes: Seq<u8>)
    requires
        !at.discarding,
        at.pending.len() + bytes.len() <= MAX_EVENT_FRAME_BYTES,
        !bytes.contains(10u8),
    ensures
        read(at, bytes) == (
            (Reading { pending: at.pending + bytes, ..at }),
            Seq::<CutView>::empty(),
        ),
    decreases bytes.len(),
{
    if bytes.len() == 0 {
        assert(at.pending + bytes =~= at.pending);
    } else {
        let front = bytes.drop_last();
        assert(!front.contains(10u8)) by {
            if front.contains(10u8) {
                let k = choose|k: int| 0 <= k < front.len() && front[k] == 10u8;
                assert(bytes[k] == 10u8);
            }
        }
        lemma_read_plain(at, front);
        assert(bytes.last() != 10u8);
        assert((at.pending + front).push(bytes.last()) =~= at.pending + bytes);
        assert(Seq::<CutView>::empty() + Seq::<CutView>::empty() =~= Seq::<CutView>::empty());
    }
}

/// A line that a process writes in full and that fits in a frame is handed out
/// unchanged, under the next number.
pub proof fn law_a_written_line_is_read_back(at: Reading, line: Seq<u8>)
    requires
        at.pending.len() == 0,
        !at.discarding,
        0 < line.len() <= MAX_EVENT_FRAME_BYTES,
        !line.contains(10u8),
    ensures
        read(at, line.push(10u8)) == (
            (Reading { pending: Seq::empty(), discarding: false, line: at.line + 1 }),
            seq![CutView::Line { number: at.line + 1, bytes: line }],
        ),
{
    lemma_read_plain(at, line);
    assert(line.push(10u8).drop_last() =~= line);
    assert(at.pending + line =~= line);
    assert(Seq::<CutView>::empty() + seq![CutView::Line { number: at.line + 1, bytes: line }]
        =~= seq![CutView::Line { number: at.line + 1, bytes: line }]);
}

proof fn lemma_entry_known(all: Seq<Entry>, e: Entry, k: int, i: int)
    requires
        0 <= i <= k < all.len(),
        same_entry(all[k], e),
    ensures
        entry_at(all, e, i) matches Some(j) && i <= j <= k && same_entry(all[j], e),
    decreases all.len() - i,
{
    if !same_entry(all[i], e) {
        lemma_entry_known(all, e, k, i + 1);
    }
}

/// Recording what is recorded already adds nothing.
pub proof fn law_recording_again_adds_nothing(
    known: Seq<Entry>,
    drafts: Seq<Draft>,
    id: Seq<char>,
    attempt: u32,
    i: int,
)
    requires
        0 <= i,
        forall|k: int|
            i <= k < drafts.len() ==> entry_at(
                known,
                entry_for(#[trigger] drafts[k], id, attempt),
                0,
            ) is Some,
    ensures
        taken(known, drafts, id, attempt, i).0.len() == 0,
    decreases drafts.len() - i,
{
    if i < drafts.len() {
        assert(entry_at(known, entry_for(drafts[i], id, attempt), 0) is Some);
        law_recording_again_adds_nothing(known, drafts, id, attempt, i + 1);
    }
}

/// A sequence is recorded once: a draft that is recorded is under a sequence that
/// was not known, and no later draft of that sequence is recorded.
pub proof fn law_a_sequence_is_recorded_once(
    known: Seq<Entry>,
    drafts: Seq<Draft>,
    id: Seq<char>,
    attempt: u32,
    i: int,
)
    requires
        0 <= i,
    ensures
        ({
            let added = taken(known, drafts, id, attempt, i).0;
            &&& forall|k: int|
                0 <= k < added.len() ==> i <= #[trigger] added[k] < drafts.len() && !known_as(
                    known,
                    entry_for(drafts[added[k]], id, attempt),
                )
            &&& forall|j: int, k: int|
                0 <= j < k < added.len() ==> !same_entry(
                    entry_for(drafts[#[trigger] added[j]], id, attempt),
                    entry_for(drafts[#[trigger] added[k]], id, attempt),
                )
        }),
    decreases drafts.len() - i,
{
    if i < drafts.len() {
        let e = entry_for(drafts[i], id, attempt);
        match entry_at(known, e, 0) {
            None => {
                let more = known.push(e);
                law_a_sequence_is_recorded_once(more, drafts, id, attempt, i + 1);
                let rest = taken(more, drafts, id, attempt, i + 1).0;
                let added = taken(known, drafts, id, attempt, i).0;
                assert(!known_as(known, e)) by {
                    if known_as(known, e) {
                        let k = choose|k: int|
                            0 <= k < known.len() && same_entry(#[trigger] known[k], e);
                        lemma_entry_known(known, e, k, 0);
                    }
                }
                assert forall|k: int| 0 <= k < added.len() implies i <= #[trigger] added[k]
                    < drafts.len() && !known_as(
                    known,
                    entry_for(drafts[added[k]], id, attempt),
                ) by {
                    if k > 0 {
                        assert(added[k] == rest[k - 1]);
                        let f = entry_for(drafts[added[k]], id, attempt);
                        if known_as(known, f) {
                            let w = choose|w: int|
                                0 <= w < known.len() && same_entry(#[trigger] known[w], f);
                            assert(same_entry(more[w], f));
                        }
                    }
                }
                assert forall|j: int, k: int| 0 <= j < k < added.len() implies !same_entry(
                    entry_for(drafts[#[trigger] added[j]], id, attempt),
                    entry_for(drafts[#[trigger] added[k]], id, attempt),
                ) by {
                    assert(added[k] == rest[k - 1]);
                    if j > 0 {
                        assert(added[j] == rest[j - 1]);
                    } else {
                        let f = entry_for(drafts[added[k]], id, attempt);
                        assert(!known_as(more, f));
                        assert(more[known.len() as int] == e);
                        if same_entry(e, f) {
                            assert(same_entry(more[known.len() as int], f));
                        }
                    }
                }
            },
            Some(_) => {
                law_a_sequence_is_recorded_once(known, drafts, id, attempt, i + 1);
                let rest = taken(known, drafts, id, attempt, i + 1).0;
                assert(taken(known, drafts, id, attempt, i).0 == rest);
                assert(forall|k: int| 0 <= k < rest.len() ==> i + 1 <= #[trigger] rest[k]);
            },
        }
    }
}

/// Whether an event is among known ones.
pub open spec fn known_as(known: Seq<Entry>, e: Entry) -> bool {
    exists|k: int| 0 <= k < known.len() && same_entry(#[trigger] known[k], e)
}

proof fn lemma_unprotected(rules: Seq<ProtectedPath>, path: Seq<char>, i: int, k: int)
    requires
        0 <= i <= k < rules.len(),
        protected_refusal(rules, path, i) is None,
    ensures
        !scope::below(path, rules[k].path@),
    decreases k - i,
{
    if i < k {
        lemma_unprotected(rules, path, i + 1, k);
    }
}

proof fn lemma_resolves_unprotected(
    rules: Seq<ProtectedPath>,
    protected: Seq<Option<Vec<String>>>,
    path: Seq<Seq<char>>,
    i: int,
    k: int,
)
    requires
        0 <= i <= k < rules.len(),
        resolves_refusal(rules, protected, path, i) is None,
    ensures
        protected[k] matches Some(p) ==> !worktree::inside(path, text::texts(p@)),
    decreases k - i,
{
    if i < k {
        lemma_resolves_unprotected(rules, protected, path, i + 1, k);
    }
}

/// A checkpoint that is accepted is an ordinary file of the workspace: neither its
/// name nor the place that the name leads to lies in administrative storage or
/// under a protected path.
pub proof fn law_checkpoints_are_ordinary_workspace_files(
    name: Seq<char>,
    path: Seq<char>,
    path_rule: Option<String>,
    rules: Seq<ProtectedPath>,
    places: Places,
)
    requires
        checkpoint_refusal(name, path, path_rule, rules) is None,
        place_refusal(places, rules) is None,
    ensures
        !text::pieces(path, '/').contains(".git"@),
        !text::pieces(path, '/').contains(".agentctl"@),
        forall|k: int|
            0 <= k < rules.len() ==> !scope::below(path, (#[trigger] rules[k]).path@) && (
            places.protected@[k] matches Some(p) ==> !worktree::inside(
                text::texts(places.canonical@),
                text::texts(p@),
            )),
        worktree::inside(text::texts(places.canonical@), text::texts(places.root@)),
        !within_any(text::texts(places.canonical@), places.administrative@),
{
    assert forall|k: int| 0 <= k < rules.len() implies !scope::below(
        path,
        (#[trigger] rules[k]).path@,
    ) && (places.protected@[k] matches Some(p) ==> !worktree::inside(
        text::texts(places.canonical@),
        text::texts(p@),
    )) by {
        lemma_unprotected(rules, path, 0, k);
        lemma_resolves_unprotected(
            rules,
            places.protected@,
            text::texts(places.canonical@),
            0,
            k,
        );
    }
}

} // verus!
