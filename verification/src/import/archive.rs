//! The parts of a historical session archive: its limits, its rows and its resume state.
//! Nothing here runs, resumes or grants authority to what an archive tells of.
use crate::canonical::{bool_text, json_string, push_bool, push_json_string};
use crate::digest::{digest_of, digest_of_text, Digest};
use crate::json::{parsed_json, Json, JsonModel};
use crate::text::{
    begins_with, byte_len, chars_between, chars_of, decimal, find_content, has_prefix, lower_chars,
    lowered, push_decimal, same_text, string_of, trimmed_start,
};
use vstd::prelude::*;
use vstd::utf8::encode_utf8;

verus! {

/// What an import may read.
#[derive(Clone, Copy, Debug, PartialEq, Eq, Structural)]
pub struct ImportLimits {
    pub max_snapshot_bytes: usize,
    pub max_sessions: usize,
    pub max_records: usize,
    pub max_record_bytes: usize,
    pub max_selected_bytes: usize,
    pub max_compressed_resume_bytes: usize,
    pub max_decoded_resume_bytes: usize,
    pub max_metadata_bytes: usize,
    pub max_schema_objects: usize,
    pub max_archive_rows: usize,
    pub max_lineage_depth: usize,
    pub timeout_ns: u128,
}

impl Default for ImportLimits {
    fn default() -> (r: Self)
        ensures
            r == (ImportLimits {
                max_snapshot_bytes: 67108864,
                max_sessions: 10000,
                max_records: 100000,
                max_record_bytes: 1048576,
                max_selected_bytes: 33554432,
                max_compressed_resume_bytes: 8388608,
                max_decoded_resume_bytes: 33554432,
                max_metadata_bytes: 65536,
                max_schema_objects: 256,
                max_archive_rows: 10000,
                max_lineage_depth: 64,
                timeout_ns: 30_000_000_000,
            }),
    {
        ImportLimits {
            max_snapshot_bytes: 67108864,
            max_sessions: 10000,
            max_records: 100000,
            max_record_bytes: 1048576,
            max_selected_bytes: 33554432,
            max_compressed_resume_bytes: 8388608,
            max_decoded_resume_bytes: 33554432,
            max_metadata_bytes: 65536,
            max_schema_objects: 256,
            max_archive_rows: 10000,
            max_lineage_depth: 64,
            timeout_ns: 30_000_000_000,
        }
    }
}

/// Why an import is refused.
#[derive(Clone, Copy, Debug, PartialEq, Eq)]
pub enum ImportError {
    InvalidLimits,
    Database,
    UnsupportedDatabaseVersion(u32),
    UnsupportedRecordVersion(u32),
    UnsupportedResumeVersion(u32),
    UnsupportedSnapshotVersion(u32),
    Limit(&'static str),
    TimedOut,
    SessionNotFound,
    MissingAncestor,
    LineageCycle,
    InvalidLineage,
    InvalidForkCutoff,
    CorruptRecord,
    CorruptResume,
}

/// Whether limits are bounds that an import can keep.
pub open spec fn limits_valid(limits: ImportLimits) -> bool {
    &&& 0 < limits.max_snapshot_bytes <= 536870912
    &&& 0 < limits.max_sessions <= 100000
    &&& 0 < limits.max_records <= 1000000
    &&& 0 < limits.max_record_bytes <= 16777216
    &&& 0 < limits.max_selected_bytes <= 268435456
    &&& 0 < limits.max_compressed_resume_bytes <= 67108864
    &&& 0 < limits.max_decoded_resume_bytes <= 134217728
    &&& 0 < limits.max_metadata_bytes <= 1048576
    &&& 0 < limits.max_schema_objects <= 4096
    &&& 0 < limits.max_archive_rows <= 1000000
    &&& 0 < limits.max_lineage_depth <= 256
    &&& 0 < limits.timeout_ns <= 120_000_000_000
}

/// Checks that limits are bounds that an import can keep.
pub fn validate_limits(limits: &ImportLimits) -> (r: Result<(), ImportError>)
    ensures
        r == if limits_valid(*limits) {
            Ok::<(), ImportError>(())
        } else {
            Err(ImportError::InvalidLimits)
        },
{
    if limits.max_snapshot_bytes == 0 || limits.max_snapshot_bytes > 536870912
        || limits.max_sessions == 0 || limits.max_sessions > 100000 || limits.max_records == 0
        || limits.max_records > 1000000 || limits.max_record_bytes == 0
        || limits.max_record_bytes > 16777216 || limits.max_selected_bytes == 0
        || limits.max_selected_bytes > 268435456 || limits.max_compressed_resume_bytes == 0
        || limits.max_compressed_resume_bytes > 67108864 || limits.max_decoded_resume_bytes == 0
        || limits.max_decoded_resume_bytes > 134217728 || limits.max_metadata_bytes == 0
        || limits.max_metadata_bytes > 1048576 || limits.max_schema_objects == 0
        || limits.max_schema_objects > 4096 || limits.max_archive_rows == 0
        || limits.max_archive_rows > 1000000 || limits.max_lineage_depth == 0
        || limits.max_lineage_depth > 256 || limits.timeout_ns == 0 || limits.timeout_ns > 120_000_000_000 {
        Err(ImportError::InvalidLimits)
    } else {
        Ok(())
    }
}

/// The greatest value that a database may hand out under limits.
pub fn value_bound(limits: &ImportLimits) -> (r: Result<i32, ImportError>)
    ensures
        ({
            let a = limits.max_compressed_resume_bytes;
            let b = limits.max_record_bytes;
            let c = limits.max_metadata_bytes;
            let ab = if a < b {
                b
            } else {
                a
            };
            let bound = if ab < c {
                c
            } else {
                ab
            };
            match r {
                Ok(value) => value == bound,
                Err(error) => bound > i32::MAX && error == ImportError::InvalidLimits,
            }
        }),
{
    let mut bound: usize = limits.max_compressed_resume_bytes;
    if bound < limits.max_record_bytes {
        bound = limits.max_record_bytes;
    }
    if bound < limits.max_metadata_bytes {
        bound = limits.max_metadata_bytes;
    }
    if bound > i32::MAX as usize {
        return Err(ImportError::InvalidLimits);
    }
    Ok(bound as i32)
}

/// Checks that a snapshot of so many pages is within its bound.
pub fn check_snapshot(pages: u64, page_size: u64, limits: &ImportLimits) -> (r: Result<
    (),
    ImportError,
>)
    ensures
        r == if pages * page_size > limits.max_snapshot_bytes {
            Err::<(), ImportError>(ImportError::Limit("snapshot bytes"))
        } else {
            Ok(())
        },
{
    match pages.checked_mul(page_size) {
        Some(size) => if size > limits.max_snapshot_bytes as u64 {
            Err(ImportError::Limit("snapshot bytes"))
        } else {
            Ok(())
        },
        None => {
            assert(pages * page_size > limits.max_snapshot_bytes) by (nonlinear_arith)
                requires
                    pages * page_size > u64::MAX,
                    limits.max_snapshot_bytes <= usize::MAX,
                    usize::MAX <= u64::MAX,
            ;
            Err(ImportError::Limit("snapshot bytes"))
        },
    }
}

/// Checks that a database has a known version.
pub fn check_database_version(version: u32) -> (r: Result<u32, ImportError>)
    ensures
        r == if version == 2 || version == 3 {
            Ok::<u32, ImportError>(version)
        } else {
            Err(ImportError::UnsupportedDatabaseVersion(version))
        },
{
    if version == 2 || version == 3 {
        Ok(version)
    } else {
        Err(ImportError::UnsupportedDatabaseVersion(version))
    }
}

/// Whether a text can identify a session.
pub open spec fn is_session_id(id: Seq<char>) -> bool {
    &&& id.len() > 0
    &&& encode_utf8(id).len() <= 256
    &&& !id.contains('\0')
}

/// Whether a text can identify a session.
pub fn valid_id(id: &str) -> (r: bool)
    ensures
        r == is_session_id(id@),
{
    let chars = chars_of(id);
    if chars.len() == 0 || byte_len(id) > 256 {
        return false;
    }
    let mut i: usize = 0;
    while i < chars.len()
        invariant
            i <= chars.len(),
            chars@ == id@,
            forall|j: int| 0 <= j < i ==> chars@[j] != '\0',
        decreases chars.len() - i,
    {
        if chars[i] == '\0' {
            assert(id@[i as int] == '\0');
            return false;
        }
        i += 1;
    }
    true
}

/// What a selection has taken so far.
#[derive(Clone, Copy, Debug, PartialEq, Eq, Structural)]
pub struct SelectionBudget {
    pub records: usize,
    pub bytes: usize,
}

/// A sum that stays at the greatest number where it would pass it.
pub open spec fn capped_sum(a: usize, b: usize) -> usize {
    if a + b > usize::MAX {
        usize::MAX
    } else {
        (a + b) as usize
    }
}

impl SelectionBudget {
    pub fn new() -> (r: Self)
        ensures
            r == (SelectionBudget { records: 0, bytes: 0 }),
    {
        SelectionBudget { records: 0, bytes: 0 }
    }

    /// Takes bytes, unless that passes the bound.
    pub fn add_bytes(&mut self, count: usize, limits: &ImportLimits) -> (r: Result<(), ImportError>)
        ensures
            *final(self) == (SelectionBudget {
                bytes: capped_sum(old(self).bytes, count),
                ..*old(self)
            }),
            r == if capped_sum(old(self).bytes, count) > limits.max_selected_bytes {
                Err::<(), ImportError>(ImportError::Limit("selected bytes"))
            } else {
                Ok(())
            },
    {
        self.bytes = self.bytes.saturating_add(count);
        if self.bytes > limits.max_selected_bytes {
            return Err(ImportError::Limit("selected bytes"));
        }
        Ok(())
    }
}

/// A setting as its writer stored it.
#[derive(Debug, PartialEq, Eq)]
pub struct LegacySetting {
    /// The exact text, with its JSON quoting.
    pub raw: String,
    /// The decoded text, where the stored one is a JSON string. Nothing is supplied.
    pub value: Option<String>,
}

/// What is known of a historical session.
#[derive(Debug, PartialEq, Eq)]
pub struct LegacySessionMetadata {
    pub session_id: String,
    pub parent_session_id: Option<String>,
    pub workspace: String,
    pub model: String,
    pub effort: LegacySetting,
    pub reasoning_mode: LegacySetting,
    pub fast_mode: bool,
    pub application_version: String,
    pub started_at_ms: u64,
    pub updated_at_ms: u64,
    pub preview: String,
}

/// A link to the session that another was forked from.
#[derive(Debug, PartialEq, Eq)]
pub struct ParentLink {
    pub session_id: String,
    pub through_sequence: u64,
}

/// A record of a historical session.
#[derive(Debug, PartialEq, Eq)]
pub struct LegacyRecord {
    pub session_id: String,
    pub event_id: i64,
    pub schema_version: u32,
    pub sequence: u64,
    pub recorded_at_unix_ms: u64,
    pub source: String,
    pub kind: String,
    pub agent_protocol_version: Option<u32>,
    pub raw_digest: Digest,
    pub raw_json: Vec<u8>,
}

/// The resume state of a historical session.
#[derive(Debug, PartialEq, Eq)]
pub struct LegacyResume {
    pub wrapper_version: u32,
    pub snapshot_version: u32,
    pub compressed_digest: Digest,
    pub decoded_digest: Digest,
    /// The identity of the exact text of the snapshot inside the wrapper.
    pub snapshot_digest: Digest,
    pub compressed_zstd: Vec<u8>,
    pub decoded_json: Vec<u8>,
}

/// An object of a database schema.
#[derive(Debug, PartialEq, Eq)]
pub struct SchemaObject {
    pub kind: String,
    pub name: String,
    pub table_name: String,
    pub sql: Option<String>,
    /// Further tables, such as compaction archives, are kept without being decoded.
    pub opaque: bool,
    pub opaque_row_count: Option<usize>,
}

/// The canonical JSON of an optional text.
pub open spec fn optional_string_json(v: Option<String>) -> Seq<char> {
    match v {
        Some(value) => ""@ + json_string(value@),
        None => "null"@,
    }
}

pub(crate) fn optional_string_text(v: &Option<String>) -> (r: String)
    ensures
        r@ == optional_string_json(*v),
{
    match v {
        Some(value) => {
            let mut json = "".to_owned();
            push_json_string(&mut json, value.as_str());
            json
        },
        None => "null".to_owned(),
    }
}

/// The canonical JSON of an optional size.
pub open spec fn optional_size_json(v: Option<usize>) -> Seq<char> {
    match v {
        Some(value) => ""@ + decimal(value as nat),
        None => "null"@,
    }
}

pub(crate) fn optional_size_text(v: &Option<usize>) -> (r: String)
    ensures
        r@ == optional_size_json(*v),
{
    match v {
        Some(value) => {
            let mut json = "".to_owned();
            push_decimal(&mut json, *value as u64);
            json
        },
        None => "null".to_owned(),
    }
}

/// The canonical JSON of a setting.
pub open spec fn setting_json(v: LegacySetting) -> Seq<char> {
    "{\"raw\":"@ + json_string(v.raw@) + ",\"value\":"@ + optional_string_json(v.value) + "}"@
}

fn setting_text(v: &LegacySetting) -> (r: String)
    ensures
        r@ == setting_json(*v),
{
    let mut json = "{\"raw\":".to_owned();
    push_json_string(&mut json, v.raw.as_str());
    json.push_str(",\"value\":");
    json.push_str(optional_string_text(&v.value).as_str());
    json.push_str("}");
    json
}

/// The canonical JSON of the metadata of a session.
pub open spec fn metadata_json(v: LegacySessionMetadata) -> Seq<char> {
    "{\"session_id\":"@ + json_string(v.session_id@) + ",\"parent_session_id\":"@ + optional_string_json(v.parent_session_id) + ",\"workspace\":"@ + json_string(v.workspace@) + ",\"model\":"@ + json_string(v.model@) + ",\"effort\":"@ + setting_json(v.effort) + ",\"reasoning_mode\":"@ + setting_json(v.reasoning_mode) + ",\"fast_mode\":"@ + bool_text(v.fast_mode) + ",\"application_version\":"@ + json_string(v.application_version@) + ",\"started_at_ms\":"@ + decimal(v.started_at_ms as nat) + ",\"updated_at_ms\":"@ + decimal(v.updated_at_ms as nat) + ",\"preview\":"@ + json_string(v.preview@) + "}"@
}

pub(crate) fn metadata_text(v: &LegacySessionMetadata) -> (r: String)
    ensures
        r@ == metadata_json(*v),
{
    let mut json = "{\"session_id\":".to_owned();
    push_json_string(&mut json, v.session_id.as_str());
    json.push_str(",\"parent_session_id\":");
    json.push_str(optional_string_text(&v.parent_session_id).as_str());
    json.push_str(",\"workspace\":");
    push_json_string(&mut json, v.workspace.as_str());
    json.push_str(",\"model\":");
    push_json_string(&mut json, v.model.as_str());
    json.push_str(",\"effort\":");
    json.push_str(setting_text(&v.effort).as_str());
    json.push_str(",\"reasoning_mode\":");
    json.push_str(setting_text(&v.reasoning_mode).as_str());
    json.push_str(",\"fast_mode\":");
    push_bool(&mut json, v.fast_mode);
    json.push_str(",\"application_version\":");
    push_json_string(&mut json, v.application_version.as_str());
    json.push_str(",\"started_at_ms\":");
    push_decimal(&mut json, v.started_at_ms as u64);
    json.push_str(",\"updated_at_ms\":");
    push_decimal(&mut json, v.updated_at_ms as u64);
    json.push_str(",\"preview\":");
    push_json_string(&mut json, v.preview.as_str());
    json.push_str("}");
    json
}

/// The canonical JSON of an object of a schema.
pub open spec fn schema_object_json(v: SchemaObject) -> Seq<char> {
    "{\"kind\":"@ + json_string(v.kind@) + ",\"name\":"@ + json_string(v.name@) + ",\"table_name\":"@ + json_string(v.table_name@) + ",\"sql\":"@ + optional_string_json(v.sql) + ",\"opaque\":"@ + bool_text(v.opaque) + ",\"opaque_row_count\":"@ + optional_size_json(v.opaque_row_count) + "}"@
}

fn schema_object_text(v: &SchemaObject) -> (r: String)
    ensures
        r@ == schema_object_json(*v),
{
    let mut json = "{\"kind\":".to_owned();
    push_json_string(&mut json, v.kind.as_str());
    json.push_str(",\"name\":");
    push_json_string(&mut json, v.name.as_str());
    json.push_str(",\"table_name\":");
    push_json_string(&mut json, v.table_name.as_str());
    json.push_str(",\"sql\":");
    json.push_str(optional_string_text(&v.sql).as_str());
    json.push_str(",\"opaque\":");
    push_bool(&mut json, v.opaque);
    json.push_str(",\"opaque_row_count\":");
    json.push_str(optional_size_text(&v.opaque_row_count).as_str());
    json.push_str("}");
    json
}

/// The canonical JSON of the first `n` objects of a schema, separated by commas.
pub open spec fn schema_objects_json(items: Seq<SchemaObject>, n: int) -> Seq<char>
    decreases n,
{
    if n <= 0 {
        ""@
    } else if n == 1 {
        ""@ + schema_object_json(items[0])
    } else {
        schema_objects_json(items, n - 1) + ","@ + schema_object_json(items[n - 1])
    }
}

pub(crate) fn schema_objects_text(items: &Vec<SchemaObject>) -> (r: String)
    ensures
        r@ == schema_objects_json(items@, items.len() as int),
{
    let mut json = "".to_owned();
    let mut i: usize = 0;
    while i < items.len()
        invariant
            i <= items.len(),
            json@ == schema_objects_json(items@, i as int),
        decreases items.len() - i,
    {
        if i > 0 {
            json.push_str(",");
        }
        json.push_str(schema_object_text(&items[i]).as_str());
        i += 1;
    }
    json
}

/// The columns of a session, each as it could be read.
#[derive(Debug)]
pub struct SessionRow {
    pub session_id: Option<String>,
    pub parent_session_id: Option<Option<String>>,
    pub workspace: Option<String>,
    pub model: Option<String>,
    pub effort: Option<String>,
    pub reasoning_mode: Option<String>,
    pub fast_mode: Option<i64>,
    pub application_version: Option<String>,
    pub started_at_ms: Option<i64>,
    pub updated_at_ms: Option<i64>,
    pub preview: Option<String>,
}

/// The sum of the first `n` sizes, which stays at the greatest number where it would pass it.
pub open spec fn total_size(sizes: Seq<usize>, n: int) -> usize
    decreases n,
{
    if n <= 0 {
        0
    } else {
        capped_sum(total_size(sizes, n - 1), sizes[n - 1])
    }
}

proof fn lemma_total_grows(sizes: Seq<usize>, a: int, b: int)
    requires
        0 <= a <= b,
    ensures
        total_size(sizes, a) <= total_size(sizes, b),
    decreases b,
{
    if a < b {
        lemma_total_grows(sizes, a, b - 1);
    }
}

/// Checks the sizes of the text and binary columns of a row.
pub fn check_columns(sizes: &Vec<usize>, limits: &ImportLimits) -> (r: Result<(), ImportError>)
    ensures
        r == if total_size(sizes@, sizes@.len() as int) > limits.max_metadata_bytes {
            Err::<(), ImportError>(ImportError::Limit("metadata bytes"))
        } else {
            Ok(())
        },
{
    let mut total: usize = 0;
    let mut i: usize = 0;
    while i < sizes.len()
        invariant
            i <= sizes.len(),
            total == total_size(sizes@, i as int),
            total <= limits.max_metadata_bytes,
        decreases sizes.len() - i,
    {
        let next = total.saturating_add(sizes[i]);
        if next > limits.max_metadata_bytes {
            proof {
                lemma_total_grows(sizes@, i + 1, sizes@.len() as int);
            }
            return Err(ImportError::Limit("metadata bytes"));
        }
        total = next;
        i += 1;
    }
    Ok(())
}

/// The text that a stored setting stands for, where it is a JSON string.
pub open spec fn setting_value(raw: Seq<char>) -> Option<Seq<char>> {
    match parsed_json(encode_utf8(raw)) {
        Some(JsonModel::Text(text)) => Some(text),
        _ => None,
    }
}

/// Whether a setting is the one that a stored text stands for.
pub open spec fn is_setting(setting: LegacySetting, raw: String) -> bool {
    &&& setting.raw == raw
    &&& match (setting.value, setting_value(raw@)) {
        (Some(value), Some(text)) => value@ == text,
        (None, None) => true,
        _ => false,
    }
}

fn read_setting(raw: String) -> (r: LegacySetting)
    ensures
        is_setting(r, raw),
{
    let value = match Json::parse(raw.as_str().as_bytes()) {
        Some(Json::Text(text)) => Some(text),
        _ => None,
    };
    LegacySetting { raw, value }
}

/// Why a row does not describe a session; none where it does.
pub open spec fn row_refusal(row: SessionRow) -> Option<ImportError> {
    if row.session_id is None || row.parent_session_id is None {
        Some(ImportError::Database)
    } else if !is_session_id(row.session_id->0@) || (row.parent_session_id->0 is Some
        && !is_session_id(row.parent_session_id->0->0@)) {
        Some(ImportError::InvalidLineage)
    } else if row.effort is None || row.reasoning_mode is None || row.fast_mode is None {
        Some(ImportError::Database)
    } else if row.fast_mode != Some(0i64) && row.fast_mode != Some(1i64) {
        Some(ImportError::InvalidLineage)
    } else if row.workspace is None || row.model is None || row.application_version is None
        || row.started_at_ms is None {
        Some(ImportError::Database)
    } else if row.started_at_ms->0 < 0 {
        Some(ImportError::InvalidLineage)
    } else if row.updated_at_ms is None {
        Some(ImportError::Database)
    } else if row.updated_at_ms->0 < 0 {
        Some(ImportError::InvalidLineage)
    } else if row.preview is None {
        Some(ImportError::Database)
    } else {
        None
    }
}

/// Whether metadata is what a row says.
pub open spec fn describes(metadata: LegacySessionMetadata, row: SessionRow) -> bool {
    &&& row.session_id == Some(metadata.session_id)
    &&& row.parent_session_id == Some(metadata.parent_session_id)
    &&& row.workspace == Some(metadata.workspace)
    &&& row.model == Some(metadata.model)
    &&& row.effort is Some && is_setting(metadata.effort, row.effort->0)
    &&& row.reasoning_mode is Some && is_setting(metadata.reasoning_mode, row.reasoning_mode->0)
    &&& metadata.fast_mode == (row.fast_mode == Some(1i64))
    &&& row.application_version == Some(metadata.application_version)
    &&& row.started_at_ms is Some && metadata.started_at_ms == row.started_at_ms->0
    &&& row.updated_at_ms is Some && metadata.updated_at_ms == row.updated_at_ms->0
    &&& row.preview == Some(metadata.preview)
}

fn id_allowed(id: &Option<String>) -> (r: bool)
    ensures
        r == (id is Some ==> is_session_id(id->0@)),
{
    match id {
        Some(id) => valid_id(id.as_str()),
        None => true,
    }
}

/// Reads the metadata of a session from its row.
pub fn metadata(row: SessionRow, limits: &ImportLimits) -> (r: Result<
    LegacySessionMetadata,
    ImportError,
>)
    ensures
        match r {
            Ok(metadata) => {
                &&& row_refusal(row) is None
                &&& describes(metadata, row)
                &&& encode_utf8(metadata_json(metadata)).len() <= limits.max_metadata_bytes
            },
            Err(error) => match row_refusal(row) {
                Some(refusal) => error == refusal,
                None => error == ImportError::Limit("metadata bytes") && exists|
                    metadata: LegacySessionMetadata,
                |
                    describes(metadata, row) && encode_utf8(#[trigger] metadata_json(metadata)).len()
                        > limits.max_metadata_bytes,
            },
        },
{
    let ghost given = row;
    let (session_id, parent_session_id) = match (row.session_id, row.parent_session_id) {
        (Some(session_id), Some(parent)) => (session_id, parent),
        _ => return Err(ImportError::Database),
    };
    if !valid_id(session_id.as_str()) || !id_allowed(&parent_session_id) {
        return Err(ImportError::InvalidLineage);
    }
    let (effort, reasoning_mode, fast_mode) = match (row.effort, row.reasoning_mode, row.fast_mode) {
        (Some(effort), Some(mode), Some(fast)) => (effort, mode, fast),
        _ => return Err(ImportError::Database),
    };
    if fast_mode != 0 && fast_mode != 1 {
        return Err(ImportError::InvalidLineage);
    }
    let (workspace, model, application_version, started) = match (
        row.workspace,
        row.model,
        row.application_version,
        row.started_at_ms,
    ) {
        (Some(a), Some(b), Some(c), Some(d)) => (a, b, c, d),
        _ => return Err(ImportError::Database),
    };
    if started < 0 {
        return Err(ImportError::InvalidLineage);
    }
    let updated: i64 = match row.updated_at_ms {
        Some(updated) => updated,
        None => return Err(ImportError::Database),
    };
    if updated < 0 {
        return Err(ImportError::InvalidLineage);
    }
    let preview = match row.preview {
        Some(preview) => preview,
        None => return Err(ImportError::Database),
    };
    let metadata = LegacySessionMetadata {
        session_id,
        parent_session_id,
        workspace,
        model,
        effort: read_setting(effort),
        reasoning_mode: read_setting(reasoning_mode),
        fast_mode: fast_mode == 1,
        application_version,
        started_at_ms: started as u64,
        updated_at_ms: updated as u64,
        preview,
    };
    assert(describes(metadata, given));
    let text = metadata_text(&metadata);
    if byte_len(text.as_str()) > limits.max_metadata_bytes {
        assert(encode_utf8(metadata_json(metadata)).len() > limits.max_metadata_bytes);
        return Err(ImportError::Limit("metadata bytes"));
    }
    Ok(metadata)
}

/// The sessions of an archive that were listed so far.
#[derive(Debug)]
pub struct SessionList {
    pub sessions: Vec<LegacySessionMetadata>,
    pub bytes: usize,
}

impl SessionList {
    pub fn new() -> (r: Self)
        ensures
            r.sessions@ == Seq::<LegacySessionMetadata>::empty(),
            r.bytes == 0,
    {
        SessionList { sessions: Vec::new(), bytes: 0 }
    }

    /// Checks that a further session may be listed.
    pub fn check_room(&self, limits: &ImportLimits) -> (r: Result<(), ImportError>)
        ensures
            r == if self.sessions@.len() == limits.max_sessions {
                Err::<(), ImportError>(ImportError::Limit("session rows"))
            } else {
                Ok(())
            },
    {
        if self.sessions.len() == limits.max_sessions {
            Err(ImportError::Limit("session rows"))
        } else {
            Ok(())
        }
    }

    /// Lists a session, unless the list passes its bound.
    pub fn push(&mut self, metadata: LegacySessionMetadata, limits: &ImportLimits) -> (r: Result<
        (),
        ImportError,
    >)
        ensures
            ({
                let size = encode_utf8(metadata_json(metadata)).len() as usize;
                let bytes = capped_sum(old(self).bytes, size);
                &&& final(self).bytes == bytes
                &&& if bytes > limits.max_selected_bytes {
                    &&& r == Err::<(), ImportError>(ImportError::Limit("selected bytes"))
                    &&& final(self).sessions == old(self).sessions
                } else {
                    &&& r == Ok::<(), ImportError>(())
                    &&& final(self).sessions@ == old(self).sessions@.push(metadata)
                }
            }),
    {
        let text = metadata_text(&metadata);
        self.bytes = self.bytes.saturating_add(byte_len(text.as_str()));
        if self.bytes > limits.max_selected_bytes {
            return Err(ImportError::Limit("selected bytes"));
        }
        self.sessions.push(metadata);
        Ok(())
    }
}

/// Whether a statement creates a table.
pub open spec fn creates_table(sql: Option<String>) -> bool {
    sql is Some && begins_with(lowered(trimmed_start(sql->0@)), "create table"@)
}

fn is_table(sql: &Option<String>) -> (r: bool)
    ensures
        r == creates_table(*sql),
{
    match sql {
        Some(sql) => {
            let chars = chars_of(sql.as_str());
            let start = find_content(&chars);
            let rest = chars_between(&chars, start, chars.len());
            let low = lower_chars(&rest);
            let text = string_of(&low, 0, low.len());
            assert(rest@ =~= trimmed_start(sql@));
            assert(text@ =~= lowered(trimmed_start(sql@)));
            has_prefix(text.as_str(), "create table")
        },
        None => false,
    }
}

/// Whether an object is a table that this library does not decode.
pub open spec fn is_opaque(kind: Seq<char>, name: Seq<char>) -> bool {
    kind == "table"@ && name != "sessions"@ && name != "events"@ && name != "resume_states"@
        && name != "sqlite_sequence"@
}

/// The objects of a schema that were read so far.
#[derive(Debug)]
pub struct SchemaScan {
    pub objects: Vec<SchemaObject>,
    pub bytes: usize,
}

/// What the statement of an object adds to the size of a schema.
pub open spec fn sql_size(sql: Option<String>) -> usize {
    match sql {
        Some(sql) => encode_utf8(sql@).len() as usize,
        None => 0,
    }
}

impl SchemaScan {
    pub fn new() -> (r: Self)
        ensures
            r.objects@ == Seq::<SchemaObject>::empty(),
            r.bytes == 0,
    {
        SchemaScan { objects: Vec::new(), bytes: 0 }
    }

    /// Takes the next object, and answers whether its rows have to be counted.
    pub fn offer(&mut self, kind: &str, name: &str, sql: &Option<String>, limits: &ImportLimits) -> (r:
        Result<bool, ImportError>)
        ensures
            final(self).objects == old(self).objects,
            ({
                let bytes = capped_sum(old(self).bytes, sql_size(*sql));
                if old(self).objects@.len() == limits.max_schema_objects {
                    &&& r == Err::<bool, ImportError>(ImportError::Limit("schema objects"))
                    &&& final(self).bytes == old(self).bytes
                } else {
                    &&& final(self).bytes == bytes
                    &&& r == if bytes > limits.max_metadata_bytes {
                        Err::<bool, ImportError>(ImportError::Limit("schema bytes"))
                    } else if is_opaque(kind@, name@) && !creates_table(*sql) {
                        Err(ImportError::Database)
                    } else {
                        Ok(is_opaque(kind@, name@))
                    }
                }
            }),
    {
        if self.objects.len() == limits.max_schema_objects {
            return Err(ImportError::Limit("schema objects"));
        }
        let size: usize = match sql {
            Some(sql) => byte_len(sql.as_str()),
            None => 0,
        };
        self.bytes = self.bytes.saturating_add(size);
        if self.bytes > limits.max_metadata_bytes {
            return Err(ImportError::Limit("schema bytes"));
        }
        let opaque = same_text(kind, "table") && !same_text(name, "sessions") && !same_text(
            name,
            "events",
        ) && !same_text(name, "resume_states") && !same_text(name, "sqlite_sequence");
        if opaque && !is_table(sql) {
            return Err(ImportError::Database);
        }
        Ok(opaque)
    }

    /// Notes an object, with the number of its rows where they were counted.
    pub fn push(
        &mut self,
        kind: String,
        name: String,
        table_name: String,
        sql: Option<String>,
        rows: Option<u32>,
        limits: &ImportLimits,
    ) -> (r: Result<(), ImportError>)
        ensures
            final(self).bytes == old(self).bytes,
            if rows is Some && rows->0 > limits.max_archive_rows {
                &&& r == Err::<(), ImportError>(ImportError::Limit("opaque archive rows"))
                &&& final(self).objects == old(self).objects
            } else {
                &&& r == Ok::<(), ImportError>(())
                &&& final(self).objects@ == old(self).objects@.push(
                    SchemaObject {
                        kind,
                        name,
                        table_name,
                        sql,
                        opaque: rows is Some,
                        opaque_row_count: match rows {
                            Some(count) => Some(count as usize),
                            None => None,
                        },
                    },
                )
            },
    {
        let opaque_row_count: Option<usize> = match rows {
            Some(count) => {
                if count as usize > limits.max_archive_rows {
                    return Err(ImportError::Limit("opaque archive rows"));
                }
                Some(count as usize)
            },
            None => None,
        };
        self.objects.push(
            SchemaObject { kind, name, table_name, sql, opaque: rows.is_some(), opaque_row_count },
        );
        Ok(())
    }
}

/// A name as a statement quotes it: between quotation marks, each inner one doubled.
pub open spec fn doubled(name: Seq<char>) -> Seq<char>
    decreases name.len(),
{
    if name.len() == 0 {
        Seq::empty()
    } else if name.last() == '"' {
        doubled(name.drop_last()).push('"').push('"')
    } else {
        doubled(name.drop_last()).push(name.last())
    }
}

/// Quotes a name for a statement.
pub fn quoted_name(name: &str) -> (r: String)
    ensures
        r@ == "\""@ + doubled(name@) + "\""@,
{
    let chars = chars_of(name);
    let mut text = "\"".to_owned();
    let mut i: usize = 0;
    assert(chars@.subrange(0, 0) =~= Seq::<char>::empty());
    assert(text@ =~= "\""@ + doubled(chars@.subrange(0, 0)));
    while i < chars.len()
        invariant
            i <= chars.len(),
            text@ == "\""@ + doubled(chars@.subrange(0, i as int)),
        decreases chars.len() - i,
    {
        let ghost taken = chars@.subrange(0, i + 1);
        assert(taken.drop_last() =~= chars@.subrange(0, i as int));
        if chars[i] == '"' {
            text.push('"');
        }
        text.push(chars[i]);
        assert(text@ =~= "\""@ + doubled(taken));
        i += 1;
    }
    assert(chars@.subrange(0, i as int) =~= name@);
    text.push_str("\"");
    text
}

/// The first of the first `n` objects with a name.
pub open spec fn first_named(objects: Seq<SchemaObject>, name: Seq<char>, n: int) -> Option<
    SchemaObject,
>
    decreases n,
{
    if n <= 0 {
        None
    } else {
        match first_named(objects, name, n - 1) {
            Some(object) => Some(object),
            None => if objects[n - 1].name@ == name {
                Some(objects[n - 1])
            } else {
                None
            },
        }
    }
}

/// Whether a schema has a table under a name.
pub open spec fn has_table(objects: Seq<SchemaObject>, name: Seq<char>) -> bool {
    match first_named(objects, name, objects.len() as int) {
        Some(object) => object.kind@ == "table"@ && creates_table(object.sql),
        None => false,
    }
}

proof fn lemma_first_named(objects: Seq<SchemaObject>, name: Seq<char>, at: int, n: int)
    requires
        0 < at <= n,
        first_named(objects, name, at) is Some,
    ensures
        first_named(objects, name, n) == first_named(objects, name, at),
    decreases n,
{
    if at < n {
        lemma_first_named(objects, name, at, n - 1);
    }
}

fn table_present(objects: &Vec<SchemaObject>, name: &str) -> (r: bool)
    ensures
        r == has_table(objects@, name@),
{
    let mut i: usize = 0;
    while i < objects.len()
        invariant
            i <= objects.len(),
            first_named(objects@, name@, i as int) is None,
        decreases objects.len() - i,
    {
        if same_text(objects[i].name.as_str(), name) {
            proof {
                lemma_first_named(objects@, name@, i + 1, objects@.len() as int);
            }
            return same_text(objects[i].kind.as_str(), "table") && is_table(&objects[i].sql);
        }
        i += 1;
    }
    false
}

/// Checks that a schema has the tables that an import reads.
pub fn validate_schema(schema: &Vec<SchemaObject>) -> (r: Result<(), ImportError>)
    ensures
        r == if has_table(schema@, "sessions"@) && has_table(schema@, "events"@) && has_table(
            schema@,
            "resume_states"@,
        ) {
            Ok::<(), ImportError>(())
        } else {
            Err(ImportError::Database)
        },
{
    if table_present(schema, "sessions") && table_present(schema, "events") && table_present(
        schema,
        "resume_states",
    ) {
        Ok(())
    } else {
        Err(ImportError::Database)
    }
}

/// Checks the length of a compressed resume state before it is read.
pub fn check_resume_length(length: i64, limits: &ImportLimits) -> (r: Result<(), ImportError>)
    ensures
        r == if length < 0 || length > limits.max_compressed_resume_bytes {
            Err::<(), ImportError>(ImportError::Limit("compressed resume bytes"))
        } else {
            Ok(())
        },
{
    if length < 0 || length as u64 > limits.max_compressed_resume_bytes as u64 {
        Err(ImportError::Limit("compressed resume bytes"))
    } else {
        Ok(())
    }
}

/// What wraps the snapshot of a resume state.
#[derive(Debug)]
pub struct ResumeWrapper {
    pub format_version: u32,
    /// The exact text of the snapshot.
    pub snapshot: String,
}

/// Why a decoded resume state is refused, given what its text reads as.
pub open spec fn resume_refusal(wrapper: Option<ResumeWrapper>, version: Option<u32>) -> Option<
    ImportError,
> {
    match wrapper {
        None => Some(ImportError::CorruptResume),
        Some(wrapper) => if wrapper.format_version != 2 {
            Some(ImportError::UnsupportedResumeVersion(wrapper.format_version))
        } else {
            match version {
                None => Some(ImportError::CorruptResume),
                Some(version) => if version != 1 && version != 2 {
                    Some(ImportError::UnsupportedSnapshotVersion(version))
                } else {
                    None
                },
            }
        },
    }
}

/// The resume state of a session, given what its decoded text reads as: the wrapper, and
/// the version that the snapshot notes.
pub fn read_resume(
    compressed: Vec<u8>,
    decoded: Vec<u8>,
    wrapper: Option<ResumeWrapper>,
    version: Option<u32>,
) -> (r: Result<LegacyResume, ImportError>)
    ensures
        match r {
            Ok(resume) => {
                &&& resume_refusal(wrapper, version) is None
                &&& resume.wrapper_version == 2
                &&& version == Some(resume.snapshot_version)
                &&& resume.compressed_digest == digest_of(compressed@)
                &&& resume.decoded_digest == digest_of(decoded@)
                &&& resume.snapshot_digest == digest_of_text(wrapper->0.snapshot@)
                &&& resume.compressed_zstd == compressed
                &&& resume.decoded_json == decoded
            },
            Err(error) => resume_refusal(wrapper, version) == Some(error),
        },
{
    let wrapper = match wrapper {
        Some(wrapper) => wrapper,
        None => return Err(ImportError::CorruptResume),
    };
    if wrapper.format_version != 2 {
        return Err(ImportError::UnsupportedResumeVersion(wrapper.format_version));
    }
    let snapshot_version: u32 = match version {
        Some(version) => version,
        None => return Err(ImportError::CorruptResume),
    };
    if snapshot_version != 1 && snapshot_version != 2 {
        return Err(ImportError::UnsupportedSnapshotVersion(snapshot_version));
    }
    Ok(
        LegacyResume {
            wrapper_version: wrapper.format_version,
            snapshot_version,
            compressed_digest: Digest::of(compressed.as_slice()),
            decoded_digest: Digest::of(decoded.as_slice()),
            snapshot_digest: Digest::of_text(wrapper.snapshot.as_str()),
            compressed_zstd: compressed,
            decoded_json: decoded,
        },
    )
}

} // verus!
