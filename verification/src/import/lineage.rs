//! The selection of a historical lineage: the records of a session, up to the fork that
//! continues it, and of its ancestors.
use crate::canonical::{json_string, push_digest, push_json_string, quoted};
use crate::digest::{digest_of, digest_of_text, Digest};
use crate::import::archive::{
    capped_sum, is_session_id, metadata_json, metadata_text, valid_id, ImportError, ImportLimits,
    LegacyRecord, LegacyResume, LegacySessionMetadata, ParentLink, SelectionBudget,
};
use crate::text::{byte_len, decimal, push_decimal, push_signed, same_text, signed_decimal};
use vstd::prelude::*;
use vstd::utf8::encode_utf8;

verus! {

/// What an agent notes in a record.
#[derive(Debug)]
pub struct AgentMetadata {
    pub protocol_version: u32,
    pub request_id: String,
}

/// What every record says.
#[derive(Debug)]
pub struct RecordEnvelope {
    pub schema_version: u32,
    pub sequence: u64,
    pub recorded_at_unix_ms: u64,
    pub source: String,
    pub kind: String,
    /// The text of the payload.
    pub payload: String,
    pub agent: Option<AgentMetadata>,
}

/// What the start of a session says.
#[derive(Debug)]
pub struct Started {
    pub session_id: String,
    pub parent_session_id: Option<String>,
    pub parent_sequence: Option<u64>,
}

/// Whether two optional texts are the same.
pub open spec fn same_optional(a: Option<String>, b: Option<String>) -> bool {
    match (a, b) {
        (Some(a), Some(b)) => a@ == b@,
        (None, None) => true,
        _ => false,
    }
}

fn optional_same(a: &Option<String>, b: &Option<String>) -> (r: bool)
    ensures
        r == same_optional(*a, *b),
{
    match (a, b) {
        (Some(a), Some(b)) => same_text(a.as_str(), b.as_str()),
        (None, None) => true,
        _ => false,
    }
}

/// The records of a session that were selected so far.
#[derive(Debug)]
pub struct RecordScan {
    session: LegacySessionMetadata,
    through: Option<u64>,
    previous: u64,
    parent: Option<ParentLink>,
    first: bool,
    cutoff_found: bool,
    records: Vec<LegacyRecord>,
}

/// What a scan knows.
pub struct ScanModel {
    pub session: LegacySessionMetadata,
    pub through: Option<u64>,
    pub previous: u64,
    pub parent: Option<ParentLink>,
    pub first: bool,
    pub cutoff_found: bool,
    pub records: Seq<LegacyRecord>,
}

impl View for RecordScan {
    type V = ScanModel;

    closed spec fn view(&self) -> ScanModel {
        ScanModel {
            session: self.session,
            through: self.through,
            previous: self.previous,
            parent: self.parent,
            first: self.first,
            cutoff_found: self.cutoff_found,
            records: self.records@,
        }
    }
}

/// Whether a record starts a session.
pub open spec fn starts(envelope: RecordEnvelope) -> bool {
    envelope.source@ == "tact"@ && envelope.kind@ == "session.started"@
}

/// Whether the start of a session is consistent with its metadata.
pub open spec fn start_consistent(started: Option<Started>, session: LegacySessionMetadata) -> bool {
    match started {
        None => false,
        Some(started) => {
            &&& started.session_id@ == session.session_id@
            &&& same_optional(started.parent_session_id, session.parent_session_id)
            &&& match (started.parent_session_id, started.parent_sequence) {
                (None, None) => true,
                (Some(id), Some(_)) => is_session_id(id@),
                _ => false,
            }
        },
    }
}

/// Whether a later start belongs to a session.
pub open spec fn restart_consistent(
    started: Option<Started>,
    session: LegacySessionMetadata,
) -> bool {
    match started {
        None => false,
        Some(started) => started.session_id@ == session.session_id@ && started.parent_session_id
            is None && started.parent_sequence is None,
    }
}

/// Why a record is refused, given what it and, where it is a start, its payload read as;
/// none where it is taken.
pub open spec fn record_refusal(
    scan: ScanModel,
    envelope: Option<RecordEnvelope>,
    started: Option<Started>,
) -> Option<ImportError> {
    match envelope {
        None => Some(ImportError::CorruptRecord),
        Some(envelope) => if envelope.schema_version != 2 {
            Some(ImportError::UnsupportedRecordVersion(envelope.schema_version))
        } else if envelope.sequence == 0 || envelope.sequence <= scan.previous
            || envelope.source@.len() == 0 || envelope.kind@.len() == 0 {
            Some(ImportError::CorruptRecord)
        } else if scan.through is Some && scan.through->0 > 0 && envelope.sequence
            > scan.through->0 {
            Some(ImportError::InvalidForkCutoff)
        } else if envelope.source@ == "agent"@ && envelope.agent is None {
            Some(ImportError::CorruptRecord)
        } else if envelope.agent is Some && (envelope.agent->0.request_id@.len() == 0
            || envelope.agent->0.protocol_version == 0) {
            Some(ImportError::CorruptRecord)
        } else if scan.first && (!starts(envelope) || !start_consistent(started, scan.session)) {
            Some(ImportError::InvalidLineage)
        } else if !scan.first && starts(envelope) && !restart_consistent(started, scan.session) {
            Some(ImportError::InvalidLineage)
        } else {
            None
        },
    }
}

/// The link to the parent that a start names.
pub open spec fn is_parent(parent: Option<ParentLink>, started: Started) -> bool {
    match parent {
        Some(parent) => started.parent_session_id == Some(parent.session_id)
            && started.parent_sequence == Some(parent.through_sequence),
        None => started.parent_session_id is None,
    }
}

/// Whether a record is the one that a row holds.
pub open spec fn is_record(
    record: LegacyRecord,
    session_id: String,
    event_id: i64,
    raw: Seq<u8>,
    envelope: RecordEnvelope,
) -> bool {
    &&& record.session_id == session_id
    &&& record.event_id == event_id
    &&& record.schema_version == envelope.schema_version
    &&& record.sequence == envelope.sequence
    &&& record.recorded_at_unix_ms == envelope.recorded_at_unix_ms
    &&& record.source == envelope.source
    &&& record.kind == envelope.kind
    &&& record.agent_protocol_version == match envelope.agent {
        Some(agent) => Some(agent.protocol_version),
        None => None,
    }
    &&& record.raw_digest == digest_of(raw)
    &&& record.raw_json@ == raw
}

/// Whether selected records are those of one session, in ascending order, up to a cutoff:
/// a cutoff of zero selects none.
pub open spec fn selected(records: Seq<LegacyRecord>, session_id: String, through: Option<u64>) -> bool {
    &&& forall|i: int|
        #![trigger records[i]]
        0 <= i < records.len() ==> {
            &&& records[i].session_id == session_id
            &&& records[i].sequence > 0
            &&& records[i].schema_version == 2
            &&& records[i].event_id > 0
            &&& records[i].raw_digest == digest_of(records[i].raw_json@)
            &&& through is Some ==> records[i].sequence <= through->0
        }
    &&& forall|i: int, j: int|
        0 <= i < j < records.len() ==> (#[trigger] records[i]).sequence < (
        #[trigger] records[j]).sequence
}

fn check_start(started: &Option<Started>, session: &LegacySessionMetadata) -> (r: bool)
    ensures
        r == start_consistent(*started, *session),
{
    match started {
        None => false,
        Some(started) => {
            if !same_text(started.session_id.as_str(), session.session_id.as_str())
                || !optional_same(&started.parent_session_id, &session.parent_session_id) {
                return false;
            }
            match (&started.parent_session_id, started.parent_sequence) {
                (None, None) => true,
                (Some(id), Some(_)) => valid_id(id.as_str()),
                _ => false,
            }
        },
    }
}

fn check_restart(started: &Option<Started>, session: &LegacySessionMetadata) -> (r: bool)
    ensures
        r == restart_consistent(*started, *session),
{
    match started {
        None => false,
        Some(started) => same_text(started.session_id.as_str(), session.session_id.as_str())
            && started.parent_session_id.is_none() && started.parent_sequence.is_none(),
    }
}

fn agent_missing(envelope: &RecordEnvelope) -> (r: bool)
    ensures
        r == (envelope.agent is None),
{
    envelope.agent.is_none()
}

fn agent_blank(envelope: &RecordEnvelope) -> (r: bool)
    ensures
        r == (envelope.agent is Some && (envelope.agent->0.request_id@.len() == 0
            || envelope.agent->0.protocol_version == 0)),
{
    match &envelope.agent {
        Some(agent) => agent.request_id.as_str().is_empty() || agent.protocol_version == 0,
        None => false,
    }
}

/// A session whose records were selected: what the lineage of an export is made of.
#[derive(Debug)]
pub struct ScannedSession {
    pub metadata: LegacySessionMetadata,
    pub parent: Option<ParentLink>,
    pub through: Option<u64>,
    pub records: Vec<LegacyRecord>,
}

/// Whether the parent of a session is the one that its metadata names.
pub open spec fn parent_named(metadata: LegacySessionMetadata, parent: Option<ParentLink>) -> bool {
    match (metadata.parent_session_id, parent) {
        (Some(id), Some(parent)) => id@ == parent.session_id@,
        (None, None) => true,
        _ => false,
    }
}

/// Whether a session was scanned as its metadata and its cutoff say.
pub open spec fn well_scanned(scanned: ScannedSession) -> bool {
    &&& parent_named(scanned.metadata, scanned.parent)
    &&& selected(scanned.records@, scanned.metadata.session_id, scanned.through)
}

/// The outcome of looking at a row before its record is read.
pub open spec fn row_outcome(
    budget: SelectionBudget,
    event_id: i64,
    length: usize,
    limits: ImportLimits,
) -> Result<(), ImportError> {
    if budget.records >= limits.max_records {
        Err(ImportError::Limit("record rows"))
    } else if event_id <= 0 {
        Err(ImportError::CorruptRecord)
    } else if length > limits.max_record_bytes {
        Err(ImportError::Limit("record bytes"))
    } else {
        Ok(())
    }
}

/// Looks at a row before its record is read.
pub fn check_row(
    budget: &SelectionBudget,
    event_id: i64,
    length: usize,
    limits: &ImportLimits,
) -> (r: Result<(), ImportError>)
    ensures
        r == row_outcome(*budget, event_id, length, *limits),
{
    if budget.records >= limits.max_records {
        return Err(ImportError::Limit("record rows"));
    }
    if event_id <= 0 {
        return Err(ImportError::CorruptRecord);
    }
    if length > limits.max_record_bytes {
        return Err(ImportError::Limit("record bytes"));
    }
    Ok(())
}

impl RecordScan {
    #[verifier::type_invariant]
    spec fn well_formed(self) -> bool {
        &&& selected(self.records@, self.session.session_id, self.through)
        &&& forall|i: int|
            0 <= i < self.records@.len() ==> (#[trigger] self.records@[i]).sequence <= self.previous
        &&& !self.first ==> parent_named(self.session, self.parent)
        &&& self.through == Some(0u64) ==> self.records@.len() == 0
        &&& self.cutoff_found && self.through is Some && self.through->0 > 0 ==> {
            &&& self.records@.len() > 0
            &&& self.records@.last().sequence == self.through->0
        }
    }

    /// Starts to select the records of a session, up to a cutoff.
    pub fn new(session: LegacySessionMetadata, through: Option<u64>) -> (r: Self)
        ensures
            r@ == (ScanModel {
                session,
                through,
                previous: 0,
                parent: None,
                first: true,
                cutoff_found: through is None || through == Some(0u64),
                records: Seq::empty(),
            }),
    {
        let cutoff_found = match through {
            None => true,
            Some(cutoff) => cutoff == 0,
        };
        let scan = RecordScan {
            session,
            through,
            previous: 0,
            parent: None,
            first: true,
            cutoff_found,
            records: Vec::new(),
        };
        assert(scan@.records =~= Seq::<LegacyRecord>::empty());
        scan
    }

    /// The kind of a start of a session, so that its payload has to be read as one.
    pub fn is_start(envelope: &RecordEnvelope) -> (r: bool)
        ensures
            r == starts(*envelope),
    {
        same_text(envelope.source.as_str(), "tact") && same_text(
            envelope.kind.as_str(),
            "session.started",
        )
    }

    fn refusal(&self, envelope: &RecordEnvelope, started: &Option<Started>) -> (r: Option<
        ImportError,
    >)
        ensures
            r == record_refusal(self@, Some(*envelope), *started),
    {
        if envelope.schema_version != 2 {
            return Some(ImportError::UnsupportedRecordVersion(envelope.schema_version));
        }
        if envelope.sequence == 0 || envelope.sequence <= self.previous
            || envelope.source.as_str().is_empty() || envelope.kind.as_str().is_empty() {
            return Some(ImportError::CorruptRecord);
        }
        let beyond = match self.through {
            Some(cutoff) => cutoff > 0 && envelope.sequence > cutoff,
            None => false,
        };
        if beyond {
            return Some(ImportError::InvalidForkCutoff);
        }
        if same_text(envelope.source.as_str(), "agent") && agent_missing(envelope) {
            return Some(ImportError::CorruptRecord);
        }
        if agent_blank(envelope) {
            return Some(ImportError::CorruptRecord);
        }
        let start = Self::is_start(envelope);
        if self.first {
            if !start || !check_start(started, &self.session) {
                return Some(ImportError::InvalidLineage);
            }
        } else if start && !check_restart(started, &self.session) {
            return Some(ImportError::InvalidLineage);
        }
        None
    }

    /// Takes the record of a row, given what it and, where it is a start, its payload read
    /// as. Answers whether the selection is complete.
    pub fn take(
        &mut self,
        event_id: i64,
        raw: Vec<u8>,
        envelope: Option<RecordEnvelope>,
        started: Option<Started>,
        budget: &mut SelectionBudget,
        limits: &ImportLimits,
    ) -> (r: Result<bool, ImportError>)
        requires
            event_id > 0,
            old(budget).records < limits.max_records,
        ensures
            final(self)@.session == old(self)@.session,
            final(self)@.through == old(self)@.through,
            match record_refusal(old(self)@, envelope, started) {
                Some(error) => {
                    &&& r == Err::<bool, ImportError>(error)
                    &&& final(self)@ == old(self)@
                    &&& *final(budget) == *old(budget)
                },
                None => {
                    let bytes = capped_sum(old(budget).bytes, raw@.len() as usize);
                    &&& *final(budget) == (SelectionBudget {
                        records: (old(budget).records + 1) as usize,
                        bytes,
                    })
                    &&& final(self)@.previous == envelope->0.sequence
                    &&& !final(self)@.first
                    &&& if old(self)@.first {
                        is_parent(final(self)@.parent, started->0)
                    } else {
                        final(self)@.parent == old(self)@.parent
                    }
                    &&& if bytes > limits.max_selected_bytes {
                        &&& r == Err::<bool, ImportError>(ImportError::Limit("selected bytes"))
                        &&& final(self)@.records == old(self)@.records
                        &&& final(self)@.cutoff_found == old(self)@.cutoff_found
                    } else if old(self)@.through == Some(0u64) {
                        &&& r == Ok::<bool, ImportError>(true)
                        &&& final(self)@.records == old(self)@.records
                        &&& final(self)@.cutoff_found == old(self)@.cutoff_found
                    } else {
                        &&& final(self)@.records.len() == old(self)@.records.len() + 1
                        &&& final(self)@.records.drop_last() == old(self)@.records
                        &&& is_record(
                            final(self)@.records.last(),
                            old(self)@.session.session_id,
                            event_id,
                            raw@,
                            envelope->0,
                        )
                        &&& r == Ok::<bool, ImportError>(
                            old(self)@.through == Some(envelope->0.sequence),
                        )
                        &&& final(self)@.cutoff_found == (old(self)@.cutoff_found
                            || old(self)@.through == Some(envelope->0.sequence))
                    }
                },
            },
    {
        proof {
            use_type_invariant(&*self);
        }
        let envelope = match envelope {
            Some(envelope) => envelope,
            None => return Err(ImportError::CorruptRecord),
        };
        match self.refusal(&envelope, &started) {
            Some(error) => return Err(error),
            None => {},
        }
        if self.first {
            let parent = match started {
                Some(started) => match (started.parent_session_id, started.parent_sequence) {
                    (Some(session_id), Some(through_sequence)) => Some(
                        ParentLink { session_id, through_sequence },
                    ),
                    _ => None,
                },
                None => None,
            };
            self.parent = parent;
            self.first = false;
        }
        self.previous = envelope.sequence;
        budget.records = budget.records + 1;
        match budget.add_bytes(raw.len(), limits) {
            Err(error) => return Err(error),
            Ok(()) => {},
        }
        match self.through {
            Some(cutoff) => {
                if cutoff == 0 {
                    return Ok(true);
                }
            },
            None => {},
        }
        let last = match self.through {
            Some(cutoff) => cutoff == envelope.sequence,
            None => false,
        };
        let ghost sequence = envelope.sequence;
        let record = LegacyRecord {
            session_id: self.session.session_id.clone(),
            event_id,
            schema_version: envelope.schema_version,
            sequence: envelope.sequence,
            recorded_at_unix_ms: envelope.recorded_at_unix_ms,
            source: envelope.source,
            kind: envelope.kind,
            agent_protocol_version: match envelope.agent {
                Some(agent) => Some(agent.protocol_version),
                None => None,
            },
            raw_digest: Digest::of(raw.as_slice()),
            raw_json: raw,
        };
        self.append(record, last);
        Ok(last)
    }

    fn append(&mut self, record: LegacyRecord, last: bool)
        requires
            record.session_id == old(self)@.session.session_id,
            record.sequence == old(self)@.previous,
            record.sequence > 0,
            record.schema_version == 2,
            record.event_id > 0,
            record.raw_digest == digest_of(record.raw_json@),
            old(self)@.through != Some(0u64),
            old(self)@.through is Some ==> record.sequence <= old(self)@.through->0,
            last == (old(self)@.through == Some(record.sequence)),
            forall|i: int|
                0 <= i < old(self)@.records.len() ==> (#[trigger] old(self)@.records[i]).sequence
                    < record.sequence,
        ensures
            final(self)@ == (ScanModel {
                records: old(self)@.records.push(record),
                cutoff_found: old(self)@.cutoff_found || last,
                ..old(self)@
            }),
    {
        proof {
            use_type_invariant(&*self);
        }
        let mut records: Vec<LegacyRecord> = Vec::new();
        let found = self.cutoff_found;
        self.cutoff_found = false;
        core::mem::swap(&mut self.records, &mut records);
        records.push(record);
        self.records = records;
        if last || found {
            assert(found ==> self.through is None || self.through->0 == 0 || last);
            self.cutoff_found = true;
        }
    }

    /// The selected records of a session.
    pub fn finish(self) -> (r: Result<ScannedSession, ImportError>)
        ensures
            match r {
                Ok(scanned) => {
                    &&& !self@.first && self@.cutoff_found
                    &&& scanned.metadata == self@.session
                    &&& scanned.parent == self@.parent
                    &&& scanned.through == self@.through
                    &&& scanned.records@ == self@.records
                    &&& well_scanned(scanned)
                    &&& scanned.through == Some(0u64) ==> scanned.records@.len() == 0
                    &&& scanned.through is Some && scanned.through->0 > 0 ==> scanned.records@.len()
                        > 0 && scanned.records@.last().sequence == scanned.through->0
                },
                Err(error) => if self@.first {
                    error == ImportError::InvalidLineage
                } else {
                    !self@.cutoff_found && error == ImportError::InvalidForkCutoff
                },
            },
    {
        proof {
            use_type_invariant(&self);
        }
        if self.first {
            return Err(ImportError::InvalidLineage);
        }
        if !self.cutoff_found {
            return Err(ImportError::InvalidForkCutoff);
        }
        Ok(
            ScannedSession {
                metadata: self.session,
                parent: self.parent,
                through: self.through,
                records: self.records,
            },
        )
    }
}

/// A session of an exported lineage, with the place of its records.
#[derive(Debug, PartialEq, Eq)]
pub struct LegacyLineageSegment {
    pub metadata: LegacySessionMetadata,
    pub parent: Option<ParentLink>,
    /// The last sequence that belongs to the lineage; zero means no record of this ancestor.
    pub through_sequence: Option<u64>,
    pub first_record_index: usize,
    pub record_count: usize,
}

/// A selected lineage, with its records and its resume state.
#[derive(Debug, PartialEq, Eq)]
pub struct LegacySessionExport {
    pub export_version: u32,
    /// The identity of the content of this lineage and resume state, whatever the path
    /// of the database and the other sessions in it.
    pub import_id: Digest,
    pub source_snapshot_id: Digest,
    pub database_version: u32,
    pub session_id: String,
    pub lineage: Vec<LegacyLineageSegment>,
    pub records: Vec<LegacyRecord>,
    pub resume: Option<LegacyResume>,
}

/// The canonical JSON of a link to a parent.
pub open spec fn link_json(v: ParentLink) -> Seq<char> {
    "{\"session_id\":"@ + json_string(v.session_id@) + ",\"through_sequence\":"@ + decimal(v.through_sequence as nat) + "}"@
}

fn link_text(v: &ParentLink) -> (r: String)
    ensures
        r@ == link_json(*v),
{
    let mut json = "{\"session_id\":".to_owned();
    push_json_string(&mut json, v.session_id.as_str());
    json.push_str(",\"through_sequence\":");
    push_decimal(&mut json, v.through_sequence as u64);
    json.push_str("}");
    json
}

/// The canonical JSON of an optional link to a parent.
pub open spec fn optional_link_json(v: Option<ParentLink>) -> Seq<char> {
    match v {
        Some(value) => ""@ + link_json(value),
        None => "null"@,
    }
}

fn optional_link_text(v: &Option<ParentLink>) -> (r: String)
    ensures
        r@ == optional_link_json(*v),
{
    match v {
        Some(value) => {
            let mut json = "".to_owned();
            json.push_str(link_text(value).as_str());
            json
        },
        None => "null".to_owned(),
    }
}

/// The canonical JSON of an optional sequence.
pub open spec fn optional_sequence_json(v: Option<u64>) -> Seq<char> {
    match v {
        Some(value) => ""@ + decimal(value as nat),
        None => "null"@,
    }
}

fn optional_sequence_text(v: &Option<u64>) -> (r: String)
    ensures
        r@ == optional_sequence_json(*v),
{
    match v {
        Some(value) => {
            let mut json = "".to_owned();
            push_decimal(&mut json, *value as u64);
            json
        },
        None => "null".to_owned(),
    }
}

/// The canonical JSON of a segment of a lineage.
pub open spec fn segment_json(v: LegacyLineageSegment) -> Seq<char> {
    "{\"metadata\":"@ + metadata_json(v.metadata) + ",\"parent\":"@ + optional_link_json(v.parent) + ",\"through_sequence\":"@ + optional_sequence_json(v.through_sequence) + ",\"first_record_index\":"@ + decimal(v.first_record_index as nat) + ",\"record_count\":"@ + decimal(v.record_count as nat) + "}"@
}

fn segment_text(v: &LegacyLineageSegment) -> (r: String)
    ensures
        r@ == segment_json(*v),
{
    let mut json = "{\"metadata\":".to_owned();
    json.push_str(metadata_text(&v.metadata).as_str());
    json.push_str(",\"parent\":");
    json.push_str(optional_link_text(&v.parent).as_str());
    json.push_str(",\"through_sequence\":");
    json.push_str(optional_sequence_text(&v.through_sequence).as_str());
    json.push_str(",\"first_record_index\":");
    push_decimal(&mut json, v.first_record_index as u64);
    json.push_str(",\"record_count\":");
    push_decimal(&mut json, v.record_count as u64);
    json.push_str("}");
    json
}

/// The canonical JSON of the first `n` segments of a lineage, separated by commas.
pub open spec fn segments_json(items: Seq<LegacyLineageSegment>, n: int) -> Seq<char>
    decreases n,
{
    if n <= 0 {
        ""@
    } else if n == 1 {
        ""@ + segment_json(items[0])
    } else {
        segments_json(items, n - 1) + ","@ + segment_json(items[n - 1])
    }
}

pub(crate) fn segments_text(items: &Vec<LegacyLineageSegment>) -> (r: String)
    ensures
        r@ == segments_json(items@, items.len() as int),
{
    let mut json = "".to_owned();
    let mut i: usize = 0;
    while i < items.len()
        invariant
            i <= items.len(),
            json@ == segments_json(items@, i as int),
        decreases items.len() - i,
    {
        if i > 0 {
            json.push_str(",");
        }
        json.push_str(segment_text(&items[i]).as_str());
        i += 1;
    }
    json
}

/// The canonical JSON of what identifies a record.
pub open spec fn record_id_json(v: LegacyRecord) -> Seq<char> {
    "["@ + json_string(v.session_id@) + ","@ + signed_decimal(v.event_id as int) + ","@ + quoted(v.raw_digest.text()) + "]"@
}

fn record_id_text(v: &LegacyRecord) -> (r: String)
    ensures
        r@ == record_id_json(*v),
{
    let mut json = "[".to_owned();
    push_json_string(&mut json, v.session_id.as_str());
    json.push_str(",");
    push_signed(&mut json, v.event_id as i128);
    json.push_str(",");
    push_digest(&mut json, &v.raw_digest);
    json.push_str("]");
    json
}

/// The canonical JSON of the first `n` identities of records, separated by commas.
pub open spec fn record_ids_json(items: Seq<LegacyRecord>, n: int) -> Seq<char>
    decreases n,
{
    if n <= 0 {
        ""@
    } else if n == 1 {
        ""@ + record_id_json(items[0])
    } else {
        record_ids_json(items, n - 1) + ","@ + record_id_json(items[n - 1])
    }
}

fn record_ids_text(items: &Vec<LegacyRecord>) -> (r: String)
    ensures
        r@ == record_ids_json(items@, items.len() as int),
{
    let mut json = "".to_owned();
    let mut i: usize = 0;
    while i < items.len()
        invariant
            i <= items.len(),
            json@ == record_ids_json(items@, i as int),
        decreases items.len() - i,
    {
        if i > 0 {
            json.push_str(",");
        }
        json.push_str(record_id_text(&items[i]).as_str());
        i += 1;
    }
    json
}

/// The canonical JSON of what identifies a resume state.
pub open spec fn resume_ids_json(v: LegacyResume) -> Seq<char> {
    "["@ + decimal(v.wrapper_version as nat) + ","@ + decimal(v.snapshot_version as nat) + ","@ + quoted(v.compressed_digest.text()) + ","@ + quoted(v.decoded_digest.text()) + ","@ + quoted(v.snapshot_digest.text()) + "]"@
}

fn resume_ids_text(v: &LegacyResume) -> (r: String)
    ensures
        r@ == resume_ids_json(*v),
{
    let mut json = "[".to_owned();
    push_decimal(&mut json, v.wrapper_version as u64);
    json.push_str(",");
    push_decimal(&mut json, v.snapshot_version as u64);
    json.push_str(",");
    push_digest(&mut json, &v.compressed_digest);
    json.push_str(",");
    push_digest(&mut json, &v.decoded_digest);
    json.push_str(",");
    push_digest(&mut json, &v.snapshot_digest);
    json.push_str("]");
    json
}

/// The canonical JSON of what identifies an optional resume state.
pub open spec fn optional_resume_json(v: Option<LegacyResume>) -> Seq<char> {
    match v {
        Some(value) => ""@ + resume_ids_json(value),
        None => "null"@,
    }
}

fn optional_resume_text(v: &Option<LegacyResume>) -> (r: String)
    ensures
        r@ == optional_resume_json(*v),
{
    match v {
        Some(value) => {
            let mut json = "".to_owned();
            json.push_str(resume_ids_text(value).as_str());
            json
        },
        None => "null".to_owned(),
    }
}

/// What identifies an export: its version, that of the database, the session, the lineage,
/// and the identities of the records and of the resume state.
pub open spec fn export_json(
    version: u32,
    session: Seq<char>,
    lineage: Seq<LegacyLineageSegment>,
    records: Seq<LegacyRecord>,
    resume: Option<LegacyResume>,
) -> Seq<char> {
    "[1,"@ + decimal(version as nat) + ","@ + json_string(session) + ",["@ + segments_json(
        lineage,
        lineage.len() as int,
    ) + "],["@ + record_ids_json(records, records.len() as int) + "],"@ + optional_resume_json(
        resume,
    ) + "]"@
}

fn export_text(
    version: u32,
    session: &str,
    lineage: &Vec<LegacyLineageSegment>,
    records: &Vec<LegacyRecord>,
    resume: &Option<LegacyResume>,
) -> (r: String)
    ensures
        r@ == export_json(version, session@, lineage@, records@, *resume),
{
    let mut json = "[1,".to_owned();
    push_decimal(&mut json, version as u64);
    json.push_str(",");
    push_json_string(&mut json, session);
    json.push_str(",[");
    json.push_str(segments_text(lineage).as_str());
    json.push_str("],[");
    json.push_str(record_ids_text(records).as_str());
    json.push_str("],");
    json.push_str(optional_resume_text(resume).as_str());
    json.push_str("]");
    json
}

/// The cutoff that a session puts on its parent: none of the parent where none of the
/// session itself is selected.
pub open spec fn effective_cutoff(through: Option<u64>, parent: ParentLink) -> u64 {
    if through == Some(0u64) {
        0
    } else {
        parent.through_sequence
    }
}

/// Whether a segment is the first one, or continues the one before it.
pub open spec fn continues(lineage: Seq<LegacyLineageSegment>, i: int) -> bool {
    match lineage[i].parent {
        None => i == 0,
        Some(parent) => {
            &&& i > 0
            &&& parent.session_id@ == lineage[i - 1].metadata.session_id@
            &&& lineage[i - 1].through_sequence == Some(
                effective_cutoff(lineage[i].through_sequence, parent),
            )
        },
    }
}

/// The number of the records of the first `n` segments.
pub open spec fn counted(lineage: Seq<LegacyLineageSegment>, n: int) -> int
    decreases n,
{
    if n <= 0 {
        0
    } else {
        counted(lineage, n - 1) + lineage[n - 1].record_count
    }
}

/// Whether segments are a lineage that ends in a session: each continues the one before,
/// none occurs twice, and together they hold so many records, one after the other.
pub open spec fn sound_lineage(
    lineage: Seq<LegacyLineageSegment>,
    record_count: int,
    source: Seq<char>,
) -> bool {
    &&& 0 < lineage.len() <= 256
    &&& forall|i: int|
        0 <= i < lineage.len() ==> {
            &&& (#[trigger] lineage[i]).first_record_index == counted(lineage, i)
            &&& parent_named(lineage[i].metadata, lineage[i].parent)
            &&& continues(lineage, i)
        }
    &&& forall|i: int, j: int|
        0 <= i < j < lineage.len() ==> (#[trigger] lineage[i]).metadata.session_id@ != (
        #[trigger] lineage[j]).metadata.session_id@
    &&& counted(lineage, lineage.len() as int) == record_count
    &&& lineage.last().metadata.session_id@ == source
    &&& lineage.last().through_sequence is None
}

/// The records of the last `k` of the scanned sessions, from the last one on: the
/// sessions are scanned from a session to its ancestors.
pub open spec fn joined_records(scanned: Seq<ScannedSession>, k: int) -> Seq<LegacyRecord>
    decreases k,
{
    if k <= 0 {
        Seq::empty()
    } else {
        joined_records(scanned, k - 1) + scanned[scanned.len() - k].records@
    }
}

/// Whether a segment describes the `k`th of the scanned sessions, from the last one on.
pub open spec fn is_segment(segment: LegacyLineageSegment, scanned: Seq<ScannedSession>, k: int) -> bool {
    let session = scanned[scanned.len() - 1 - k];
    &&& segment.metadata == session.metadata
    &&& segment.parent == session.parent
    &&& segment.through_sequence == session.through
    &&& segment.first_record_index == joined_records(scanned, k).len()
    &&& segment.record_count == session.records@.len()
}

/// The walk from a session to its ancestors.
#[derive(Debug)]
pub struct LineageWalk {
    steps: WalkSteps,
}

#[derive(Debug)]
struct WalkSteps {
    target: String,
    depth: usize,
    visited: Vec<String>,
    current: String,
    through: Option<u64>,
    scanned: Vec<ScannedSession>,
    done: bool,
}

/// What a walk knows.
#[verifier::ext_equal]
pub struct WalkModel {
    pub target: Seq<char>,
    pub depth: usize,
    pub visited: Seq<Seq<char>>,
    pub current: Seq<char>,
    pub through: Option<u64>,
    pub scanned: Seq<ScannedSession>,
    pub done: bool,
}

impl View for LineageWalk {
    type V = WalkModel;

    closed spec fn view(&self) -> WalkModel {
        self.steps.model()
    }
}

impl WalkSteps {
    spec fn model(self) -> WalkModel {
        WalkModel {
            target: self.target@,
            depth: self.depth,
            visited: self.visited@.map_values(|id: String| id@),
            current: self.current@,
            through: self.through,
            scanned: self.scanned@,
            done: self.done,
        }
    }
}

/// Whether the `i`th scanned session is the one that the one before it leads to.
pub open spec fn leads_to(scanned: Seq<ScannedSession>, i: int) -> bool {
    let before = scanned[i - 1];
    &&& before.parent is Some
    &&& before.parent->0.session_id@ == scanned[i].metadata.session_id@
    &&& scanned[i].through == Some(effective_cutoff(before.through, before.parent->0))
}

/// Whether scanned sessions are a walk from a session to its ancestors, without a cycle.
pub open spec fn walked(scanned: Seq<ScannedSession>, target: Seq<char>) -> bool {
    &&& forall|i: int| 0 <= i < scanned.len() ==> well_scanned(#[trigger] scanned[i])
    &&& scanned.len() > 0 ==> scanned[0].metadata.session_id@ == target && scanned[0].through
        is None
    &&& forall|i: int| 0 < i < scanned.len() ==> #[trigger] leads_to(scanned, i)
    &&& forall|i: int, j: int|
        0 <= i < j < scanned.len() ==> (#[trigger] scanned[i]).metadata.session_id@ != (
        #[trigger] scanned[j]).metadata.session_id@
}

fn holds(ids: &Vec<String>, id: &str) -> (r: bool)
    ensures
        r == ids@.map_values(|id: String| id@).contains(id@),
{
    let ghost all = ids@.map_values(|id: String| id@);
    let mut i: usize = 0;
    while i < ids.len()
        invariant
            i <= ids.len(),
            all == ids@.map_values(|id: String| id@),
            forall|j: int| 0 <= j < i ==> all[j] != id@,
        decreases ids.len() - i,
    {
        assert(all[i as int] == ids@[i as int]@);
        if same_text(ids[i].as_str(), id) {
            return true;
        }
        i += 1;
    }
    false
}

/// Whether a walk is sound: what it scanned is a walk without a cycle, and what it goes on
/// with is the parent of the last session.
pub open spec fn sound_walk(walk: WalkModel) -> bool {
    &&& walked(walk.scanned, walk.target)
    &&& walk.scanned.len() <= walk.visited.len() <= walk.depth
    &&& walk.visited.no_duplicates()
    &&& forall|i: int|
        0 <= i < walk.scanned.len() ==> (#[trigger] walk.scanned[i]).metadata.session_id@
            == walk.visited[i]
    &&& walk.scanned.len() == 0 ==> walk.current == walk.target && walk.through is None
        && !walk.done
    &&& walk.scanned.len() > 0 && !walk.done ==> {
        let last = walk.scanned.last();
        &&& last.parent is Some
        &&& last.parent->0.session_id@ == walk.current
        &&& walk.through == Some(effective_cutoff(last.through, last.parent->0))
    }
    &&& walk.done ==> walk.scanned.len() > 0 && walk.scanned.last().parent is None
}

/// Whether the next session of a walk was entered.
pub open spec fn entered(walk: WalkModel) -> bool {
    !walk.done && walk.visited.len() == walk.scanned.len() + 1 && walk.visited.last()
        == walk.current
}

impl WalkSteps {
    fn new(session_id: &str, depth: usize) -> (r: Self)
        ensures
            sound_walk(r.model()),
            r.model() == (WalkModel {
                target: session_id@,
                depth,
                visited: Seq::empty(),
                current: session_id@,
                through: None,
                scanned: Seq::empty(),
                done: false,
            }),
    {
        let steps = WalkSteps {
            target: session_id.to_owned(),
            depth,
            visited: Vec::new(),
            current: session_id.to_owned(),
            through: None,
            scanned: Vec::new(),
            done: false,
        };
        assert(steps.model().visited =~= Seq::<Seq<char>>::empty());
        assert(steps.model().scanned =~= Seq::<ScannedSession>::empty());
        steps
    }

    fn enter(&mut self) -> (r: Result<(), ImportError>)
        requires
            sound_walk(old(self).model()),
            !old(self).model().done,
            old(self).model().visited.len() == old(self).model().scanned.len(),
        ensures
            sound_walk(final(self).model()),
            if old(self).model().visited.contains(old(self).model().current) {
                &&& r == Err::<(), ImportError>(ImportError::LineageCycle)
                &&& final(self).model() == old(self).model()
            } else if old(self).model().visited.len() >= old(self).model().depth {
                &&& r == Err::<(), ImportError>(ImportError::Limit("lineage depth"))
                &&& final(self).model() == old(self).model()
            } else {
                &&& r == Ok::<(), ImportError>(())
                &&& entered(final(self).model())
                &&& final(self).model() == (WalkModel {
                    visited: old(self).model().visited.push(old(self).model().current),
                    ..old(self).model()
                })
            },
    {
        if holds(&self.visited, self.current.as_str()) {
            return Err(ImportError::LineageCycle);
        }
        if self.visited.len() >= self.depth {
            return Err(ImportError::Limit("lineage depth"));
        }
        let ghost before = self.model();
        let current = self.current.clone();
        self.visited.push(current);
        assert(self.model().visited =~= before.visited.push(before.current));
        assert(self.model().scanned == before.scanned);
        Ok(())
    }

    fn record(
        &mut self,
        scanned: ScannedSession,
        budget: &mut SelectionBudget,
        limits: &ImportLimits,
    ) -> (r: Result<bool, ImportError>)
        requires
            sound_walk(old(self).model()),
            entered(old(self).model()),
            well_scanned(scanned),
            scanned.metadata.session_id@ == old(self).model().current,
            scanned.through == old(self).model().through,
        ensures
            sound_walk(final(self).model()),
            ({
                let size = encode_utf8(metadata_json(scanned.metadata)).len() as usize;
                let bytes = capped_sum(old(budget).bytes, size);
                &&& *final(budget) == (SelectionBudget { bytes, ..*old(budget) })
                &&& if bytes > limits.max_selected_bytes {
                    &&& r == Err::<bool, ImportError>(ImportError::Limit("selected bytes"))
                    &&& final(self).model() == old(self).model()
                } else {
                    &&& r == Ok::<bool, ImportError>(scanned.parent is Some)
                    &&& final(self).model() == match scanned.parent {
                        Some(parent) => WalkModel {
                            scanned: old(self).model().scanned.push(scanned),
                            current: parent.session_id@,
                            through: Some(effective_cutoff(scanned.through, parent)),
                            ..old(self).model()
                        },
                        None => WalkModel {
                            scanned: old(self).model().scanned.push(scanned),
                            done: true,
                            ..old(self).model()
                        },
                    }
                }
            }),
    {
        let text = metadata_text(&scanned.metadata);
        match budget.add_bytes(byte_len(text.as_str()), limits) {
            Err(error) => return Err(error),
            Ok(()) => {},
        }
        let ghost before = self.model();
        let ghost all = before.scanned.push(scanned);
        proof {
            assert forall|i: int| 0 < i < all.len() implies #[trigger] leads_to(all, i) by {
                if i < all.len() - 1 {
                    assert(leads_to(before.scanned, i));
                    assert(all[i] == before.scanned[i] && all[i - 1] == before.scanned[i - 1]);
                }
            }
            assert forall|i: int| 0 <= i < before.scanned.len() implies (
            #[trigger] before.scanned[i]).metadata.session_id@ != scanned.metadata.session_id@ by {
                assert(before.visited[i] != before.visited[before.visited.len() - 1]);
            }
            assert(walked(all, before.target));
        }
        let more = match &scanned.parent {
            Some(parent) => {
                let cutoff: u64 = match scanned.through {
                    Some(cutoff) => if cutoff == 0 {
                        0
                    } else {
                        parent.through_sequence
                    },
                    None => parent.through_sequence,
                };
                self.current = parent.session_id.clone();
                self.through = Some(cutoff);
                true
            },
            None => {
                self.done = true;
                false
            },
        };
        self.scanned.push(scanned);
        assert(self.model().visited == before.visited);
        assert(self.model().scanned =~= all);
        Ok(more)
    }

    fn finish(self) -> (r: (Vec<LegacyLineageSegment>, Vec<LegacyRecord>))
        requires
            sound_walk(self.model()),
            self.model().done,
        ensures
            r.0@.len() == self.model().scanned.len(),
            forall|k: int|
                0 <= k < r.0@.len() ==> is_segment(#[trigger] r.0@[k], self.model().scanned, k),
            r.1@ == joined_records(self.model().scanned, self.model().scanned.len() as int),
            self.model().depth <= 256 ==> sound_lineage(r.0@, r.1@.len() as int, self.model().target),
    {
        let ghost all = self.scanned@;
        let ghost target = self.target@;
        let ghost depth = self.depth;
        let mut scanned = self.scanned;
        let mut lineage: Vec<LegacyLineageSegment> = Vec::new();
        let mut records: Vec<LegacyRecord> = Vec::new();
        let ghost mut k: int = 0;
        while scanned.len() > 0
            invariant
                0 <= k <= all.len(),
                scanned@ == all.subrange(0, all.len() - k),
                lineage@.len() == k,
                forall|j: int| 0 <= j < k ==> is_segment(#[trigger] lineage@[j], all, j),
                records@ == joined_records(all, k),
            decreases scanned.len(),
        {
            let ghost last = scanned@.last();
            let next = scanned.pop();
            match next {
                Some(session) => {
                    assert(session == all[all.len() - 1 - k]);
                    let mut local = session.records;
                    lineage.push(
                        LegacyLineageSegment {
                            metadata: session.metadata,
                            parent: session.parent,
                            through_sequence: session.through,
                            first_record_index: records.len(),
                            record_count: local.len(),
                        },
                    );
                    records.append(&mut local);
                    proof {
                        k = k + 1;
                        assert(scanned@ =~= all.subrange(0, all.len() - k));
                    }
                },
                None => {},
            }
        }
        assert(k == all.len());
        proof {
            if depth <= 256 {
                lemma_walk_is_sound(lineage@, all, target);
            }
        }
        (lineage, records)
    }
}

impl LineageWalk {
    #[verifier::type_invariant]
    spec fn well_formed(self) -> bool {
        sound_walk(self@)
    }

    /// Starts at a session.
    pub fn new(session_id: &str, limits: &ImportLimits) -> (r: Result<Self, ImportError>)
        ensures
            match r {
                Ok(walk) => {
                    &&& is_session_id(session_id@)
                    &&& sound_walk(walk@)
                    &&& walk@ == (WalkModel {
                        target: session_id@,
                        depth: limits.max_lineage_depth,
                        visited: Seq::empty(),
                        current: session_id@,
                        through: None,
                        scanned: Seq::empty(),
                        done: false,
                    })
                },
                Err(error) => !is_session_id(session_id@) && error == ImportError::SessionNotFound,
            },
    {
        if !valid_id(session_id) {
            return Err(ImportError::SessionNotFound);
        }
        Ok(LineageWalk { steps: WalkSteps::new(session_id, limits.max_lineage_depth) })
    }

    /// The session to scan next, and the last sequence of it that counts.
    pub fn next(&self) -> (r: (&str, Option<u64>))
        ensures
            r.0@ == self@.current,
            r.1 == self@.through,
    {
        (self.steps.current.as_str(), self.steps.through)
    }

    /// Enters the next session.
    pub fn enter(&mut self) -> (r: Result<(), ImportError>)
        requires
            !old(self)@.done,
            old(self)@.visited.len() == old(self)@.scanned.len(),
        ensures
            sound_walk(final(self)@),
            if old(self)@.visited.contains(old(self)@.current) {
                &&& r == Err::<(), ImportError>(ImportError::LineageCycle)
                &&& final(self)@ == old(self)@
            } else if old(self)@.visited.len() >= old(self)@.depth {
                &&& r == Err::<(), ImportError>(ImportError::Limit("lineage depth"))
                &&& final(self)@ == old(self)@
            } else {
                &&& r == Ok::<(), ImportError>(())
                &&& entered(final(self)@)
                &&& final(self)@ == (WalkModel {
                    visited: old(self)@.visited.push(old(self)@.current),
                    ..old(self)@
                })
            },
    {
        proof {
            use_type_invariant(&*self);
        }
        let mut steps = WalkSteps::new("", 0);
        std::mem::swap(&mut steps, &mut self.steps);
        let r = steps.enter();
        self.steps = steps;
        r
    }

    /// Why the walk fails where the session to scan next is not there.
    pub fn missing(&self) -> (r: ImportError)
        ensures
            r == if self@.current == self@.target {
                ImportError::SessionNotFound
            } else {
                ImportError::MissingAncestor
            },
    {
        if same_text(self.steps.current.as_str(), self.steps.target.as_str()) {
            ImportError::SessionNotFound
        } else {
            ImportError::MissingAncestor
        }
    }

    /// Takes the scan of the session that was entered. Answers whether it has a parent to
    /// go on with.
    pub fn record(
        &mut self,
        scanned: ScannedSession,
        budget: &mut SelectionBudget,
        limits: &ImportLimits,
    ) -> (r: Result<bool, ImportError>)
        requires
            entered(old(self)@),
            well_scanned(scanned),
            scanned.metadata.session_id@ == old(self)@.current,
            scanned.through == old(self)@.through,
        ensures
            sound_walk(final(self)@),
            ({
                let size = encode_utf8(metadata_json(scanned.metadata)).len() as usize;
                let bytes = capped_sum(old(budget).bytes, size);
                &&& *final(budget) == (SelectionBudget { bytes, ..*old(budget) })
                &&& if bytes > limits.max_selected_bytes {
                    &&& r == Err::<bool, ImportError>(ImportError::Limit("selected bytes"))
                    &&& final(self)@ == old(self)@
                } else {
                    &&& r == Ok::<bool, ImportError>(scanned.parent is Some)
                    &&& final(self)@ == match scanned.parent {
                        Some(parent) => WalkModel {
                            scanned: old(self)@.scanned.push(scanned),
                            current: parent.session_id@,
                            through: Some(effective_cutoff(scanned.through, parent)),
                            ..old(self)@
                        },
                        None => WalkModel {
                            scanned: old(self)@.scanned.push(scanned),
                            done: true,
                            ..old(self)@
                        },
                    }
                }
            }),
    {
        proof {
            use_type_invariant(&*self);
        }
        let mut steps = WalkSteps::new("", 0);
        std::mem::swap(&mut steps, &mut self.steps);
        let r = steps.record(scanned, budget, limits);
        self.steps = steps;
        r
    }

    /// The lineage that was walked, from the first ancestor on, with its records.
    pub fn finish(self) -> (r: (Vec<LegacyLineageSegment>, Vec<LegacyRecord>))
        requires
            self@.done,
        ensures
            r.0@.len() == self@.scanned.len(),
            forall|k: int|
                0 <= k < r.0@.len() ==> is_segment(#[trigger] r.0@[k], self@.scanned, k),
            r.1@ == joined_records(self@.scanned, self@.scanned.len() as int),
            self@.depth <= 256 ==> sound_lineage(r.0@, r.1@.len() as int, self@.target),
    {
        proof {
            use_type_invariant(&self);
        }
        self.steps.finish()
    }
}

proof fn lemma_counted(lineage: Seq<LegacyLineageSegment>, scanned: Seq<ScannedSession>, k: int)
    requires
        0 <= k <= lineage.len() == scanned.len(),
        forall|j: int| 0 <= j < lineage.len() ==> is_segment(#[trigger] lineage[j], scanned, j),
    ensures
        counted(lineage, k) == joined_records(scanned, k).len(),
    decreases k,
{
    if k > 0 {
        lemma_counted(lineage, scanned, k - 1);
        assert(is_segment(lineage[k - 1], scanned, k - 1));
    }
}

proof fn lemma_walk_is_sound(
    lineage: Seq<LegacyLineageSegment>,
    scanned: Seq<ScannedSession>,
    target: Seq<char>,
)
    requires
        0 < lineage.len() == scanned.len() <= 256,
        forall|j: int| 0 <= j < lineage.len() ==> is_segment(#[trigger] lineage[j], scanned, j),
        walked(scanned, target),
        scanned.last().parent is None,
    ensures
        sound_lineage(
            lineage,
            joined_records(scanned, scanned.len() as int).len() as int,
            target,
        ),
{
    let n = scanned.len() as int;
    lemma_counted(lineage, scanned, n);
    assert forall|i: int| 0 <= i < lineage.len() implies (
    #[trigger] lineage[i]).first_record_index == counted(lineage, i) && parent_named(
        lineage[i].metadata,
        lineage[i].parent,
    ) && continues(lineage, i) by {
        lemma_counted(lineage, scanned, i);
        assert(is_segment(lineage[i], scanned, i));
        assert(well_scanned(scanned[n - 1 - i]));
        if i > 0 {
            assert(is_segment(lineage[i - 1], scanned, i - 1));
            assert(leads_to(scanned, n - i));
        }
    }
    assert forall|i: int, j: int| 0 <= i < j < lineage.len() implies (
    #[trigger] lineage[i]).metadata.session_id@ != (#[trigger] lineage[j]).metadata.session_id@ by {
        assert(is_segment(lineage[i], scanned, i));
        assert(is_segment(lineage[j], scanned, j));
        assert(scanned[n - 1 - j].metadata.session_id@ != scanned[n - 1 - i].metadata.session_id@);
    }
    assert(is_segment(lineage[n - 1], scanned, n - 1));
}

/// The export of a lineage that was walked, with the resume state of its session.
pub fn export(
    walk: LineageWalk,
    version: u32,
    snapshot: Digest,
    resume: Option<LegacyResume>,
) -> (r: LegacySessionExport)
    requires
        walk@.done,
    ensures
        r.export_version == 1,
        r.source_snapshot_id == snapshot,
        r.database_version == version,
        r.session_id@ == walk@.target,
        r.resume == resume,
        r.lineage@.len() == walk@.scanned.len(),
        forall|k: int|
            0 <= k < r.lineage@.len() ==> is_segment(#[trigger] r.lineage@[k], walk@.scanned, k),
        r.records@ == joined_records(walk@.scanned, walk@.scanned.len() as int),
        r.import_id == digest_of_text(
            export_json(version, walk@.target, r.lineage@, r.records@, resume),
        ),
        walk@.depth <= 256 ==> sound_lineage(
            r.lineage@,
            r.records@.len() as int,
            r.session_id@,
        ),
{
    let session_id = walk.steps.target.clone();
    let (lineage, records) = walk.finish();
    let text = export_text(version, session_id.as_str(), &lineage, &records, &resume);
    LegacySessionExport {
        export_version: 1,
        import_id: Digest::of_text(text.as_str()),
        source_snapshot_id: snapshot,
        database_version: version,
        session_id,
        lineage,
        records,
        resume,
    }
}

/// A session takes of its parent what was there when it forked: no record of the parent comes
/// after the sequence that the session forked at, and where none of the session itself is
/// selected, none of its ancestors is.
pub proof fn law_forks_take_what_was_there(
    scanned: Seq<ScannedSession>,
    target: Seq<char>,
    i: int,
    k: int,
)
    requires
        walked(scanned, target),
        0 < i < scanned.len(),
        0 <= k < scanned[i].records@.len(),
    ensures
        scanned[i - 1].parent is Some,
        scanned[i - 1].parent->0.session_id@ == scanned[i].metadata.session_id@,
        0 < scanned[i].records@[k].sequence <= scanned[i - 1].parent->0.through_sequence,
        scanned[i - 1].through != Some(0u64),
{
    assert(leads_to(scanned, i));
    assert(well_scanned(scanned[i]));
    let record = scanned[i].records@[k];
    assert(record.sequence > 0);
    assert(record.sequence <= scanned[i].through->0);
}

} // verus!
