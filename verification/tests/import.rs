use harness::digest::Digest;
use harness::import::archive::{
    check_columns, check_database_version, check_resume_length, check_snapshot,
    metadata, quoted_name, read_resume, valid_id, validate_limits, validate_schema, value_bound,
    ImportError, ImportLimits, LegacySessionMetadata, ResumeWrapper, SchemaObject, SchemaScan,
    SelectionBudget, SessionList, SessionRow,
};
use harness::import::resume::{decode_resume, take_piece, ResumeReader};
use harness::import::lineage::{
    check_row, export, LegacySessionExport, LineageWalk, RecordEnvelope, RecordScan, Started,
};
use harness::import::publish::{
    check_page, prepare_import, validate_lineage, validate_manifest, validate_raw,
    validate_reference, Blob, ImportCursor, ImportManifest, IndexDocument, PageAction, PageLimits,
    PageReader, Publication, PublicationLimits, PublishError, RecordIndex, reference,
};

fn row(id: &str, parent: Option<&str>) -> SessionRow {
    SessionRow {
        session_id: Some(id.to_string()),
        parent_session_id: Some(parent.map(|parent| parent.to_string())),
        workspace: Some("/w".to_string()),
        model: Some("sol".to_string()),
        effort: Some("\"high\"".to_string()),
        reasoning_mode: Some("odd".to_string()),
        fast_mode: Some(1),
        application_version: Some("1".to_string()),
        started_at_ms: Some(5),
        updated_at_ms: Some(6),
        preview: Some("hello".to_string()),
    }
}

fn session(id: &str, parent: Option<&str>) -> LegacySessionMetadata {
    metadata(row(id, parent), &ImportLimits::default()).unwrap()
}

fn envelope(sequence: u64, kind: &str, payload: &str) -> RecordEnvelope {
    RecordEnvelope {
        schema_version: 2,
        sequence,
        recorded_at_unix_ms: 10 + sequence,
        source: "tact".to_string(),
        kind: kind.to_string(),
        payload: payload.to_string(),
        agent: None,
    }
}

fn started(id: &str, parent: Option<(&str, u64)>) -> Started {
    Started {
        session_id: id.to_string(),
        parent_session_id: parent.map(|(id, _)| id.to_string()),
        parent_sequence: parent.map(|(_, sequence)| sequence),
    }
}

fn raw(id: &str, sequence: u64) -> Vec<u8> {
    format!("{{\"of\":\"{id}\",\"sequence\":{sequence}}}").into_bytes()
}

fn scan(id: &str, parent: Option<(&str, u64)>, last: u64, through: Option<u64>, budget: &mut SelectionBudget) -> Result<harness::import::lineage::ScannedSession, ImportError> {
    let limits = ImportLimits::default();
    let mut scan = RecordScan::new(session(id, parent.map(|(id, _)| id)), through);
    for sequence in 1..=last {
        let begins = sequence == 1;
        let kind = if begins { "session.started" } else { "user.message" };
        let done = scan.take(
            sequence as i64,
            raw(id, sequence),
            Some(envelope(sequence, kind, "{}")),
            if begins { Some(started(id, parent)) } else { None },
            budget,
            &limits,
        )?;
        if done {
            break;
        }
    }
    scan.finish()
}

#[test]
fn limits_and_versions_are_checked() {
    let limits = ImportLimits::default();
    assert_eq!(validate_limits(&limits), Ok(()));
    let mut none = ImportLimits::default();
    none.max_records = 0;
    assert_eq!(validate_limits(&none), Err(ImportError::InvalidLimits));
    let mut slow = ImportLimits::default();
    slow.timeout_ns = 120_000_000_000;
    assert_eq!(validate_limits(&slow), Ok(()));
    slow.timeout_ns += 1;
    assert_eq!(validate_limits(&slow), Err(ImportError::InvalidLimits));
    slow.timeout_ns = 0;
    assert_eq!(validate_limits(&slow), Err(ImportError::InvalidLimits));
    assert!(value_bound(&limits).unwrap() > 0);
    assert!(check_snapshot(1, 4096, &limits).is_ok());
    assert!(check_snapshot(u64::MAX, 4096, &limits).is_err());
    assert!(check_database_version(99).is_err());
    assert!(valid_id("a"));
    assert!(!valid_id(""));
    assert!(check_resume_length(-1, &limits).is_err());
}

#[test]
fn selections_stay_within_their_budget() {
    let mut limits = ImportLimits::default();
    limits.max_selected_bytes = 10;
    let mut budget = SelectionBudget::new();
    assert_eq!(budget.add_bytes(10, &limits), Ok(()));
    assert!(matches!(budget.add_bytes(1, &limits), Err(ImportError::Limit(_))));
    assert!(check_columns(&vec![limits.max_metadata_bytes + 1], &limits).is_err());
    assert!(check_row(&budget, 0, limits.max_record_bytes + 1, &limits).is_err());
}

#[test]
fn rows_become_metadata() {
    let found = session("s-1", Some("p-1"));
    assert_eq!(found.session_id, "s-1");
    assert_eq!(found.parent_session_id.as_deref(), Some("p-1"));
    assert_eq!(found.effort.raw, "\"high\"");
    assert_eq!(found.effort.value.as_deref(), Some("high"));
    assert_eq!(found.reasoning_mode.value, None);
    assert!(found.fast_mode);
    let mut broken = row("s-1", None);
    broken.fast_mode = Some(2);
    assert_eq!(metadata(broken, &ImportLimits::default()).err(), Some(ImportError::InvalidLineage));
    let mut list = SessionList::new();
    let mut limits = ImportLimits::default();
    limits.max_sessions = 1;
    list.check_room(&limits).unwrap();
    list.push(found, &limits).unwrap();
    assert!(list.check_room(&limits).is_err());
}

#[test]
fn names_are_quoted_for_sql() {
    assert_eq!(quoted_name("a\"b"), "\"a\"\"b\"");
    let limits = ImportLimits::default();
    let mut scan = SchemaScan::new();
    assert!(scan.offer("table", "extra", &Some("CREATE TABLE extra(x)".to_string()), &limits).is_ok());
    scan.push(
        "table".to_string(),
        "extra".to_string(),
        "extra".to_string(),
        Some("CREATE TABLE extra(x)".to_string()),
        Some(3),
        &limits,
    )
    .unwrap();
    assert_eq!(scan.objects.len(), 1);
    assert!(validate_schema(&scan.objects).is_err());
}

#[test]
fn resumes_are_decompressed() {
    let limits = ImportLimits::default();
    let text = b"{\"format_version\":1,\"snapshot\":{\"version\":1}}".to_vec();
    let compressed = zstd::encode_all(&text[..], 0).unwrap();
    let mut budget = SelectionBudget::new();
    let decoded = decode_resume(&compressed, &mut budget, &limits).unwrap();
    assert_eq!(decoded, text);
    assert_eq!(
        decode_resume(&b"nothing".to_vec(), &mut SelectionBudget::new(), &limits),
        Err(ImportError::CorruptResume)
    );
    let mut narrow = ImportLimits::default();
    narrow.max_decoded_resume_bytes = 4;
    assert!(matches!(
        decode_resume(&compressed, &mut SelectionBudget::new(), &narrow),
        Err(ImportError::Limit(_))
    ));
    // The two bounds are passed within one piece: the one on decoded bytes is reported.
    let mut both = ImportLimits::default();
    both.max_decoded_resume_bytes = 40;
    both.max_selected_bytes = compressed.len() + 30;
    assert_eq!(
        decode_resume(&compressed, &mut SelectionBudget::new(), &both),
        Err(ImportError::Limit("decoded resume bytes"))
    );
    both.max_decoded_resume_bytes = 4096;
    let mut budget = SelectionBudget::new();
    assert_eq!(
        decode_resume(&compressed, &mut budget, &both),
        Err(ImportError::Limit("selected bytes"))
    );
    assert_eq!(budget.bytes, compressed.len() + text.len());
    // The narrower bound is passed before the wider one: it is reported.
    let long = vec![7u8; 400_000];
    let packed = zstd::encode_all(&long[..], 0).unwrap();
    both.max_decoded_resume_bytes = 300_000;
    both.max_selected_bytes = 100_000;
    assert_eq!(
        decode_resume(&packed, &mut SelectionBudget::new(), &both),
        Err(ImportError::Limit("selected bytes"))
    );
    let mut budget = SelectionBudget::new();
    let mut reader = ResumeReader::new(&packed, &mut budget, &limits).unwrap();
    let mut steps = 0;
    loop {
        let (next, more) = reader.step(&mut budget);
        reader = next;
        steps += 1;
        if !more.unwrap() {
            break;
        }
    }
    assert!(steps > 6);
    assert_eq!(reader.finish(), long);
    let mut decoded = vec![1u8];
    let mut budget = SelectionBudget::new();
    assert_eq!(take_piece(&mut decoded, Some(vec![2, 3]), &mut budget, &limits), Ok(true));
    assert_eq!(decoded, vec![1, 2, 3]);
    assert_eq!(take_piece(&mut decoded, Some(vec![]), &mut budget, &limits), Ok(false));
    assert_eq!(
        take_piece(&mut decoded, None, &mut budget, &limits),
        Err(ImportError::CorruptResume)
    );
    assert_eq!(budget.bytes, 2);
    let decoded = decode_resume(&compressed, &mut SelectionBudget::new(), &limits).unwrap();
    let wrapper = ResumeWrapper {
        format_version: 77,
        snapshot: "{}".to_string(),
    };
    assert_eq!(
        read_resume(compressed, decoded, Some(wrapper), Some(1)).err(),
        Some(ImportError::UnsupportedResumeVersion(77))
    );
}

#[test]
fn scans_stop_at_the_cutoff() {
    let mut budget = SelectionBudget::new();
    let whole = scan("s", None, 3, None, &mut budget).unwrap();
    assert_eq!(whole.records.len(), 3);
    assert_eq!(whole.parent, None);
    assert_eq!(budget.records, 3);
    let part = scan("s", None, 3, Some(2), &mut SelectionBudget::new()).unwrap();
    assert_eq!(part.records.len(), 2);
    assert_eq!(part.records[1].raw_digest, Digest::of(&raw("s", 2)));
    assert_eq!(
        scan("s", None, 3, Some(9), &mut SelectionBudget::new()).err(),
        Some(ImportError::InvalidForkCutoff)
    );
    let mut first = RecordScan::new(session("s", None), None);
    assert!(RecordScan::is_start(&envelope(1, "session.started", "{}")));
    assert_eq!(
        first.take(
            1,
            raw("s", 1),
            Some(envelope(1, "user.message", "{}")),
            None,
            &mut SelectionBudget::new(),
            &ImportLimits::default(),
        ),
        Err(ImportError::InvalidLineage)
    );
}

fn exported() -> LegacySessionExport {
    let limits = ImportLimits::default();
    let mut budget = SelectionBudget::new();
    let mut walk = LineageWalk::new("child", &limits).unwrap();
    assert_eq!(walk.next(), ("child", None));
    walk.enter().unwrap();
    let child = scan("child", Some(("parent", 2)), 2, None, &mut budget).unwrap();
    assert!(walk.record(child, &mut budget, &limits).unwrap());
    assert_eq!(walk.next(), ("parent", Some(2)));
    assert_eq!(walk.missing(), ImportError::MissingAncestor);
    walk.enter().unwrap();
    let parent = scan("parent", None, 4, Some(2), &mut budget).unwrap();
    assert!(!walk.record(parent, &mut budget, &limits).unwrap());
    export(walk, 2, Digest::of(b"snapshot"), None)
}

#[test]
fn lineages_run_from_the_oldest_ancestor() {
    let export = exported();
    assert_eq!(export.session_id, "child");
    assert_eq!(export.lineage.len(), 2);
    assert_eq!(export.lineage[0].metadata.session_id, "parent");
    assert_eq!(export.lineage[0].record_count, 2);
    assert_eq!(export.lineage[1].first_record_index, 2);
    let sequences: Vec<u64> = export.records.iter().map(|record| record.sequence).collect();
    assert_eq!(sequences, vec![1, 2, 1, 2]);
}

#[test]
fn lineages_have_no_cycle() {
    let limits = ImportLimits::default();
    let mut budget = SelectionBudget::new();
    let mut walk = LineageWalk::new("a", &limits).unwrap();
    walk.enter().unwrap();
    let scanned = scan("a", Some(("a", 1)), 1, None, &mut budget).unwrap();
    match walk.record(scanned, &mut budget, &limits) {
        Ok(_) => assert_eq!(walk.enter(), Err(ImportError::LineageCycle)),
        Err(error) => assert_eq!(error, ImportError::LineageCycle),
    }
}

fn published(export: &LegacySessionExport) -> Publication {
    let mut envelopes: Vec<Option<RecordEnvelope>> = Vec::new();
    for record in &export.records {
        envelopes.push(Some(RecordEnvelope {
            schema_version: record.schema_version,
            sequence: record.sequence,
            recorded_at_unix_ms: record.recorded_at_unix_ms,
            source: record.source.clone(),
            kind: record.kind.clone(),
            payload: "{}".to_string(),
            agent: None,
        }));
    }
    let schema: Vec<SchemaObject> = Vec::new();
    let mut limits = PublicationLimits::default();
    limits.records_per_index = 3;
    prepare_import(export, &envelopes, &schema, Some("snapshot".to_string()), 8, &limits).unwrap()
}

#[test]
fn imports_are_published_and_read_back() {
    let export = exported();
    let publication = published(&export);
    assert_eq!(publication.prepared.source_session, "child");
    assert_eq!(publication.prepared.manifest, Digest::of(publication.manifest.text.as_bytes()));
    for Blob { digest, text } in &publication.blobs {
        assert_eq!(*digest, Digest::of(text.as_bytes()));
    }
    let all: Vec<_> = export
        .records
        .iter()
        .enumerate()
        .map(|(ordinal, record)| reference(ordinal, record))
        .collect();
    for (record, raw_record) in all.iter().zip(&export.records) {
        assert_eq!(validate_reference(record, &export.lineage), Ok(()));
        assert_eq!(
            validate_raw(
                record,
                &raw_record.raw_json,
                &Some(envelope(
                    record.sequence,
                    &record.kind,
                    "{}"
                ))
            ),
            Ok(())
        );
        assert_eq!(
            validate_raw(record, &b"other".to_vec(), &None),
            Err(PublishError::Corrupt)
        );
    }
    let manifest = || ImportManifest {
        version: 1,
        import_id: export.import_id,
        source_snapshot: export.source_snapshot_id,
        source_snapshot_bytes: 8,
        database_version: export.database_version,
        source_session: "child".to_string(),
        lineage: Digest::of(b"lineage"),
        schema: Digest::of(b"schema"),
        record_count: 4,
        indexes: vec![
            RecordIndex { first: 0, count: 3, artifact: Digest::of(b"i0") },
            RecordIndex { first: 3, count: 1, artifact: Digest::of(b"i1") },
        ],
        resume: None,
    };
    assert_eq!(validate_manifest(&manifest()), Ok(()));
    assert_eq!(validate_lineage(&manifest(), &export.lineage), Ok(()));
    let id = Digest::of(b"manifest");
    let limits = PageLimits { max_records: 2, max_bytes: 4096 };
    let mut cursor: Option<ImportCursor> = None;
    let mut seen: Vec<u64> = Vec::new();
    for _ in 0..3 {
        let mut reader =
            PageReader::new(id, manifest(), lineage_of(&export), cursor, limits).unwrap();
        loop {
            match reader.step().unwrap() {
                PageAction::ReadIndex(artifact) => {
                    let (first, count) = if artifact == Digest::of(b"i0") { (0, 3) } else { (3, 1) };
                    let records = (first..first + count)
                        .map(|ordinal| reference(ordinal, &export.records[ordinal]))
                        .collect();
                    reader
                        .index(Some(IndexDocument {
                            version: 1,
                            import_id: export.import_id,
                            first,
                            records,
                        }))
                        .unwrap();
                }
                PageAction::ReadRecord(artifact) => {
                    let record = export
                        .records
                        .iter()
                        .find(|record| record.raw_digest == artifact)
                        .unwrap();
                    reader
                        .record(
                            record.raw_json.clone(),
                            Some(envelope(record.sequence, &record.kind, "{}")),
                        )
                        .unwrap();
                }
                PageAction::Continue => {}
                PageAction::Done => break,
            }
        }
        let page = reader.finish().unwrap();
        assert_eq!(page.total_records, 4);
        seen.extend(page.records.iter().map(|record| record.reference.sequence));
        cursor = page.next;
        if cursor.is_none() {
            break;
        }
    }
    assert_eq!(seen, vec![1, 2, 1, 2]);
}

fn lineage_of(export: &LegacySessionExport) -> Vec<harness::import::lineage::LegacyLineageSegment> {
    let again = exported();
    assert_eq!(again.lineage, export.lineage);
    again.lineage
}

#[test]
fn cursors_belong_to_their_manifest() {
    let cursor = Some(ImportCursor {
        manifest: Digest::of(b"other"),
        ordinal: 0,
    });
    assert_eq!(
        check_page(Digest::of(b"manifest"), cursor, PageLimits::default()),
        Err(PublishError::Cursor)
    );
    assert_eq!(
        check_page(Digest::of(b"manifest"), None, PageLimits { max_records: 0, max_bytes: 1 }),
        Err(PublishError::InvalidLimits)
    );
    assert_eq!(PublicationLimits::default().validate(), Ok(()));
}
