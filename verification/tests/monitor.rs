use harness::digest::Digest;
use harness::json::Json;
use harness::monitor::evaluation::{
    check_candidate, check_reply, decoded_content, heldout, report_unreproduced, CandidateError, EvaluationRun,
};
use harness::monitor::model::{ReadCase, Release, SignalClass, Signature};

#[test]
fn the_baseline_is_a_valid_release() {
    let baseline = Release::baseline();
    assert_eq!(baseline.validate(), Ok(()));
    assert_eq!(baseline.parent, None);
    let mut other = Release::baseline();
    other.native_read_output_bytes = 0;
    assert!(other.validate().is_err());
    assert_ne!(other.id(), baseline.id());
}

#[test]
fn signatures_have_a_class() {
    assert_eq!(Signature::ProviderError.class(), SignalClass::Operational);
    assert_eq!(Signature::EvaluatorFailure.class(), SignalClass::EvaluatorFailure);
    assert_eq!(Signature::UserCorrection.class(), SignalClass::TaskQualitySignal);
}

#[test]
fn candidates_are_the_frozen_ones() {
    let bytes = b"{\"native_read_output_bytes\":5}".to_vec();
    let frozen = Some(Digest::of(&bytes));
    assert_eq!(check_candidate(&bytes, Ok(5), 5, frozen), Ok(()));
    assert_eq!(check_candidate(&bytes, Ok(6), 5, frozen), Err(CandidateError::NotTheParent));
    let reason = "missing field `native_read_output_bytes` at line 1 column 2";
    let unreadable = check_candidate(&b"{}".to_vec(), Err(reason.to_string()), 5, frozen);
    assert_eq!(unreadable, Err(CandidateError::Unreadable(reason.to_string())));
    assert_eq!(unreadable.unwrap_err().message(), reason);
    assert_eq!(CandidateError::TooLarge.message(), "candidate exceeds bound");
    assert_eq!(check_candidate(&bytes, Ok(5), 5, None), Err(CandidateError::Changed));
    let long = check_candidate(&vec![0; 1025], Err(reason.to_string()), 5, frozen);
    assert_eq!(long, Err(CandidateError::TooLarge));
}

fn reply(case: &ReadCase, start: usize, end: usize) -> Json {
    let text = String::from_utf8(case.bytes[start..end].to_vec()).unwrap();
    let content = Json::Text(text).to_text();
    Json::parse(
        format!(
            "{{\"result\":{{\"content\":{{\"encoding\":\"utf8\",\"data\":{content}}},\"digest\":\"{}\",\"offset\":{start},\"size_bytes\":{},\"truncated\":{}}}}}",
            Digest::of(&case.bytes).to_string(),
            case.bytes.len(),
            end < case.bytes.len()
        )
        .as_bytes(),
    )
    .unwrap()
}

#[test]
fn replies_are_held_to_their_case() {
    let cases = heldout();
    assert_eq!(cases[1].bytes, b"short".to_vec());
    assert!(check_reply(&cases[1], &reply(&cases[1], 2, 5)));
    assert!(!check_reply(&cases[1], &reply(&cases[1], 1, 5)));
    assert!(check_reply(&cases[2], &reply(&cases[2], 3, 3)));
    assert!(!check_reply(&cases[1], &Json::Null));
    let encoded = |data: &str| {
        Json::parse(
            format!("{{\"result\":{{\"content\":{{\"encoding\":\"base64\",\"data\":\"{data}\"}}}}}}").as_bytes(),
        )
        .unwrap()
    };
    assert_eq!(decoded_content(&encoded("b3J0")), Some(b"ort".to_vec()));
    assert_eq!(decoded_content(&encoded("*")), None);
}

#[test]
fn every_case_is_checked_twice() {
    let mut run = EvaluationRun::new(2);
    let mut order: Vec<usize> = Vec::new();
    while let Some(case) = run.next() {
        order.push(case);
        assert!(run.note(true).is_none());
    }
    assert_eq!(order, vec![0, 1, 0, 1]);
    let report = run.report(Digest::of(b"r"), Digest::of(b"h"), Digest::of(b"c"));
    assert_eq!(report.get("accepted"), Some(&Json::Bool(true)));
    assert_eq!(report.list("checks").unwrap().len(), 4);
    let mut run = EvaluationRun::new(2);
    run.note(true);
    let failed = run.note(false).unwrap();
    assert_eq!(failed.text("reason"), Some("outcome check failed at case 1"));
    assert_eq!(
        report_unreproduced().text("reason"),
        Some("triggering control did not reproduce")
    );
}
