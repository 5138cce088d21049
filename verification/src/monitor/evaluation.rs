//! The evaluation of a candidate configuration. A candidate has no authority: only built-in
//! reads are run, and what they have to return is fixed before the candidate exists.
use crate::digest::{digest_of, Digest};
use crate::input::{base64_bytes, decode_standard};
use crate::json::{
    add_item, add_member, copy_items, lemma_alike_plain, models, object_members, Json, JsonModel,
    Member, MemberModel,
};
use crate::monitor::model::ReadCase;
use crate::text::{decimal, push_decimal, same_text};
use vstd::prelude::*;
use vstd::utf8::encode_utf8;

verus! {

/// Why a candidate is not evaluated. One that does not read as a configuration is refused
/// with what its reader said.
#[derive(Debug, PartialEq, Eq)]
pub enum CandidateError {
    TooLarge,
    Unreadable(String),
    NotTheParent,
    Changed,
}

impl CandidateError {
    pub open spec fn spec_message(self) -> Seq<char> {
        match self {
            CandidateError::TooLarge => "candidate exceeds bound"@,
            CandidateError::Unreadable(reason) => reason@,
            CandidateError::NotTheParent => {
                "candidate is not the diagnosed parent configuration"@
            },
            CandidateError::Changed => "candidate digest changed after freeze"@,
        }
    }

    pub fn message(&self) -> (r: &str)
        ensures
            r@ == self.spec_message(),
    {
        match self {
            CandidateError::TooLarge => "candidate exceeds bound",
            CandidateError::Unreadable(reason) => reason.as_str(),
            CandidateError::NotTheParent => "candidate is not the diagnosed parent configuration",
            CandidateError::Changed => "candidate digest changed after freeze",
        }
    }
}

/// Checks a candidate, given what it configures or what its reader said: it has to be the
/// diagnosed parent, as it was frozen.
pub fn check_candidate(
    bytes: &Vec<u8>,
    configured: Result<u32, String>,
    expected: u32,
    frozen: Option<Digest>,
) -> (r: Result<(), CandidateError>)
    ensures
        r == if bytes@.len() > 1024 {
            Err::<(), CandidateError>(CandidateError::TooLarge)
        } else {
            match configured {
                Err(reason) => Err(CandidateError::Unreadable(reason)),
                Ok(size) => if size != expected {
                    Err(CandidateError::NotTheParent)
                } else if frozen != Some(digest_of(bytes@)) {
                    Err(CandidateError::Changed)
                } else {
                    Ok(())
                },
            }
        },
{
    if bytes.len() > 1024 {
        return Err(CandidateError::TooLarge);
    }
    match configured {
        Err(reason) => return Err(CandidateError::Unreadable(reason)),
        Ok(size) => if size != expected {
            return Err(CandidateError::NotTheParent);
        },
    }
    let digest = Digest::of(bytes.as_slice());
    match frozen {
        Some(frozen) => if frozen != digest {
            return Err(CandidateError::Changed);
        },
        None => return Err(CandidateError::Changed),
    }
    Ok(())
}

#[verifier::ext_equal]
pub struct CaseModel {
    pub bytes: Seq<u8>,
    pub offset: usize,
    pub max_bytes: usize,
}

impl View for ReadCase {
    type V = CaseModel;

    open spec fn view(&self) -> CaseModel {
        CaseModel { bytes: self.bytes@, offset: self.offset, max_bytes: self.max_bytes }
    }
}

/// A byte of a text of one character of three bytes, over and over.
pub open spec fn wide_byte(i: int) -> u8 {
    if i % 3 == 0 {
        231
    } else if i % 3 == 1 {
        149
    } else {
        140
    }
}

/// The reads that every candidate has to get right.
pub open spec fn heldout_cases() -> Seq<CaseModel> {
    Seq::empty().push(CaseModel { bytes: Seq::empty(), offset: 0, max_bytes: 4096 }).push(
        CaseModel { bytes: seq![115u8, 104, 111, 114, 116], offset: 2, max_bytes: 4096 },
    ).push(CaseModel { bytes: seq![101u8, 111, 102], offset: 50, max_bytes: 12 }).push(
        CaseModel { bytes: Seq::new(4096, |i: int| 34u8), offset: 0, max_bytes: 4096 },
    ).push(
        CaseModel { bytes: Seq::new(4096, |i: int| 255u8), offset: 13, max_bytes: 4000 },
    ).push(
        CaseModel { bytes: Seq::new(4500, |i: int| wide_byte(i)), offset: 1, max_bytes: 4096 },
    )
}

pub open spec fn case_models(cases: Seq<ReadCase>) -> Seq<CaseModel> {
    cases.map_values(|case: ReadCase| case@)
}

fn push_case(cases: &mut Vec<ReadCase>, bytes: Vec<u8>, offset: usize, max_bytes: usize)
    ensures
        case_models(final(cases)@) == case_models(old(cases)@).push(
            CaseModel { bytes: bytes@, offset, max_bytes },
        ),
{
    let ghost before = cases@;
    cases.push(ReadCase { bytes, offset, max_bytes });
    assert(case_models(cases@) =~= case_models(before).push(
        CaseModel { bytes: bytes@, offset, max_bytes },
    ));
}

fn repeated(byte: u8, count: usize) -> (r: Vec<u8>)
    ensures
        r@ == Seq::new(count as nat, |i: int| byte),
{
    let mut bytes: Vec<u8> = Vec::new();
    while bytes.len() < count
        invariant
            bytes@.len() <= count,
            forall|i: int| 0 <= i < bytes@.len() ==> bytes@[i] == byte,
        decreases count - bytes@.len(),
    {
        bytes.push(byte);
    }
    assert(bytes@ =~= Seq::new(count as nat, |i: int| byte));
    bytes
}

fn wide_bytes() -> (r: Vec<u8>)
    ensures
        r@ == Seq::new(4500, |i: int| wide_byte(i)),
{
    let mut bytes: Vec<u8> = Vec::new();
    while bytes.len() < 4500
        invariant
            bytes@.len() <= 4500,
            bytes@.len() % 3 == 0,
            forall|i: int| 0 <= i < bytes@.len() ==> bytes@[i] == wide_byte(i),
        decreases 4500 - bytes@.len(),
    {
        bytes.push(231);
        bytes.push(149);
        bytes.push(140);
    }
    assert(bytes@ =~= Seq::new(4500, |i: int| wide_byte(i)));
    bytes
}

/// The reads that every candidate has to get right.
pub fn heldout() -> (r: Vec<ReadCase>)
    ensures
        case_models(r@) == heldout_cases(),
{
    let mut cases: Vec<ReadCase> = Vec::new();
    assert(case_models(cases@) =~= Seq::<CaseModel>::empty());
    let nothing: Vec<u8> = Vec::new();
    assert(nothing@ =~= Seq::<u8>::empty());
    push_case(&mut cases, nothing, 0, 4096);
    let mut short: Vec<u8> = Vec::new();
    short.push(115);
    short.push(104);
    short.push(111);
    short.push(114);
    short.push(116);
    assert(short@ =~= seq![115u8, 104, 111, 114, 116]);
    push_case(&mut cases, short, 2, 4096);
    let mut end: Vec<u8> = Vec::new();
    end.push(101);
    end.push(111);
    end.push(102);
    assert(end@ =~= seq![101u8, 111, 102]);
    push_case(&mut cases, end, 50, 12);
    let quotes = repeated(34, 4096);
    assert(quotes@ =~= Seq::new(4096, |i: int| 34u8));
    push_case(&mut cases, quotes, 0, 4096);
    let high = repeated(255, 4096);
    assert(high@ =~= Seq::new(4096, |i: int| 255u8));
    push_case(&mut cases, high, 13, 4000);
    push_case(&mut cases, wide_bytes(), 1, 4096);
    cases
}

/// The value under a key, or nothing.
pub open spec fn at_key(value: JsonModel, key: Seq<char>) -> JsonModel {
    match value.member(key) {
        Some(member) => member,
        None => JsonModel::Null,
    }
}

/// The bytes that the reply of a read holds, given what its data stand for in base64.
pub open spec fn content_of(value: JsonModel) -> Option<Seq<u8>> {
    let content = at_key(at_key(value, "result"@), "content"@);
    match content.text_member("encoding"@) {
        None => None,
        Some(encoding) => match content.text_member("data"@) {
            None => None,
            Some(data) => if encoding == "utf8"@ {
                Some(encode_utf8(data))
            } else if encoding == "base64"@ {
                base64_bytes(data)
            } else {
                None
            },
        },
    }
}

fn get_or_null(value: &Json, key: &str) -> (r: Json)
    ensures
        r@ == at_key(value@, key@),
{
    match value.get(key) {
        Some(member) => member.copy(),
        None => Json::Null,
    }
}

fn bytes_of(text: &str) -> (r: Vec<u8>)
    ensures
        r@ == encode_utf8(text@),
{
    let bytes = text.as_bytes();
    let mut copy: Vec<u8> = Vec::new();
    let mut i: usize = 0;
    while i < bytes.len()
        invariant
            i <= bytes@.len(),
            copy@ == bytes@.subrange(0, i as int),
        decreases bytes@.len() - i,
    {
        copy.push(bytes[i]);
        assert(copy@ =~= bytes@.subrange(0, i + 1));
        i += 1;
    }
    assert(copy@ =~= encode_utf8(text@));
    copy
}

/// The bytes that the reply of a read holds.
pub fn decoded_content(value: &Json) -> (r: Option<Vec<u8>>)
    ensures
        match (r, content_of(value@)) {
            (Some(bytes), Some(expected)) => bytes@ == expected,
            (None, None) => true,
            _ => false,
        },
{
    let result = get_or_null(value, "result");
    let content = get_or_null(&result, "content");
    let encoding = match content.text("encoding") {
        None => return None,
        Some(encoding) => encoding,
    };
    let data = match content.text("data") {
        None => return None,
        Some(data) => data,
    };
    if same_text(encoding, "utf8") {
        Some(bytes_of(data))
    } else if same_text(encoding, "base64") {
        decode_standard(data)
    } else {
        None
    }
}

/// Where a read starts.
pub open spec fn case_start(case: CaseModel) -> int {
    if case.offset < case.bytes.len() {
        case.offset as int
    } else {
        case.bytes.len() as int
    }
}

/// Where a read ends.
pub open spec fn case_end(case: CaseModel) -> int {
    if case_start(case) + case.max_bytes < case.bytes.len() {
        case_start(case) + case.max_bytes
    } else {
        case.bytes.len() as int
    }
}

/// A whole number as JSON notes it.
pub open spec fn number_model(n: nat) -> JsonModel {
    JsonModel::Number(decimal(n))
}

/// Whether a reply is what a read has to return, given the bytes that it holds.
pub open spec fn reply_right(case: CaseModel, value: JsonModel, content: Option<Seq<u8>>) -> bool {
    let result = at_key(value, "result"@);
    &&& content == Some(case.bytes.subrange(case_start(case), case_end(case)))
    &&& at_key(result, "digest"@) == JsonModel::Text(digest_of(case.bytes).text())
    &&& at_key(result, "offset"@) == number_model(case_start(case) as nat)
    &&& at_key(result, "size_bytes"@) == number_model(case.bytes.len())
    &&& at_key(result, "truncated"@) == JsonModel::Bool(case_end(case) < case.bytes.len())
}

fn same_bytes(a: &Vec<u8>, b: &Vec<u8>, from: usize, to: usize) -> (r: bool)
    requires
        from <= to <= b.len(),
    ensures
        r == (a@ == b@.subrange(from as int, to as int)),
{
    if a.len() != to - from {
        return false;
    }
    let mut i: usize = 0;
    while i < a.len()
        invariant
            i <= a.len(),
            a@.len() == to - from,
            from <= to <= b@.len(),
            forall|j: int| 0 <= j < i ==> a@[j] == b@[from + j],
        decreases a.len() - i,
    {
        if a[i] != b[from + i] {
            assert(a@[i as int] != b@.subrange(from as int, to as int)[i as int]);
            return false;
        }
        i += 1;
    }
    assert(a@ =~= b@.subrange(from as int, to as int));
    true
}

fn number(n: usize) -> (r: Json)
    ensures
        r@ == number_model(n as nat),
{
    let mut digits = String::new();
    push_decimal(&mut digits, n as u64);
    assert(digits@ =~= decimal(n as nat));
    Json::Number(digits)
}

fn is_plain(value: &Json, expected: &Json) -> (r: bool)
    requires
        match expected@ {
            JsonModel::Bool(value) => true,
            JsonModel::Text(text) => true,
            JsonModel::Number(digits) => exists|n: nat| digits == #[trigger] decimal(n),
            _ => false,
        },
    ensures
        r == (value@ == expected@),
{
    proof {
        lemma_alike_plain(value@, expected@);
    }
    value.same(expected)
}

/// Whether a reply is what a read has to return, given the bytes that it holds.
pub fn check_reply_with(case: &ReadCase, value: &Json, content: &Option<Vec<u8>>) -> (r: bool)
    ensures
        r == reply_right(
            case@,
            value@,
            match content {
                Some(bytes) => Some(bytes@),
                None => None,
            },
        ),
{
    let len = case.bytes.len();
    let start: usize = if case.offset < len {
        case.offset
    } else {
        len
    };
    let end: usize = if case.max_bytes < len - start {
        start + case.max_bytes
    } else {
        len
    };
    let held = match content {
        Some(bytes) => same_bytes(bytes, &case.bytes, start, end),
        None => false,
    };
    let result = get_or_null(value, "result");
    let digest = Json::Text(Digest::of(case.bytes.as_slice()).to_string());
    held && is_plain(&get_or_null(&result, "digest"), &digest) && is_plain(
        &get_or_null(&result, "offset"),
        &number(start),
    ) && is_plain(&get_or_null(&result, "size_bytes"), &number(len)) && is_plain(
        &get_or_null(&result, "truncated"),
        &Json::Bool(end < len),
    )
}

/// Whether a reply is what a read has to return.
pub fn check_reply(case: &ReadCase, value: &Json) -> (r: bool)
    ensures
        r == reply_right(case@, value@, content_of(value@)),
{
    let content = decoded_content(value);
    check_reply_with(case, value, &content)
}

/// The outcome of one check.
pub open spec fn check_model(repeat: nat, case: nat, passed: bool) -> JsonModel {
    JsonModel::Object(
        Seq::<MemberModel>::empty().push(
            MemberModel { key: "case"@, value: number_model(case) },
        ).push(MemberModel { key: "passed"@, value: JsonModel::Bool(passed) }).push(
            MemberModel { key: "repeat"@, value: number_model(repeat) },
        ),
    )
}

/// An evaluation that is running: every read is checked twice.
#[derive(Debug)]
pub struct EvaluationRun {
    cases: usize,
    repeat: usize,
    case: usize,
    checks: Vec<Json>,
}

#[verifier::ext_equal]
pub struct RunModel {
    pub cases: usize,
    pub repeat: usize,
    pub case: usize,
    pub checks: Seq<JsonModel>,
}

impl View for EvaluationRun {
    type V = RunModel;

    closed spec fn view(&self) -> RunModel {
        RunModel {
            cases: self.cases,
            repeat: self.repeat,
            case: self.case,
            checks: models(self.checks),
        }
    }
}

/// The check behind another.
pub open spec fn next_check(run: RunModel, passed: bool) -> RunModel {
    let checks = run.checks.push(check_model(run.repeat as nat, run.case as nat, passed));
    if run.case + 1 < run.cases {
        RunModel { case: (run.case + 1) as usize, checks, ..run }
    } else {
        RunModel { repeat: (run.repeat + 1) as usize, case: 0, checks, ..run }
    }
}

fn text_value(text: &str) -> (r: Json)
    ensures
        r@ == JsonModel::Text(text@),
{
    Json::Text(text.to_owned())
}

/// The report of a control that did not reproduce the regression.
pub open spec fn unreproduced() -> JsonModel {
    JsonModel::Object(
        Seq::<MemberModel>::empty().push(
            MemberModel { key: "accepted"@, value: JsonModel::Bool(false) },
        ).push(MemberModel { key: "origin"@, value: JsonModel::Text("evaluation"@) }).push(
            MemberModel {
                key: "reason"@,
                value: JsonModel::Text("triggering control did not reproduce"@),
            },
        ),
    )
}

/// The report of a control that did not reproduce the regression.
pub fn report_unreproduced() -> (r: Json)
    ensures
        r@ == unreproduced(),
{
    let mut members: Vec<Member> = Vec::new();
    assert(object_members(members) =~= Seq::<MemberModel>::empty());
    add_member(&mut members, "accepted", Json::Bool(false));
    add_member(&mut members, "origin", text_value("evaluation"));
    add_member(&mut members, "reason", text_value("triggering control did not reproduce"));
    Json::Object(members)
}

/// The report of a candidate that failed a check.
pub open spec fn failed_report(case: nat, checks: Seq<JsonModel>) -> JsonModel {
    JsonModel::Object(
        Seq::<MemberModel>::empty().push(
            MemberModel { key: "accepted"@, value: JsonModel::Bool(false) },
        ).push(MemberModel { key: "checks"@, value: JsonModel::List(checks) }).push(
            MemberModel { key: "origin"@, value: JsonModel::Text("evaluation"@) },
        ).push(
            MemberModel {
                key: "reason"@,
                value: JsonModel::Text("outcome check failed at case "@ + decimal(case)),
            },
        ),
    )
}

/// The report of a candidate that passed every check.
pub open spec fn passed_report(
    regression: Digest,
    heldout: Digest,
    candidate: Digest,
    checks: Seq<JsonModel>,
) -> JsonModel {
    JsonModel::Object(
        Seq::<MemberModel>::empty().push(
            MemberModel { key: "accepted"@, value: JsonModel::Bool(true) },
        ).push(
            MemberModel { key: "candidate"@, value: JsonModel::Text(candidate.text()) },
        ).push(MemberModel { key: "checks"@, value: JsonModel::List(checks) }).push(
            MemberModel { key: "control_failed"@, value: JsonModel::Bool(true) },
        ).push(MemberModel { key: "heldout"@, value: JsonModel::Text(heldout.text()) }).push(
            MemberModel {
                key: "kind"@,
                value: JsonModel::Text("deterministic_native_read_capacity"@),
            },
        ).push(MemberModel { key: "model_comparisons"@, value: JsonModel::Null }).push(
            MemberModel { key: "origin"@, value: JsonModel::Text("evaluation"@) },
        ).push(
            MemberModel { key: "regression"@, value: JsonModel::Text(regression.text()) },
        ).push(
            MemberModel {
                key: "scope"@,
                value: JsonModel::Text(
                    "restores bounded native read replies only; no model or task-quality inference"@,
                ),
            },
        ),
    )
}

impl EvaluationRun {
    /// Starts an evaluation of so many reads.
    pub fn new(cases: usize) -> (r: Self)
        ensures
            r@ == (RunModel { cases, repeat: 0, case: 0, checks: Seq::empty() }),
    {
        let checks: Vec<Json> = Vec::new();
        assert(models(checks) =~= Seq::<JsonModel>::empty());
        EvaluationRun { cases, repeat: 0, case: 0, checks }
    }

    /// The read to check next; none where all were checked.
    pub fn next(&self) -> (r: Option<usize>)
        ensures
            r == if self@.repeat < 2 && self@.case < self@.cases {
                Some(self@.case)
            } else {
                None
            },
    {
        if self.repeat < 2 && self.case < self.cases {
            Some(self.case)
        } else {
            None
        }
    }

    /// Notes the outcome of the check. Hands out the report where it failed.
    pub fn note(&mut self, passed: bool) -> (r: Option<Json>)
        requires
            old(self)@.repeat < 2,
            old(self)@.case < old(self)@.cases,
        ensures
            final(self)@ == next_check(old(self)@, passed),
            match r {
                Some(report) => !passed && report@ == failed_report(
                    old(self)@.case as nat,
                    final(self)@.checks,
                ),
                None => passed,
            },
    {
        let mut members: Vec<Member> = Vec::new();
        assert(object_members(members) =~= Seq::<MemberModel>::empty());
        add_member(&mut members, "case", number(self.case));
        add_member(&mut members, "passed", Json::Bool(passed));
        add_member(&mut members, "repeat", number(self.repeat));
        add_item(&mut self.checks, Json::Object(members));
        let case = self.case;
        if self.case + 1 < self.cases {
            self.case = self.case + 1;
        } else {
            self.repeat = self.repeat + 1;
            self.case = 0;
        }
        if passed {
            return None;
        }
        let mut reason = "outcome check failed at case ".to_owned();
        push_decimal(&mut reason, case as u64);
        let mut report: Vec<Member> = Vec::new();
        assert(object_members(report) =~= Seq::<MemberModel>::empty());
        add_member(&mut report, "accepted", Json::Bool(false));
        add_member(&mut report, "checks", Json::List(copy_items(&self.checks)));
        add_member(&mut report, "origin", text_value("evaluation"));
        add_member(&mut report, "reason", Json::Text(reason));
        Some(Json::Object(report))
    }

    /// The report of a candidate that passed every check.
    pub fn report(self, regression: Digest, heldout: Digest, candidate: Digest) -> (r: Json)
        ensures
            r@ == passed_report(regression, heldout, candidate, self@.checks),
    {
        let mut report: Vec<Member> = Vec::new();
        assert(object_members(report) =~= Seq::<MemberModel>::empty());
        add_member(&mut report, "accepted", Json::Bool(true));
        add_member(&mut report, "candidate", Json::Text(candidate.to_string()));
        add_member(&mut report, "checks", Json::List(self.checks));
        add_member(&mut report, "control_failed", Json::Bool(true));
        add_member(&mut report, "heldout", Json::Text(heldout.to_string()));
        add_member(&mut report, "kind", text_value("deterministic_native_read_capacity"));
        add_member(&mut report, "model_comparisons", Json::Null);
        add_member(&mut report, "origin", text_value("evaluation"));
        add_member(&mut report, "regression", Json::Text(regression.to_string()));
        add_member(
            &mut report,
            "scope",
            text_value(
                "restores bounded native read replies only; no model or task-quality inference",
            ),
        );
        Json::Object(report)
    }
}

/// A read never reaches behind the bytes of its case, and returns no more than it was asked
/// for.
pub proof fn law_reads_stay_within_their_bounds(case: CaseModel)
    ensures
        0 <= case_start(case) <= case_end(case) <= case.bytes.len(),
        case_end(case) - case_start(case) <= case.max_bytes,
{
}

} // verus!
