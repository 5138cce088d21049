//! What the replies of reads and the reports on them say, by the values under their keys.
use crate::digest::{digest_of, Digest};
use crate::input::base64_bytes;
use crate::json::{JsonModel, MemberModel};
use crate::keyed::{counts, lemma_tells, lemma_under, tells, under};
use crate::monitor::evaluation::{
    at_key, check_model, content_of, failed_report, passed_report, reply_right, unreproduced,
    CaseModel,
};
use crate::text::decimal;
use vstd::prelude::*;
use vstd::utf8::encode_utf8;

verus! {

/// Whether bytes are what a reply encodes as its content.
pub open spec fn encodes(content: JsonModel, bytes: Seq<u8>) -> bool {
    exists|data: Seq<char>| #[trigger]
        tells(content, "data"@, data) && (tells(content, "encoding"@, "utf8"@) && bytes
            == encode_utf8(data) || tells(content, "encoding"@, "base64"@) && base64_bytes(data)
            == Some(bytes))
}

/// The bytes that a reply holds are the data of the content of its result, as text or in
/// base64.
pub proof fn law_replies_hold_the_data_of_their_content(value: JsonModel, bytes: Seq<u8>)
    ensures
        content_of(value) == Some(bytes) ==> exists|result: JsonModel, content: JsonModel|
            under(value, "result"@, result) && #[trigger] under(result, "content"@, content)
                && encodes(content, bytes),
{
    if content_of(value) == Some(bytes) {
        let result = at_key(value, "result"@);
        let content = at_key(result, "content"@);
        lemma_under(value, "result"@, result);
        lemma_under(result, "content"@, content);
        lemma_tells(content, "encoding"@);
        lemma_tells(content, "data"@);
        let data = content.text_member("data"@)->0;
        assert(tells(content, "data"@, data));
        assert(value.member("result"@) is Some);
        assert(result.member("content"@) is Some);
        assert(under(result, "content"@, content) && encodes(content, bytes));
    }
}

/// Whether bytes are those of a read: the bytes from the offset on, as many as were asked for
/// and are there.
pub open spec fn is_read(case: CaseModel, bytes: Seq<u8>) -> bool {
    &&& bytes.len() <= case.max_bytes
    &&& case.offset >= case.bytes.len() ==> bytes.len() == 0
    &&& case.offset < case.bytes.len() ==> {
        &&& case.offset + bytes.len() <= case.bytes.len()
        &&& bytes.len() < case.max_bytes ==> case.offset + bytes.len() == case.bytes.len()
        &&& forall|i: int|
            0 <= i < bytes.len() ==> (#[trigger] bytes[i]) == case.bytes[case.offset + i]
    }
}

/// A reply is right only where its content is what the read had to return, and it names the
/// whole content, its size, where the read began and whether more follows.
pub proof fn law_right_replies_return_what_was_read(
    case: CaseModel,
    value: JsonModel,
    bytes: Seq<u8>,
)
    requires
        reply_right(case, value, Some(bytes)),
    ensures
        is_read(case, bytes),
        exists|result: JsonModel| #[trigger]
            under(value, "result"@, result) && tells(
                result,
                "digest"@,
                digest_of(case.bytes).text(),
            ) && under(
                result,
                "offset"@,
                JsonModel::Number(
                    decimal(
                        if case.offset < case.bytes.len() {
                            case.offset as nat
                        } else {
                            case.bytes.len()
                        },
                    ),
                ),
            ) && under(result, "size_bytes"@, JsonModel::Number(decimal(case.bytes.len())))
                && under(
                result,
                "truncated"@,
                JsonModel::Bool(case.offset + bytes.len() < case.bytes.len()),
            ),
{
    let result = at_key(value, "result"@);
    lemma_under(value, "result"@, result);
    lemma_under(result, "digest"@, at_key(result, "digest"@));
    lemma_under(result, "offset"@, at_key(result, "offset"@));
    lemma_under(result, "size_bytes"@, at_key(result, "size_bytes"@));
    lemma_under(result, "truncated"@, at_key(result, "truncated"@));
    assert(result.member("digest"@) is Some);
    assert(value.member("result"@) is Some);
    assert(under(value, "result"@, result));
}

/// Only the report of a candidate that passed every check accepts it. It names the candidate
/// and what it was checked against; the others say why the candidate is refused.
pub proof fn law_only_passed_candidates_are_accepted(
    regression: Digest,
    heldout: Digest,
    candidate: Digest,
    case: nat,
    checks: Seq<JsonModel>,
)
    ensures
        ({
            let report = passed_report(regression, heldout, candidate, checks);
            &&& under(report, "accepted"@, JsonModel::Bool(true))
            &&& tells(report, "candidate"@, candidate.text())
            &&& tells(report, "regression"@, regression.text())
            &&& tells(report, "heldout"@, heldout.text())
            &&& under(report, "checks"@, JsonModel::List(checks))
        }),
        under(failed_report(case, checks), "accepted"@, JsonModel::Bool(false)),
        under(failed_report(case, checks), "checks"@, JsonModel::List(checks)),
        tells(
            failed_report(case, checks),
            "reason"@,
            "outcome check failed at case "@ + decimal(case),
        ),
        under(unreproduced(), "accepted"@, JsonModel::Bool(false)),
{
    reveal_strlit("accepted");
    reveal_strlit("candidate");
    reveal_strlit("checks");
    reveal_strlit("control_failed");
    reveal_strlit("heldout");
    reveal_strlit("kind");
    reveal_strlit("model_comparisons");
    reveal_strlit("origin");
    reveal_strlit("reason");
    reveal_strlit("regression");
    assert("accepted"@.len() == 8 && "candidate"@.len() == 9 && "checks"@.len() == 6
        && "control_failed"@.len() == 14 && "heldout"@.len() == 7 && "kind"@.len() == 4
        && "model_comparisons"@.len() == 17 && "origin"@.len() == 6 && "reason"@.len() == 6
        && "regression"@.len() == 10);
    assert("checks"@[0] != "origin"@[0]);
    assert("checks"@[0] != "reason"@[0]);
    assert("origin"@[0] != "reason"@[0]);
    lemma_place(unreproduced()->Object_0, 0);
    lemma_place(failed_report(case, checks)->Object_0, 0);
    lemma_place(failed_report(case, checks)->Object_0, 1);
    lemma_place(failed_report(case, checks)->Object_0, 3);
    let members = passed_report(regression, heldout, candidate, checks)->Object_0;
    lemma_place(members, 0);
    lemma_place(members, 1);
    lemma_place(members, 2);
    lemma_place(members, 4);
    lemma_place(members, 8);
}

/// A check tells which case of which repeat it is of, and whether it was passed.
pub proof fn law_checks_tell_what_they_are_of(repeat: u64, case: u64, passed: bool)
    ensures
        counts(check_model(repeat as nat, case as nat, passed), "repeat"@, repeat),
        counts(check_model(repeat as nat, case as nat, passed), "case"@, case),
        under(
            check_model(repeat as nat, case as nat, passed),
            "passed"@,
            JsonModel::Bool(passed),
        ),
{
    reveal_strlit("case");
    reveal_strlit("passed");
    reveal_strlit("repeat");
    assert("case"@.len() == 4 && "passed"@.len() == 6 && "repeat"@.len() == 6);
    assert("passed"@[0] != "repeat"@[0]);
    let members = check_model(repeat as nat, case as nat, passed)->Object_0;
    lemma_place(members, 0);
    lemma_place(members, 1);
    lemma_place(members, 2);
}

proof fn lemma_place(members: Seq<MemberModel>, i: int)
    requires
        0 <= i < members.len(),
        forall|j: int| 0 <= j < i ==> (#[trigger] members[j]).key != members[i].key,
    ensures
        under(JsonModel::Object(members), members[i].key, members[i].value),
{
    reveal(under);
}

} // verus!
