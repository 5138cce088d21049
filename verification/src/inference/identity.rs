//! What credentials say of an account, and what a login or a refresh makes of them.
use crate::inference::auth::{
    callback_of, claims_of, code_of, dot_at, due_from, headers_of, member_or_null, payload_of,
    refresh_answered, status_of, token_of, token_replaced, tokens_refreshed, ManagedModel,
    PairModel, StatusModel,
};
use crate::inference::failure::AuthError;
use crate::json::{keys_in_order, with_key, JsonModel, MemberModel};
use crate::keyed::{
    counts, lacks, lemma_counts, lemma_lacking, lemma_nothing, lemma_pushed, lemma_tells,
    lemma_under, tells, under,
};
use crate::text::{
    blank, lemma_text_precedes_total, lemma_text_precedes_transitive, text_precedes,
};
use vstd::prelude::*;

verus! {

/// Whether a text without dots stands in a token between its first two dots, or behind its
/// only one.
pub open spec fn is_payload(token: Seq<char>, payload: Seq<char>) -> bool {
    exists|head: Seq<char>, tail: Seq<char>|
        {
            &&& token == #[trigger] (head + seq!['.'] + payload + tail)
            &&& !head.contains('.')
            &&& !payload.contains('.')
            &&& tail.len() == 0 || tail[0] == '.'
        }
}

proof fn lemma_dot(text: Seq<char>, from: int)
    requires
        0 <= from <= text.len(),
    ensures
        from <= dot_at(text, from) <= text.len(),
        dot_at(text, from) < text.len() ==> text[dot_at(text, from)] == '.',
        forall|i: int| from <= i < dot_at(text, from) ==> (#[trigger] text[i]) != '.',
    decreases text.len() - from,
{
    if from < text.len() && text[from] != '.' {
        lemma_dot(text, from + 1);
    }
}

/// The claims of a token are what its payload spells: what stands between its first two dots.
/// A token without a dot, or with nothing behind it, carries none.
pub proof fn law_claims_are_what_the_payload_spells(token: Seq<char>)
    ensures
        payload_of(token) matches Some(payload) ==> payload.len() > 0 && is_payload(token, payload),
        !token.contains('.') ==> claims_of(token) is None,
{
    lemma_dot(token, 0);
    let first = dot_at(token, 0);
    if first < token.len() {
        lemma_dot(token, first + 1);
        let end = dot_at(token, first + 1);
        let head = token.subrange(0, first);
        let payload = token.subrange(first + 1, end);
        let tail = token.subrange(end, token.len() as int);
        assert(token =~= head + seq!['.'] + payload + tail);
        assert(!head.contains('.')) by {
            if head.contains('.') {
                let i = choose|i: int| 0 <= i < head.len() && head[i] == '.';
                assert(token[i] == '.');
            }
        }
        assert(!payload.contains('.')) by {
            if payload.contains('.') {
                let i = choose|i: int| 0 <= i < payload.len() && payload[i] == '.';
                assert(token[first + 1 + i] == '.');
            }
        }
        assert(token.contains('.')) by {
            assert(token[first] == '.');
        }
    }
}

/// Whether a document holds a token that is not blank.
pub open spec fn holds_token(document: JsonModel, name: Seq<char>, token: Seq<char>) -> bool {
    !blank(token) && exists|tokens: JsonModel| #[trigger]
        under(document, "tokens"@, tokens) && tells(tokens, name, token)
}

/// The value under a key, or null.
pub open spec fn is_or_null(object: JsonModel, key: Seq<char>, value: JsonModel) -> bool {
    ||| under(object, key, value)
    ||| value == JsonModel::Null && forall|v: JsonModel| !#[trigger] under(object, key, v)
}

proof fn lemma_token(document: JsonModel, name: Seq<char>)
    ensures
        forall|token: Seq<char>| #[trigger]
            holds_token(document, name, token) <==> token_of(document, name) == Some(token),
{
    assert forall|token: Seq<char>| #[trigger] holds_token(document, name, token) <==> token_of(
        document,
        name,
    ) == Some(token) by {
        if holds_token(document, name, token) {
            let tokens = choose|tokens: JsonModel| #[trigger]
                under(document, "tokens"@, tokens) && tells(tokens, name, token);
            lemma_under(document, "tokens"@, tokens);
            lemma_tells(tokens, name);
        }
        if token_of(document, name) == Some(token) {
            let tokens = document.member("tokens"@)->0;
            lemma_under(document, "tokens"@, tokens);
            lemma_tells(tokens, name);
            assert(under(document, "tokens"@, tokens) && tells(tokens, name, token));
        }
    }
}

proof fn lemma_or_null(object: JsonModel, key: Seq<char>)
    ensures
        is_or_null(object, key, member_or_null(object, key)),
{
    let found = object.member(key);
    if found is Some {
        lemma_under(object, key, found->0);
    } else {
        assert forall|v: JsonModel| !#[trigger] under(object, key, v) by {
            lemma_under(object, key, v);
        }
    }
}

/// Whether a status is what a document and the claims of its identity token say: the account
/// that both agree on, the address, the plan and the region that the claims give.
pub open spec fn is_said(
    document: JsonModel,
    tokens: JsonModel,
    claims: JsonModel,
    auth: JsonModel,
    status: StatusModel,
) -> bool {
    &&& is_or_null(document, "tokens"@, tokens)
    &&& is_or_null(claims, "https://api.openai.com/auth"@, auth)
    &&& !blank(status.account_id)
    &&& tells(tokens, "account_id"@, status.account_id) || tells(
        auth,
        "chatgpt_account_id"@,
        status.account_id,
    )
    &&& forall|id: Seq<char>| #[trigger]
        tells(tokens, "account_id"@, id) ==> id == status.account_id
    &&& forall|id: Seq<char>| #[trigger]
        tells(auth, "chatgpt_account_id"@, id) ==> id == status.account_id
    &&& forall|plan: Seq<char>| #[trigger]
        tells(auth, "chatgpt_plan_type"@, plan) <==> status.plan == Some(plan)
    &&& status.fedramp <==> under(auth, "chatgpt_account_is_fedramp"@, JsonModel::Bool(true))
    &&& forall|email: Seq<char>| #[trigger]
        tells(claims, "email"@, email) ==> status.email == Some(email)
}

/// A document says of its account what its tokens say: all three are there, and the account is
/// the one that the document and the claims of its identity token agree on.
pub proof fn law_statuses_are_what_the_tokens_say(document: JsonModel, status: StatusModel)
    requires
        status_of(document) == Ok::<StatusModel, AuthError>(status),
    ensures
        exists|token: Seq<char>| #[trigger]
            holds_token(document, "id_token"@, token) && claims_of(token) is Some && exists|
                tokens: JsonModel,
                auth: JsonModel,
            | #[trigger]
                is_said(document, tokens, claims_of(token)->0, auth, status),
        exists|token: Seq<char>| #[trigger] holds_token(document, "access_token"@, token),
        exists|token: Seq<char>| #[trigger] holds_token(document, "refresh_token"@, token),
        forall|mode: JsonModel| #[trigger]
            under(document, "auth_mode"@, mode) ==> mode == JsonModel::Text("chatgpt"@),
{
    lemma_token(document, "id_token"@);
    lemma_token(document, "access_token"@);
    lemma_token(document, "refresh_token"@);
    let token = token_of(document, "id_token"@)->0;
    let claims = claims_of(token)->0;
    let tokens = member_or_null(document, "tokens"@);
    let auth = member_or_null(claims, "https://api.openai.com/auth"@);
    lemma_or_null(document, "tokens"@);
    lemma_or_null(claims, "https://api.openai.com/auth"@);
    lemma_tells(tokens, "account_id"@);
    lemma_tells(auth, "chatgpt_account_id"@);
    lemma_tells(auth, "chatgpt_plan_type"@);
    lemma_tells(claims, "email"@);
    lemma_under(auth, "chatgpt_account_is_fedramp"@, JsonModel::Bool(true));
    assert forall|email: Seq<char>| #[trigger] tells(claims, "email"@, email) implies status.email
        == Some(email) by {}
    assert(is_said(document, tokens, claims, auth, status));
    assert(holds_token(document, "id_token"@, token));
    assert(holds_token(document, "access_token"@, token_of(document, "access_token"@)->0));
    assert(holds_token(document, "refresh_token"@, token_of(document, "refresh_token"@)->0));
    assert forall|mode: JsonModel| #[trigger] under(document, "auth_mode"@, mode) implies mode
        == JsonModel::Text("chatgpt"@) by {
        lemma_under(document, "auth_mode"@, mode);
    }
}

/// A refresh is due exactly where the access token ends within five minutes.
pub proof fn law_refreshes_are_due_before_the_token_ends(
    managed: ManagedModel,
    claims: JsonModel,
    now: u64,
)
    requires
        !managed.refresh_uncertain,
        exists|token: Seq<char>| #[trigger] holds_token(managed.document, "access_token"@, token),
    ensures
        forall|end: u64| #[trigger]
            counts(claims, "exp"@, end) ==> due_from(managed, Some(claims), now) == Ok::<
                bool,
                AuthError,
            >(end - now <= 300),
        (forall|end: u64| !#[trigger] counts(claims, "exp"@, end)) ==> due_from(
            managed,
            Some(claims),
            now,
        ) == Ok::<bool, AuthError>(false),
{
    lemma_token(managed.document, "access_token"@);
    lemma_counts(claims, "exp"@);
    let token = choose|token: Seq<char>| #[trigger]
        holds_token(managed.document, "access_token"@, token);
    if claims.whole_member("exp"@) is Some {
        assert(counts(claims, "exp"@, claims.whole_member("exp"@)->0));
    }
}

/// Whether pairs have a key exactly once, with a value.
pub open spec fn only(pairs: Seq<PairModel>, n: int, key: Seq<char>, value: Seq<char>) -> bool {
    exists|i: int|
        0 <= i < n && (#[trigger] pairs[i]).key == key && pairs[i].value == value && forall|j: int|
            0 <= j < n && j != i ==> (#[trigger] pairs[j]).key != key
}

/// Whether pairs do not have a key.
pub open spec fn without(pairs: Seq<PairModel>, n: int, key: Seq<char>) -> bool {
    forall|i: int| 0 <= i < n ==> (#[trigger] pairs[i]).key != key
}

proof fn lemma_only_grows(pairs: Seq<PairModel>, n: int, key: Seq<char>, value: Seq<char>)
    requires
        0 <= n < pairs.len(),
    ensures
        pairs[n].key != key ==> only(pairs, n + 1, key, value) == only(pairs, n, key, value),
        pairs[n].key == key && without(pairs, n, key) ==> only(pairs, n + 1, key, value) == (
        pairs[n].value == value),
        pairs[n].key == key && !without(pairs, n, key) ==> !only(pairs, n + 1, key, value),
        without(pairs, n + 1, key) == (without(pairs, n, key) && pairs[n].key != key),
{
    if only(pairs, n + 1, key, value) {
        let i = choose|i: int|
            0 <= i < n + 1 && (#[trigger] pairs[i]).key == key && pairs[i].value == value
                && forall|j: int| 0 <= j < n + 1 && j != i ==> (#[trigger] pairs[j]).key != key;
        if pairs[n].key != key {
            assert(i < n);
            assert(only(pairs, n, key, value));
        } else if i < n {
            assert(pairs[n].key != key);
        } else {
            assert forall|j: int| 0 <= j < n implies (#[trigger] pairs[j]).key != key by {}
            assert(without(pairs, n, key));
        }
    }
    if only(pairs, n, key, value) && pairs[n].key != key {
        let i = choose|i: int|
            0 <= i < n && (#[trigger] pairs[i]).key == key && pairs[i].value == value && forall|
                j: int,
            | 0 <= j < n && j != i ==> (#[trigger] pairs[j]).key != key;
        assert(pairs[i].key == key && pairs[i].value == value);
        assert forall|j: int| 0 <= j < n + 1 && j != i implies (#[trigger] pairs[j]).key != key by {}
    }
    if pairs[n].key == key && without(pairs, n, key) && pairs[n].value == value {
        assert forall|j: int| 0 <= j < n + 1 && j != n implies (#[trigger] pairs[j]).key != key by {}
    }
}

proof fn lemma_callback(pairs: Seq<PairModel>, n: int)
    requires
        0 <= n <= pairs.len(),
    ensures
        callback_of(pairs, n) matches Some(found) ==> {
            &&& without(pairs, n, "error"@)
            &&& match found.state {
                Some(state) => only(pairs, n, "state"@, state),
                None => without(pairs, n, "state"@),
            }
            &&& match found.code {
                Some(code) => only(pairs, n, "code"@, code),
                None => without(pairs, n, "code"@),
            }
        },
        (callback_of(pairs, n) is None) ==> !without(pairs, n, "error"@) || (!without(
            pairs,
            n,
            "state"@,
        ) && forall|v: Seq<char>| !#[trigger] only(pairs, n, "state"@, v)) || (!without(
            pairs,
            n,
            "code"@,
        ) && forall|v: Seq<char>| !#[trigger] only(pairs, n, "code"@, v)),
    decreases n,
{
    if n > 0 {
        lemma_callback(pairs, n - 1);
        reveal_strlit("state");
        reveal_strlit("code");
        reveal_strlit("error");
        assert("state"@.len() == 5 && "code"@.len() == 4 && "error"@.len() == 5);
        assert("state"@[0] != "error"@[0]);
        assert forall|key: Seq<char>, v: Seq<char>|
            (pairs[n - 1].key != key ==> (#[trigger] only(pairs, n, key, v)) == only(
                pairs,
                n - 1,
                key,
                v,
            )) && (pairs[n - 1].key == key && without(pairs, n - 1, key) ==> only(pairs, n, key, v)
                == (pairs[n - 1].value == v)) && (pairs[n - 1].key == key && !without(
                pairs,
                n - 1,
                key,
            ) ==> !only(pairs, n, key, v)) by {
            lemma_only_grows(pairs, n - 1, key, v);
        }
        lemma_only_grows(pairs, n - 1, "state"@, pairs[n - 1].value);
        lemma_only_grows(pairs, n - 1, "code"@, pairs[n - 1].value);
        lemma_only_grows(pairs, n - 1, "error"@, pairs[n - 1].value);
        if let Some(found) = callback_of(pairs, n - 1) {
            if found.state is Some {
                assert(only(pairs, n - 1, "state"@, found.state->0));
                assert(!without(pairs, n - 1, "state"@));
            }
            if found.code is Some {
                assert(only(pairs, n - 1, "code"@, found.code->0));
                assert(!without(pairs, n - 1, "code"@));
            }
        }
    }
}

/// A callback brings a code exactly where it reports no error and has one code that is not
/// empty and one state, the one that the login expects.
pub proof fn law_codes_belong_to_their_login(
    pairs: Seq<PairModel>,
    state: Seq<char>,
    code: Seq<char>,
)
    ensures
        code_of(pairs, state) == Some(code) <==> {
            let n = pairs.len() as int;
            &&& without(pairs, n, "error"@)
            &&& only(pairs, n, "state"@, state)
            &&& only(pairs, n, "code"@, code)
            &&& code.len() > 0
        },
{
    let n = pairs.len() as int;
    lemma_callback(pairs, n);
    if only(pairs, n, "state"@, state) {
        let i = choose|i: int|
            0 <= i < n && (#[trigger] pairs[i]).key == "state"@ && pairs[i].value == state
                && forall|j: int| 0 <= j < n && j != i ==> (#[trigger] pairs[j]).key != "state"@;
        assert(!without(pairs, n, "state"@));
    }
    if only(pairs, n, "code"@, code) {
        let i = choose|i: int|
            0 <= i < n && (#[trigger] pairs[i]).key == "code"@ && pairs[i].value == code && forall|
                j: int,
            | 0 <= j < n && j != i ==> (#[trigger] pairs[j]).key != "code"@;
        assert(!without(pairs, n, "code"@));
    }
    if let Some(found) = callback_of(pairs, n) {
        if found.state is Some && only(pairs, n, "state"@, state) {
            lemma_only_one(pairs, n, "state"@, found.state->0, state);
        }
        if found.code is Some && only(pairs, n, "code"@, code) {
            lemma_only_one(pairs, n, "code"@, found.code->0, code);
        }
    }
}

proof fn lemma_only_one(
    pairs: Seq<PairModel>,
    n: int,
    key: Seq<char>,
    a: Seq<char>,
    b: Seq<char>,
)
    requires
        only(pairs, n, key, a),
        only(pairs, n, key, b),
    ensures
        a == b,
{
    let i = choose|i: int|
        0 <= i < n && (#[trigger] pairs[i]).key == key && pairs[i].value == a && forall|j: int|
            0 <= j < n && j != i ==> (#[trigger] pairs[j]).key != key;
    let k = choose|k: int|
        0 <= k < n && (#[trigger] pairs[k]).key == key && pairs[k].value == b && forall|j: int|
            0 <= j < n && j != k ==> (#[trigger] pairs[j]).key != key;
    assert(pairs[i].key == key && pairs[k].key == key);
}

proof fn lemma_with_key(members: Seq<MemberModel>, key: Seq<char>, value: JsonModel)
    requires
        keys_in_order(members),
    ensures
        keys_in_order(with_key(members, key, value)),
        forall|k: Seq<char>, v: JsonModel| #[trigger]
            under(JsonModel::Object(with_key(members, key, value)), k, v) == if k == key {
                v == value
            } else {
                under(JsonModel::Object(members), k, v)
            },
        forall|k: Seq<char>| #[trigger]
            lacks(with_key(members, key, value), k) == (k != key && lacks(members, k)),
        forall|i: int|
            0 <= i < with_key(members, key, value).len() ==> (#[trigger] with_key(
                members,
                key,
                value,
            )[i]).key == key || !lacks(members, with_key(members, key, value)[i].key),
    decreases members.len(),
{
    let new = MemberModel { key, value };
    let out = with_key(members, key, value);
    lemma_nothing();
    lemma_lacking(members);
    if members.len() == 0 {
        assert(members =~= Seq::<MemberModel>::empty());
        lemma_pushed(members, new);
    } else {
        let rest = members.drop_last();
        let last = members.last();
        let n = members.len() as int;
        assert(members =~= rest.push(last));
        assert(members[n - 1] == last);
        assert forall|i: int, j: int| 0 <= i < j < rest.len() implies text_precedes(
            (#[trigger] rest[i]).key,
            (#[trigger] rest[j]).key,
        ) by {
            assert(rest[i] == members[i] && rest[j] == members[j]);
        }
        lemma_pushed(rest, last);
        lemma_lacking(rest);
        assert forall|i: int| 0 <= i < rest.len() implies text_precedes(
            (#[trigger] rest[i]).key,
            last.key,
        ) by {
            assert(rest[i] == members[i]);
        }
        assert(forall|i: int| 0 <= i < n ==> !lacks(members, (#[trigger] members[i]).key)) by {
            reveal(lacks);
        }
        if text_precedes(last.key, key) {
            assert forall|i: int| 0 <= i < n implies text_precedes(
                (#[trigger] members[i]).key,
                key,
            ) by {
                if i < n - 1 {
                    assert(rest[i] == members[i]);
                    lemma_text_precedes_transitive(rest[i].key, last.key, key);
                }
            }
            assert(lacks(members, key)) by {
                reveal(lacks);
                assert forall|i: int| 0 <= i < n implies (#[trigger] members[i]).key != key by {
                    lemma_text_precedes_total(members[i].key, key);
                    lemma_text_precedes_total(key, key);
                }
            }
            lemma_pushed(members, new);
        } else if last.key == key {
            assert(lacks(rest, key)) by {
                reveal(lacks);
                assert forall|i: int| 0 <= i < rest.len() implies (#[trigger] rest[i]).key
                    != key by {
                    lemma_text_precedes_total(rest[i].key, key);
                    lemma_text_precedes_total(key, key);
                }
            }
            lemma_pushed(rest, new);
            assert forall|i: int| 0 <= i < out.len() implies (#[trigger] out[i]).key == key
                || !lacks(members, out[i].key) by {
                if i < rest.len() {
                    assert(out[i] == members[i]);
                }
            }
        } else {
            lemma_with_key(rest, key, value);
            let before = with_key(rest, key, value);
            lemma_pushed(before, last);
            lemma_text_precedes_total(last.key, key);
            assert forall|i: int| 0 <= i < before.len() implies text_precedes(
                (#[trigger] before[i]).key,
                last.key,
            ) by {
                if before[i].key != key {
                    assert(!lacks(rest, before[i].key));
                    reveal(lacks);
                    let j = choose|j: int|
                        0 <= j < rest.len() && (#[trigger] rest[j]).key == before[i].key;
                    assert(text_precedes(rest[j].key, last.key));
                }
            }
            assert forall|i: int, j: int| 0 <= i < j < out.len() implies text_precedes(
                (#[trigger] out[i]).key,
                (#[trigger] out[j]).key,
            ) by {
                assert(out[i] == before[i]);
                if j < before.len() {
                    assert(out[j] == before[j]);
                }
            }
            assert forall|i: int| 0 <= i < out.len() implies (#[trigger] out[i]).key == key
                || !lacks(members, out[i].key) by {
                if i < before.len() {
                    assert(out[i] == before[i]);
                }
            }
        }
    }
}

/// Whether a token is the refreshed one where there is one, and the old one otherwise.
pub open spec fn is_refreshed(
    before: JsonModel,
    refreshed: JsonModel,
    after: JsonModel,
    name: Seq<char>,
) -> bool {
    &&& forall|v: JsonModel| #[trigger]
        under(refreshed, name, v) ==> under(after, name, v) && v is Text && !blank(v->Text_0)
    &&& (forall|v: JsonModel| !#[trigger] under(refreshed, name, v)) ==> forall|v: JsonModel|
        #[trigger] under(after, name, v) == under(before, name, v)
}

proof fn lemma_token_replaced(tokens: Seq<MemberModel>, refreshed: JsonModel, name: Seq<char>)
    requires
        keys_in_order(tokens),
        token_replaced(tokens, refreshed, name) is Some,
    ensures
        ({
            let after = token_replaced(tokens, refreshed, name)->0;
            &&& keys_in_order(after)
            &&& is_refreshed(JsonModel::Object(tokens), refreshed, JsonModel::Object(after), name)
            &&& forall|k: Seq<char>, v: JsonModel|
                k != name ==> (#[trigger] under(JsonModel::Object(after), k, v) == under(
                    JsonModel::Object(tokens),
                    k,
                    v,
                ))
        }),
{
    assert forall|v: JsonModel| #[trigger] under(refreshed, name, v) == (refreshed.member(name)
        == Some(v)) by {
        lemma_under(refreshed, name, v);
    }
    if let Some(JsonModel::Text(token)) = refreshed.member(name) {
        lemma_with_key(tokens, name, JsonModel::Text(token));
        assert(under(refreshed, name, JsonModel::Text(token)));
    }
}

/// A refresh replaces the tokens that the answer brings and keeps everything else of the
/// document, and the account stays the same.
pub proof fn law_refreshes_replace_only_tokens(
    managed: ManagedModel,
    refreshed: JsonModel,
    next: JsonModel,
    status: StatusModel,
) -> (after: JsonModel)
    requires
        refresh_answered(managed, refreshed) == Ok::<(JsonModel, StatusModel), AuthError>(
            (next, status),
        ),
        managed.document is Object ==> keys_in_order(managed.document->Object_0),
        managed.document.member("tokens"@) matches Some(JsonModel::Object(held)) ==> keys_in_order(
            held,
        ),
    ensures
        under(next, "tokens"@, after),
        forall|before: JsonModel| #[trigger]
            under(managed.document, "tokens"@, before) ==> {
                &&& is_refreshed(before, refreshed, after, "access_token"@)
                &&& is_refreshed(before, refreshed, after, "refresh_token"@)
                &&& is_refreshed(before, refreshed, after, "id_token"@)
                &&& forall|k: Seq<char>, v: JsonModel|
                    k != "access_token"@ && k != "refresh_token"@ && k != "id_token"@ ==> (
                    #[trigger] under(after, k, v) == under(before, k, v))
            },
        forall|k: Seq<char>, v: JsonModel|
            k != "tokens"@ ==> (#[trigger] under(next, k, v) == under(managed.document, k, v)),
        status_of(next) == Ok::<StatusModel, AuthError>(status),
        status.account_id == managed.status.account_id,
        exists|token: Seq<char>| #[trigger] tells(refreshed, "access_token"@, token),
{
    let members = managed.document->Object_0;
    let held = managed.document.member("tokens"@)->0->Object_0;
    let t1 = token_replaced(held, refreshed, "access_token"@)->0;
    let t2 = token_replaced(t1, refreshed, "refresh_token"@)->0;
    let t3 = tokens_refreshed(held, refreshed)->0;
    reveal_strlit("access_token");
    reveal_strlit("refresh_token");
    reveal_strlit("id_token");
    assert("access_token"@.len() == 12 && "refresh_token"@.len() == 13 && "id_token"@.len() == 8);
    lemma_token_replaced(held, refreshed, "access_token"@);
    lemma_token_replaced(t1, refreshed, "refresh_token"@);
    lemma_token_replaced(t2, refreshed, "id_token"@);
    let after = JsonModel::Object(t3);
    lemma_with_key(members, "tokens"@, after);
    lemma_tells(refreshed, "access_token"@);
    assert(tells(refreshed, "access_token"@, refreshed.text_member("access_token"@)->0));
    assert forall|before: JsonModel| #[trigger]
        under(managed.document, "tokens"@, before) implies before == JsonModel::Object(held) by {
        lemma_under(managed.document, "tokens"@, before);
    }
    after
}

/// A request is authorized by its bearer, and for an account by that account. Both are kept
/// secret. A government account is marked as one, and no other is.
pub proof fn law_headers_authorize_the_account(bearer: Seq<char>, status: Option<StatusModel>)
    ensures
        ({
            let headers = headers_of(bearer, status);
            &&& headers[0].name == "authorization"@ && headers[0].value == "Bearer "@ + bearer
                && headers[0].sensitive
            &&& status is None ==> headers.len() == 1
            &&& status matches Some(account) ==> {
                &&& headers[1].name == "chatgpt-account-id"@ && headers[1].value
                    == account.account_id && headers[1].sensitive
                &&& headers.len() == if account.fedramp {
                    3int
                } else {
                    2
                }
                &&& account.fedramp ==> headers[2].name == "x-openai-fedramp"@ && headers[2].value
                    == "true"@
            }
        }),
{
}

} // verus!
