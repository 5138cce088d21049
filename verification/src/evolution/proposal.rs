//! Proposals: requests, the attempts of a provider, and validated batches.
use crate::canonical::{json_string, push_digest, push_json_string, quoted};
use crate::digest::{digest_of_text, Digest};
use crate::evolution::harness::{
    patched, read_problem, reminder_set_json, reminder_set_text, revision_id, roles_json,
    roles_text, schedule_json, schedule_text, skills_json, skills_text, policy_of_behavior,
    BehaviorLayer, BehaviorModel, ManifestError, ManifestPatch, PatchModel, ResourceBudgets,
    RevisionModel, ValidatedHarnessRevision,
};
use crate::evolution::ids::{
    MiningBundleRoot, ModelIdentity, PolicyIdentity, ProposalBatchRoot, ProposalId,
    ProposalIntentId, ProposalProviderReceiptId, ProposalRequestRoot, ProtocolIdentity,
};
use crate::arrange::{lemma_arranged_is_order_free, lemma_sorted_weakly};
use crate::first::{either, first_some, lemma_first_some_at, lemma_first_some_none, refused};
use crate::json::{
    lemma_members, notation, Json, JsonModel, Member, MemberModel,
};
use crate::order::{
    arranged, lemma_sorted_differ, lemma_sorted_holds, lemma_sorted_indexes, numbers, sorted,
    sorted_order, Ordered,
};
use crate::text::{byte_len, decimal, lemma_decimal, push_decimal, same_text};
use vstd::prelude::*;
use vstd::utf8::encode_utf8;

verus! {

pub const PROPOSAL_SCHEMA_VERSION: u32 = 1;

pub const MIN_CANDIDATES: u16 = 2;

pub const MAX_CANDIDATES: u16 = 16;

pub const MAX_PATCH_BYTES: usize = 65536;

pub const MAX_PROVIDER_ENVELOPE_BYTES: usize = 98304;

/// A field of a behavior that a proposal changes.
#[derive(Clone, Copy, Debug, PartialEq, Eq, PartialOrd, Ord, Hash, Structural)]
pub enum DiversityDimension {
    Budgets,
    Instructions,
    RecoveryReminders,
    Skills,
    SubagentRoles,
    Verifier,
}

impl DiversityDimension {
    pub open spec fn spec_name(self) -> Seq<char> {
        match self {
            DiversityDimension::Budgets => "budgets"@,
            DiversityDimension::Instructions => "instructions"@,
            DiversityDimension::RecoveryReminders => "recovery_reminders"@,
            DiversityDimension::Skills => "skills"@,
            DiversityDimension::SubagentRoles => "subagent_roles"@,
            DiversityDimension::Verifier => "verifier"@,
        }
    }

    pub fn name(self) -> (r: &'static str)
        ensures
            r@ == self.spec_name(),
    {
        match self {
            DiversityDimension::Budgets => "budgets",
            DiversityDimension::Instructions => "instructions",
            DiversityDimension::RecoveryReminders => "recovery_reminders",
            DiversityDimension::Skills => "skills",
            DiversityDimension::SubagentRoles => "subagent_roles",
            DiversityDimension::Verifier => "verifier",
        }
    }
}

/// A set of dimensions.
#[derive(Clone, Copy, Debug, PartialEq, Eq, Structural)]
pub struct DimensionSet {
    pub budgets: bool,
    pub instructions: bool,
    pub recovery_reminders: bool,
    pub skills: bool,
    pub subagent_roles: bool,
    pub verifier: bool,
}

impl DimensionSet {
    pub open spec fn none() -> DimensionSet {
        DimensionSet { budgets: false, instructions: false, recovery_reminders: false, skills: false, subagent_roles: false, verifier: false }
    }

    pub open spec fn has(self, item: DiversityDimension) -> bool {
        match item {
            DiversityDimension::Budgets => self.budgets,
            DiversityDimension::Instructions => self.instructions,
            DiversityDimension::RecoveryReminders => self.recovery_reminders,
            DiversityDimension::Skills => self.skills,
            DiversityDimension::SubagentRoles => self.subagent_roles,
            DiversityDimension::Verifier => self.verifier,
        }
    }

    pub open spec fn with(self, item: DiversityDimension) -> DimensionSet {
        match item {
            DiversityDimension::Budgets => DimensionSet { budgets: true, ..self },
            DiversityDimension::Instructions => DimensionSet { instructions: true, ..self },
            DiversityDimension::RecoveryReminders => DimensionSet { recovery_reminders: true, ..self },
            DiversityDimension::Skills => DimensionSet { skills: true, ..self },
            DiversityDimension::SubagentRoles => DimensionSet { subagent_roles: true, ..self },
            DiversityDimension::Verifier => DimensionSet { verifier: true, ..self },
        }
    }

    pub open spec fn count(self) -> int {
        (if self.budgets { 1int } else { 0int }) + (if self.instructions { 1int } else { 0int }) + (if self.recovery_reminders { 1int } else { 0int }) + (if self.skills { 1int } else { 0int }) + (if self.subagent_roles { 1int } else { 0int }) + (if self.verifier { 1int } else { 0int })
    }

    pub fn new() -> (r: Self)
        ensures
            r == DimensionSet::none(),
    {
        DimensionSet { budgets: false, instructions: false, recovery_reminders: false, skills: false, subagent_roles: false, verifier: false }
    }

    pub fn contains(&self, item: DiversityDimension) -> (r: bool)
        ensures
            r == self.has(item),
    {
        match item {
            DiversityDimension::Budgets => self.budgets,
            DiversityDimension::Instructions => self.instructions,
            DiversityDimension::RecoveryReminders => self.recovery_reminders,
            DiversityDimension::Skills => self.skills,
            DiversityDimension::SubagentRoles => self.subagent_roles,
            DiversityDimension::Verifier => self.verifier,
        }
    }

    pub fn insert(&mut self, item: DiversityDimension) -> (new: bool)
        ensures
            new == !old(self).has(item),
            *final(self) == old(self).with(item),
    {
        let new = !self.contains(item);
        match item {
            DiversityDimension::Budgets => {
                self.budgets = true;
            },
            DiversityDimension::Instructions => {
                self.instructions = true;
            },
            DiversityDimension::RecoveryReminders => {
                self.recovery_reminders = true;
            },
            DiversityDimension::Skills => {
                self.skills = true;
            },
            DiversityDimension::SubagentRoles => {
                self.subagent_roles = true;
            },
            DiversityDimension::Verifier => {
                self.verifier = true;
            },
        }
        new
    }

    pub fn len(&self) -> (r: usize)
        ensures
            r == self.count(),
    {
        let mut n: usize = 0;
        if self.budgets {
            n += 1;
        }
        if self.instructions {
            n += 1;
        }
        if self.recovery_reminders {
            n += 1;
        }
        if self.skills {
            n += 1;
        }
        if self.subagent_roles {
            n += 1;
        }
        if self.verifier {
            n += 1;
        }
        n
    }
}

/// The canonical JSON of a set of dimensions, separated by commas.
pub open spec fn dimension_set_json(v: DimensionSet) -> Seq<char> {
    let s0 = if v.budgets { "\"budgets\""@ } else { ""@ };
    let s1 = s0 + (if v.instructions && (v.budgets) { ",\"instructions\""@ } else if v.instructions { "\"instructions\""@ } else { ""@ });
    let s2 = s1 + (if v.recovery_reminders && (v.budgets || v.instructions) { ",\"recovery_reminders\""@ } else if v.recovery_reminders { "\"recovery_reminders\""@ } else { ""@ });
    let s3 = s2 + (if v.skills && (v.budgets || v.instructions || v.recovery_reminders) { ",\"skills\""@ } else if v.skills { "\"skills\""@ } else { ""@ });
    let s4 = s3 + (if v.subagent_roles && (v.budgets || v.instructions || v.recovery_reminders || v.skills) { ",\"subagent_roles\""@ } else if v.subagent_roles { "\"subagent_roles\""@ } else { ""@ });
    let s5 = s4 + (if v.verifier && (v.budgets || v.instructions || v.recovery_reminders || v.skills || v.subagent_roles) { ",\"verifier\""@ } else if v.verifier { "\"verifier\""@ } else { ""@ });
    s5
}

pub(crate) fn dimension_set_text(v: &DimensionSet) -> (r: String)
    ensures
        r@ == dimension_set_json(*v),
{
    let mut json = if v.budgets {
        "\"budgets\"".to_owned()
    } else {
        "".to_owned()
    };
    if v.instructions && (v.budgets) {
        json.push_str(",\"instructions\"");
    } else if v.instructions {
        json.push_str("\"instructions\"");
    } else {
        json.push_str("");
    }
    if v.recovery_reminders && (v.budgets || v.instructions) {
        json.push_str(",\"recovery_reminders\"");
    } else if v.recovery_reminders {
        json.push_str("\"recovery_reminders\"");
    } else {
        json.push_str("");
    }
    if v.skills && (v.budgets || v.instructions || v.recovery_reminders) {
        json.push_str(",\"skills\"");
    } else if v.skills {
        json.push_str("\"skills\"");
    } else {
        json.push_str("");
    }
    if v.subagent_roles && (v.budgets || v.instructions || v.recovery_reminders || v.skills) {
        json.push_str(",\"subagent_roles\"");
    } else if v.subagent_roles {
        json.push_str("\"subagent_roles\"");
    } else {
        json.push_str("");
    }
    if v.verifier && (v.budgets || v.instructions || v.recovery_reminders || v.skills || v.subagent_roles) {
        json.push_str(",\"verifier\"");
    } else if v.verifier {
        json.push_str("\"verifier\"");
    } else {
        json.push_str("");
    }
    json
}

/// Why a proposal is refused.
#[allow(inconsistent_fields)]
#[derive(Clone, Copy, Debug, PartialEq, Eq)]
pub enum ProposalError {
    InvalidCandidateCount { minimum: u16, maximum: u16 },
    InvalidPatchLimit { maximum: usize },
    RequestParentMismatch,
    RequestPolicyMismatch,
    WrongAttemptCount { expected: usize, actual: usize },
    UnexpectedIntent,
    DuplicateIntent,
    ProviderUnknown {
        intent: ProposalIntentId,
        receipt: ProposalProviderReceiptId,
        charged_tokens: u64,
    },
    EmptyUnknownCharge,
    ProviderOutputTooLarge { maximum: usize },
    InvalidProviderOutput,
    UnsupportedSchema { actual: u32 },
    OutputBindingMismatch { field: &'static str },
    InvalidDiversityDimensions,
    DiversityMismatch,
    RedundantPatchField { field: DiversityDimension },
    PatchTooLarge { maximum: usize },
    NoOpPatch,
    DuplicateCandidate,
    Manifest(ManifestError),
}

/// A request for proposals.
#[derive(Clone, Copy, Debug, PartialEq, Eq, Structural)]
pub struct ProposalRequest {
    pub root: ProposalRequestRoot,
    pub parent: Digest,
    pub evidence: MiningBundleRoot,
    pub policy: PolicyIdentity,
    pub model: ModelIdentity,
    pub protocol: ProtocolIdentity,
    pub candidate_count: u16,
    pub max_patch_bytes: usize,
}

/// The canonical JSON of what a request asks for, which its root is the identity of.
pub open spec fn request_json(v: ProposalRequest) -> Seq<char> {
    "{\"schema_version\":"@ + decimal(PROPOSAL_SCHEMA_VERSION as nat) + ",\"parent\":"@ + quoted(v.parent.text()) + ",\"evidence\":"@ + quoted(v.evidence.0.text()) + ",\"policy\":"@ + quoted(v.policy.0.text()) + ",\"model\":"@ + quoted(v.model.0.text()) + ",\"protocol\":"@ + quoted(v.protocol.0.text()) + ",\"candidate_count\":"@ + decimal(v.candidate_count as nat) + ",\"max_patch_bytes\":"@ + decimal(v.max_patch_bytes as nat) + "}"@
}

/// What is wrong with the limits of a request.
pub open spec fn limits_problem(candidate_count: u16, max_patch_bytes: usize) -> Option<
    ProposalError,
> {
    if !(MIN_CANDIDATES <= candidate_count <= MAX_CANDIDATES) {
        Some(
            ProposalError::InvalidCandidateCount {
                minimum: MIN_CANDIDATES,
                maximum: MAX_CANDIDATES,
            },
        )
    } else if max_patch_bytes == 0 || max_patch_bytes > MAX_PATCH_BYTES {
        Some(ProposalError::InvalidPatchLimit { maximum: MAX_PATCH_BYTES })
    } else {
        None
    }
}

impl ProposalRequest {
    pub open spec fn well_formed(self) -> bool {
        &&& limits_problem(self.candidate_count, self.max_patch_bytes) is None
        &&& self.root == ProposalRequestRoot(digest_of_text(request_json(self)))
    }

    pub fn new(
        parent: Digest,
        evidence: MiningBundleRoot,
        policy: PolicyIdentity,
        model: ModelIdentity,
        protocol: ProtocolIdentity,
        candidate_count: u16,
        max_patch_bytes: usize,
    ) -> (r: Result<Self, ProposalError>)
        ensures
            match r {
                Ok(request) => request.well_formed() && request.parent == parent
                    && request.evidence == evidence && request.policy == policy && request.model
                    == model && request.protocol == protocol && request.candidate_count
                    == candidate_count && request.max_patch_bytes == max_patch_bytes,
                Err(error) => limits_problem(candidate_count, max_patch_bytes) == Some(error),
            },
    {
        if candidate_count < MIN_CANDIDATES || candidate_count > MAX_CANDIDATES {
            return Err(
                ProposalError::InvalidCandidateCount {
                    minimum: MIN_CANDIDATES,
                    maximum: MAX_CANDIDATES,
                },
            );
        }
        if max_patch_bytes == 0 || max_patch_bytes > MAX_PATCH_BYTES {
            return Err(ProposalError::InvalidPatchLimit { maximum: MAX_PATCH_BYTES });
        }
        let mut json = "{\"schema_version\":".to_owned();
        push_decimal(&mut json, PROPOSAL_SCHEMA_VERSION as u64);
        json.push_str(",\"parent\":");
        push_digest(&mut json, &parent);
        json.push_str(",\"evidence\":");
        push_digest(&mut json, &evidence.0);
        json.push_str(",\"policy\":");
        push_digest(&mut json, &policy.0);
        json.push_str(",\"model\":");
        push_digest(&mut json, &model.0);
        json.push_str(",\"protocol\":");
        push_digest(&mut json, &protocol.0);
        json.push_str(",\"candidate_count\":");
        push_decimal(&mut json, candidate_count as u64);
        json.push_str(",\"max_patch_bytes\":");
        push_decimal(&mut json, max_patch_bytes as u64);
        json.push_str("}");
        let root = ProposalRequestRoot(Digest::of_text(json.as_str()));
        Ok(
            ProposalRequest {
                root,
                parent,
                evidence,
                policy,
                model,
                protocol,
                candidate_count,
                max_patch_bytes,
            },
        )
    }

    pub fn root(self) -> (r: ProposalRequestRoot)
        ensures
            r == self.root,
    {
        self.root
    }

    pub fn parent(self) -> (r: Digest)
        ensures
            r == self.parent,
    {
        self.parent
    }

    pub fn evidence(self) -> (r: MiningBundleRoot)
        ensures
            r == self.evidence,
    {
        self.evidence
    }

    pub fn policy(self) -> (r: PolicyIdentity)
        ensures
            r == self.policy,
    {
        self.policy
    }

    pub fn model(self) -> (r: ModelIdentity)
        ensures
            r == self.model,
    {
        self.model
    }

    pub fn protocol(self) -> (r: ProtocolIdentity)
        ensures
            r == self.protocol,
    {
        self.protocol
    }

    pub fn candidate_count(self) -> (r: u16)
        ensures
            r == self.candidate_count,
    {
        self.candidate_count
    }

    pub fn max_patch_bytes(self) -> (r: usize)
        ensures
            r == self.max_patch_bytes,
    {
        self.max_patch_bytes
    }

    /// The intents of the request, one for each candidate.
    pub fn intents(self) -> (r: Vec<ProposalIntent>)
        ensures
            r@ == intents_of(self.root, self.candidate_count as int),
    {
        let mut intents: Vec<ProposalIntent> = Vec::new();
        let mut index: u16 = 0;
        while index < self.candidate_count
            invariant
                index <= self.candidate_count,
                intents@ == intents_of(self.root, index as int),
            decreases self.candidate_count - index,
        {
            intents.push(ProposalIntent::derive(self.root, index));
            index += 1;
            assert(intents@ =~= intents_of(self.root, index as int));
        }
        intents
    }
}

/// One proposal that a request asks for.
#[derive(Clone, Copy, Debug, PartialEq, Eq, PartialOrd, Ord, Hash, Structural)]
pub struct ProposalIntent {
    pub id: ProposalIntentId,
    pub request: ProposalRequestRoot,
    pub index: u16,
}

/// The text that the intent of a request at an index is named by.
pub open spec fn intent_text(request: ProposalRequestRoot, index: u16) -> Seq<char> {
    "orvek:proposal-intent:v1:"@ + request.0.text() + ":"@ + decimal(index as nat)
}

/// The intent of a request at an index.
pub open spec fn intent_of(request: ProposalRequestRoot, index: u16) -> ProposalIntent {
    ProposalIntent {
        id: ProposalIntentId(digest_of_text(intent_text(request, index))),
        request,
        index,
    }
}

/// The first `n` intents of a request.
pub open spec fn intents_of(request: ProposalRequestRoot, n: int) -> Seq<ProposalIntent> {
    Seq::new(n as nat, |i: int| intent_of(request, i as u16))
}

impl ProposalIntent {
    fn derive(request: ProposalRequestRoot, index: u16) -> (r: Self)
        ensures
            r == intent_of(request, index),
    {
        let mut text = "orvek:proposal-intent:v1:".to_owned();
        request.0.push_to(&mut text);
        text.push_str(":");
        push_decimal(&mut text, index as u64);
        ProposalIntent { id: ProposalIntentId(Digest::of_text(text.as_str())), request, index }
    }

    pub fn id(self) -> (r: ProposalIntentId)
        ensures
            r == self.id,
    {
        self.id
    }

    pub fn request(self) -> (r: ProposalRequestRoot)
        ensures
            r == self.request,
    {
        self.request
    }

    pub fn index(self) -> (r: u16)
        ensures
            r == self.index,
    {
        self.index
    }
}

/// A receipt of a provider call whose end is unknown.
#[derive(Clone, Copy, Debug, PartialEq, Eq, Structural)]
pub struct ProviderUnknownReceipt {
    pub receipt: ProposalProviderReceiptId,
    pub charged_tokens: u64,
}

impl ProviderUnknownReceipt {
    pub fn receipt(self) -> (r: ProposalProviderReceiptId)
        ensures
            r == self.receipt,
    {
        self.receipt
    }

    pub fn charged_tokens(self) -> (r: u64)
        ensures
            r == self.charged_tokens,
    {
        self.charged_tokens
    }
}

/// The fields of a behavior that a provider replaces, as it wrote them.
pub struct ProviderManifestPatch {
    pub budgets: Option<Json>,
    pub instructions: Option<Json>,
    pub recovery_reminders: Option<Json>,
    pub skills: Option<Json>,
    pub subagent_roles: Option<Json>,
    pub verifier: Option<Json>,
}

/// What a provider replaces.
#[verifier::ext_equal]
pub struct FieldsModel {
    pub budgets: Option<JsonModel>,
    pub instructions: Option<JsonModel>,
    pub recovery_reminders: Option<JsonModel>,
    pub skills: Option<JsonModel>,
    pub subagent_roles: Option<JsonModel>,
    pub verifier: Option<JsonModel>,
}

/// What an optional value says.
pub open spec fn optional_model(value: Option<Json>) -> Option<JsonModel> {
    match value {
        Some(json) => Some(json@),
        None => None,
    }
}

impl View for ProviderManifestPatch {
    type V = FieldsModel;

    open spec fn view(&self) -> FieldsModel {
        FieldsModel {
            budgets: optional_model(self.budgets),
            instructions: optional_model(self.instructions),
            recovery_reminders: optional_model(self.recovery_reminders),
            skills: optional_model(self.skills),
            subagent_roles: optional_model(self.subagent_roles),
            verifier: optional_model(self.verifier),
        }
    }
}

/// The dimension at an index, in the order of their names.
pub open spec fn dimension_at(i: int) -> DiversityDimension {
    if i == 0 {
        DiversityDimension::Budgets
    } else if i == 1 {
        DiversityDimension::Instructions
    } else if i == 2 {
        DiversityDimension::RecoveryReminders
    } else if i == 3 {
        DiversityDimension::Skills
    } else if i == 4 {
        DiversityDimension::SubagentRoles
    } else {
        DiversityDimension::Verifier
    }
}

pub(crate) fn nth_dimension(i: usize) -> (r: DiversityDimension)
    requires
        i < 6,
    ensures
        r == dimension_at(i as int),
{
    if i == 0 {
        DiversityDimension::Budgets
    } else if i == 1 {
        DiversityDimension::Instructions
    } else if i == 2 {
        DiversityDimension::RecoveryReminders
    } else if i == 3 {
        DiversityDimension::Skills
    } else if i == 4 {
        DiversityDimension::SubagentRoles
    } else {
        DiversityDimension::Verifier
    }
}

impl FieldsModel {
    pub open spec fn field(self, dimension: DiversityDimension) -> Option<JsonModel> {
        match dimension {
            DiversityDimension::Budgets => self.budgets,
            DiversityDimension::Instructions => self.instructions,
            DiversityDimension::RecoveryReminders => self.recovery_reminders,
            DiversityDimension::Skills => self.skills,
            DiversityDimension::SubagentRoles => self.subagent_roles,
            DiversityDimension::Verifier => self.verifier,
        }
    }

    /// The dimensions that are replaced.
    pub open spec fn dimensions(self) -> DimensionSet {
        DimensionSet {
            budgets: self.budgets is Some,
            instructions: self.instructions is Some,
            recovery_reminders: self.recovery_reminders is Some,
            skills: self.skills is Some,
            subagent_roles: self.subagent_roles is Some,
            verifier: self.verifier is Some,
        }
    }

    /// The replaced fields among the first `n` dimensions, as members of an object.
    pub open spec fn members(self, n: int) -> Seq<MemberModel>
        decreases n,
    {
        if n <= 0 {
            Seq::empty()
        } else {
            let before = self.members(n - 1);
            let dimension = dimension_at(n - 1);
            match self.field(dimension) {
                Some(value) => before.push(MemberModel { key: dimension.spec_name(), value }),
                None => before,
            }
        }
    }

    /// The canonical JSON of the patch.
    pub open spec fn canonical(self) -> Seq<char> {
        notation(JsonModel::Object(self.members(6)))
    }
}

impl ProviderManifestPatch {
    pub(crate) fn field(&self, dimension: DiversityDimension) -> (r: Option<&Json>)
        ensures
            match r {
                Some(json) => self@.field(dimension) == Some(json@),
                None => self@.field(dimension) is None,
            },
    {
        match dimension {
            DiversityDimension::Budgets => self.budgets.as_ref(),
            DiversityDimension::Instructions => self.instructions.as_ref(),
            DiversityDimension::RecoveryReminders => self.recovery_reminders.as_ref(),
            DiversityDimension::Skills => self.skills.as_ref(),
            DiversityDimension::SubagentRoles => self.subagent_roles.as_ref(),
            DiversityDimension::Verifier => self.verifier.as_ref(),
        }
    }

    fn dimensions(&self) -> (r: DimensionSet)
        ensures
            r == self@.dimensions(),
    {
        DimensionSet {
            budgets: self.budgets.is_some(),
            instructions: self.instructions.is_some(),
            recovery_reminders: self.recovery_reminders.is_some(),
            skills: self.skills.is_some(),
            subagent_roles: self.subagent_roles.is_some(),
            verifier: self.verifier.is_some(),
        }
    }

    /// The canonical JSON of the patch.
    pub fn canonical(&self) -> (r: String)
        ensures
            r@ == self@.canonical(),
    {
        let mut members: Vec<Member> = Vec::new();
        let mut i: usize = 0;
        while i < 6
            invariant
                i <= 6,
                crate::json::member_models(members, members@.len()) == self@.members(i as int),
            decreases 6 - i,
        {
            let dimension = nth_dimension(i);
            match self.field(dimension) {
                Some(value) => {
                    let ghost before = members;
                    let copy = value.copy();
                    members.push(Member { key: dimension.name().to_owned(), value: copy });
                    proof {
                        lemma_members(before, before@.len());
                        lemma_members(members, members@.len());
                        assert(crate::json::member_models(members, members@.len())
                            =~= self@.members(i as int + 1));
                    }
                },
                None => {},
            }
            i += 1;
        }
        Json::Object(members).to_text()
    }

    /// A copy of the patch.
    pub(crate) fn copy(&self) -> (r: Self)
        ensures
            r@ == self@,
    {
        ProviderManifestPatch {
            budgets: copy_value(&self.budgets),
            instructions: copy_value(&self.instructions),
            recovery_reminders: copy_value(&self.recovery_reminders),
            skills: copy_value(&self.skills),
            subagent_roles: copy_value(&self.subagent_roles),
            verifier: copy_value(&self.verifier),
        }
    }
}

pub(crate) fn copy_value(value: &Option<Json>) -> (r: Option<Json>)
    ensures
        optional_model(r) == optional_model(*value),
{
    match value {
        Some(json) => Some(json.copy()),
        None => None,
    }
}

/// What a provider answered to an intent.
pub struct ProviderProposalEnvelope {
    pub schema_version: u32,
    pub request: ProposalRequestRoot,
    pub intent: ProposalIntentId,
    pub parent: Digest,
    pub evidence: MiningBundleRoot,
    pub policy: PolicyIdentity,
    pub dimensions: Vec<DiversityDimension>,
    pub patch: ProviderManifestPatch,
}

/// What an answer says.
#[verifier::ext_equal]
pub struct EnvelopeModel {
    pub schema_version: u32,
    pub request: ProposalRequestRoot,
    pub intent: ProposalIntentId,
    pub parent: Digest,
    pub evidence: MiningBundleRoot,
    pub policy: PolicyIdentity,
    pub dimensions: Seq<DiversityDimension>,
    pub patch: FieldsModel,
}

impl View for ProviderProposalEnvelope {
    type V = EnvelopeModel;

    open spec fn view(&self) -> EnvelopeModel {
        EnvelopeModel {
            schema_version: self.schema_version,
            request: self.request,
            intent: self.intent,
            parent: self.parent,
            evidence: self.evidence,
            policy: self.policy,
            dimensions: self.dimensions@,
            patch: self.patch@,
        }
    }
}

/// What came of a provider call.
pub enum ProposalAttemptOutcome {
    /// The provider answered. The envelope is what the payload spells, if it spells one,
    /// and the patch is what the canonical JSON of the envelope's patch spells.
    Settled {
        receipt: ProposalProviderReceiptId,
        payload: Vec<u8>,
        envelope: Option<ProviderProposalEnvelope>,
        patch: Option<ManifestPatch>,
    },
    InfrastructureUnknown(ProviderUnknownReceipt),
}

/// An attempt to have an intent answered.
pub struct ProposalAttempt {
    pub intent: ProposalIntent,
    pub outcome: ProposalAttemptOutcome,
}

/// What came of an attempt.
#[verifier::ext_equal]
pub enum OutcomeModel {
    Settled {
        receipt: ProposalProviderReceiptId,
        payload: Seq<u8>,
        envelope: Option<EnvelopeModel>,
        patch: Option<PatchModel>,
    },
    InfrastructureUnknown(ProviderUnknownReceipt),
}

#[verifier::ext_equal]
pub struct AttemptModel {
    pub intent: ProposalIntent,
    pub outcome: OutcomeModel,
}

pub open spec fn optional_envelope(envelope: Option<ProviderProposalEnvelope>) -> Option<
    EnvelopeModel,
> {
    match envelope {
        Some(value) => Some(value@),
        None => None,
    }
}

pub open spec fn optional_patch(patch: Option<ManifestPatch>) -> Option<PatchModel> {
    match patch {
        Some(value) => Some(value@),
        None => None,
    }
}

impl View for ProposalAttempt {
    type V = AttemptModel;

    open spec fn view(&self) -> AttemptModel {
        AttemptModel {
            intent: self.intent,
            outcome: match self.outcome {
                ProposalAttemptOutcome::Settled { receipt, payload, envelope, patch } =>
                    OutcomeModel::Settled {
                    receipt,
                    payload: payload@,
                    envelope: optional_envelope(envelope),
                    patch: optional_patch(patch),
                },
                ProposalAttemptOutcome::InfrastructureUnknown(unknown) =>
                    OutcomeModel::InfrastructureUnknown(unknown),
            },
        }
    }
}

impl ProposalAttempt {
    pub fn settled(
        intent: ProposalIntent,
        receipt: ProposalProviderReceiptId,
        payload: Vec<u8>,
        envelope: Option<ProviderProposalEnvelope>,
        patch: Option<ManifestPatch>,
    ) -> (r: Self)
        ensures
            r@ == (AttemptModel {
                intent,
                outcome: OutcomeModel::Settled {
                    receipt,
                    payload: payload@,
                    envelope: optional_envelope(envelope),
                    patch: optional_patch(patch),
                },
            }),
    {
        ProposalAttempt {
            intent,
            outcome: ProposalAttemptOutcome::Settled { receipt, payload, envelope, patch },
        }
    }

    pub fn infrastructure_unknown(
        intent: ProposalIntent,
        receipt: ProposalProviderReceiptId,
        charged_tokens: u64,
    ) -> (r: Result<Self, ProposalError>)
        ensures
            match r {
                Ok(attempt) => charged_tokens > 0 && attempt@ == (AttemptModel {
                    intent,
                    outcome: OutcomeModel::InfrastructureUnknown(
                        ProviderUnknownReceipt { receipt, charged_tokens },
                    ),
                }),
                Err(error) => charged_tokens == 0 && error == ProposalError::EmptyUnknownCharge,
            },
    {
        if charged_tokens == 0 {
            return Err(ProposalError::EmptyUnknownCharge);
        }
        Ok(
            ProposalAttempt {
                intent,
                outcome: ProposalAttemptOutcome::InfrastructureUnknown(
                    ProviderUnknownReceipt { receipt, charged_tokens },
                ),
            },
        )
    }

    pub fn intent(&self) -> (r: ProposalIntent)
        ensures
            r == self@.intent,
    {
        self.intent
    }

    /// A billable intent is reconciled by receipt; callers must not regenerate it blindly.
    pub fn retry_permitted(&self) -> (r: bool)
        ensures
            !r,
    {
        false
    }

    pub fn infrastructure_unknown_receipt(&self) -> (r: Option<ProviderUnknownReceipt>)
        ensures
            r == match self@.outcome {
                OutcomeModel::InfrastructureUnknown(unknown) => Some(unknown),
                OutcomeModel::Settled { .. } => None::<ProviderUnknownReceipt>,
            },
    {
        match &self.outcome {
            ProposalAttemptOutcome::InfrastructureUnknown(unknown) => Some(*unknown),
            ProposalAttemptOutcome::Settled { .. } => None,
        }
    }
}

/// A validated proposal.
pub struct BoundedProposal {
    id: ProposalId,
    intent: ProposalIntentId,
    provider_receipt: ProposalProviderReceiptId,
    dimensions: DimensionSet,
    canonical_patch: String,
    fields: ProviderManifestPatch,
    patch: ManifestPatch,
    revision: ValidatedHarnessRevision,
}

/// What a proposal says.
#[verifier::ext_equal]
pub struct ProposalModel {
    pub id: ProposalId,
    pub intent: ProposalIntentId,
    pub provider_receipt: ProposalProviderReceiptId,
    pub dimensions: DimensionSet,
    pub canonical_patch: Seq<char>,
    pub fields: FieldsModel,
    pub patch: PatchModel,
    pub revision: RevisionModel,
}

impl View for BoundedProposal {
    type V = ProposalModel;

    closed spec fn view(&self) -> ProposalModel {
        ProposalModel {
            id: self.id,
            intent: self.intent,
            provider_receipt: self.provider_receipt,
            dimensions: self.dimensions,
            canonical_patch: self.canonical_patch@,
            fields: self.fields@,
            patch: self.patch@,
            revision: self.revision@,
        }
    }
}

impl BoundedProposal {
    pub fn id(&self) -> (r: ProposalId)
        ensures
            r == self@.id,
    {
        self.id
    }

    pub fn intent(&self) -> (r: ProposalIntentId)
        ensures
            r == self@.intent,
    {
        self.intent
    }

    pub fn provider_receipt(&self) -> (r: ProposalProviderReceiptId)
        ensures
            r == self@.provider_receipt,
    {
        self.provider_receipt
    }

    pub fn dimensions(&self) -> (r: DimensionSet)
        ensures
            r == self@.dimensions,
    {
        self.dimensions
    }

    pub fn canonical_patch_bytes(&self) -> (r: &[u8])
        ensures
            r@ == encode_utf8(self@.canonical_patch),
    {
        self.canonical_patch.as_str().as_bytes()
    }

    pub fn revision(&self) -> (r: &ValidatedHarnessRevision)
        ensures
            r@ == self@.revision,
    {
        &self.revision
    }

    pub(crate) fn fields(&self) -> (r: &ProviderManifestPatch)
        ensures
            r@ == self@.fields,
    {
        &self.fields
    }

    pub(crate) fn patch(&self) -> (r: &ManifestPatch)
        ensures
            r@ == self@.patch,
    {
        &self.patch
    }

    /// A copy of the proposal.
    pub fn copy(&self) -> (r: Self)
        ensures
            r@ == self@,
    {
        BoundedProposal {
            id: self.id,
            intent: self.intent,
            provider_receipt: self.provider_receipt,
            dimensions: self.dimensions,
            canonical_patch: self.canonical_patch.clone(),
            fields: self.fields.copy(),
            patch: self.patch.copy(),
            revision: self.revision.copy(),
        }
    }
}

/// The dimensions among the first `n` of some.
pub open spec fn dimension_set(dimensions: Seq<DiversityDimension>, n: int) -> DimensionSet
    decreases n,
{
    if n <= 0 {
        DimensionSet::none()
    } else {
        dimension_set(dimensions, n - 1).with(dimensions[n - 1])
    }
}

fn collect_dimensions(dimensions: &Vec<DiversityDimension>) -> (r: DimensionSet)
    ensures
        r == dimension_set(dimensions@, dimensions.len() as int),
{
    let mut set = DimensionSet::new();
    let mut i: usize = 0;
    while i < dimensions.len()
        invariant
            i <= dimensions.len(),
            set == dimension_set(dimensions@, i as int),
        decreases dimensions.len() - i,
    {
        set.insert(dimensions[i]);
        i += 1;
    }
    set
}

/// The canonical JSON of budgets with their keys in order.
pub open spec fn sorted_budgets_json(v: ResourceBudgets) -> Seq<char> {
    "{\"elapsed_ms\":"@ + decimal(v.elapsed_ms as nat) + ",\"output_bytes\":"@ + decimal(v.output_bytes as nat) + ",\"subagents\":"@ + decimal(v.subagents as nat) + ",\"tokens\":"@ + decimal(v.tokens as nat) + ",\"tool_calls\":"@ + decimal(v.tool_calls as nat) + ",\"verifier_runs\":"@ + decimal(v.verifier_runs as nat) + "}"@
}

fn sorted_budgets_text(v: &ResourceBudgets) -> (r: String)
    ensures
        r@ == sorted_budgets_json(*v),
{
    let mut json = "{\"elapsed_ms\":".to_owned();
    push_decimal(&mut json, v.elapsed_ms as u64);
    json.push_str(",\"output_bytes\":");
    push_decimal(&mut json, v.output_bytes as u64);
    json.push_str(",\"subagents\":");
    push_decimal(&mut json, v.subagents as u64);
    json.push_str(",\"tokens\":");
    push_decimal(&mut json, v.tokens as u64);
    json.push_str(",\"tool_calls\":");
    push_decimal(&mut json, v.tool_calls as u64);
    json.push_str(",\"verifier_runs\":");
    push_decimal(&mut json, v.verifier_runs as u64);
    json.push_str("}");
    json
}

/// The canonical JSON of one field of a behavior, with its keys in order.
pub open spec fn field_json(behavior: BehaviorModel, dimension: DiversityDimension) -> Seq<char> {
    match dimension {
        DiversityDimension::Budgets => sorted_budgets_json(behavior.budgets),
        DiversityDimension::Instructions => json_string(behavior.instructions),
        DiversityDimension::RecoveryReminders => "["@ + reminder_set_json(
            behavior.recovery_reminders,
        ) + "]"@,
        DiversityDimension::Skills => "{"@ + skills_json(
            behavior.skills,
            behavior.skills.len() as int,
        ) + "}"@,
        DiversityDimension::SubagentRoles => "{"@ + roles_json(
            behavior.subagent_roles,
            behavior.subagent_roles.len() as int,
        ) + "}"@,
        DiversityDimension::Verifier => schedule_json(behavior.verifier),
    }
}

fn field_text(behavior: &BehaviorLayer, dimension: DiversityDimension) -> (r: String)
    ensures
        r@ == field_json(behavior@, dimension),
{
    match dimension {
        DiversityDimension::Budgets => sorted_budgets_text(&behavior.budgets),
        DiversityDimension::Instructions => {
            let mut json = "".to_owned();
            push_json_string(&mut json, behavior.instructions.as_str());
            assert(json@ =~= json_string(behavior.instructions@)) by {
                reveal_strlit("");
            }
            json
        },
        DiversityDimension::RecoveryReminders => {
            let mut json = "[".to_owned();
            json.push_str(reminder_set_text(&behavior.recovery_reminders).as_str());
            json.push_str("]");
            json
        },
        DiversityDimension::Skills => {
            let mut json = "{".to_owned();
            json.push_str(skills_text(&behavior.skills).as_str());
            json.push_str("}");
            json
        },
        DiversityDimension::SubagentRoles => {
            let mut json = "{".to_owned();
            json.push_str(roles_text(&behavior.subagent_roles).as_str());
            json.push_str("}");
            json
        },
        DiversityDimension::Verifier => schedule_text(&behavior.verifier),
    }
}

/// A field that a patch replaces with what it already is.
pub open spec fn redundant(behavior: BehaviorModel, patch: FieldsModel, i: int) -> Option<
    ProposalError,
> {
    let dimension = dimension_at(i);
    match patch.field(dimension) {
        Some(value) => if notation(value) == field_json(behavior, dimension) {
            Some(ProposalError::RedundantPatchField { field: dimension })
        } else {
            None
        },
        None => None,
    }
}

pub open spec fn redundancy(behavior: BehaviorModel, patch: FieldsModel) -> spec_fn(int) -> Option<
    ProposalError,
> {
    |i: int| redundant(behavior, patch, i)
}

fn check_redundancy(behavior: &BehaviorLayer, patch: &ProviderManifestPatch) -> (r: Result<
    (),
    ProposalError,
>)
    ensures
        r == refused(first_some(redundancy(behavior@, patch@), 6)),
{
    let mut i: usize = 0;
    while i < 6
        invariant
            i <= 6,
            first_some(redundancy(behavior@, patch@), i as int) is None,
        decreases 6 - i,
    {
        let dimension = nth_dimension(i);
        assert(redundancy(behavior@, patch@)(i as int) == redundant(behavior@, patch@, i as int));
        match patch.field(dimension) {
            Some(value) => {
                let text = value.to_text();
                let current = field_text(behavior, dimension);
                if same_text(text.as_str(), current.as_str()) {
                    proof {
                        lemma_first_some_at(redundancy(behavior@, patch@), i as int, 6);
                    }
                    return Err(ProposalError::RedundantPatchField { field: dimension });
                }
            },
            None => {},
        }
        i += 1;
    }
    Ok(())
}

/// What is wrong with the bindings of an answer.
pub open spec fn envelope_problem(
    envelope: EnvelopeModel,
    request: ProposalRequest,
    intent: ProposalIntent,
) -> Option<ProposalError> {
    if envelope.schema_version != PROPOSAL_SCHEMA_VERSION {
        Some(ProposalError::UnsupportedSchema { actual: envelope.schema_version })
    } else if envelope.request != request.root {
        Some(ProposalError::OutputBindingMismatch { field: "request" })
    } else if envelope.parent != request.parent {
        Some(ProposalError::OutputBindingMismatch { field: "parent" })
    } else if envelope.evidence != request.evidence {
        Some(ProposalError::OutputBindingMismatch { field: "evidence" })
    } else if envelope.policy != request.policy {
        Some(ProposalError::OutputBindingMismatch { field: "policy" })
    } else if envelope.intent != intent.id {
        Some(ProposalError::OutputBindingMismatch { field: "intent" })
    } else {
        None
    }
}

/// What is wrong with the dimensions of an answer: they are distinct and exactly those
/// that the patch replaces.
pub open spec fn dimensions_problem(envelope: EnvelopeModel) -> Option<ProposalError> {
    let named = dimension_set(envelope.dimensions, envelope.dimensions.len() as int);
    if named.count() == 0 || named.count() != envelope.dimensions.len() {
        Some(ProposalError::InvalidDiversityDimensions)
    } else if envelope.patch.dimensions() != named {
        Some(ProposalError::DiversityMismatch)
    } else {
        None
    }
}

/// What is wrong with an answer before its patch is applied.
pub open spec fn answer_problem(
    request: ProposalRequest,
    parent: RevisionModel,
    intent: ProposalIntent,
    payload: Seq<u8>,
    envelope: Option<EnvelopeModel>,
) -> Option<ProposalError> {
    if payload.len() > MAX_PROVIDER_ENVELOPE_BYTES {
        Some(ProposalError::ProviderOutputTooLarge { maximum: MAX_PROVIDER_ENVELOPE_BYTES })
    } else {
        match envelope {
            None => Some(ProposalError::InvalidProviderOutput),
            Some(answer) => either(
                envelope_problem(answer, request, intent),
                either(
                    dimensions_problem(answer),
                    either(
                        first_some(redundancy(parent.behavior, answer.patch), 6),
                        if encode_utf8(answer.patch.canonical()).len() > request.max_patch_bytes {
                            Some(ProposalError::PatchTooLarge { maximum: request.max_patch_bytes })
                        } else {
                            None
                        },
                    ),
                ),
            ),
        }
    }
}

fn check_envelope(
    envelope: &ProviderProposalEnvelope,
    request: ProposalRequest,
    intent: ProposalIntent,
) -> (r: Result<(), ProposalError>)
    ensures
        r == refused(envelope_problem(envelope@, request, intent)),
{
    if envelope.schema_version != PROPOSAL_SCHEMA_VERSION {
        return Err(ProposalError::UnsupportedSchema { actual: envelope.schema_version });
    }
    if envelope.request != request.root {
        return Err(ProposalError::OutputBindingMismatch { field: "request" });
    }
    if envelope.parent != request.parent {
        return Err(ProposalError::OutputBindingMismatch { field: "parent" });
    }
    if envelope.evidence != request.evidence {
        return Err(ProposalError::OutputBindingMismatch { field: "evidence" });
    }
    if envelope.policy != request.policy {
        return Err(ProposalError::OutputBindingMismatch { field: "policy" });
    }
    if envelope.intent != intent.id {
        return Err(ProposalError::OutputBindingMismatch { field: "intent" });
    }
    Ok(())
}

/// The canonical JSON of what identifies a proposal.
pub open spec fn proposal_json(
    request: ProposalRequestRoot,
    intent: ProposalIntentId,
    receipt: ProposalProviderReceiptId,
    dimensions: DimensionSet,
    patch: Digest,
    revision: Digest,
) -> Seq<char> {
    "{\"schema_version\":"@ + decimal(PROPOSAL_SCHEMA_VERSION as nat) + ",\"request\":"@ + quoted(request.0.text()) + ",\"intent\":"@ + quoted(intent.0.text()) + ",\"provider_receipt\":"@ + quoted(receipt.0.text()) + ",\"dimensions\":["@ + dimension_set_json(dimensions) + "],\"patch\":"@ + quoted(patch.text()) + ",\"revision\":"@ + quoted(revision.text()) + "}"@
}

fn proposal_text(
    request: ProposalRequestRoot,
    intent: ProposalIntentId,
    receipt: ProposalProviderReceiptId,
    dimensions: DimensionSet,
    patch: Digest,
    revision: Digest,
) -> (r: String)
    ensures
        r@ == proposal_json(request, intent, receipt, dimensions, patch, revision),
{
    let mut json = "{\"schema_version\":".to_owned();
    push_decimal(&mut json, PROPOSAL_SCHEMA_VERSION as u64);
    json.push_str(",\"request\":");
    push_digest(&mut json, &request.0);
    json.push_str(",\"intent\":");
    push_digest(&mut json, &intent.0);
    json.push_str(",\"provider_receipt\":");
    push_digest(&mut json, &receipt.0);
    json.push_str(",\"dimensions\":[");
    json.push_str(dimension_set_text(&dimensions).as_str());
    json.push_str("],\"patch\":");
    push_digest(&mut json, &patch);
    json.push_str(",\"revision\":");
    push_digest(&mut json, &revision);
    json.push_str("}");
    json
}

/// The proposal that an answer comes to, or why it is refused.
pub open spec fn settled_output(
    request: ProposalRequest,
    parent: RevisionModel,
    intent: ProposalIntent,
    receipt: ProposalProviderReceiptId,
    payload: Seq<u8>,
    envelope: Option<EnvelopeModel>,
    patch: Option<PatchModel>,
) -> Result<ProposalModel, ProposalError> {
    match answer_problem(request, parent, intent, payload, envelope) {
        Some(error) => Err(error),
        None => {
            let fields = envelope->0.patch;
            let canonical = fields.canonical();
            let applied = match read_problem(encode_utf8(canonical), "patch", patch) {
                Some(error) => Err(error),
                None => patched(parent, patch->0),
            };
            match applied {
                Err(error) => Err(ProposalError::Manifest(error)),
                Ok(revision) => if revision.behavior_digest == parent.behavior_digest {
                    Err(ProposalError::NoOpPatch)
                } else {
                    Ok(
                        ProposalModel {
                            id: ProposalId(
                                digest_of_text(
                                    proposal_json(
                                        request.root,
                                        intent.id,
                                        receipt,
                                        fields.dimensions(),
                                        digest_of_text(canonical),
                                        revision_id(revision),
                                    ),
                                ),
                            ),
                            intent: intent.id,
                            provider_receipt: receipt,
                            dimensions: fields.dimensions(),
                            canonical_patch: canonical,
                            fields,
                            patch: patch->0,
                            revision,
                        },
                    )
                },
            }
        },
    }
}

/// Whether a result is what a proposal or its refusal makes it.
pub open spec fn is_proposal(
    result: Result<BoundedProposal, ProposalError>,
    outcome: Result<ProposalModel, ProposalError>,
) -> bool {
    match (result, outcome) {
        (Ok(proposal), Ok(expected)) => proposal@ == expected,
        (Err(error), Err(expected)) => error == expected,
        _ => false,
    }
}

fn copy_patch(patch: &Option<ManifestPatch>) -> (r: Option<ManifestPatch>)
    ensures
        optional_patch(r) == optional_patch(*patch),
{
    match patch {
        Some(value) => Some(value.copy()),
        None => None,
    }
}

fn check_answer(
    request: ProposalRequest,
    parent: &ValidatedHarnessRevision,
    intent: ProposalIntent,
    payload: &Vec<u8>,
    envelope: &Option<ProviderProposalEnvelope>,
) -> (r: Result<(), ProposalError>)
    ensures
        r == refused(
            answer_problem(request, parent@, intent, payload@, optional_envelope(*envelope)),
        ),
{
    if payload.len() > MAX_PROVIDER_ENVELOPE_BYTES {
        return Err(
            ProposalError::ProviderOutputTooLarge { maximum: MAX_PROVIDER_ENVELOPE_BYTES },
        );
    }
    let answer = match envelope {
        Some(answer) => answer,
        None => return Err(ProposalError::InvalidProviderOutput),
    };
    match check_envelope(answer, request, intent) {
        Err(error) => return Err(error),
        Ok(()) => {},
    }
    let dimensions = collect_dimensions(&answer.dimensions);
    if dimensions.len() == 0 || dimensions.len() != answer.dimensions.len() {
        return Err(ProposalError::InvalidDiversityDimensions);
    }
    let replaced = answer.patch.dimensions();
    if replaced != dimensions {
        return Err(ProposalError::DiversityMismatch);
    }
    match check_redundancy(parent.behavior(), &answer.patch) {
        Err(error) => return Err(error),
        Ok(()) => {},
    }
    let canonical_patch = answer.patch.canonical();
    if byte_len(canonical_patch.as_str()) > request.max_patch_bytes {
        return Err(ProposalError::PatchTooLarge { maximum: request.max_patch_bytes });
    }
    Ok(())
}

/// Checks an answer against its request, its intent and the revision it patches.
pub fn validate_settled_output(
    request: ProposalRequest,
    parent: &ValidatedHarnessRevision,
    intent: ProposalIntent,
    receipt: ProposalProviderReceiptId,
    payload: &Vec<u8>,
    envelope: &Option<ProviderProposalEnvelope>,
    patch: &Option<ManifestPatch>,
) -> (r: Result<BoundedProposal, ProposalError>)
    ensures
        is_proposal(
            r,
            settled_output(
                request,
                parent@,
                intent,
                receipt,
                payload@,
                optional_envelope(*envelope),
                optional_patch(*patch),
            ),
        ),
{
    match check_answer(request, parent, intent, payload, envelope) {
        Err(error) => return Err(error),
        Ok(()) => {},
    }
    let answer = match envelope {
        Some(answer) => answer,
        None => return Err(ProposalError::InvalidProviderOutput),
    };
    let dimensions = answer.patch.dimensions();
    let canonical_patch = answer.patch.canonical();
    let copied = copy_patch(patch);
    let revision = match parent.apply_patch_json(canonical_patch.as_str().as_bytes(), copied) {
        Err(error) => return Err(ProposalError::Manifest(error)),
        Ok(revision) => revision,
    };
    let parent_behavior = parent.behavior_digest();
    let next_behavior = revision.behavior_digest();
    if next_behavior == parent_behavior {
        return Err(ProposalError::NoOpPatch);
    }
    let identity = proposal_text(
        request.root,
        intent.id,
        receipt,
        dimensions,
        Digest::of_text(canonical_patch.as_str()),
        revision.digest(),
    );
    let patch = match patch {
        Some(patch) => patch.copy(),
        None => return Err(ProposalError::Manifest(ManifestError::InvalidJson { kind: "patch" })),
    };
    Ok(
        BoundedProposal {
            id: ProposalId(Digest::of_text(identity.as_str())),
            intent: intent.id,
            provider_receipt: receipt,
            dimensions,
            canonical_patch,
            fields: answer.patch.copy(),
            patch,
            revision,
        },
    )
}

/// The models of some attempts.
pub open spec fn attempt_models(attempts: Seq<ProposalAttempt>) -> Seq<AttemptModel> {
    attempts.map_values(|attempt: ProposalAttempt| attempt@)
}

/// The identity that an attempt is arranged by.
pub open spec fn attempt_key() -> spec_fn(AttemptModel) -> Digest {
    |attempt: AttemptModel| attempt.intent.id.0
}

/// The intent with an identity among the first `n` of a request.
pub open spec fn expected_intent(request: ProposalRequestRoot, n: int, id: ProposalIntentId) -> Option<
    ProposalIntent,
>
    decreases n,
{
    if n <= 0 {
        None
    } else if intent_of(request, (n - 1) as u16).id == id {
        Some(intent_of(request, (n - 1) as u16))
    } else {
        expected_intent(request, n - 1, id)
    }
}

fn find_intent(request: &ProposalRequest, id: ProposalIntentId) -> (r: Option<ProposalIntent>)
    ensures
        r == expected_intent(request.root, request.candidate_count as int, id),
{
    let mut n: u16 = request.candidate_count;
    while n > 0
        invariant
            expected_intent(request.root, request.candidate_count as int, id) == expected_intent(
                request.root,
                n as int,
                id,
            ),
        decreases n,
    {
        let intent = ProposalIntent::derive(request.root, n - 1);
        if intent.id == id {
            return Some(intent);
        }
        n -= 1;
    }
    None
}

/// Whether an attempt before an index has the same identity.
pub open spec fn attempted_before(attempts: Seq<AttemptModel>, i: int) -> bool {
    exists|j: int| 0 <= j < i && #[trigger] attempts[j].intent.id == attempts[i].intent.id
}

/// What is wrong with an attempt among others.
pub open spec fn attempt_problem(request: ProposalRequest, attempts: Seq<AttemptModel>, i: int) -> Option<
    ProposalError,
> {
    let intent = attempts[i].intent;
    if expected_intent(request.root, request.candidate_count as int, intent.id) != Some(intent) {
        Some(ProposalError::UnexpectedIntent)
    } else if attempted_before(attempts, i) {
        Some(ProposalError::DuplicateIntent)
    } else {
        None
    }
}

pub open spec fn attempt_check(request: ProposalRequest, attempts: Seq<AttemptModel>) -> spec_fn(
    int,
) -> Option<ProposalError> {
    |i: int| attempt_problem(request, attempts, i)
}

fn was_attempted(attempts: &Vec<ProposalAttempt>, i: usize) -> (r: bool)
    requires
        i < attempts.len(),
    ensures
        r == attempted_before(attempt_models(attempts@), i as int),
{
    let ghost models = attempt_models(attempts@);
    let id = attempts[i].intent.id;
    let mut j: usize = 0;
    while j < i
        invariant
            j <= i < attempts.len(),
            models == attempt_models(attempts@),
            id == models[i as int].intent.id,
            forall|k: int| 0 <= k < j ==> (#[trigger] models[k]).intent.id != id,
        decreases i - j,
    {
        assert(models[j as int] == attempts@[j as int]@);
        if attempts[j].intent.id == id {
            assert(models[j as int].intent.id == id);
            return true;
        }
        j += 1;
    }
    false
}

fn check_attempts(request: &ProposalRequest, attempts: &Vec<ProposalAttempt>) -> (r: Result<
    (),
    ProposalError,
>)
    ensures
        r == refused(
            first_some(
                attempt_check(*request, attempt_models(attempts@)),
                attempts.len() as int,
            ),
        ),
{
    let ghost models = attempt_models(attempts@);
    let ghost check = attempt_check(*request, models);
    let mut i: usize = 0;
    while i < attempts.len()
        invariant
            i <= attempts.len(),
            models == attempt_models(attempts@),
            check == attempt_check(*request, models),
            first_some(check, i as int) is None,
        decreases attempts.len() - i,
    {
        assert(models[i as int] == attempts@[i as int]@);
        assert(check(i as int) == attempt_problem(*request, models, i as int));
        let intent = attempts[i].intent;
        let known = match find_intent(request, intent.id) {
            Some(expected) => expected == intent,
            None => false,
        };
        if !known {
            proof {
                lemma_first_some_at(check, i as int, attempts.len() as int);
            }
            return Err(ProposalError::UnexpectedIntent);
        }
        if was_attempted(attempts, i) {
            proof {
                lemma_first_some_at(check, i as int, attempts.len() as int);
            }
            return Err(ProposalError::DuplicateIntent);
        }
        i += 1;
    }
    Ok(())
}

/// The proposal that an attempt comes to, or why it is refused.
#[verifier::opaque]
pub open spec fn attempt_output(
    request: ProposalRequest,
    parent: RevisionModel,
    attempt: AttemptModel,
) -> Result<ProposalModel, ProposalError> {
    match attempt.outcome {
        OutcomeModel::Settled { receipt, payload, envelope, patch } => settled_output(
            request,
            parent,
            attempt.intent,
            receipt,
            payload,
            envelope,
            patch,
        ),
        OutcomeModel::InfrastructureUnknown(unknown) => Err(
            ProposalError::ProviderUnknown {
                intent: attempt.intent.id,
                receipt: unknown.receipt,
                charged_tokens: unknown.charged_tokens,
            },
        ),
    }
}

fn validate_attempt(
    request: ProposalRequest,
    parent: &ValidatedHarnessRevision,
    attempt: &ProposalAttempt,
) -> (r: Result<BoundedProposal, ProposalError>)
    ensures
        is_proposal(r, attempt_output(request, parent@, attempt@)),
{
    reveal(attempt_output);
    match &attempt.outcome {
        ProposalAttemptOutcome::Settled { receipt, payload, envelope, patch } =>
            validate_settled_output(
            request,
            parent,
            attempt.intent,
            *receipt,
            payload,
            envelope,
            patch,
        ),
        ProposalAttemptOutcome::InfrastructureUnknown(unknown) => Err(
            ProposalError::ProviderUnknown {
                intent: attempt.intent.id,
                receipt: unknown.receipt,
                charged_tokens: unknown.charged_tokens,
            },
        ),
    }
}

/// Whether some proposal has a behavior.
pub open spec fn has_behavior(proposals: Seq<ProposalModel>, behavior: Digest) -> bool {
    exists|i: int|
        0 <= i < proposals.len() && #[trigger] proposals[i].revision.behavior_digest == behavior
}

/// The proposals that the first `n` attempts come to, or the first refusal.
pub open spec fn proposals_of(
    request: ProposalRequest,
    parent: RevisionModel,
    attempts: Seq<AttemptModel>,
    n: int,
) -> Result<Seq<ProposalModel>, ProposalError>
    decreases n,
{
    if n <= 0 {
        Ok(Seq::empty())
    } else {
        match proposals_of(request, parent, attempts, n - 1) {
            Err(error) => Err(error),
            Ok(before) => match attempt_output(request, parent, attempts[n - 1]) {
                Err(error) => Err(error),
                Ok(proposal) => if has_behavior(before, proposal.revision.behavior_digest) {
                    Err(ProposalError::DuplicateCandidate)
                } else {
                    Ok(before.push(proposal))
                },
            },
        }
    }
}

proof fn lemma_proposals_refused(
    request: ProposalRequest,
    parent: RevisionModel,
    attempts: Seq<AttemptModel>,
    at: int,
    n: int,
)
    requires
        at <= n,
        proposals_of(request, parent, attempts, at) is Err,
    ensures
        proposals_of(request, parent, attempts, n) == proposals_of(request, parent, attempts, at),
    decreases n,
{
    if at < n {
        lemma_proposals_refused(request, parent, attempts, at, n - 1);
    }
}

/// The models of some proposals.
pub open spec fn proposal_models(proposals: Seq<BoundedProposal>) -> Seq<ProposalModel> {
    proposals.map_values(|proposal: BoundedProposal| proposal@)
}

fn behavior_seen(proposals: &Vec<BoundedProposal>, behavior: Digest) -> (r: bool)
    ensures
        r == has_behavior(proposal_models(proposals@), behavior),
{
    let ghost models = proposal_models(proposals@);
    let mut i: usize = 0;
    while i < proposals.len()
        invariant
            i <= proposals.len(),
            models == proposal_models(proposals@),
            forall|k: int|
                0 <= k < i ==> (#[trigger] models[k]).revision.behavior_digest != behavior,
        decreases proposals.len() - i,
    {
        assert(models[i as int] == proposals@[i as int]@);
        let seen = proposals[i].revision.behavior_digest();
        if seen == behavior {
            assert(models[i as int].revision.behavior_digest == behavior);
            return true;
        }
        i += 1;
    }
    false
}

fn collect_proposals(
    request: ProposalRequest,
    parent: &ValidatedHarnessRevision,
    attempts: &Vec<ProposalAttempt>,
) -> (r: Result<Vec<BoundedProposal>, ProposalError>)
    ensures
        ({
            let models = attempt_models(attempts@);
            let in_order = arranged(models, models.map_values(attempt_key()));
            match (r, proposals_of(request, parent@, in_order, attempts.len() as int)) {
                (Ok(proposals), Ok(expected)) => proposal_models(proposals@) == expected,
                (Err(error), Err(expected)) => error == expected,
                _ => false,
            }
        }),
{
    let ghost models = attempt_models(attempts@);
    let ghost in_order = arranged(models, models.map_values(attempt_key()));
    let mut keys: Vec<Digest> = Vec::new();
    let mut i: usize = 0;
    while i < attempts.len()
        invariant
            i <= attempts.len(),
            models == attempt_models(attempts@),
            keys@ == models.map_values(attempt_key()).subrange(0, i as int),
        decreases attempts.len() - i,
    {
        keys.push(attempts[i].intent.id.0);
        i += 1;
        assert(keys@ =~= models.map_values(attempt_key()).subrange(0, i as int));
    }
    assert(keys@ =~= models.map_values(attempt_key()));
    let order = sorted_order(&keys);
    let mut proposals: Vec<BoundedProposal> = Vec::new();
    assert(proposal_models(proposals@) =~= Seq::<ProposalModel>::empty());
    let mut k: usize = 0;
    while k < order.len()
        invariant
            k <= order.len() == attempts.len(),
            models == attempt_models(attempts@),
            in_order == arranged(models, models.map_values(attempt_key())),
            keys@ == models.map_values(attempt_key()),
            numbers(order@) == sorted(keys@, keys.len() as int),
            forall|i: int| 0 <= i < order.len() ==> (#[trigger] order@[i]) < keys.len(),
            proposals_of(request, parent@, in_order, k as int) == Ok::<
                Seq<ProposalModel>,
                ProposalError,
            >(proposal_models(proposals@)),
        decreases order.len() - k,
    {
        assert(numbers(order@)[k as int] == order@[k as int]);
        let at = order[k];
        assert(in_order[k as int] == models[at as int]);
        assert(models[at as int] == attempts@[at as int]@);
        let checked = validate_attempt(request, parent, &attempts[at]);
        let proposal = match checked {
            Err(error) => {
                proof {
                    lemma_proposals_refused(
                        request,
                        parent@,
                        in_order,
                        k as int + 1,
                        attempts.len() as int,
                    );
                }
                return Err(error);
            },
            Ok(proposal) => proposal,
        };
        let behavior = proposal.revision.behavior_digest();
        if behavior_seen(&proposals, behavior) {
            proof {
                lemma_proposals_refused(
                    request,
                    parent@,
                    in_order,
                    k as int + 1,
                    attempts.len() as int,
                );
            }
            return Err(ProposalError::DuplicateCandidate);
        }
        let ghost before = proposals@;
        proposals.push(proposal);
        assert(proposal_models(proposals@) =~= proposal_models(before).push(proposal@));
        k += 1;
    }
    Ok(proposals)
}

/// The canonical JSON of the record of a proposal.
pub open spec fn record_json(v: ProposalModel) -> Seq<char> {
    "{\"id\":"@ + quoted(v.id.0.text()) + ",\"intent\":"@ + quoted(v.intent.0.text()) + ",\"provider_receipt\":"@ + quoted(v.provider_receipt.0.text()) + ",\"dimensions\":["@ + dimension_set_json(v.dimensions) + "],\"patch\":"@ + quoted(digest_of_text(v.canonical_patch).text()) + ",\"revision\":"@ + quoted(revision_id(v.revision).text()) + "}"@
}

fn record_text(v: &BoundedProposal) -> (r: String)
    ensures
        r@ == record_json(v@),
{
    let mut json = "{\"id\":".to_owned();
    push_digest(&mut json, &v.id.0);
    json.push_str(",\"intent\":");
    push_digest(&mut json, &v.intent.0);
    json.push_str(",\"provider_receipt\":");
    push_digest(&mut json, &v.provider_receipt.0);
    json.push_str(",\"dimensions\":[");
    json.push_str(dimension_set_text(&v.dimensions).as_str());
    json.push_str("],\"patch\":");
    push_digest(&mut json, &Digest::of_text(v.canonical_patch.as_str()));
    json.push_str(",\"revision\":");
    push_digest(&mut json, &v.revision.digest());
    json.push_str("}");
    json
}

/// The canonical JSON of the first `n` records, separated by commas.
pub open spec fn records_json(items: Seq<ProposalModel>, n: int) -> Seq<char>
    decreases n,
{
    if n <= 0 {
        ""@
    } else {
        records_json(items, n - 1) + (if n == 1 {
            ""@
        } else {
            ","@
        }) + record_json(items[n - 1])
    }
}

fn records_text(items: &Vec<BoundedProposal>) -> (r: String)
    ensures
        r@ == records_json(proposal_models(items@), items.len() as int),
{
    let ghost models = proposal_models(items@);
    let mut json = "".to_owned();
    let mut i: usize = 0;
    while i < items.len()
        invariant
            i <= items.len(),
            models == proposal_models(items@),
            json@ == records_json(models, i as int),
        decreases items.len() - i,
    {
        assert(models[i as int] == items@[i as int]@);
        if i > 0 {
            json.push_str(",");
        } else {
            json.push_str("");
        }
        json.push_str(record_text(&items[i]).as_str());
        i += 1;
    }
    json
}

/// A validated batch of proposals.
pub struct ProposalBatch {
    request: ProposalRequest,
    proposals: Vec<BoundedProposal>,
    root: ProposalBatchRoot,
    canonical: String,
}

/// What a batch says.
#[verifier::ext_equal]
pub struct BatchModel {
    pub request: ProposalRequest,
    pub proposals: Seq<ProposalModel>,
}

/// The canonical JSON of a batch.
pub open spec fn batch_json(v: BatchModel) -> Seq<char> {
    "{\"schema_version\":"@ + decimal(PROPOSAL_SCHEMA_VERSION as nat) + ",\"request\":"@ + quoted(
        v.request.root.0.text(),
    ) + ",\"proposals\":["@ + records_json(v.proposals, v.proposals.len() as int) + "]}"@
}

impl View for ProposalBatch {
    type V = BatchModel;

    closed spec fn view(&self) -> BatchModel {
        BatchModel { request: self.request, proposals: proposal_models(self.proposals@) }
    }
}

impl ProposalBatch {
    #[verifier::type_invariant]
    spec fn well_formed(self) -> bool {
        &&& self.canonical@ == batch_json(self@)
        &&& self.root == ProposalBatchRoot(digest_of_text(self.canonical@))
    }

    pub fn request(&self) -> (r: ProposalRequest)
        ensures
            r == self@.request,
    {
        self.request
    }

    pub fn proposals(&self) -> (r: &[BoundedProposal])
        ensures
            proposal_models(r@) == self@.proposals,
    {
        self.proposals.as_slice()
    }

    pub fn root(&self) -> (r: ProposalBatchRoot)
        ensures
            r == ProposalBatchRoot(digest_of_text(batch_json(self@))),
    {
        proof {
            use_type_invariant(self);
        }
        self.root
    }

    pub fn canonical_bytes(&self) -> (r: &[u8])
        ensures
            r@ == encode_utf8(batch_json(self@)),
    {
        proof {
            use_type_invariant(self);
        }
        self.canonical.as_str().as_bytes()
    }
}

/// The identity that a proposal is arranged by.
pub open spec fn proposal_key() -> spec_fn(ProposalModel) -> Digest {
    |proposal: ProposalModel| proposal.id.0
}

/// The batch that some attempts come to, or why it is refused.
pub open spec fn batch_of(
    request: ProposalRequest,
    parent: RevisionModel,
    attempts: Seq<AttemptModel>,
) -> Result<BatchModel, ProposalError> {
    if request.parent != revision_id(parent) {
        Err(ProposalError::RequestParentMismatch)
    } else if request.policy != policy_of_behavior() {
        Err(ProposalError::RequestPolicyMismatch)
    } else if attempts.len() != request.candidate_count {
        Err(
            ProposalError::WrongAttemptCount {
                expected: request.candidate_count as usize,
                actual: attempts.len() as usize,
            },
        )
    } else {
        match first_some(attempt_check(request, attempts), attempts.len() as int) {
            Some(error) => Err(error),
            None => {
                let in_order = arranged(attempts, attempts.map_values(attempt_key()));
                match proposals_of(request, parent, in_order, attempts.len() as int) {
                    Err(error) => Err(error),
                    Ok(proposals) => Ok(
                        BatchModel {
                            request,
                            proposals: arranged(proposals, proposals.map_values(proposal_key())),
                        },
                    ),
                }
            },
        }
    }
}

fn arrange_proposals(proposals: &Vec<BoundedProposal>) -> (r: Vec<BoundedProposal>)
    ensures
        ({
            let models = proposal_models(proposals@);
            proposal_models(r@) == arranged(models, models.map_values(proposal_key()))
        }),
{
    let ghost models = proposal_models(proposals@);
    let ghost in_order = arranged(models, models.map_values(proposal_key()));
    let mut keys: Vec<Digest> = Vec::new();
    let mut i: usize = 0;
    while i < proposals.len()
        invariant
            i <= proposals.len(),
            models == proposal_models(proposals@),
            keys@ == models.map_values(proposal_key()).subrange(0, i as int),
        decreases proposals.len() - i,
    {
        keys.push(proposals[i].id.0);
        i += 1;
        assert(keys@ =~= models.map_values(proposal_key()).subrange(0, i as int));
    }
    assert(keys@ =~= models.map_values(proposal_key()));
    let order = sorted_order(&keys);
    let mut result: Vec<BoundedProposal> = Vec::new();
    let mut k: usize = 0;
    while k < order.len()
        invariant
            k <= order.len() == proposals.len(),
            models == proposal_models(proposals@),
            in_order == arranged(models, models.map_values(proposal_key())),
            keys@ == models.map_values(proposal_key()),
            numbers(order@) == sorted(keys@, keys.len() as int),
            forall|i: int| 0 <= i < order.len() ==> (#[trigger] order@[i]) < keys.len(),
            proposal_models(result@) == in_order.subrange(0, k as int),
        decreases order.len() - k,
    {
        assert(numbers(order@)[k as int] == order@[k as int]);
        let at = order[k];
        let ghost before = result@;
        let copy = proposals[at].copy();
        result.push(copy);
        assert(models[at as int] == proposals@[at as int]@);
        k += 1;
        assert(proposal_models(result@) =~= proposal_models(before).push(copy@));
        assert(proposal_models(result@) =~= in_order.subrange(0, k as int));
    }
    assert(proposal_models(result@) =~= in_order);
    result
}

/// Checks the attempts at a request: one for each intent, settled, bound to the request,
/// each with a behavior of its own.
pub fn validate_proposal_batch(
    request: ProposalRequest,
    parent: &ValidatedHarnessRevision,
    attempts: Vec<ProposalAttempt>,
) -> (r: Result<ProposalBatch, ProposalError>)
    ensures
        match (r, batch_of(request, parent@, attempt_models(attempts@))) {
            (Ok(batch), Ok(expected)) => batch@ == expected,
            (Err(error), Err(expected)) => error == expected,
            _ => false,
        },
{
    if request.parent != parent.digest() {
        return Err(ProposalError::RequestParentMismatch);
    }
    if request.policy != parent.policy_identity() {
        return Err(ProposalError::RequestPolicyMismatch);
    }
    if attempts.len() != request.candidate_count as usize {
        return Err(
            ProposalError::WrongAttemptCount {
                expected: request.candidate_count as usize,
                actual: attempts.len(),
            },
        );
    }
    match check_attempts(&request, &attempts) {
        Err(error) => return Err(error),
        Ok(()) => {},
    }
    let collected = match collect_proposals(request, parent, &attempts) {
        Err(error) => return Err(error),
        Ok(collected) => collected,
    };
    let proposals = arrange_proposals(&collected);
    let mut json = "{\"schema_version\":".to_owned();
    push_decimal(&mut json, PROPOSAL_SCHEMA_VERSION as u64);
    json.push_str(",\"request\":");
    push_digest(&mut json, &request.root.0);
    json.push_str(",\"proposals\":[");
    json.push_str(records_text(&proposals).as_str());
    json.push_str("]}");
    let root = ProposalBatchRoot(Digest::of_text(json.as_str()));
    Ok(ProposalBatch { request, proposals, root, canonical: json })
}

/// A batch does not depend on the order in which its attempts arrive, once each intent of
/// the request is attempted once.
pub proof fn law_batches_do_not_depend_on_arrival(
    request: ProposalRequest,
    parent: RevisionModel,
    attempts: Seq<AttemptModel>,
    rearranged: Seq<AttemptModel>,
)
    requires
        attempts.to_multiset() == rearranged.to_multiset(),
        first_some(attempt_check(request, attempts), attempts.len() as int) is None,
    ensures
        batch_of(request, parent, attempts) == batch_of(request, parent, rearranged),
{
    broadcast use vstd::seq_lib::group_to_multiset_ensures;
    attempts.to_multiset_ensures();
    rearranged.to_multiset_ensures();
    lemma_first_some_none(attempt_check(request, attempts), attempts.len() as int);
    let check = attempt_check(request, attempts);
    let keys = attempts.map_values(attempt_key());
    assert forall|i: int, j: int| 0 <= i < keys.len() && 0 <= j < keys.len() && i != j implies keys[i]
        != keys[j] by {
        assert(check(i) is None && check(j) is None);
        if keys[i] == keys[j] {
            assert(attempts[i].intent.id == attempts[j].intent.id);
            if i < j {
                assert(attempted_before(attempts, j));
            } else {
                assert(attempted_before(attempts, i));
            }
        }
    }
    lemma_arranged_is_order_free(attempts, rearranged, attempt_key());
    let again = attempt_check(request, rearranged);
    let moved = rearranged.map_values(attempt_key());
    assert forall|i: int| 0 <= i < rearranged.len() implies (#[trigger] again(i)) is None by {
        assert(rearranged.contains(rearranged[i]));
        assert(attempts.to_multiset().count(rearranged[i]) > 0);
        let p = choose|p: int| 0 <= p < attempts.len() && attempts[p] == rearranged[i];
        assert(check(p) is None);
        if attempted_before(rearranged, i) {
            let j = choose|j: int|
                0 <= j < i && #[trigger] rearranged[j].intent.id == rearranged[i].intent.id;
            assert(moved[i] == moved[j]);
        }
    }
    lemma_first_some_none(again, rearranged.len() as int);
}

proof fn lemma_output(request: ProposalRequest, parent: RevisionModel, attempt: AttemptModel)
    requires
        attempt_output(request, parent, attempt) is Ok,
    ensures
        attempt.outcome is Settled,
        ({
            let proposal = attempt_output(request, parent, attempt)->Ok_0;
            &&& proposal.revision.parent == revision_id(parent)
            &&& proposal.revision.behavior_digest != parent.behavior_digest
            &&& proposal.intent == attempt.intent.id
        }),
{
    reveal(attempt_output);
}

proof fn lemma_proposals_bound(
    request: ProposalRequest,
    parent: RevisionModel,
    attempts: Seq<AttemptModel>,
    n: int,
)
    requires
        proposals_of(request, parent, attempts, n) is Ok,
        0 <= n,
    ensures
        ({
            let proposals = proposals_of(request, parent, attempts, n)->Ok_0;
            &&& proposals.len() == n
            &&& forall|i: int|
                0 <= i < n ==> (#[trigger] proposals[i]).revision.parent == revision_id(parent)
                    && proposals[i].revision.behavior_digest != parent.behavior_digest
                    && proposals[i].intent == attempts[i].intent.id
            &&& forall|i: int, j: int|
                0 <= i < j < n ==> (#[trigger] proposals[i]).revision.behavior_digest != (
                #[trigger] proposals[j]).revision.behavior_digest
            &&& forall|i: int| 0 <= i < n ==> (#[trigger] attempts[i]).outcome is Settled
        }),
    decreases n,
{
    if n > 0 {
        lemma_proposals_bound(request, parent, attempts, n - 1);
        lemma_output(request, parent, attempts[n - 1]);
        let before = proposals_of(request, parent, attempts, n - 1)->Ok_0;
        let proposals = proposals_of(request, parent, attempts, n)->Ok_0;
        let last = attempt_output(request, parent, attempts[n - 1])->Ok_0;
        assert(proposals == before.push(last));
        assert(!has_behavior(before, last.revision.behavior_digest));
        assert forall|i: int| 0 <= i < n implies (#[trigger] proposals[i]).revision.parent
            == revision_id(parent) && proposals[i].revision.behavior_digest
            != parent.behavior_digest && proposals[i].intent == attempts[i].intent.id by {
            if i < n - 1 {
                assert(proposals[i] == before[i]);
            }
        }
        assert forall|i: int, j: int| 0 <= i < j < n implies (
        #[trigger] proposals[i]).revision.behavior_digest != (
        #[trigger] proposals[j]).revision.behavior_digest by {
            assert(proposals[i] == before[i]);
            if j < n - 1 {
                assert(proposals[j] == before[j]);
            } else {
                assert(before[i].revision.behavior_digest != last.revision.behavior_digest);
            }
        }
    }
}

proof fn lemma_expected_intent(request: ProposalRequestRoot, n: int, id: ProposalIntentId)
    requires
        0 <= n <= u16::MAX,
        expected_intent(request, n, id) is Some,
    ensures
        exists|i: int|
            0 <= i < n && #[trigger] intents_of(request, n)[i] == expected_intent(request, n, id)->0
                && intents_of(request, n)[i].id == id,
    decreases n,
{
    if intent_of(request, (n - 1) as u16).id == id {
        assert(intents_of(request, n)[n - 1] == expected_intent(request, n, id)->0);
    } else {
        lemma_expected_intent(request, n - 1, id);
        let i = choose|i: int|
            0 <= i < n - 1 && #[trigger] intents_of(request, n - 1)[i] == expected_intent(
                request,
                n - 1,
                id,
            )->0 && intents_of(request, n - 1)[i].id == id;
        assert(intents_of(request, n)[i] == intents_of(request, n - 1)[i]);
    }
}

/// Whether one of some intents has an identity.
#[verifier::opaque]
pub open spec fn asked_for(intents: Seq<ProposalIntent>, id: ProposalIntentId) -> bool {
    exists|i: int| 0 <= i < intents.len() && (#[trigger] intents[i]).id == id
}

/// Whether one of some proposals is for an intent.
#[verifier::opaque]
pub open spec fn proposed_for(proposals: Seq<ProposalModel>, id: ProposalIntentId) -> bool {
    exists|k: int| 0 <= k < proposals.len() && (#[trigger] proposals[k]).intent == id
}

#[verifier::opaque]
spec fn attempted_for(attempts: Seq<AttemptModel>, id: ProposalIntentId) -> bool {
    exists|i: int| 0 <= i < attempts.len() && (#[trigger] attempts[i]).intent.id == id
}

/// As many different attempts as there are intents attempt every intent.
proof fn lemma_every_intent_is_attempted(request: ProposalRequest, attempts: Seq<AttemptModel>)
    requires
        attempts.len() == request.candidate_count,
        first_some(attempt_check(request, attempts), attempts.len() as int) is None,
    ensures
        forall|i: int, j: int|
            0 <= i < j < attempts.len() ==> (#[trigger] attempts[i]).intent.id != (
            #[trigger] attempts[j]).intent.id,
        forall|i: int|
            0 <= i < attempts.len() ==> asked_for(
                intents_of(request.root, request.candidate_count as int),
                (#[trigger] attempts[i]).intent.id,
            ),
        forall|k: int|
            0 <= k < request.candidate_count ==> attempted_for(
                attempts,
                (#[trigger] intents_of(request.root, request.candidate_count as int)[k]).id,
            ),
{
    broadcast use vstd::seq_lib::seq_to_set_is_finite;

    let n = request.candidate_count as int;
    let intents = intents_of(request.root, n);
    let check = attempt_check(request, attempts);
    lemma_first_some_none(check, n);
    let tried = attempts.map_values(|attempt: AttemptModel| attempt.intent.id);
    let asked = intents.map_values(|intent: ProposalIntent| intent.id);
    assert forall|i: int| 0 <= i < attempts.len() implies asked_for(
        intents,
        (#[trigger] attempts[i]).intent.id,
    ) by {
        reveal(asked_for);
        assert(check(i) is None);
        lemma_expected_intent(request.root, n, attempts[i].intent.id);
        let k = choose|k: int|
            0 <= k < n && #[trigger] intents[k] == expected_intent(
                request.root,
                n,
                attempts[i].intent.id,
            )->0 && intents[k].id == attempts[i].intent.id;
        assert(intents[k] == attempts[i].intent);
    }
    assert forall|i: int, j: int| 0 <= i < j < attempts.len() implies (
    #[trigger] attempts[i]).intent.id != (#[trigger] attempts[j]).intent.id by {
        assert(check(j) is None);
        assert(!attempted_before(attempts, j));
    }
    assert(tried.no_duplicates()) by {
        assert forall|i: int, j: int| 0 <= i < tried.len() && 0 <= j < tried.len() && i
            != j implies tried[i] != tried[j] by {
            if i < j {
                assert(attempts[i].intent.id != attempts[j].intent.id);
            } else {
                assert(attempts[j].intent.id != attempts[i].intent.id);
            }
        }
    }
    tried.unique_seq_to_set();
    asked.lemma_cardinality_of_set();
    assert(tried.to_set().subset_of(asked.to_set())) by {
        assert forall|id: ProposalIntentId| tried.to_set().contains(
            id,
        ) implies asked.to_set().contains(id) by {
            let i = choose|i: int| 0 <= i < tried.len() && tried[i] == id;
            assert(asked_for(intents, attempts[i].intent.id));
            reveal(asked_for);
            let k = choose|k: int|
                0 <= k < intents.len() && (#[trigger] intents[k]).id == attempts[i].intent.id;
            assert(asked[k] == id);
        }
    }
    vstd::set_lib::lemma_len_subset(tried.to_set(), asked.to_set());
    vstd::set_lib::lemma_subset_equality(tried.to_set(), asked.to_set());
    assert forall|k: int| 0 <= k < n implies attempted_for(
        attempts,
        (#[trigger] intents[k]).id,
    ) by {
        reveal(attempted_for);
        assert(asked.contains(asked[k]));
        assert(asked.to_set().contains(asked[k]));
        assert(tried.contains(asked[k]));
        let i = choose|i: int| 0 <= i < tried.len() && tried[i] == asked[k];
        assert(attempts[i].intent.id == intents[k].id);
    }
}

/// Whether a batch has one proposal for each intent of its request and no others, by rising
/// identity, each patching the parent and with a behavior of its own.
pub open spec fn answers(
    request: ProposalRequest,
    parent: RevisionModel,
    proposals: Seq<ProposalModel>,
) -> bool {
    let intents = intents_of(request.root, request.candidate_count as int);
    &&& proposals.len() == request.candidate_count
    &&& forall|k: int|
        0 <= k < proposals.len() ==> (#[trigger] proposals[k]).revision.parent == revision_id(
            parent,
        ) && proposals[k].revision.behavior_digest != parent.behavior_digest
    &&& forall|j: int, k: int|
        0 <= j < k < proposals.len() ==> (#[trigger] proposals[j]).revision.behavior_digest != (
        #[trigger] proposals[k]).revision.behavior_digest && proposals[j].intent
            != proposals[k].intent && !proposals[k].id.0.precedes(proposals[j].id.0)
    &&& forall|k: int|
        0 <= k < proposals.len() ==> asked_for(intents, (#[trigger] proposals[k]).intent)
    &&& forall|i: int|
        0 <= i < intents.len() ==> proposed_for(proposals, (#[trigger] intents[i]).id)
}

proof fn lemma_batch_of(
    request: ProposalRequest,
    parent: RevisionModel,
    attempts: Seq<AttemptModel>,
)
    requires
        batch_of(request, parent, attempts) is Ok,
    ensures
        request.parent == revision_id(parent),
        attempts.len() == request.candidate_count,
        first_some(attempt_check(request, attempts), attempts.len() as int) is None,
        ({
            let in_order = arranged(attempts, attempts.map_values(attempt_key()));
            let collected = proposals_of(request, parent, in_order, attempts.len() as int);
            &&& collected is Ok
            &&& batch_of(request, parent, attempts)->Ok_0.proposals == arranged(
                collected->Ok_0,
                collected->Ok_0.map_values(proposal_key()),
            )
        }),
{
}

proof fn lemma_proposals_differ(attempts: Seq<AttemptModel>, collected: Seq<ProposalModel>)
    requires
        collected.len() == attempts.len(),
        forall|i: int, j: int|
            0 <= i < j < attempts.len() ==> (#[trigger] attempts[i]).intent.id != (
            #[trigger] attempts[j]).intent.id,
        ({
            let in_order = arranged(attempts, attempts.map_values(attempt_key()));
            forall|i: int|
                0 <= i < collected.len() ==> (#[trigger] collected[i]).intent
                    == in_order[i].intent.id
        }),
        forall|i: int, j: int|
            0 <= i < j < collected.len() ==> (#[trigger] collected[i]).revision.behavior_digest != (
            #[trigger] collected[j]).revision.behavior_digest,
    ensures
        ({
            let proposals = arranged(collected, collected.map_values(proposal_key()));
            forall|j: int, k: int|
                0 <= j < k < proposals.len() ==> (#[trigger] proposals[j]).revision.behavior_digest
                    != (#[trigger] proposals[k]).revision.behavior_digest && proposals[j].intent
                    != proposals[k].intent && !proposals[k].id.0.precedes(proposals[j].id.0)
        }),
{
    let n = attempts.len() as int;
    let tries = attempts.map_values(attempt_key());
    let turn = sorted(tries, n);
    let keys = collected.map_values(proposal_key());
    let order = sorted(keys, n);
    let proposals = arranged(collected, keys);
    lemma_sorted_indexes(tries, n);
    lemma_sorted_indexes(keys, n);
    lemma_sorted_weakly(keys, n);
    assert forall|j: int, k: int| 0 <= j < k < proposals.len() implies (
    #[trigger] proposals[j]).revision.behavior_digest != (
    #[trigger] proposals[k]).revision.behavior_digest && proposals[j].intent
        != proposals[k].intent && !proposals[k].id.0.precedes(proposals[j].id.0) by {
        let a = order[j];
        let b = order[k];
        lemma_sorted_differ(keys, n, j, k);
        lemma_sorted_differ(tries, n, a, b);
        assert(!keys[b].comes_before(keys[a]));
        assert(collected[a].intent == attempts[turn[a]].intent.id);
        assert(collected[b].intent == attempts[turn[b]].intent.id);
        if a < b {
            assert(collected[a].revision.behavior_digest
                != collected[b].revision.behavior_digest);
        } else {
            assert(collected[b].revision.behavior_digest
                != collected[a].revision.behavior_digest);
        }
        if turn[a] < turn[b] {
            assert(attempts[turn[a]].intent.id != attempts[turn[b]].intent.id);
        } else {
            assert(attempts[turn[b]].intent.id != attempts[turn[a]].intent.id);
        }
    }
}

proof fn lemma_proposals_cover(
    intents: Seq<ProposalIntent>,
    attempts: Seq<AttemptModel>,
    collected: Seq<ProposalModel>,
)
    requires
        collected.len() == attempts.len(),
        ({
            let in_order = arranged(attempts, attempts.map_values(attempt_key()));
            forall|i: int|
                0 <= i < collected.len() ==> (#[trigger] collected[i]).intent
                    == in_order[i].intent.id
        }),
        forall|i: int|
            0 <= i < attempts.len() ==> asked_for(intents, (#[trigger] attempts[i]).intent.id),
        forall|k: int|
            0 <= k < intents.len() ==> attempted_for(attempts, (#[trigger] intents[k]).id),
    ensures
        ({
            let proposals = arranged(collected, collected.map_values(proposal_key()));
            &&& forall|k: int|
                0 <= k < proposals.len() ==> asked_for(intents, (#[trigger] proposals[k]).intent)
            &&& forall|i: int|
                0 <= i < intents.len() ==> proposed_for(proposals, (#[trigger] intents[i]).id)
        }),
{
    let n = attempts.len() as int;
    let tries = attempts.map_values(attempt_key());
    let turn = sorted(tries, n);
    let keys = collected.map_values(proposal_key());
    let order = sorted(keys, n);
    let proposals = arranged(collected, keys);
    lemma_sorted_indexes(tries, n);
    lemma_sorted_indexes(keys, n);
    assert forall|k: int| 0 <= k < proposals.len() implies asked_for(
        intents,
        (#[trigger] proposals[k]).intent,
    ) by {
        let attempt = attempts[turn[order[k]]];
        assert(proposals[k] == collected[order[k]]);
        assert(asked_for(intents, attempt.intent.id));
    }
    assert forall|i: int| 0 <= i < intents.len() implies proposed_for(
        proposals,
        (#[trigger] intents[i]).id,
    ) by {
        reveal(attempted_for);
        reveal(proposed_for);
        let p = choose|p: int|
            0 <= p < attempts.len() && (#[trigger] attempts[p]).intent.id == intents[i].id;
        lemma_sorted_holds(tries, n, p);
        let a = choose|a: int| 0 <= a < turn.len() && turn[a] == p;
        lemma_sorted_holds(keys, n, a);
        let k = choose|k: int| 0 <= k < order.len() && order[k] == a;
        assert(proposals[k] == collected[a]);
        assert(proposals[k].intent == intents[i].id);
    }
}

/// A batch has one proposal for each intent of its request and no others, by rising identity.
/// Each patches the parent of the request and changes its behavior, to one that no other
/// proposal comes to.
pub proof fn law_batches_answer_their_request(
    request: ProposalRequest,
    parent: RevisionModel,
    attempts: Seq<AttemptModel>,
)
    requires
        batch_of(request, parent, attempts) is Ok,
    ensures
        request.parent == revision_id(parent),
        answers(request, parent, batch_of(request, parent, attempts)->Ok_0.proposals),
{
    lemma_batch_of(request, parent, attempts);
    lemma_every_intent_is_attempted(request, attempts);
    let n = attempts.len() as int;
    let tries = attempts.map_values(attempt_key());
    let in_order = arranged(attempts, tries);
    let collected = proposals_of(request, parent, in_order, n)->Ok_0;
    let keys = collected.map_values(proposal_key());
    let proposals = arranged(collected, keys);
    lemma_sorted_indexes(tries, n);
    lemma_proposals_bound(request, parent, in_order, n);
    lemma_sorted_indexes(keys, n);
    lemma_proposals_differ(attempts, collected);
    lemma_proposals_cover(
        intents_of(request.root, request.candidate_count as int),
        attempts,
        collected,
    );
}

/// One attempt whose end is unknown is enough for there to be no batch.
pub proof fn law_unknown_attempts_make_no_batch(
    request: ProposalRequest,
    parent: RevisionModel,
    attempts: Seq<AttemptModel>,
    i: int,
)
    requires
        0 <= i < attempts.len(),
        attempts[i].outcome is InfrastructureUnknown,
    ensures
        batch_of(request, parent, attempts) is Err,
{
    if batch_of(request, parent, attempts) is Ok {
        let n = attempts.len() as int;
        let keys = attempts.map_values(attempt_key());
        let in_order = arranged(attempts, keys);
        let order = sorted(keys, n);
        lemma_sorted_indexes(keys, n);
        lemma_proposals_bound(request, parent, in_order, n);
        lemma_sorted_holds(keys, n, i);
        let k = choose|k: int| 0 <= k < order.len() && order[k] == i;
        assert(in_order[k] == attempts[i]);
        assert(in_order[k].outcome is Settled);
    }
}

/// A request has one intent for each candidate, with the indexes from zero on and the root of
/// the request, and no two of them are named by the same text: their identities differ as
/// far as the digests of different texts do.
pub proof fn law_requests_have_an_intent_for_each_candidate(request: ProposalRequest)
    requires
        request.well_formed(),
    ensures
        ({
            let intents = intents_of(request.root, request.candidate_count as int);
            &&& intents.len() == request.candidate_count
            &&& MIN_CANDIDATES <= intents.len() <= MAX_CANDIDATES
            &&& forall|i: int|
                0 <= i < intents.len() ==> (#[trigger] intents[i]).index == i && intents[i].request
                    == request.root && intents[i].id.0 == digest_of_text(
                    intent_text(request.root, i as u16),
                )
            &&& forall|i: int, j: int|
                0 <= i < j < intents.len() ==> #[trigger] intent_text(request.root, i as u16)
                    != #[trigger] intent_text(request.root, j as u16)
        }),
{
    let n = request.candidate_count as int;
    let intents = intents_of(request.root, n);
    assert forall|i: int, j: int| 0 <= i < j < intents.len() implies #[trigger] intent_text(
        request.root,
        i as u16,
    ) != #[trigger] intent_text(request.root, j as u16) by {
        let start = "orvek:proposal-intent:v1:"@ + request.root.0.text() + ":"@;
        let a = decimal(i as nat);
        let b = decimal(j as nat);
        lemma_decimal(i as nat);
        lemma_decimal(j as nat);
        if start + a == start + b {
            assert((start + a).subrange(start.len() as int, (start + a).len() as int) =~= a);
            assert((start + b).subrange(start.len() as int, (start + b).len() as int) =~= b);
        }
    }
}

} // verus!
