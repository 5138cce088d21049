//! Mining: failures clustered by signature, and passes kept as anchors.
use crate::arrange::{lemma_sorted_ascends, lemma_sorted_weakly, StrictlyOrdered};
use crate::canonical::{push_digest, push_quoted, quoted};
use crate::digest::{digest_of_text, lemma_precedes_total, Digest};
use crate::digest_set::{
    ascending_of, digests_ascend, lemma_ascending_equal, lemma_ascending_of_exists,
    lemma_is_ascending_of, DigestSet,
};
use crate::evolution::evidence::{
    failure_evidence_json, pass_evidence_json, CausalStatus, FailureEvidenceModel,
    FailureMechanism, MiningError, MiningFailureEvidence, MiningObservation, MiningPassEvidence,
    ObservationModel, PassEvidenceModel, TerminalCause,
};
use crate::evolution::ids::{MiningBundleRoot, MiningObservationId};
use crate::order::{
    arranged, lemma_sorted_holds, lemma_sorted_indexes, numbers, picked, sorted, sorted_order,
    Ordered,
};
use crate::text::{decimal, push_decimal};
use vstd::prelude::*;
use vstd::utf8::encode_utf8;

verus! {

pub const SIGNATURE_VERSION: u32 = 1;

pub const MAX_OBSERVATIONS: usize = 16384;

pub const MAX_CLUSTERS: usize = 512;

pub const MAX_CLUSTER_MEMBERS: usize = 16384;

pub const MAX_PASS_ANCHORS: usize = 2048;

/// How many signatures there are: causes, statuses, sources and mechanisms.
pub const SIGNATURES: u32 = 336;

/// Where a fact comes from.
#[derive(Clone, Copy, Debug, PartialEq, Eq, PartialOrd, Ord, Hash, Structural)]
pub enum FactSource {
    VerifierReceipt,
}

impl FactSource {
    pub open spec fn spec_name(self) -> Seq<char> {
        match self {
            FactSource::VerifierReceipt => "verifier_receipt"@,
        }
    }

    pub fn name(self) -> (r: &'static str)
        ensures
            r@ == self.spec_name(),
    {
        match self {
            FactSource::VerifierReceipt => "verifier_receipt",
        }
    }
}

/// Where a mechanism comes from.
#[derive(Clone, Copy, Debug, PartialEq, Eq, PartialOrd, Ord, Hash, Structural)]
pub enum MechanismSource {
    BoundedClassifier,
    Unclassified,
}

impl MechanismSource {
    pub open spec fn spec_name(self) -> Seq<char> {
        match self {
            MechanismSource::BoundedClassifier => "bounded_classifier"@,
            MechanismSource::Unclassified => "unclassified"@,
        }
    }

    pub fn name(self) -> (r: &'static str)
        ensures
            r@ == self.spec_name(),
    {
        match self {
            MechanismSource::BoundedClassifier => "bounded_classifier",
            MechanismSource::Unclassified => "unclassified",
        }
    }
}

impl MechanismSource {
    pub open spec fn spec_place(self) -> int {
        match self {
            MechanismSource::BoundedClassifier => 0,
            MechanismSource::Unclassified => 1,
        }
    }

    fn place(self) -> (r: u32)
        ensures
            r == self.spec_place(),
            r < 2,
    {
        match self {
            MechanismSource::BoundedClassifier => 0,
            MechanismSource::Unclassified => 1,
        }
    }
}

/// What failures are clustered by.
#[derive(Clone, Copy, Debug, PartialEq, Eq, PartialOrd, Ord, Hash, Structural)]
pub struct FailureSignature {
    pub version: u32,
    pub terminal_cause_source: FactSource,
    pub terminal_cause: TerminalCause,
    pub causal_status_source: FactSource,
    pub causal_status: CausalStatus,
    pub mechanism_source: MechanismSource,
    pub abstract_mechanism: FailureMechanism,
}

/// The signature of a failure.
pub open spec fn signature_of(failure: FailureEvidenceModel) -> FailureSignature {
    FailureSignature {
        version: SIGNATURE_VERSION,
        terminal_cause_source: FactSource::VerifierReceipt,
        terminal_cause: failure.fact.terminal_cause,
        causal_status_source: FactSource::VerifierReceipt,
        causal_status: failure.fact.causal_status,
        mechanism_source: match failure.hypothesis {
            Some(hypothesis) => MechanismSource::BoundedClassifier,
            None => MechanismSource::Unclassified,
        },
        abstract_mechanism: match failure.hypothesis {
            Some(hypothesis) => hypothesis.spec_mechanism(),
            None => FailureMechanism::Unclassified,
        },
    }
}

impl FailureSignature {
    /// The place of a signature in the order of all signatures.
    pub open spec fn spec_place(self) -> int {
        ((self.terminal_cause.spec_place() * 4 + self.causal_status.spec_place()) * 2
            + self.mechanism_source.spec_place()) * 7 + self.abstract_mechanism.spec_place()
    }

    fn place(self) -> (r: u32)
        ensures
            r == self.spec_place(),
            r < SIGNATURES,
    {
        ((self.terminal_cause.place() * 4 + self.causal_status.place()) * 2
            + self.mechanism_source.place()) * 7 + self.abstract_mechanism.place()
    }

    fn from_failure(failure: &MiningFailureEvidence) -> (r: Self)
        ensures
            r == signature_of(failure@),
    {
        let fact = failure.fact();
        let (mechanism_source, abstract_mechanism) = match failure.hypothesis() {
            Some(hypothesis) => (MechanismSource::BoundedClassifier, hypothesis.mechanism()),
            None => (MechanismSource::Unclassified, FailureMechanism::Unclassified),
        };
        FailureSignature {
            version: SIGNATURE_VERSION,
            terminal_cause_source: FactSource::VerifierReceipt,
            terminal_cause: fact.terminal_cause,
            causal_status_source: FactSource::VerifierReceipt,
            causal_status: fact.causal_status,
            mechanism_source,
            abstract_mechanism,
        }
    }

    pub fn version(self) -> (r: u32)
        ensures
            r == self.version,
    {
        self.version
    }

    pub fn terminal_cause(self) -> (r: TerminalCause)
        ensures
            r == self.terminal_cause,
    {
        self.terminal_cause
    }

    pub fn causal_status(self) -> (r: CausalStatus)
        ensures
            r == self.causal_status,
    {
        self.causal_status
    }

    pub fn mechanism_source(self) -> (r: MechanismSource)
        ensures
            r == self.mechanism_source,
    {
        self.mechanism_source
    }

    pub fn abstract_mechanism(self) -> (r: FailureMechanism)
        ensures
            r == self.abstract_mechanism,
    {
        self.abstract_mechanism
    }
}

/// Failures have the same place exactly when they have the same signature.
pub proof fn law_places_tell_signatures_apart(a: FailureEvidenceModel, b: FailureEvidenceModel)
    ensures
        signature_of(a).spec_place() == signature_of(b).spec_place() <==> signature_of(a)
            == signature_of(b),
        0 <= signature_of(a).spec_place() < SIGNATURES,
{
}

/// How much is mined at most.
#[derive(Clone, Copy, Debug, PartialEq, Eq, Structural)]
pub struct MiningLimits {
    max_observations: usize,
    max_clusters: usize,
    max_cluster_members: usize,
    max_pass_anchors: usize,
}

/// What limits are.
pub struct LimitsModel {
    pub max_observations: usize,
    pub max_clusters: usize,
    pub max_cluster_members: usize,
    pub max_pass_anchors: usize,
}

impl View for MiningLimits {
    type V = LimitsModel;

    closed spec fn view(&self) -> LimitsModel {
        LimitsModel {
            max_observations: self.max_observations,
            max_clusters: self.max_clusters,
            max_cluster_members: self.max_cluster_members,
            max_pass_anchors: self.max_pass_anchors,
        }
    }
}

/// What is wrong with a limit.
pub open spec fn limit_problem(field: &'static str, value: usize, maximum: usize) -> Option<
    MiningError,
> {
    if value == 0 || value > maximum {
        Some(MiningError::InvalidLimit { field, maximum })
    } else {
        None
    }
}

/// What is wrong with limits.
pub open spec fn limits_problem(limits: LimitsModel) -> Option<MiningError> {
    crate::first::either(
        limit_problem("observations", limits.max_observations, MAX_OBSERVATIONS),
        crate::first::either(
            limit_problem("clusters", limits.max_clusters, MAX_CLUSTERS),
            crate::first::either(
                limit_problem("cluster members", limits.max_cluster_members, MAX_CLUSTER_MEMBERS),
                limit_problem("pass anchors", limits.max_pass_anchors, MAX_PASS_ANCHORS),
            ),
        ),
    )
}

fn validate_limit(field: &'static str, value: usize, maximum: usize) -> (r: Result<
    (),
    MiningError,
>)
    ensures
        r == crate::first::refused(limit_problem(field, value, maximum)),
{
    if value == 0 || value > maximum {
        return Err(MiningError::InvalidLimit { field, maximum });
    }
    Ok(())
}

impl MiningLimits {
    #[verifier::type_invariant]
    spec fn well_formed(self) -> bool {
        limits_problem(self@) is None
    }

    pub fn new(
        max_observations: usize,
        max_clusters: usize,
        max_cluster_members: usize,
        max_pass_anchors: usize,
    ) -> (r: Result<Self, MiningError>)
        ensures
            ({
                let limits = LimitsModel {
                    max_observations,
                    max_clusters,
                    max_cluster_members,
                    max_pass_anchors,
                };
                match (r, limits_problem(limits)) {
                    (Ok(made), None) => made@ == limits,
                    (Err(error), Some(expected)) => error == expected,
                    _ => false,
                }
            }),
    {
        match validate_limit("observations", max_observations, MAX_OBSERVATIONS) {
            Err(error) => return Err(error),
            Ok(()) => {},
        }
        match validate_limit("clusters", max_clusters, MAX_CLUSTERS) {
            Err(error) => return Err(error),
            Ok(()) => {},
        }
        match validate_limit("cluster members", max_cluster_members, MAX_CLUSTER_MEMBERS) {
            Err(error) => return Err(error),
            Ok(()) => {},
        }
        match validate_limit("pass anchors", max_pass_anchors, MAX_PASS_ANCHORS) {
            Err(error) => return Err(error),
            Ok(()) => {},
        }
        Ok(
            MiningLimits {
                max_observations,
                max_clusters,
                max_cluster_members,
                max_pass_anchors,
            },
        )
    }
}

impl Default for MiningLimits {
    fn default() -> (r: Self)
        ensures
            r@ == (LimitsModel {
                max_observations: MAX_OBSERVATIONS,
                max_clusters: MAX_CLUSTERS,
                max_cluster_members: MAX_CLUSTER_MEMBERS,
                max_pass_anchors: MAX_PASS_ANCHORS,
            }),
    {
        MiningLimits {
            max_observations: MAX_OBSERVATIONS,
            max_clusters: MAX_CLUSTERS,
            max_cluster_members: MAX_CLUSTER_MEMBERS,
            max_pass_anchors: MAX_PASS_ANCHORS,
        }
    }
}

/// Failures with one signature.
#[derive(PartialEq, Eq)]
pub struct FailureCluster {
    rank: u32,
    signature: FailureSignature,
    support: u32,
    representative: MiningFailureEvidence,
    members: Vec<MiningObservationId>,
}

/// What a cluster says.
#[verifier::ext_equal]
pub struct ClusterModel {
    pub rank: u32,
    pub signature: FailureSignature,
    pub support: u32,
    pub representative: FailureEvidenceModel,
    pub members: Seq<MiningObservationId>,
}

impl View for FailureCluster {
    type V = ClusterModel;

    closed spec fn view(&self) -> ClusterModel {
        ClusterModel {
            rank: self.rank,
            signature: self.signature,
            support: self.support,
            representative: self.representative@,
            members: self.members@,
        }
    }
}

impl FailureCluster {
    pub fn rank(&self) -> (r: u32)
        ensures
            r == self@.rank,
    {
        self.rank
    }

    pub fn signature(&self) -> (r: FailureSignature)
        ensures
            r == self@.signature,
    {
        self.signature
    }

    pub fn support(&self) -> (r: u32)
        ensures
            r == self@.support,
    {
        self.support
    }

    pub fn representative(&self) -> (r: &MiningFailureEvidence)
        ensures
            r@ == self@.representative,
    {
        &self.representative
    }

    pub fn members(&self) -> (r: &[MiningObservationId])
        ensures
            r@ == self@.members,
    {
        self.members.as_slice()
    }
}

/// The models of some observations.
pub open spec fn observation_models(observations: Seq<MiningObservation>) -> Seq<ObservationModel> {
    observations.map_values(|observation: MiningObservation| observation@)
}

pub open spec fn observation_ids(observations: Seq<ObservationModel>) -> Seq<Digest> {
    observations.map_values(|observation: ObservationModel| observation.id().0)
}

/// The last of the first `n` observations that has an identity.
pub open spec fn last_with(observations: Seq<ObservationModel>, id: Digest, n: int) -> ObservationModel
    decreases n,
{
    if n <= 1 || observations[n - 1].id().0 == id {
        observations[n - 1]
    } else {
        last_with(observations, id, n - 1)
    }
}

/// Observations by ascending identity, each identity once.
pub open spec fn distinct(observations: Seq<ObservationModel>) -> Seq<ObservationModel> {
    ascending_of(observation_ids(observations)).map_values(
        |id: Digest| last_with(observations, id, observations.len() as int),
    )
}

/// The failures among the first `n` observations whose signature has a place.
pub open spec fn failures_at(observations: Seq<ObservationModel>, place: int, n: int) -> Seq<
    FailureEvidenceModel,
>
    decreases n,
{
    if n <= 0 {
        Seq::empty()
    } else {
        let before = failures_at(observations, place, n - 1);
        match observations[n - 1] {
            ObservationModel::Failure(failure) => if signature_of(failure).spec_place() == place {
                before.push(failure)
            } else {
                before
            },
            ObservationModel::Pass(pass) => before,
        }
    }
}

/// The passes among the first `n` observations.
pub open spec fn passes(observations: Seq<ObservationModel>, n: int) -> Seq<PassEvidenceModel>
    decreases n,
{
    if n <= 0 {
        Seq::empty()
    } else {
        match observations[n - 1] {
            ObservationModel::Failure(failure) => passes(observations, n - 1),
            ObservationModel::Pass(pass) => passes(observations, n - 1).push(pass),
        }
    }
}

/// The identities of some failures.
pub open spec fn failure_ids(failures: Seq<FailureEvidenceModel>) -> Seq<MiningObservationId> {
    failures.map_values(|failure: FailureEvidenceModel| failure.id)
}

/// The cluster of some failures with one signature.
pub open spec fn cluster_of(failures: Seq<FailureEvidenceModel>, rank: u32) -> ClusterModel {
    ClusterModel {
        rank,
        signature: signature_of(failures[0]),
        support: failures.len() as u32,
        representative: failures[0],
        members: failure_ids(failures),
    }
}

/// The clusters of the signatures with the first `n` places, not yet ranked.
pub open spec fn clusters_below(observations: Seq<ObservationModel>, n: int) -> Seq<ClusterModel>
    decreases n,
{
    if n <= 0 {
        Seq::empty()
    } else {
        let failures = failures_at(observations, n - 1, observations.len() as int);
        if failures.len() == 0 {
            clusters_below(observations, n - 1)
        } else {
            clusters_below(observations, n - 1).push(cluster_of(failures, 0))
        }
    }
}

/// The first cluster among the first `n` that is too large.
pub open spec fn oversized(clusters: Seq<ClusterModel>, maximum: usize, n: int) -> Option<
    MiningError,
>
    decreases n,
{
    if n <= 0 {
        None
    } else {
        match oversized(clusters, maximum, n - 1) {
            Some(error) => Some(error),
            None => if clusters[n - 1].members.len() > maximum {
                Some(
                    MiningError::ClusterTooLarge {
                        actual: clusters[n - 1].members.len() as usize,
                        maximum,
                    },
                )
            } else {
                None
            },
        }
    }
}

/// What clusters are ranked by: more support first, then the order of signatures.
#[derive(Clone, Copy, Debug, PartialEq, Eq, Structural)]
pub struct ClusterKey {
    pub support: u32,
    pub place: u32,
}

impl Ordered for ClusterKey {
    open spec fn comes_before(self, other: Self) -> bool {
        self.support > other.support || self.support == other.support && self.place < other.place
    }

    fn is_before(&self, other: &Self) -> (r: bool) {
        self.support > other.support || self.support == other.support && self.place < other.place
    }
}

impl StrictlyOrdered for ClusterKey {
    proof fn total(a: Self, b: Self) {
    }

    proof fn transitive(a: Self, b: Self, c: Self) {
    }
}

pub open spec fn cluster_key() -> spec_fn(ClusterModel) -> ClusterKey {
    |cluster: ClusterModel|
        ClusterKey { support: cluster.support, place: cluster.signature.spec_place() as u32 }
}

/// Clusters with their ranks, the largest first.
pub open spec fn ranked(clusters: Seq<ClusterModel>) -> Seq<ClusterModel> {
    let in_order = arranged(clusters, clusters.map_values(cluster_key()));
    Seq::new(
        in_order.len(),
        |i: int| ClusterModel { rank: (i + 1) as u32, ..in_order[i] },
    )
}

/// What mining finds.
#[verifier::ext_equal]
pub struct BundleModel {
    pub clusters: Seq<ClusterModel>,
    pub pass_anchors: Seq<PassEvidenceModel>,
    pub omitted_pass_anchors: u32,
}

/// What mining some observations comes to.
pub open spec fn mined(observations: Seq<ObservationModel>, limits: LimitsModel) -> Result<
    BundleModel,
    MiningError,
> {
    let kept = distinct(observations);
    let clusters = clusters_below(kept, SIGNATURES as int);
    let anchors = passes(kept, kept.len() as int);
    if kept.len() > limits.max_observations {
        Err(
            MiningError::TooManyObservations {
                actual: kept.len() as usize,
                maximum: limits.max_observations,
            },
        )
    } else if clusters.len() > limits.max_clusters {
        Err(
            MiningError::TooManyClusters {
                actual: clusters.len() as usize,
                maximum: limits.max_clusters,
            },
        )
    } else {
        match oversized(clusters, limits.max_cluster_members, clusters.len() as int) {
            Some(error) => Err(error),
            None => Ok(
                BundleModel {
                    clusters: ranked(clusters),
                    pass_anchors: if anchors.len() > limits.max_pass_anchors {
                        anchors.subrange(0, limits.max_pass_anchors as int)
                    } else {
                        anchors
                    },
                    omitted_pass_anchors: if anchors.len() > limits.max_pass_anchors {
                        (anchors.len() - limits.max_pass_anchors) as u32
                    } else {
                        0
                    },
                },
            ),
        }
    }
}

/// The canonical JSON of a signature.
pub open spec fn signature_json(v: FailureSignature) -> Seq<char> {
    "{\"version\":"@ + decimal(v.version as nat) + ",\"terminal_cause_source\":"@ + quoted(v.terminal_cause_source.spec_name()) + ",\"terminal_cause\":"@ + quoted(v.terminal_cause.spec_name()) + ",\"causal_status_source\":"@ + quoted(v.causal_status_source.spec_name()) + ",\"causal_status\":"@ + quoted(v.causal_status.spec_name()) + ",\"mechanism_source\":"@ + quoted(v.mechanism_source.spec_name()) + ",\"abstract_mechanism\":"@ + quoted(v.abstract_mechanism.spec_name()) + "}"@
}

fn signature_text(v: &FailureSignature) -> (r: String)
    ensures
        r@ == signature_json(*v),
{
    let mut json = "{\"version\":".to_owned();
    push_decimal(&mut json, v.version as u64);
    json.push_str(",\"terminal_cause_source\":");
    push_quoted(&mut json, v.terminal_cause_source.name());
    json.push_str(",\"terminal_cause\":");
    push_quoted(&mut json, v.terminal_cause.name());
    json.push_str(",\"causal_status_source\":");
    push_quoted(&mut json, v.causal_status_source.name());
    json.push_str(",\"causal_status\":");
    push_quoted(&mut json, v.causal_status.name());
    json.push_str(",\"mechanism_source\":");
    push_quoted(&mut json, v.mechanism_source.name());
    json.push_str(",\"abstract_mechanism\":");
    push_quoted(&mut json, v.abstract_mechanism.name());
    json.push_str("}");
    json
}

/// The canonical JSON of the first `n` identities, separated by commas.
pub open spec fn members_json(items: Seq<MiningObservationId>, n: int) -> Seq<char>
    decreases n,
{
    if n <= 0 {
        ""@
    } else {
        members_json(items, n - 1) + (if n == 1 {
            ""@
        } else {
            ","@
        }) + quoted(items[n - 1].0.text())
    }
}

fn members_text(items: &Vec<MiningObservationId>) -> (r: String)
    ensures
        r@ == members_json(items@, items.len() as int),
{
    let mut json = "".to_owned();
    let mut i: usize = 0;
    while i < items.len()
        invariant
            i <= items.len(),
            json@ == members_json(items@, i as int),
        decreases items.len() - i,
    {
        if i > 0 {
            json.push_str(",");
        } else {
            json.push_str("");
        }
        push_digest(&mut json, &items[i].0);
        i += 1;
    }
    json
}

/// The canonical JSON of a cluster.
pub open spec fn cluster_json(v: ClusterModel) -> Seq<char> {
    "{\"rank\":"@ + decimal(v.rank as nat) + ",\"signature\":"@ + signature_json(v.signature)
        + ",\"support\":"@ + decimal(v.support as nat) + ",\"representative\":"@
        + failure_evidence_json(v.representative) + ",\"members\":["@ + members_json(
        v.members,
        v.members.len() as int,
    ) + "]}"@
}

fn cluster_text(v: &FailureCluster) -> (r: String)
    ensures
        r@ == cluster_json(v@),
{
    let mut json = "{\"rank\":".to_owned();
    push_decimal(&mut json, v.rank as u64);
    json.push_str(",\"signature\":");
    json.push_str(signature_text(&v.signature).as_str());
    json.push_str(",\"support\":");
    push_decimal(&mut json, v.support as u64);
    json.push_str(",\"representative\":");
    json.push_str(v.representative.to_json().as_str());
    json.push_str(",\"members\":[");
    json.push_str(members_text(&v.members).as_str());
    json.push_str("]}");
    json
}

/// The models of clusters.
pub open spec fn cluster_models(items: Seq<FailureCluster>) -> Seq<ClusterModel> {
    items.map_values(|item: FailureCluster| item@)
}

/// The canonical JSON of the first `n` clusters, separated by commas.
pub open spec fn clusters_json(items: Seq<ClusterModel>, n: int) -> Seq<char>
    decreases n,
{
    if n <= 0 {
        ""@
    } else {
        clusters_json(items, n - 1) + (if n == 1 {
            ""@
        } else {
            ","@
        }) + cluster_json(items[n - 1])
    }
}

fn clusters_text(items: &Vec<FailureCluster>) -> (r: String)
    ensures
        r@ == clusters_json(cluster_models(items@), items.len() as int),
{
    let ghost models = cluster_models(items@);
    let mut json = "".to_owned();
    let mut i: usize = 0;
    while i < items.len()
        invariant
            i <= items.len(),
            models == cluster_models(items@),
            json@ == clusters_json(models, i as int),
        decreases items.len() - i,
    {
        assert(models[i as int] == items@[i as int]@);
        if i > 0 {
            json.push_str(",");
        } else {
            json.push_str("");
        }
        json.push_str(cluster_text(&items[i]).as_str());
        i += 1;
    }
    json
}

/// The models of passes.
pub open spec fn pass_models(items: Seq<MiningPassEvidence>) -> Seq<PassEvidenceModel> {
    items.map_values(|item: MiningPassEvidence| item@)
}

/// The canonical JSON of the first `n` passes, separated by commas.
pub open spec fn anchors_json(items: Seq<PassEvidenceModel>, n: int) -> Seq<char>
    decreases n,
{
    if n <= 0 {
        ""@
    } else {
        anchors_json(items, n - 1) + (if n == 1 {
            ""@
        } else {
            ","@
        }) + pass_evidence_json(items[n - 1])
    }
}

fn anchors_text(items: &Vec<MiningPassEvidence>) -> (r: String)
    ensures
        r@ == anchors_json(pass_models(items@), items.len() as int),
{
    let ghost models = pass_models(items@);
    let mut json = "".to_owned();
    let mut i: usize = 0;
    while i < items.len()
        invariant
            i <= items.len(),
            models == pass_models(items@),
            json@ == anchors_json(models, i as int),
        decreases items.len() - i,
    {
        assert(models[i as int] == items@[i as int]@);
        if i > 0 {
            json.push_str(",");
        } else {
            json.push_str("");
        }
        json.push_str(items[i].to_json().as_str());
        i += 1;
    }
    json
}

/// The canonical JSON of a bundle.
pub open spec fn bundle_json(v: BundleModel) -> Seq<char> {
    "{\"schema_version\":1,\"clusters\":["@ + clusters_json(v.clusters, v.clusters.len() as int)
        + "],\"pass_anchors\":["@ + anchors_json(v.pass_anchors, v.pass_anchors.len() as int)
        + "],\"omitted_pass_anchors\":"@ + decimal(v.omitted_pass_anchors as nat) + "}"@
}

/// What mining found.
pub struct MiningEvidenceBundle {
    clusters: Vec<FailureCluster>,
    pass_anchors: Vec<MiningPassEvidence>,
    omitted_pass_anchors: u32,
    root: MiningBundleRoot,
    canonical: String,
}

impl View for MiningEvidenceBundle {
    type V = BundleModel;

    closed spec fn view(&self) -> BundleModel {
        BundleModel {
            clusters: cluster_models(self.clusters@),
            pass_anchors: pass_models(self.pass_anchors@),
            omitted_pass_anchors: self.omitted_pass_anchors,
        }
    }
}

impl MiningEvidenceBundle {
    #[verifier::type_invariant]
    spec fn well_formed(self) -> bool {
        &&& self.canonical@ == bundle_json(self@)
        &&& self.root == MiningBundleRoot(digest_of_text(self.canonical@))
    }

    pub fn clusters(&self) -> (r: &[FailureCluster])
        ensures
            cluster_models(r@) == self@.clusters,
    {
        self.clusters.as_slice()
    }

    pub fn pass_anchors(&self) -> (r: &[MiningPassEvidence])
        ensures
            pass_models(r@) == self@.pass_anchors,
    {
        self.pass_anchors.as_slice()
    }

    pub fn omitted_pass_anchors(&self) -> (r: u32)
        ensures
            r == self@.omitted_pass_anchors,
    {
        self.omitted_pass_anchors
    }

    pub fn root(&self) -> (r: MiningBundleRoot)
        ensures
            r == MiningBundleRoot(digest_of_text(bundle_json(self@))),
    {
        proof {
            use_type_invariant(self);
        }
        self.root
    }

    pub fn canonical_bytes(&self) -> (r: &[u8])
        ensures
            r@ == encode_utf8(bundle_json(self@)),
    {
        proof {
            use_type_invariant(self);
        }
        self.canonical.as_str().as_bytes()
    }
}

fn copy_observation(observation: &MiningObservation) -> (r: MiningObservation)
    ensures
        r@ == observation@,
{
    match observation {
        MiningObservation::Failure(failure) => MiningObservation::Failure(failure.clone()),
        MiningObservation::Pass(pass) => MiningObservation::Pass(pass.clone()),
    }
}

fn find_last(observations: &Vec<MiningObservation>, id: Digest) -> (r: usize)
    requires
        observations.len() > 0,
    ensures
        r < observations.len(),
        observations@[r as int]@ == last_with(
            observation_models(observations@),
            id,
            observations.len() as int,
        ),
{
    let ghost models = observation_models(observations@);
    let mut n: usize = observations.len();
    while n > 1
        invariant
            1 <= n <= observations.len(),
            models == observation_models(observations@),
            last_with(models, id, n as int) == last_with(models, id, observations.len() as int),
        decreases n,
    {
        assert(models[n - 1] == observations@[n - 1]@);
        let here = observations[n - 1].id();
        if here.0 == id {
            return n - 1;
        }
        n -= 1;
    }
    assert(models[0] == observations@[0]@);
    0
}

fn keep_distinct(observations: &Vec<MiningObservation>) -> (r: Vec<MiningObservation>)
    ensures
        observation_models(r@) == distinct(observation_models(observations@)),
{
    let ghost models = observation_models(observations@);
    let ghost ids = observation_ids(models);
    let mut set = DigestSet::new();
    let mut i: usize = 0;
    assert(ids.subrange(0, 0).to_set() =~= Set::<Digest>::empty());
    while i < observations.len()
        invariant
            i <= observations.len(),
            models == observation_models(observations@),
            ids == observation_ids(models),
            digests_ascend(set@),
            set@.to_set() == ids.subrange(0, i as int).to_set(),
        decreases observations.len() - i,
    {
        assert(models[i as int] == observations@[i as int]@);
        let ghost before = set@;
        let id = observations[i].id();
        set.insert(id.0);
        let ghost at = i as int;
        i += 1;
        proof {
            lemma_more_digests(ids, at);
            assert(set@.to_set() =~= before.to_set().insert(ids[at]));
        }
    }
    assert(ids.subrange(0, ids.len() as int) =~= ids);
    proof {
        lemma_is_ascending_of(set@, ids);
    }
    let mut kept: Vec<MiningObservation> = Vec::new();
    let mut k: usize = 0;
    while k < set.len()
        invariant
            k <= set@.len(),
            models == observation_models(observations@),
            ids == observation_ids(models),
            ascending_of(ids) == set@,
            set@.to_set() == ids.to_set(),
            observation_models(kept@) == distinct(models).subrange(0, k as int),
        decreases set@.len() - k,
    {
        let id = set.get(k);
        proof {
            assert(set@[k as int] == id);
            assert(set@.contains(id));
            assert(ids.to_set().contains(id));
            assert(ids.contains(id));
            assert(ids.len() > 0);
        }
        let at = find_last(observations, id);
        let copy = copy_observation(&observations[at]);
        let ghost before = kept@;
        kept.push(copy);
        assert(observation_models(kept@) =~= observation_models(before).push(copy@));
        k += 1;
        assert(observation_models(kept@) =~= distinct(models).subrange(0, k as int));
    }
    assert(observation_models(kept@) =~= distinct(models));
    kept
}

proof fn lemma_more_digests(ids: Seq<Digest>, at: int)
    requires
        0 <= at < ids.len(),
    ensures
        ids.subrange(0, at + 1).to_set() == ids.subrange(0, at).to_set().insert(ids[at]),
{
    let a = ids.subrange(0, at + 1);
    let b = ids.subrange(0, at);
    assert(a =~= b.push(ids[at]));
    assert forall|x: Digest| a.to_set().contains(x) <==> b.to_set().insert(ids[at]).contains(x) by {
        if a.to_set().contains(x) {
            let k = choose|k: int| 0 <= k < a.len() && a[k] == x;
            if k < at {
                assert(b[k] == x);
                assert(b.contains(x));
            }
        }
        if b.to_set().contains(x) {
            let k = choose|k: int| 0 <= k < b.len() && b[k] == x;
            assert(a[k] == x);
        }
        assert(a[at] == ids[at]);
    }
    assert(a.to_set() =~= b.to_set().insert(ids[at]));
}

fn make_cluster(observations: &Vec<MiningObservation>, place: u32) -> (r: Option<FailureCluster>)
    requires
        observations.len() <= MAX_OBSERVATIONS,
    ensures
        ({
            let failures = failures_at(
                observation_models(observations@),
                place as int,
                observations.len() as int,
            );
            match r {
                Some(cluster) => failures.len() > 0 && cluster@ == cluster_of(failures, 0),
                None => failures.len() == 0,
            }
        }),
{
    let ghost models = observation_models(observations@);
    let mut representative: Option<MiningFailureEvidence> = None;
    let mut members: Vec<MiningObservationId> = Vec::new();
    let mut i: usize = 0;
    assert(failure_ids(Seq::<FailureEvidenceModel>::empty()) =~= Seq::<
        MiningObservationId,
    >::empty());
    while i < observations.len()
        invariant
            i <= observations.len() <= MAX_OBSERVATIONS,
            models == observation_models(observations@),
            members.len() <= i,
            members@ == failure_ids(failures_at(models, place as int, i as int)),
            members.len() == failures_at(models, place as int, i as int).len(),
            match representative {
                Some(first) => failures_at(models, place as int, i as int).len() > 0 && first@
                    == failures_at(models, place as int, i as int)[0],
                None => failures_at(models, place as int, i as int).len() == 0,
            },
        decreases observations.len() - i,
    {
        assert(models[i as int] == observations@[i as int]@);
        let ghost before = failures_at(models, place as int, i as int);
        match &observations[i] {
            MiningObservation::Failure(failure) => {
                let signature = FailureSignature::from_failure(failure);
                if signature.place() == place {
                    assert(failures_at(models, place as int, i as int + 1) == before.push(failure@));
                    members.push(failure.id());
                    assert(members@ =~= failure_ids(before.push(failure@)));
                    if representative.is_none() {
                        representative = Some(failure.clone());
                    }
                }
            },
            MiningObservation::Pass(pass) => {},
        }
        i += 1;
    }
    match representative {
        Some(representative) => Some(
            FailureCluster {
                rank: 0,
                signature: FailureSignature::from_failure(&representative),
                support: members.len() as u32,
                representative,
                members,
            },
        ),
        None => None,
    }
}

fn cluster_failures(observations: &Vec<MiningObservation>) -> (r: Vec<FailureCluster>)
    requires
        observations.len() <= MAX_OBSERVATIONS,
    ensures
        cluster_models(r@) == clusters_below(
            observation_models(observations@),
            SIGNATURES as int,
        ),
        r.len() <= SIGNATURES,
{
    let ghost models = observation_models(observations@);
    let mut clusters: Vec<FailureCluster> = Vec::new();
    let mut place: u32 = 0;
    assert(cluster_models(clusters@) =~= Seq::<ClusterModel>::empty());
    while place < SIGNATURES
        invariant
            place <= SIGNATURES,
            observations.len() <= MAX_OBSERVATIONS,
            models == observation_models(observations@),
            cluster_models(clusters@) == clusters_below(models, place as int),
            clusters.len() <= place,
        decreases SIGNATURES - place,
    {
        match make_cluster(observations, place) {
            Some(cluster) => {
                let ghost before = clusters@;
                clusters.push(cluster);
                assert(cluster_models(clusters@) =~= cluster_models(before).push(cluster@));
            },
            None => {},
        }
        place += 1;
    }
    clusters
}

proof fn lemma_oversized(clusters: Seq<ClusterModel>, maximum: usize, at: int, n: int)
    requires
        0 <= at <= n,
        oversized(clusters, maximum, at) is Some,
    ensures
        oversized(clusters, maximum, n) == oversized(clusters, maximum, at),
    decreases n,
{
    if at < n {
        lemma_oversized(clusters, maximum, at, n - 1);
    }
}

fn check_sizes(clusters: &Vec<FailureCluster>, maximum: usize) -> (r: Result<(), MiningError>)
    ensures
        r == crate::first::refused(
            oversized(cluster_models(clusters@), maximum, clusters.len() as int),
        ),
{
    let ghost models = cluster_models(clusters@);
    let mut i: usize = 0;
    while i < clusters.len()
        invariant
            i <= clusters.len(),
            models == cluster_models(clusters@),
            oversized(models, maximum, i as int) is None,
        decreases clusters.len() - i,
    {
        assert(models[i as int] == clusters@[i as int]@);
        if clusters[i].members.len() > maximum {
            proof {
                lemma_oversized(models, maximum, i as int + 1, clusters.len() as int);
            }
            return Err(
                MiningError::ClusterTooLarge { actual: clusters[i].members.len(), maximum },
            );
        }
        i += 1;
    }
    Ok(())
}

fn copy_members(members: &Vec<MiningObservationId>) -> (r: Vec<MiningObservationId>)
    ensures
        r@ == members@,
{
    let mut copy: Vec<MiningObservationId> = Vec::new();
    let mut i: usize = 0;
    while i < members.len()
        invariant
            i <= members.len(),
            copy@ == members@.subrange(0, i as int),
        decreases members.len() - i,
    {
        copy.push(members[i]);
        i += 1;
        assert(copy@ =~= members@.subrange(0, i as int));
    }
    assert(copy@ =~= members@);
    copy
}

fn rank_clusters(clusters: &Vec<FailureCluster>) -> (r: Vec<FailureCluster>)
    requires
        clusters.len() <= SIGNATURES,
    ensures
        cluster_models(r@) == ranked(cluster_models(clusters@)),
{
    let ghost models = cluster_models(clusters@);
    let mut keys: Vec<ClusterKey> = Vec::new();
    let mut i: usize = 0;
    while i < clusters.len()
        invariant
            i <= clusters.len(),
            models == cluster_models(clusters@),
            keys@ == models.map_values(cluster_key()).subrange(0, i as int),
        decreases clusters.len() - i,
    {
        keys.push(
            ClusterKey { support: clusters[i].support, place: clusters[i].signature.place() },
        );
        i += 1;
        assert(keys@ =~= models.map_values(cluster_key()).subrange(0, i as int));
    }
    assert(keys@ =~= models.map_values(cluster_key()));
    let order = sorted_order(&keys);
    let mut result: Vec<FailureCluster> = Vec::new();
    let mut k: usize = 0;
    while k < order.len()
        invariant
            k <= order.len() == clusters.len(),
            clusters.len() <= SIGNATURES,
            models == cluster_models(clusters@),
            keys@ == models.map_values(cluster_key()),
            numbers(order@) == sorted(keys@, keys.len() as int),
            forall|i: int| 0 <= i < order.len() ==> (#[trigger] order@[i]) < keys.len(),
            cluster_models(result@) == ranked(models).subrange(0, k as int),
        decreases order.len() - k,
    {
        assert(numbers(order@)[k as int] == order@[k as int]);
        let at = order[k];
        let from = &clusters[at];
        let cluster = FailureCluster {
            rank: (k + 1) as u32,
            signature: from.signature,
            support: from.support,
            representative: from.representative.clone(),
            members: copy_members(&from.members),
        };
        assert(models[at as int] == clusters@[at as int]@);
        let ghost before = result@;
        result.push(cluster);
        assert(cluster_models(result@) =~= cluster_models(before).push(cluster@));
        assert(cluster@ =~= ranked(models)[k as int]);
        k += 1;
        assert(cluster_models(result@) =~= ranked(models).subrange(0, k as int));
    }
    assert(cluster_models(result@) =~= ranked(models));
    result
}

fn collect_passes(observations: &Vec<MiningObservation>) -> (r: Vec<MiningPassEvidence>)
    ensures
        pass_models(r@) == passes(observation_models(observations@), observations.len() as int),
        r.len() <= observations.len(),
{
    let ghost models = observation_models(observations@);
    let mut anchors: Vec<MiningPassEvidence> = Vec::new();
    let mut i: usize = 0;
    assert(pass_models(anchors@) =~= Seq::<PassEvidenceModel>::empty());
    while i < observations.len()
        invariant
            i <= observations.len(),
            anchors.len() <= i,
            models == observation_models(observations@),
            pass_models(anchors@) == passes(models, i as int),
        decreases observations.len() - i,
    {
        assert(models[i as int] == observations@[i as int]@);
        match &observations[i] {
            MiningObservation::Failure(failure) => {},
            MiningObservation::Pass(pass) => {
                let ghost before = anchors@;
                let copy = pass.clone();
                anchors.push(copy);
                assert(pass_models(anchors@) =~= pass_models(before).push(pass@));
            },
        }
        i += 1;
    }
    anchors
}

/// Clusters the failures among some observations and keeps the passes as anchors.
pub fn mine_evidence(observations: Vec<MiningObservation>, limits: MiningLimits) -> (r: Result<
    MiningEvidenceBundle,
    MiningError,
>)
    ensures
        match (r, mined(observation_models(observations@), limits@)) {
            (Ok(bundle), Ok(expected)) => bundle@ == expected,
            (Err(error), Err(expected)) => error == expected,
            _ => false,
        },
{
    proof {
        use_type_invariant(limits);
    }
    let kept = keep_distinct(&observations);
    assert(kept.len() == observation_models(kept@).len());
    if kept.len() > limits.max_observations {
        return Err(
            MiningError::TooManyObservations {
                actual: kept.len(),
                maximum: limits.max_observations,
            },
        );
    }
    let unranked = cluster_failures(&kept);
    assert(unranked.len() == cluster_models(unranked@).len());
    if unranked.len() > limits.max_clusters {
        return Err(
            MiningError::TooManyClusters { actual: unranked.len(), maximum: limits.max_clusters },
        );
    }
    match check_sizes(&unranked, limits.max_cluster_members) {
        Err(error) => return Err(error),
        Ok(()) => {},
    }
    let clusters = rank_clusters(&unranked);
    let mut pass_anchors = collect_passes(&kept);
    let ghost all = pass_anchors@;
    assert(all.len() == pass_models(all).len());
    let mut omitted_pass_anchors: u32 = 0;
    if pass_anchors.len() > limits.max_pass_anchors {
        omitted_pass_anchors = (pass_anchors.len() - limits.max_pass_anchors) as u32;
        pass_anchors.truncate(limits.max_pass_anchors);
        assert(pass_models(pass_anchors@) =~= pass_models(all).subrange(
            0,
            limits.max_pass_anchors as int,
        ));
    }
    let mut json = "{\"schema_version\":1,\"clusters\":[".to_owned();
    json.push_str(clusters_text(&clusters).as_str());
    json.push_str("],\"pass_anchors\":[");
    json.push_str(anchors_text(&pass_anchors).as_str());
    json.push_str("],\"omitted_pass_anchors\":");
    push_decimal(&mut json, omitted_pass_anchors as u64);
    json.push_str("}");
    assert(clusters.len() == cluster_models(clusters@).len());
    assert(pass_anchors.len() == pass_models(pass_anchors@).len());
    let root = MiningBundleRoot(Digest::of_text(json.as_str()));
    Ok(
        MiningEvidenceBundle {
            clusters,
            pass_anchors,
            omitted_pass_anchors,
            root,
            canonical: json,
        },
    )
}

/// Whether the identities of some observations tell them apart.
pub open spec fn told_apart(observations: Seq<ObservationModel>) -> bool {
    forall|i: int, j: int|
        0 <= i < observations.len() && 0 <= j < observations.len() && (
        #[trigger] observations[i]).id() == (#[trigger] observations[j]).id() ==> observations[i]
            == observations[j]
}

proof fn lemma_last_with(observations: Seq<ObservationModel>, id: Digest, n: int)
    requires
        0 < n <= observations.len(),
        exists|i: int| 0 <= i < n && (#[trigger] observations[i]).id().0 == id,
    ensures
        exists|i: int|
            0 <= i < n && #[trigger] observations[i] == last_with(observations, id, n)
                && observations[i].id().0 == id,
    decreases n,
{
    if n > 1 && observations[n - 1].id().0 != id {
        lemma_last_with(observations, id, n - 1);
    } else {
        assert(observations[n - 1] == last_with(observations, id, n));
    }
}

/// Mining does not depend on the order in which observations arrive, nor on how often one
/// arrives, as long as their identities tell them apart.
pub proof fn law_mining_does_not_depend_on_arrival(
    observations: Seq<ObservationModel>,
    rearranged: Seq<ObservationModel>,
    limits: LimitsModel,
)
    requires
        observations.to_set() == rearranged.to_set(),
        told_apart(observations),
    ensures
        mined(observations, limits) == mined(rearranged, limits),
{
    let a = observation_ids(observations);
    let b = observation_ids(rearranged);
    assert forall|x: Digest| a.to_set().contains(x) <==> b.to_set().contains(x) by {
        if a.to_set().contains(x) {
            let i = choose|i: int| 0 <= i < a.len() && a[i] == x;
            assert(observations.to_set().contains(observations[i]));
            assert(rearranged.contains(observations[i]));
            let j = choose|j: int| 0 <= j < rearranged.len() && rearranged[j] == observations[i];
            assert(b[j] == x);
        }
        if b.to_set().contains(x) {
            let i = choose|i: int| 0 <= i < b.len() && b[i] == x;
            assert(rearranged.to_set().contains(rearranged[i]));
            assert(observations.contains(rearranged[i]));
            let j = choose|j: int|
                0 <= j < observations.len() && observations[j] == rearranged[i];
            assert(a[j] == x);
        }
    }
    assert(a.to_set() =~= b.to_set());
    let ids = ascending_of(a);
    lemma_ascending_of_exists(a);
    lemma_ascending_of_exists(b);
    lemma_ascending_equal(ids, ascending_of(b));
    let p = distinct(observations);
    let q = distinct(rearranged);
    assert forall|k: int| 0 <= k < ids.len() implies p[k] == q[k] by {
        let id = ids[k];
        assert(ids.to_set().contains(id)) by {
            assert(ids.contains(id));
        }
        assert(a.to_set().contains(id) && b.to_set().contains(id));
        let i = choose|i: int| 0 <= i < a.len() && a[i] == id;
        let j = choose|j: int| 0 <= j < b.len() && b[j] == id;
        assert(observations[i].id().0 == id);
        assert(rearranged[j].id().0 == id);
        lemma_last_with(observations, id, observations.len() as int);
        lemma_last_with(rearranged, id, rearranged.len() as int);
        let x = last_with(observations, id, observations.len() as int);
        let y = last_with(rearranged, id, rearranged.len() as int);
        let m = choose|m: int|
            0 <= m < observations.len() && #[trigger] observations[m] == x
                && observations[m].id().0 == id;
        let n = choose|n: int|
            0 <= n < rearranged.len() && #[trigger] rearranged[n] == y && rearranged[n].id().0
                == id;
        assert(rearranged.to_set().contains(y)) by {
            assert(rearranged.contains(rearranged[n]));
        }
        assert(observations.contains(y));
        let l = choose|l: int| 0 <= l < observations.len() && observations[l] == y;
        assert(observations[l].id() == observations[m].id());
    }
    assert(p =~= q);
}

/// Clusters are ranked from one on, by falling support.
pub proof fn law_clusters_are_ranked_by_support(clusters: Seq<ClusterModel>)
    requires
        clusters.len() <= SIGNATURES,
    ensures
        ranked(clusters).len() == clusters.len(),
        forall|i: int|
            0 <= i < clusters.len() ==> (#[trigger] ranked(clusters)[i]).rank == i + 1,
        forall|i: int, j: int|
            0 <= i < j < clusters.len() ==> (#[trigger] ranked(clusters)[i]).support >= (
            #[trigger] ranked(clusters)[j]).support,
{
    let keys = clusters.map_values(cluster_key());
    let n = keys.len() as int;
    lemma_sorted_indexes(keys, n);
    lemma_sorted_weakly(keys, n);
    let order = sorted(keys, n);
    assert forall|i: int, j: int| 0 <= i < j < clusters.len() implies (
    #[trigger] ranked(clusters)[i]).support >= (#[trigger] ranked(clusters)[j]).support by {
        assert(!keys[order[j]].comes_before(keys[order[i]]));
    }
}

/// Whether an observation is a failure with an identity and a signature.
pub open spec fn fails_as(
    observation: ObservationModel,
    id: MiningObservationId,
    signature: FailureSignature,
) -> bool {
    match observation {
        ObservationModel::Failure(failure) => failure.id == id && signature_of(failure)
            == signature,
        ObservationModel::Pass(pass) => false,
    }
}

/// Whether one of some observations is a failure with an identity and a signature.
pub open spec fn failed_as(
    observations: Seq<ObservationModel>,
    id: MiningObservationId,
    signature: FailureSignature,
) -> bool {
    exists|i: int|
        0 <= i < observations.len() && fails_as(#[trigger] observations[i], id, signature)
}

/// Whether a cluster holds exactly the failures of its signature among some observations, by
/// ascending identity and each once, counts them, and shows the first of them.
#[verifier::opaque]
pub open spec fn clustered(observations: Seq<ObservationModel>, cluster: ClusterModel) -> bool {
    &&& cluster.members.len() > 0
    &&& cluster.support == cluster.members.len()
    &&& forall|i: int, j: int|
        0 <= i < j < cluster.members.len() ==> (#[trigger] cluster.members[i]).0.precedes(
            (#[trigger] cluster.members[j]).0,
        )
    &&& forall|id: MiningObservationId| #[trigger]
        cluster.members.contains(id) <==> failed_as(observations, id, cluster.signature)
    &&& cluster.representative.id == cluster.members[0]
    &&& signature_of(cluster.representative) == cluster.signature
    &&& observations.contains(ObservationModel::Failure(cluster.representative))
}

/// Whether observations come by ascending identity.
pub open spec fn observations_ascend(observations: Seq<ObservationModel>) -> bool {
    forall|i: int, j: int|
        0 <= i < j < observations.len() ==> (#[trigger] observations[i]).id().0.precedes(
            (#[trigger] observations[j]).id().0,
        )
}

/// What is mined is each identity's last observation, by ascending identity.
pub proof fn law_distinct_observations_ascend(observations: Seq<ObservationModel>)
    ensures
        observations_ascend(distinct(observations)),
        observation_ids(distinct(observations)) == ascending_of(observation_ids(observations)),
        forall|i: int|
            0 <= i < distinct(observations).len() ==> observations.contains(
                #[trigger] distinct(observations)[i],
            ),
{
    let given = observation_ids(observations);
    let ids = ascending_of(given);
    let kept = distinct(observations);
    lemma_ascending_of_exists(given);
    assert forall|k: int| 0 <= k < kept.len() implies (#[trigger] kept[k]).id().0 == ids[k]
        && observations.contains(kept[k]) by {
        let id = ids[k];
        assert(ids.to_set().contains(id)) by {
            assert(ids.contains(id));
        }
        assert(given.to_set().contains(id));
        let i = choose|i: int| 0 <= i < given.len() && given[i] == id;
        assert(observations[i].id().0 == id);
        lemma_last_with(observations, id, observations.len() as int);
    }
    assert(observation_ids(kept) =~= ids);
    assert forall|i: int, j: int| 0 <= i < j < kept.len() implies (
    #[trigger] kept[i]).id().0.precedes((#[trigger] kept[j]).id().0) by {
        assert(ids[i].precedes(ids[j]));
    }
}

proof fn lemma_failures_at(observations: Seq<ObservationModel>, place: int, n: int)
    requires
        0 <= n <= observations.len(),
        observations_ascend(observations),
    ensures
        ({
            let failures = failures_at(observations, place, n);
            &&& failures.len() <= n
            &&& forall|k: int|
                0 <= k < failures.len() ==> signature_of(#[trigger] failures[k]).spec_place()
                    == place && exists|i: int|
                    0 <= i < n && #[trigger] observations[i] == ObservationModel::Failure(
                        failures[k],
                    )
            &&& forall|i: int, failure: FailureEvidenceModel|
                0 <= i < n && #[trigger] observations[i] == ObservationModel::Failure(failure)
                    && signature_of(failure).spec_place() == place ==> #[trigger] failures.contains(
                    failure,
                )
            &&& forall|j: int, k: int|
                0 <= j < k < failures.len() ==> (#[trigger] failures[j]).id.0.precedes(
                    (#[trigger] failures[k]).id.0,
                )
        }),
    decreases n,
{
    if n > 0 {
        lemma_failures_at(observations, place, n - 1);
        let before = failures_at(observations, place, n - 1);
        let failures = failures_at(observations, place, n);
        let last = observations[n - 1];
        if let ObservationModel::Failure(failure) = last {
            if signature_of(failure).spec_place() == place {
                assert(failures == before.push(failure));
                assert(failures[before.len() as int] == failure);
                assert forall|j: int, k: int| 0 <= j < k < failures.len() implies (
                #[trigger] failures[j]).id.0.precedes((#[trigger] failures[k]).id.0) by {
                    assert(failures[j] == before[j]);
                    let i = choose|i: int|
                        0 <= i < n - 1 && #[trigger] observations[i] == ObservationModel::Failure(
                            before[j],
                        );
                    if k < before.len() {
                        assert(failures[k] == before[k]);
                        assert(before[j].id.0.precedes(before[k].id.0));
                    } else {
                        assert(observations[i].id().0.precedes(observations[n - 1].id().0));
                    }
                }
                assert forall|k: int| 0 <= k < failures.len() implies signature_of(
                    #[trigger] failures[k],
                ).spec_place() == place && exists|i: int|
                    0 <= i < n && #[trigger] observations[i] == ObservationModel::Failure(
                        failures[k],
                    ) by {
                    if k < before.len() {
                        assert(failures[k] == before[k]);
                        let i = choose|i: int|
                            0 <= i < n - 1 && #[trigger] observations[i]
                                == ObservationModel::Failure(before[k]);
                        assert(observations[i] == ObservationModel::Failure(failures[k]));
                    } else {
                        assert(observations[n - 1] == ObservationModel::Failure(failures[k]));
                    }
                }
                assert forall|i: int, other: FailureEvidenceModel|
                    0 <= i < n && #[trigger] observations[i] == ObservationModel::Failure(other)
                        && signature_of(other).spec_place()
                        == place implies #[trigger] failures.contains(other) by {
                    if i < n - 1 {
                        assert(before.contains(other));
                        let k = choose|k: int| 0 <= k < before.len() && before[k] == other;
                        assert(failures[k] == other);
                    }
                }
            }
        }
    }
}

proof fn lemma_cluster_of(observations: Seq<ObservationModel>, place: int)
    requires
        observations_ascend(observations),
        observations.len() <= u32::MAX,
        failures_at(observations, place, observations.len() as int).len() > 0,
    ensures
        clustered(
            observations,
            cluster_of(failures_at(observations, place, observations.len() as int), 0),
        ),
        cluster_of(
            failures_at(observations, place, observations.len() as int),
            0,
        ).signature.spec_place() == place,
{
    reveal(clustered);
    let n = observations.len() as int;
    let failures = failures_at(observations, place, n);
    let cluster = cluster_of(failures, 0);
    lemma_failures_at(observations, place, n);
    let signature = cluster.signature;
    assert(signature_of(failures[0]).spec_place() == place);
    assert forall|i: int, j: int| 0 <= i < j < cluster.members.len() implies (
    #[trigger] cluster.members[i]).0.precedes((#[trigger] cluster.members[j]).0) by {
        assert(failures[i].id.0.precedes(failures[j].id.0));
    }
    assert forall|id: MiningObservationId| #[trigger]
        cluster.members.contains(id) <==> failed_as(observations, id, signature) by {
        if cluster.members.contains(id) {
            let k = choose|k: int| 0 <= k < cluster.members.len() && cluster.members[k] == id;
            assert(failures[k].id == id);
            let i = choose|i: int|
                0 <= i < n && #[trigger] observations[i] == ObservationModel::Failure(failures[k]);
            law_places_tell_signatures_apart(failures[k], failures[0]);
            assert(fails_as(observations[i], id, signature));
        }
        if failed_as(observations, id, signature) {
            let i = choose|i: int|
                0 <= i < observations.len() && fails_as(#[trigger] observations[i], id, signature);
            let failure = match observations[i] {
                ObservationModel::Failure(failure) => failure,
                ObservationModel::Pass(pass) => arbitrary(),
            };
            assert(observations[i] == ObservationModel::Failure(failure));
            assert(failures.contains(failure));
            let k = choose|k: int| 0 <= k < failures.len() && failures[k] == failure;
            assert(cluster.members[k] == id);
        }
    }
    let i = choose|i: int|
        0 <= i < n && #[trigger] observations[i] == ObservationModel::Failure(failures[0]);
    assert(observations[i] == ObservationModel::Failure(cluster.representative));
}

proof fn lemma_clusters_below(observations: Seq<ObservationModel>, n: int)
    requires
        0 <= n,
        observations_ascend(observations),
        observations.len() <= u32::MAX,
    ensures
        ({
            let clusters = clusters_below(observations, n);
            &&& clusters.len() <= n
            &&& forall|k: int|
                0 <= k < clusters.len() ==> clustered(observations, #[trigger] clusters[k])
                    && clusters[k].signature.spec_place() < n
            &&& forall|j: int, k: int|
                0 <= j < k < clusters.len() ==> (#[trigger] clusters[j]).signature.spec_place() < (
                #[trigger] clusters[k]).signature.spec_place()
            &&& forall|place: int|
                0 <= place < n && (#[trigger] failures_at(
                    observations,
                    place,
                    observations.len() as int,
                )).len() > 0 ==> exists|k: int|
                    0 <= k < clusters.len() && (#[trigger] clusters[k]).signature.spec_place()
                        == place
        }),
    decreases n,
{
    if n > 0 {
        lemma_clusters_below(observations, n - 1);
        let before = clusters_below(observations, n - 1);
        let clusters = clusters_below(observations, n);
        let failures = failures_at(observations, n - 1, observations.len() as int);
        if failures.len() > 0 {
            lemma_cluster_of(observations, n - 1);
            assert(clusters == before.push(cluster_of(failures, 0)));
            assert forall|place: int|
                0 <= place < n && (#[trigger] failures_at(
                    observations,
                    place,
                    observations.len() as int,
                )).len() > 0 implies exists|k: int|
                0 <= k < clusters.len() && (#[trigger] clusters[k]).signature.spec_place()
                    == place by {
                if place < n - 1 {
                    let k = choose|k: int|
                        0 <= k < before.len() && (#[trigger] before[k]).signature.spec_place()
                            == place;
                    assert(clusters[k].signature.spec_place() == place);
                } else {
                    assert(clusters[before.len() as int].signature.spec_place() == place);
                }
            }
        }
    }
}

/// Clusters that share a member have the same signature and the same members.
proof fn lemma_same_signature(
    observations: Seq<ObservationModel>,
    a: ClusterModel,
    b: ClusterModel,
    id: MiningObservationId,
)
    requires
        observations_ascend(observations),
        clustered(observations, a),
        clustered(observations, b),
        a.members.contains(id),
        b.members.contains(id),
    ensures
        a.signature == b.signature,
        a.support == b.support,
{
    reveal(clustered);
    assert(failed_as(observations, id, a.signature));
    assert(failed_as(observations, id, b.signature));
    let x = choose|x: int|
        0 <= x < observations.len() && fails_as(#[trigger] observations[x], id, a.signature);
    let y = choose|y: int|
        0 <= y < observations.len() && fails_as(#[trigger] observations[y], id, b.signature);
    lemma_precedes_total(id.0, id.0);
    if x < y {
        assert(observations[x].id().0.precedes(observations[y].id().0));
    }
    if y < x {
        assert(observations[y].id().0.precedes(observations[x].id().0));
    }
    let m = a.members.map_values(|id: MiningObservationId| id.0);
    let n = b.members.map_values(|id: MiningObservationId| id.0);
    assert forall|i: int, j: int| 0 <= i < j < m.len() implies (#[trigger] m[i]).precedes(
        #[trigger] m[j],
    ) by {
        assert(a.members[i].0.precedes(a.members[j].0));
    }
    assert forall|i: int, j: int| 0 <= i < j < n.len() implies (#[trigger] n[i]).precedes(
        #[trigger] n[j],
    ) by {
        assert(b.members[i].0.precedes(b.members[j].0));
    }
    assert forall|z: Digest| m.to_set().contains(z) <==> n.to_set().contains(z) by {
        let other = MiningObservationId(z);
        if m.to_set().contains(z) {
            let k = choose|k: int| 0 <= k < m.len() && m[k] == z;
            assert(a.members[k] == other);
            assert(a.members.contains(other));
            assert(b.members.contains(other));
            let l = choose|l: int| 0 <= l < b.members.len() && b.members[l] == other;
            assert(n[l] == z);
        }
        if n.to_set().contains(z) {
            let k = choose|k: int| 0 <= k < n.len() && n[k] == z;
            assert(b.members[k] == other);
            assert(b.members.contains(other));
            assert(a.members.contains(other));
            let l = choose|l: int| 0 <= l < a.members.len() && a.members[l] == other;
            assert(m[l] == z);
        }
    }
    assert(m.to_set() =~= n.to_set());
    lemma_ascending_equal(m, n);
}

proof fn lemma_keys_differ(clusters: Seq<ClusterModel>)
    requires
        forall|k: int|
            0 <= k < clusters.len() ==> 0 <= (#[trigger] clusters[k]).signature.spec_place()
                < SIGNATURES,
        forall|j: int, k: int|
            0 <= j < k < clusters.len() ==> (#[trigger] clusters[j]).signature.spec_place() < (
            #[trigger] clusters[k]).signature.spec_place(),
    ensures
        clusters.map_values(cluster_key()).no_duplicates(),
{
    let keys = clusters.map_values(cluster_key());
    assert forall|i: int, j: int| 0 <= i < keys.len() && 0 <= j < keys.len() && i
        != j implies keys[i] != keys[j] by {
        if i < j {
            assert(clusters[i].signature.spec_place() < clusters[j].signature.spec_place());
        } else {
            assert(clusters[j].signature.spec_place() < clusters[i].signature.spec_place());
        }
    }
}

proof fn lemma_signature_places(observations: Seq<ObservationModel>, clusters: Seq<ClusterModel>)
    requires
        forall|k: int|
            0 <= k < clusters.len() ==> clustered(observations, #[trigger] clusters[k]),
    ensures
        forall|k: int|
            0 <= k < clusters.len() ==> 0 <= (#[trigger] clusters[k]).signature.spec_place()
                < SIGNATURES,
{
    reveal(clustered);
    assert forall|k: int| 0 <= k < clusters.len() implies 0 <= (
    #[trigger] clusters[k]).signature.spec_place() < SIGNATURES by {
        law_places_tell_signatures_apart(clusters[k].representative, clusters[k].representative);
    }
}

proof fn lemma_ranked_clusters(observations: Seq<ObservationModel>, found: Seq<ClusterModel>)
    requires
        observations_ascend(observations),
        observations.len() <= MAX_OBSERVATIONS,
        found == ranked(clusters_below(observations, SIGNATURES as int)),
    ensures
        forall|k: int|
            0 <= k < found.len() ==> clustered(observations, #[trigger] found[k]) && found[k].rank
                == k + 1,
        forall|j: int, k: int|
            0 <= j < k < found.len() ==> (#[trigger] found[j]).support > (
            #[trigger] found[k]).support || found[j].support == found[k].support
                && found[j].signature.spec_place() < found[k].signature.spec_place(),
{
    let clusters = clusters_below(observations, SIGNATURES as int);
    lemma_clusters_below(observations, SIGNATURES as int);
    lemma_signature_places(observations, clusters);
    lemma_keys_differ(clusters);
    let keys = clusters.map_values(cluster_key());
    let n = keys.len() as int;
    lemma_sorted_indexes(keys, n);
    lemma_sorted_ascends(keys, n);
    let order = sorted(keys, n);
    assert forall|k: int| 0 <= k < found.len() implies clustered(observations, #[trigger] found[k])
        && found[k].rank == k + 1 by {
        let cluster = clusters[order[k]];
        assert(clustered(observations, cluster));
        assert(found[k] == ClusterModel { rank: (k + 1) as u32, ..cluster });
        reveal(clustered);
    }
    assert forall|j: int, k: int| 0 <= j < k < found.len() implies (#[trigger] found[j]).support
        > (#[trigger] found[k]).support || found[j].support == found[k].support
        && found[j].signature.spec_place() < found[k].signature.spec_place() by {
        assert(picked(keys, order)[j].comes_before(picked(keys, order)[k]));
        let a = clusters[order[j]];
        let b = clusters[order[k]];
        assert(0 <= a.signature.spec_place() < SIGNATURES);
        assert(0 <= b.signature.spec_place() < SIGNATURES);
    }
}

proof fn lemma_failure_is_clustered(
    observations: Seq<ObservationModel>,
    found: Seq<ClusterModel>,
    i: int,
)
    requires
        observations_ascend(observations),
        observations.len() <= MAX_OBSERVATIONS,
        found == ranked(clusters_below(observations, SIGNATURES as int)),
        0 <= i < observations.len(),
        observations[i] is Failure,
    ensures
        exists|k: int|
            0 <= k < found.len() && (#[trigger] found[k]).signature == signature_of(
                observations[i]->Failure_0,
            ) && found[k].members.contains(observations[i]->Failure_0.id),
{
    let failure = observations[i]->Failure_0;
    let place = signature_of(failure).spec_place();
    let clusters = clusters_below(observations, SIGNATURES as int);
    lemma_clusters_below(observations, SIGNATURES as int);
    law_places_tell_signatures_apart(failure, failure);
    lemma_failures_at(observations, place, observations.len() as int);
    assert(observations[i] == ObservationModel::Failure(failure));
    assert(failures_at(observations, place, observations.len() as int).contains(failure));
    let c = choose|c: int|
        0 <= c < clusters.len() && (#[trigger] clusters[c]).signature.spec_place() == place;
    let keys = clusters.map_values(cluster_key());
    lemma_sorted_indexes(keys, keys.len() as int);
    lemma_sorted_holds(keys, keys.len() as int, c);
    let order = sorted(keys, keys.len() as int);
    let k = choose|k: int| 0 <= k < order.len() && order[k] == c;
    assert(clustered(observations, clusters[c]));
    reveal(clustered);
    law_places_tell_signatures_apart(failure, clusters[c].representative);
    assert(found[k].signature == signature_of(failure));
    assert(fails_as(observations[i], failure.id, found[k].signature));
    assert(failed_as(observations, failure.id, clusters[c].signature));
    assert(clusters[c].members.contains(failure.id));
}

/// Every distinct failure stands in exactly one cluster, that of its signature. A cluster
/// holds exactly the failures of its signature, by ascending identity, counts them, and shows
/// the first of them. Clusters come by falling support, then by the order of signatures, and
/// are ranked from one on.
pub proof fn law_clusters_partition_failures(
    observations: Seq<ObservationModel>,
    limits: LimitsModel,
    bundle: BundleModel,
)
    requires
        limits_problem(limits) is None,
        mined(observations, limits) == Ok::<BundleModel, MiningError>(bundle),
    ensures
        forall|k: int|
            0 <= k < bundle.clusters.len() ==> clustered(
                distinct(observations),
                #[trigger] bundle.clusters[k],
            ) && bundle.clusters[k].rank == k + 1,
        forall|j: int, k: int|
            0 <= j < k < bundle.clusters.len() ==> {
                let a = #[trigger] bundle.clusters[j];
                let b = #[trigger] bundle.clusters[k];
                a.support > b.support || a.support == b.support && a.signature.spec_place()
                    < b.signature.spec_place()
            },
        forall|i: int|
            0 <= i < distinct(observations).len() ==> ((#[trigger] distinct(
                observations,
            )[i]) matches ObservationModel::Failure(failure) ==> exists|k: int|
                0 <= k < bundle.clusters.len() && (#[trigger] bundle.clusters[k]).signature
                    == signature_of(failure) && bundle.clusters[k].members.contains(failure.id)),
        forall|j: int, k: int, id: MiningObservationId|
            0 <= j < bundle.clusters.len() && 0 <= k < bundle.clusters.len()
                && #[trigger] bundle.clusters[j].members.contains(id)
                && #[trigger] bundle.clusters[k].members.contains(id) ==> j == k,
{
    let kept = distinct(observations);
    law_distinct_observations_ascend(observations);
    lemma_ranked_clusters(kept, bundle.clusters);
    assert forall|i: int| 0 <= i < kept.len() && #[trigger] kept[i] is Failure implies exists|
        k: int,
    |
        0 <= k < bundle.clusters.len() && (#[trigger] bundle.clusters[k]).signature
            == signature_of(kept[i]->Failure_0) && bundle.clusters[k].members.contains(
            kept[i]->Failure_0.id,
        ) by {
        lemma_failure_is_clustered(kept, bundle.clusters, i);
    }
    assert forall|j: int, k: int, id: MiningObservationId|
        0 <= j < bundle.clusters.len() && 0 <= k < bundle.clusters.len()
            && #[trigger] bundle.clusters[j].members.contains(id)
            && #[trigger] bundle.clusters[k].members.contains(id) implies j == k by {
        lemma_same_signature(kept, bundle.clusters[j], bundle.clusters[k], id);
        if j < k {
            assert(bundle.clusters[j].support > bundle.clusters[k].support
                || bundle.clusters[j].signature.spec_place()
                < bundle.clusters[k].signature.spec_place());
        }
        if k < j {
            assert(bundle.clusters[k].support > bundle.clusters[j].support
                || bundle.clusters[k].signature.spec_place()
                < bundle.clusters[j].signature.spec_place());
        }
    }
}

} // verus!
