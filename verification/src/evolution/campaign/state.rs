//! The projection of a campaign and its mathematical model.
use crate::digest::{lemma_precedes_total, lemma_precedes_transitive, Digest};
use crate::evolution::campaign::types::{
    ActivationOutcome, ActivationState, ApprovalDecision, ApprovalState, CampaignBudget,
    CampaignPhase, CampaignUsage, CandidateState, CompositeOutcome, CompositeStage, CompositeState,
    EffectId, EffectState, FinalVerdict, MonitoringOutcome, MonitoringState, PauseState, RoundState,
    RoundVerdict, TerminalState,
};
use crate::evolution::composition::{CompositionFallback, FailureModel, PlanModel};
use crate::evolution::ids::{
    CampaignId, CandidateId, CohortId, MiningResultId, PolicyIdentity, RoundId, ScoreResultId,
};
use vstd::prelude::*;

verus! {

/// An effect under its name.
#[derive(Clone, Copy, Debug, PartialEq, Eq, Structural)]
pub struct EffectEntry {
    pub id: EffectId,
    pub state: EffectState,
}

/// Names in strictly ascending order.
pub open spec fn ascending(entries: Seq<EffectEntry>) -> bool {
    forall|i: int, j: int|
        0 <= i < j < entries.len() ==> (#[trigger] entries[i]).id.0.precedes(
            (#[trigger] entries[j]).id.0,
        )
}

/// Whether a name occurs.
pub open spec fn known(entries: Seq<EffectEntry>, id: EffectId) -> bool {
    exists|i: int| 0 <= i < entries.len() && (#[trigger] entries[i]).id == id
}

/// The place of a name that occurs.
pub open spec fn place(entries: Seq<EffectEntry>, id: EffectId) -> int {
    choose|i: int| 0 <= i < entries.len() && (#[trigger] entries[i]).id == id
}

/// The effect under a name, if there is one.
pub open spec fn effect_of(entries: Seq<EffectEntry>, id: EffectId) -> Option<EffectState> {
    if known(entries, id) {
        Some(entries[place(entries, id)].state)
    } else {
        None
    }
}

/// Whether a new name belongs at an index.
pub open spec fn belongs_at(entries: Seq<EffectEntry>, id: EffectId, k: int) -> bool {
    &&& 0 <= k <= entries.len()
    &&& forall|i: int| 0 <= i < k ==> (#[trigger] entries[i]).id.0.precedes(id.0)
    &&& forall|i: int| k <= i < entries.len() ==> id.0.precedes((#[trigger] entries[i]).id.0)
}

/// The entries with an effect put under a name, in the place of one that is there.
pub open spec fn with_effect(entries: Seq<EffectEntry>, id: EffectId, state: EffectState) -> Seq<
    EffectEntry,
> {
    if known(entries, id) {
        entries.update(place(entries, id), EffectEntry { id, state })
    } else {
        entries.insert(
            choose|k: int| belongs_at(entries, id, k),
            EffectEntry { id, state },
        )
    }
}

/// In ascending entries a name has one place.
pub proof fn lemma_place(entries: Seq<EffectEntry>, id: EffectId, i: int)
    requires
        ascending(entries),
        0 <= i < entries.len(),
        entries[i].id == id,
    ensures
        known(entries, id),
        place(entries, id) == i,
        effect_of(entries, id) == Some(entries[i].state),
{
    let j = place(entries, id);
    assert(entries[i].id == id);
    assert(0 <= j < entries.len() && entries[j].id == id);
    lemma_precedes_total(id.0, id.0);
}

proof fn lemma_belongs(entries: Seq<EffectEntry>, id: EffectId, k: int)
    requires
        belongs_at(entries, id, k),
    ensures
        !known(entries, id),
        k == (choose|k: int| belongs_at(entries, id, k)),
{
    lemma_precedes_total(id.0, id.0);
    let other = choose|k: int| belongs_at(entries, id, k);
    if other < k {
        lemma_precedes_total(entries[other].id.0, id.0);
    }
    if k < other {
        lemma_precedes_total(entries[k].id.0, id.0);
    }
}

/// Ascending entries stay ascending when an effect is put under a name.
pub proof fn lemma_with_effect(entries: Seq<EffectEntry>, id: EffectId, state: EffectState)
    requires
        ascending(entries),
    ensures
        ascending(with_effect(entries, id, state)),
        effect_of(with_effect(entries, id, state), id) == Some(state),
        forall|other: EffectId|
            other != id ==> #[trigger] effect_of(with_effect(entries, id, state), other)
                == effect_of(entries, other),
{
    let after = with_effect(entries, id, state);
    if known(entries, id) {
        let p = place(entries, id);
        assert(after[p].id == id);
        assert(ascending(after)) by {
            assert forall|i: int, j: int| 0 <= i < j < after.len() implies (
            #[trigger] after[i]).id.0.precedes((#[trigger] after[j]).id.0) by {
                assert(after[i].id == entries[i].id && after[j].id == entries[j].id);
            }
        }
        lemma_place(after, id, p);
        assert forall|other: EffectId| other != id implies #[trigger] effect_of(after, other)
            == effect_of(entries, other) by {
            if known(entries, other) {
                let q = place(entries, other);
                assert(after[q].id == other);
                lemma_place(after, other, q);
            }
            if known(after, other) {
                let q = place(after, other);
                assert(entries[q].id == other);
                lemma_place(entries, other, q);
            }
        }
    } else {
        lemma_room(entries, id);
        let k = choose|k: int| belongs_at(entries, id, k);
        assert(belongs_at(entries, id, k));
        assert(after[k].id == id);
        assert(ascending(after)) by {
            assert forall|i: int, j: int| 0 <= i < j < after.len() implies (
            #[trigger] after[i]).id.0.precedes((#[trigger] after[j]).id.0) by {
                let a = if i < k {
                    i
                } else {
                    i - 1
                };
                let b = if j < k {
                    j
                } else {
                    j - 1
                };
                if i != k {
                    assert(after[i] == entries[a]);
                }
                if j != k {
                    assert(after[j] == entries[b]);
                }
            }
        }
        lemma_place(after, id, k);
        assert forall|other: EffectId| other != id implies #[trigger] effect_of(after, other)
            == effect_of(entries, other) by {
            if known(entries, other) {
                let q = place(entries, other);
                let moved = if q < k {
                    q
                } else {
                    q + 1
                };
                assert(after[moved] == entries[q]);
                lemma_place(after, other, moved);
            }
            if known(after, other) {
                let q = place(after, other);
                let moved = if q < k {
                    q
                } else {
                    q - 1
                };
                assert(after[q] == entries[moved]);
                lemma_place(entries, other, moved);
            }
        }
    }
}

/// A name that does not occur in ascending entries has a place to go.
pub proof fn lemma_room(entries: Seq<EffectEntry>, id: EffectId)
    requires
        ascending(entries),
        !known(entries, id),
    ensures
        exists|k: int| belongs_at(entries, id, k),
    decreases entries.len(),
{
    if entries.len() == 0 {
        assert(belongs_at(entries, id, 0));
    } else {
        let rest = entries.drop_last();
        let last = entries.last();
        assert(forall|i: int| 0 <= i < rest.len() ==> rest[i] == entries[i]);
        lemma_room(rest, id);
        let k = choose|k: int| belongs_at(rest, id, k);
        lemma_precedes_total(last.id.0, id.0);
        assert(entries[entries.len() - 1].id != id);
        if id.0.precedes(last.id.0) {
            assert(belongs_at(entries, id, k)) by {
                assert forall|i: int| k <= i < entries.len() implies id.0.precedes(
                    (#[trigger] entries[i]).id.0,
                ) by {
                    if i < rest.len() {
                        assert(rest[i] == entries[i]);
                    }
                }
                assert forall|i: int| 0 <= i < k implies (#[trigger] entries[i]).id.0.precedes(
                    id.0,
                ) by {
                    assert(rest[i] == entries[i]);
                }
            }
        } else {
            assert(belongs_at(entries, id, entries.len() as int)) by {
                assert forall|i: int| 0 <= i < entries.len() implies (
                #[trigger] entries[i]).id.0.precedes(id.0) by {
                    if i < entries.len() - 1 {
                        lemma_precedes_transitive(entries[i].id.0, last.id.0, id.0);
                    }
                }
            }
        }
    }
}

/// The effects of a campaign in ascending order of their names.
#[derive(Debug, PartialEq, Eq)]
pub struct EffectTable {
    entries: Vec<EffectEntry>,
}

impl View for EffectTable {
    type V = Seq<EffectEntry>;

    closed spec fn view(&self) -> Seq<EffectEntry> {
        self.entries@
    }
}

impl EffectTable {
    #[verifier::type_invariant]
    spec fn well_formed(self) -> bool {
        ascending(self.entries@)
    }

    pub fn new() -> (r: Self)
        ensures
            r@ == Seq::<EffectEntry>::empty(),
    {
        EffectTable { entries: Vec::new() }
    }

    pub fn len(&self) -> (r: usize)
        ensures
            r == self@.len(),
            ascending(self@),
    {
        proof {
            use_type_invariant(self);
        }
        self.entries.len()
    }

    /// The entry at an index.
    pub fn entry(&self, i: usize) -> (r: EffectEntry)
        requires
            i < self@.len(),
        ensures
            r == self@[i as int],
    {
        self.entries[i]
    }

    fn find(&self, id: EffectId) -> (r: Option<usize>)
        ensures
            match r {
                Some(i) => i < self@.len() && known(self@, id) && i == place(self@, id)
                    && self@[i as int].id == id,
                None => !known(self@, id),
            },
    {
        proof {
            use_type_invariant(self);
        }
        let mut i: usize = 0;
        while i < self.entries.len()
            invariant
                i <= self.entries@.len(),
                ascending(self.entries@),
                forall|k: int| 0 <= k < i ==> (#[trigger] self.entries@[k]).id != id,
            decreases self.entries.len() - i,
        {
            if self.entries[i].id == id {
                proof {
                    lemma_place(self.entries@, id, i as int);
                }
                return Some(i);
            }
            i += 1;
        }
        None
    }

    pub fn get(&self, id: EffectId) -> (r: Option<EffectState>)
        ensures
            r == effect_of(self@, id),
    {
        match self.find(id) {
            Some(i) => Some(self.entries[i].state),
            None => None,
        }
    }

    /// Puts an effect under a name.
    pub fn insert(&mut self, id: EffectId, state: EffectState)
        ensures
            final(self)@ == with_effect(old(self)@, id, state),
    {
        proof {
            use_type_invariant(&*self);
            lemma_with_effect(self@, id, state);
        }
        match self.find(id) {
            Some(i) => {
                let mut entries: Vec<EffectEntry> = self.copied();
                entries.set(i, EffectEntry { id, state });
                *self = EffectTable { entries };
            },
            None => {
                let mut k: usize = 0;
                let mut entries: Vec<EffectEntry> = self.copied();
                while k < entries.len() && entries[k].id.0.before(&id.0)
                    invariant
                        k <= entries.len(),
                        entries@ == self@,
                        forall|i: int| 0 <= i < k ==> (#[trigger] entries@[i]).id.0.precedes(id.0),
                    decreases entries.len() - k,
                {
                    k += 1;
                }
                proof {
                    let all = entries@;
                    assert forall|i: int| k <= i < all.len() implies id.0.precedes(
                        (#[trigger] all[i]).id.0,
                    ) by {
                        lemma_precedes_total(all[k as int].id.0, id.0);
                        assert(all[k as int].id != id);
                        if i > k {
                            lemma_precedes_transitive(id.0, all[k as int].id.0, all[i].id.0);
                        }
                    }
                    assert(belongs_at(all, id, k as int));
                    lemma_belongs(all, id, k as int);
                }
                entries.insert(k, EffectEntry { id, state });
                *self = EffectTable { entries };
            },
        }
    }

    fn copied(&self) -> (r: Vec<EffectEntry>)
        ensures
            r@ == self@,
    {
        let mut entries: Vec<EffectEntry> = Vec::new();
        let mut i: usize = 0;
        while i < self.entries.len()
            invariant
                i <= self.entries.len(),
                entries@ == self.entries@.subrange(0, i as int),
            decreases self.entries.len() - i,
        {
            entries.push(self.entries[i]);
            i += 1;
            assert(entries@ =~= self.entries@.subrange(0, i as int));
        }
        assert(entries@ =~= self.entries@);
        entries
    }
}

impl Clone for EffectTable {
    fn clone(&self) -> (r: Self)
        ensures
            r@ == self@,
    {
        proof {
            use_type_invariant(self);
        }
        EffectTable { entries: self.copied() }
    }
}

/// What a composite state records.
#[verifier::ext_equal]
pub struct CompositeModel {
    pub plan: PlanModel,
    pub stage: CompositeStage,
}

/// What a round records.
#[verifier::ext_equal]
pub struct RoundModel {
    pub id: RoundId,
    pub ordinal: u32,
    pub mining: Option<MiningResultId>,
    pub candidates: Seq<CandidateState>,
    pub verdict: Option<RoundVerdict>,
    pub composite: Option<CompositeModel>,
}

/// How a campaign ended.
#[verifier::ext_equal]
pub enum TerminalModel {
    NoUpdate { round: RoundId, verdict: RoundVerdict },
    RoundInconclusive { round: RoundId, verdict: RoundVerdict },
    CompositionFallback { round: RoundId, failure: FailureModel },
    CompositeFallback {
        round: RoundId,
        candidate: CandidateId,
        revision: Digest,
        score: ScoreResultId,
        outcome: CompositeOutcome,
        fallback: CompositionFallback,
    },
    NotVerified(FinalVerdict),
    AuditInconclusive(FinalVerdict),
    ApprovalRejected(ApprovalDecision),
    Superseded(ActivationOutcome),
    MonitoringCompleted(MonitoringOutcome),
}

/// What a campaign records.
#[verifier::ext_equal]
pub struct CampaignModel {
    pub id: CampaignId,
    pub cohort: CohortId,
    pub base_revision: Digest,
    pub policy: PolicyIdentity,
    pub revision: u64,
    pub phase: CampaignPhase,
    pub budget: CampaignBudget,
    pub usage: CampaignUsage,
    pub rounds: Seq<RoundModel>,
    pub effects: Seq<EffectEntry>,
    pub final_verdict: Option<FinalVerdict>,
    pub approval: Option<ApprovalState>,
    pub activation: Option<ActivationState>,
    pub monitoring: Option<MonitoringState>,
    pub terminal: Option<TerminalModel>,
    pub pause: Option<PauseState>,
}

impl View for CompositeState {
    type V = CompositeModel;

    open spec fn view(&self) -> CompositeModel {
        CompositeModel { plan: self.plan@, stage: self.stage }
    }
}

impl View for RoundState {
    type V = RoundModel;

    open spec fn view(&self) -> RoundModel {
        RoundModel {
            id: self.id,
            ordinal: self.ordinal,
            mining: self.mining,
            candidates: self.candidates@,
            verdict: self.verdict,
            composite: match self.composite {
                Some(composite) => Some(composite@),
                None => None,
            },
        }
    }
}

impl View for TerminalState {
    type V = TerminalModel;

    open spec fn view(&self) -> TerminalModel {
        match *self {
            TerminalState::NoUpdate { round, verdict } => TerminalModel::NoUpdate {
                round,
                verdict,
            },
            TerminalState::RoundInconclusive { round, verdict } => {
                TerminalModel::RoundInconclusive { round, verdict }
            },
            TerminalState::CompositionFallback { round, failure } => {
                TerminalModel::CompositionFallback { round, failure: failure@ }
            },
            TerminalState::CompositeFallback {
                round,
                candidate,
                revision,
                score,
                outcome,
                fallback,
            } => TerminalModel::CompositeFallback {
                round,
                candidate,
                revision,
                score,
                outcome,
                fallback,
            },
            TerminalState::NotVerified(verdict) => TerminalModel::NotVerified(verdict),
            TerminalState::AuditInconclusive(verdict) => TerminalModel::AuditInconclusive(verdict),
            TerminalState::ApprovalRejected(decision) => TerminalModel::ApprovalRejected(decision),
            TerminalState::Superseded(outcome) => TerminalModel::Superseded(outcome),
            TerminalState::MonitoringCompleted(outcome) => {
                TerminalModel::MonitoringCompleted(outcome)
            },
        }
    }
}

/// The projection of a campaign.
#[derive(Debug, PartialEq, Eq)]
pub struct CampaignState {
    pub id: CampaignId,
    pub cohort: CohortId,
    pub base_revision: Digest,
    pub policy: PolicyIdentity,
    pub revision: u64,
    pub phase: CampaignPhase,
    pub budget: CampaignBudget,
    pub usage: CampaignUsage,
    pub rounds: Vec<RoundState>,
    pub effects: EffectTable,
    pub final_verdict: Option<FinalVerdict>,
    pub approval: Option<ApprovalState>,
    pub activation: Option<ActivationState>,
    pub monitoring: Option<MonitoringState>,
    pub terminal: Option<TerminalState>,
    pub pause: Option<PauseState>,
}

/// What a list of rounds records.
pub open spec fn rounds_model(rounds: Seq<RoundState>) -> Seq<RoundModel> {
    rounds.map_values(|round: RoundState| round@)
}

impl View for CampaignState {
    type V = CampaignModel;

    open spec fn view(&self) -> CampaignModel {
        CampaignModel {
            id: self.id,
            cohort: self.cohort,
            base_revision: self.base_revision,
            policy: self.policy,
            revision: self.revision,
            phase: self.phase,
            budget: self.budget,
            usage: self.usage,
            rounds: rounds_model(self.rounds@),
            effects: self.effects@,
            final_verdict: self.final_verdict,
            approval: self.approval,
            activation: self.activation,
            monitoring: self.monitoring,
            terminal: match self.terminal {
                Some(terminal) => Some(terminal@),
                None => None,
            },
            pause: self.pause,
        }
    }
}

impl Clone for CompositeState {
    fn clone(&self) -> (r: Self)
        ensures
            r@ == self@,
    {
        CompositeState { plan: self.plan.clone(), stage: self.stage }
    }
}

fn copy_candidates(candidates: &Vec<CandidateState>) -> (r: Vec<CandidateState>)
    ensures
        r@ == candidates@,
{
    let mut copy: Vec<CandidateState> = Vec::new();
    let mut i: usize = 0;
    while i < candidates.len()
        invariant
            i <= candidates.len(),
            copy@ == candidates@.subrange(0, i as int),
        decreases candidates.len() - i,
    {
        copy.push(candidates[i]);
        i += 1;
        assert(copy@ =~= candidates@.subrange(0, i as int));
    }
    assert(copy@ =~= candidates@);
    copy
}

impl Clone for RoundState {
    fn clone(&self) -> (r: Self)
        ensures
            r@ == self@,
    {
        RoundState {
            id: self.id,
            ordinal: self.ordinal,
            mining: self.mining,
            candidates: copy_candidates(&self.candidates),
            verdict: self.verdict,
            composite: match &self.composite {
                Some(composite) => Some(composite.clone()),
                None => None,
            },
        }
    }
}

impl Clone for TerminalState {
    fn clone(&self) -> (r: Self)
        ensures
            r@ == self@,
    {
        match self {
            TerminalState::NoUpdate { round, verdict } => TerminalState::NoUpdate {
                round: *round,
                verdict: *verdict,
            },
            TerminalState::RoundInconclusive { round, verdict } => {
                TerminalState::RoundInconclusive { round: *round, verdict: *verdict }
            },
            TerminalState::CompositionFallback { round, failure } => {
                TerminalState::CompositionFallback { round: *round, failure: failure.clone() }
            },
            TerminalState::CompositeFallback {
                round,
                candidate,
                revision,
                score,
                outcome,
                fallback,
            } => TerminalState::CompositeFallback {
                round: *round,
                candidate: *candidate,
                revision: *revision,
                score: *score,
                outcome: *outcome,
                fallback: *fallback,
            },
            TerminalState::NotVerified(verdict) => TerminalState::NotVerified(*verdict),
            TerminalState::AuditInconclusive(verdict) => TerminalState::AuditInconclusive(*verdict),
            TerminalState::ApprovalRejected(decision) => {
                TerminalState::ApprovalRejected(decision.clone())
            },
            TerminalState::Superseded(outcome) => TerminalState::Superseded(*outcome),
            TerminalState::MonitoringCompleted(outcome) => {
                TerminalState::MonitoringCompleted(*outcome)
            },
        }
    }
}

fn copy_rounds(rounds: &Vec<RoundState>) -> (r: Vec<RoundState>)
    ensures
        rounds_model(r@) == rounds_model(rounds@),
{
    let mut copy: Vec<RoundState> = Vec::new();
    let mut i: usize = 0;
    while i < rounds.len()
        invariant
            i <= rounds.len(),
            copy.len() == i,
            forall|k: int| 0 <= k < i ==> (#[trigger] copy@[k])@ == rounds@[k]@,
        decreases rounds.len() - i,
    {
        copy.push(rounds[i].clone());
        i += 1;
    }
    assert(rounds_model(copy@) =~= rounds_model(rounds@));
    copy
}

impl Clone for CampaignState {
    fn clone(&self) -> (r: Self)
        ensures
            r@ == self@,
    {
        CampaignState {
            id: self.id,
            cohort: self.cohort,
            base_revision: self.base_revision,
            policy: self.policy,
            revision: self.revision,
            phase: self.phase,
            budget: self.budget,
            usage: self.usage,
            rounds: copy_rounds(&self.rounds),
            effects: self.effects.clone(),
            final_verdict: self.final_verdict,
            approval: match &self.approval {
                Some(approval) => Some(approval.clone()),
                None => None,
            },
            activation: self.activation,
            monitoring: self.monitoring,
            terminal: match &self.terminal {
                Some(terminal) => Some(terminal.clone()),
                None => None,
            },
            pause: match &self.pause {
                Some(pause) => Some(pause.clone()),
                None => None,
            },
        }
    }
}

impl CampaignState {
    pub fn id(&self) -> (r: CampaignId)
        ensures
            r == self.id,
    {
        self.id
    }

    pub fn cohort(&self) -> (r: CohortId)
        ensures
            r == self.cohort,
    {
        self.cohort
    }

    pub fn base_revision(&self) -> (r: Digest)
        ensures
            r == self.base_revision,
    {
        self.base_revision
    }

    pub fn policy(&self) -> (r: PolicyIdentity)
        ensures
            r == self.policy,
    {
        self.policy
    }

    pub fn revision(&self) -> (r: u64)
        ensures
            r == self.revision,
    {
        self.revision
    }

    pub fn phase(&self) -> (r: CampaignPhase)
        ensures
            r == self.phase,
    {
        self.phase
    }

    pub fn budget(&self) -> (r: CampaignBudget)
        ensures
            r == self.budget,
    {
        self.budget
    }

    pub fn usage(&self) -> (r: CampaignUsage)
        ensures
            r == self.usage,
    {
        self.usage
    }

    pub fn rounds(&self) -> (r: &[RoundState])
        ensures
            r@ == self.rounds@,
    {
        self.rounds.as_slice()
    }

    pub fn effects(&self) -> (r: &EffectTable)
        ensures
            *r == self.effects,
    {
        &self.effects
    }

    pub fn final_verdict(&self) -> (r: Option<FinalVerdict>)
        ensures
            r == self.final_verdict,
    {
        self.final_verdict
    }

    pub fn approval(&self) -> (r: Option<&ApprovalState>)
        ensures
            match r {
                Some(value) => self.approval == Some(*value),
                None => self.approval is None,
            },
    {
        self.approval.as_ref()
    }

    pub fn activation(&self) -> (r: Option<ActivationState>)
        ensures
            r == self.activation,
    {
        self.activation
    }

    pub fn monitoring(&self) -> (r: Option<MonitoringState>)
        ensures
            r == self.monitoring,
    {
        self.monitoring
    }

    pub fn terminal(&self) -> (r: Option<&TerminalState>)
        ensures
            match r {
                Some(value) => self.terminal == Some(*value),
                None => self.terminal is None,
            },
    {
        self.terminal.as_ref()
    }

    pub fn pause(&self) -> (r: Option<&PauseState>)
        ensures
            match r {
                Some(value) => self.pause == Some(*value),
                None => self.pause is None,
            },
    {
        self.pause.as_ref()
    }
}

} // verus!
