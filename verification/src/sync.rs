//! The run: which outside work comes next, and what each answer leads to.
//!
//! A run discovers the tagged secrets and then takes them up one by one. For
//! each secret it reads the destination out of the tags, has the payload
//! fetched, writes the payload as cluster data and has the data applied to
//! every namespace of the secret, from left to right. The run itself does no
//! outside work: it names the next action, and whoever drives it performs the
//! action and hands back what happened.
//!
//! Only a failed discovery ends a run. Every other failure is noted and
//! confined to its secret, or to its secret and namespace.
use crate::error::SyncError;
use crate::fields::FieldView;
use crate::payload::{parse_payload, payload_of, SecretPayload};
use crate::record::{
    record_of, record_with, requests_of, ApplyRequest, ApplyRequestView, DestinationRecordView,
};
use crate::tags::{
    extract, routing_of, RunConfig, RunConfigView, Routing, RoutingView, SecretDescriptor,
    SecretDescriptorView,
};
use crate::transform::{data_of, transform, DataMap};
use vstd::prelude::*;

verus! {

/// Where a run stands.
#[derive(Clone, Copy, Debug, PartialEq, Eq, Structural)]
pub enum Phase {
    /// Waiting for the list of tagged secrets.
    Discovering,
    /// Waiting for the payload of the secret in work.
    Fetching,
    /// Waiting for the cluster's answer on one namespace of the secret in work.
    Applying,
    /// Every secret was taken up. Failures of single secrets do not change this.
    Completed,
    /// The discovery failed, and with it the run.
    Failed,
}

/// What happened to one secret, or to one secret in one namespace.
#[derive(Clone, Copy, Debug, PartialEq, Eq)]
pub struct Outcome {
    /// Position of the secret in the discovered list.
    pub secret: usize,
    /// Position of the namespace among the namespaces of the secret; `None`
    /// where the outcome is that of the secret as a whole.
    pub namespace: Option<usize>,
    /// The failure; `None` where the secret was applied to the namespace.
    pub error: Option<SyncError>,
}

/// An outcome with unbounded positions.
pub struct OutcomeView {
    pub secret: int,
    pub namespace: Option<int>,
    pub error: Option<SyncError>,
}

impl View for Outcome {
    type V = OutcomeView;

    open spec fn view(&self) -> OutcomeView {
        OutcomeView {
            secret: self.secret as int,
            namespace: match self.namespace {
                Some(n) => Some(n as int),
                None => None,
            },
            error: self.error,
        }
    }
}

/// The views of a sequence of outcomes, in the same order.
pub open spec fn outcome_views(outcomes: Seq<Outcome>) -> Seq<OutcomeView> {
    Seq::new(outcomes.len(), |i: int| outcomes[i]@)
}

/// The views of a sequence of descriptors, in the same order.
pub open spec fn descriptor_views(secrets: Seq<SecretDescriptor>) -> Seq<SecretDescriptorView> {
    Seq::new(secrets.len(), |i: int| secrets[i]@)
}

/// What has happened outside since the last action was handed out.
#[derive(Clone, Debug, PartialEq, Eq)]
pub enum Event {
    /// The secret store listed the tagged secrets.
    Discovered(Vec<SecretDescriptor>),
    /// The secret store could not list the tagged secrets.
    DiscoveryFailed,
    /// The secret store handed out the payload of the secret in work.
    Fetched(String),
    /// The secret store could not hand out the payload of the secret in work.
    FetchFailed,
    /// The cluster applied the request.
    Applied,
    /// The cluster refused or failed to apply the request.
    ApplyFailed,
}

/// An event as texts.
pub enum EventView {
    Discovered(Seq<SecretDescriptorView>),
    DiscoveryFailed,
    Fetched(Seq<char>),
    FetchFailed,
    Applied,
    ApplyFailed,
}

impl View for Event {
    type V = EventView;

    open spec fn view(&self) -> EventView {
        match self {
            Event::Discovered(secrets) => EventView::Discovered(descriptor_views(secrets@)),
            Event::DiscoveryFailed => EventView::DiscoveryFailed,
            Event::Fetched(text) => EventView::Fetched(text@),
            Event::FetchFailed => EventView::FetchFailed,
            Event::Applied => EventView::Applied,
            Event::ApplyFailed => EventView::ApplyFailed,
        }
    }
}

/// The outside work that a run asks for.
#[derive(Clone, Debug, PartialEq, Eq)]
pub enum Action {
    /// List the secrets that carry a tag with the key `tag_key`.
    Discover { tag_key: String },
    /// Fetch the payload of the secret with the identifier `id`.
    Fetch { id: String },
    /// Apply a secret to a namespace of the cluster.
    Apply(ApplyRequest),
    /// Nothing is left to do. `error` is `None` where the run has completed,
    /// and `DiscoveryFailure` where the discovery failed.
    Finish { error: Option<SyncError> },
}

/// An action as texts.
pub enum ActionView {
    Discover { tag_key: Seq<char> },
    Fetch { id: Seq<char> },
    Apply(ApplyRequestView),
    Finish { error: Option<SyncError> },
}

impl View for Action {
    type V = ActionView;

    open spec fn view(&self) -> ActionView {
        match self {
            Action::Discover { tag_key } => ActionView::Discover { tag_key: tag_key@ },
            Action::Fetch { id } => ActionView::Fetch { id: id@ },
            Action::Apply(request) => ActionView::Apply(request@),
            Action::Finish { error } => ActionView::Finish { error: *error },
        }
    }
}

/// The state of a run as plain values.
pub struct RunView {
    pub config: RunConfigView,
    pub phase: Phase,
    /// The discovered secrets; empty before the discovery.
    pub secrets: Seq<SecretDescriptorView>,
    /// Position of the secret in work. Once the run has completed it is the
    /// number of secrets.
    pub secret: int,
    /// Position of the namespace that is being applied to.
    pub namespace: int,
    /// The data of the secret in work, once its payload is there.
    pub data: Seq<FieldView>,
    /// What has happened so far, oldest first.
    pub outcomes: Seq<OutcomeView>,
}

impl RunView {
    /// The state of a run that has not done anything yet.
    pub open spec fn initial(config: RunConfigView) -> RunView {
        RunView {
            config,
            phase: Phase::Discovering,
            secrets: Seq::empty(),
            secret: 0,
            namespace: 0,
            data: Seq::empty(),
            outcomes: Seq::empty(),
        }
    }

    /// The secret at position `i` carries the tags that routing needs.
    pub open spec fn routable(self, i: int) -> bool {
        0 <= i < self.secrets.len() && routing_of(self.secrets[i], self.config) is Ok
    }

    /// The destination of the secret in work.
    pub open spec fn routing(self) -> RoutingView {
        routing_of(self.secrets[self.secret], self.config)->Ok_0
    }

    /// What the secret in work becomes in the cluster, once its payload is
    /// there.
    pub open spec fn record(self) -> DestinationRecordView {
        DestinationRecordView {
            name: self.routing().name,
            namespaces: self.routing().namespaces,
            data: self.data,
        }
    }

    /// The state is one that a run can be in.
    pub open spec fn wf(self) -> bool {
        match self.phase {
            Phase::Discovering | Phase::Failed => {
                &&& self.secrets.len() == 0
                &&& self.secret == 0
                &&& self.namespace == 0
                &&& self.data.len() == 0
            },
            Phase::Fetching => {
                &&& self.routable(self.secret)
                &&& self.namespace == 0
                &&& self.data.len() == 0
            },
            Phase::Applying => {
                &&& self.routable(self.secret)
                &&& 0 <= self.namespace < self.routing().namespaces.len()
            },
            Phase::Completed => {
                &&& self.secret == self.secrets.len()
                &&& self.namespace == 0
                &&& self.data.len() == 0
            },
        }
    }

    /// The same state with one more outcome.
    pub open spec fn noting(self, outcome: OutcomeView) -> RunView {
        RunView { outcomes: self.outcomes.push(outcome), ..self }
    }

    /// The same state with the outcome that the secret in work failed as a
    /// whole.
    pub open spec fn giving_up(self, error: SyncError) -> RunView {
        self.noting(OutcomeView { secret: self.secret, namespace: None, error: Some(error) })
    }

    /// The action that the run waits on.
    pub open spec fn pending(self) -> ActionView {
        match self.phase {
            Phase::Discovering => ActionView::Discover { tag_key: self.config.namespace_tag },
            Phase::Fetching => ActionView::Fetch { id: self.secrets[self.secret].id },
            Phase::Applying => ActionView::Apply(requests_of(self.record())[self.namespace]),
            Phase::Completed => ActionView::Finish { error: None },
            Phase::Failed => ActionView::Finish { error: Some(SyncError::DiscoveryFailure) },
        }
    }

    /// Takes up the first secret at or after position `from` that can be
    /// routed, noting `MissingTag` for every secret passed over on the way.
    /// Where no such secret is left, the run has completed.
    pub open spec fn seek(self, from: int) -> RunView
        decreases self.secrets.len() - from,
    {
        if from < 0 || from >= self.secrets.len() {
            RunView {
                phase: Phase::Completed,
                secret: self.secrets.len() as int,
                namespace: 0,
                data: Seq::empty(),
                ..self
            }
        } else if self.routable(from) {
            RunView {
                phase: Phase::Fetching,
                secret: from,
                namespace: 0,
                data: Seq::empty(),
                ..self
            }
        } else {
            self.noting(
                OutcomeView { secret: from, namespace: None, error: Some(SyncError::MissingTag) },
            ).seek(from + 1)
        }
    }

    /// The state after the payload of the secret in work was read, or could
    /// not be read (`None`).
    ///
    /// A payload becomes the data of the secret, and the first namespace is
    /// next. Without a payload the secret is given up as malformed and the
    /// next secret is taken up. Outside `Fetching` nothing changes.
    pub open spec fn with_payload(self, payload: Option<Seq<FieldView>>) -> RunView {
        if self.phase != Phase::Fetching {
            self
        } else {
            match payload {
                Some(payload) => RunView {
                    phase: Phase::Applying,
                    namespace: 0,
                    data: data_of(payload, self.routing().filename),
                    ..self
                },
                None => self.giving_up(SyncError::MalformedPayload).seek(self.secret + 1),
            }
        }
    }

    /// The state after the cluster answered on the namespace in work, with
    /// `error` as the failure if there was one.
    ///
    /// The answer is noted. The next namespace of the secret follows, or,
    /// after the last one, the next secret.
    pub open spec fn answered(self, error: Option<SyncError>) -> RunView {
        let noted = self.noting(
            OutcomeView { secret: self.secret, namespace: Some(self.namespace), error },
        );
        if self.namespace + 1 < self.routing().namespaces.len() {
            RunView { namespace: self.namespace + 1, ..noted }
        } else {
            noted.seek(self.secret + 1)
        }
    }

    /// The event answers the action that the run waits on.
    pub open spec fn answers(self, event: EventView) -> bool {
        match (self.phase, event) {
            (Phase::Discovering, EventView::Discovered(_)) => true,
            (Phase::Discovering, EventView::DiscoveryFailed) => true,
            (Phase::Fetching, EventView::Fetched(_)) => true,
            (Phase::Fetching, EventView::FetchFailed) => true,
            (Phase::Applying, EventView::Applied) => true,
            (Phase::Applying, EventView::ApplyFailed) => true,
            _ => false,
        }
    }

    /// The number of answers that the secrets from position `from` on can
    /// take: for each one that can be routed, one for its fetch and one for
    /// each of its namespaces.
    pub open spec fn work_from(self, from: int) -> nat
        decreases self.secrets.len() - from,
    {
        if from < 0 || from >= self.secrets.len() {
            0
        } else if self.routable(from) {
            1 + routing_of(self.secrets[from], self.config)->Ok_0.namespaces.len()
                + self.work_from(from + 1)
        } else {
            self.work_from(from + 1)
        }
    }

    /// The most answers that the run can still take before it has finished,
    /// once the secrets are discovered.
    pub open spec fn work_left(self) -> nat {
        match self.phase {
            Phase::Discovering | Phase::Failed | Phase::Completed => 0,
            Phase::Fetching => self.work_from(self.secret),
            Phase::Applying => (self.routing().namespaces.len() - self.namespace
                + self.work_from(self.secret + 1)) as nat,
        }
    }

    /// The state after `event`.
    ///
    /// An event that does not answer the pending action changes nothing.
    pub open spec fn next(self, event: EventView) -> RunView {
        match (self.phase, event) {
            (Phase::Discovering, EventView::Discovered(secrets)) => RunView {
                secrets,
                ..self
            }.seek(0),
            (Phase::Discovering, EventView::DiscoveryFailed) => RunView {
                phase: Phase::Failed,
                ..self
            },
            (Phase::Fetching, EventView::Fetched(text)) => self.with_payload(payload_of(text)),
            (Phase::Fetching, EventView::FetchFailed) => self.giving_up(
                SyncError::FetchFailure,
            ).seek(self.secret + 1),
            (Phase::Applying, EventView::Applied) => self.answered(None),
            (Phase::Applying, EventView::ApplyFailed) => self.answered(
                Some(SyncError::ApplyFailure),
            ),
            _ => self,
        }
    }
}

/// Seeking keeps a state well formed.
pub proof fn lemma_seek_wf(s: RunView, from: int)
    ensures
        s.seek(from).wf(),
        s.seek(from).config == s.config,
        s.seek(from).secrets == s.secrets,
    decreases s.secrets.len() - from,
{
    if 0 <= from < s.secrets.len() && !s.routable(from) {
        let noted = s.noting(
            OutcomeView { secret: from, namespace: None, error: Some(SyncError::MissingTag) },
        );
        lemma_seek_wf(noted, from + 1);
    }
}

/// Every event leads from a well-formed state to a well-formed state, and
/// changes neither the configuration nor, after the discovery, the list of
/// secrets.
pub proof fn lemma_next_wf(s: RunView, event: EventView)
    requires
        s.wf(),
    ensures
        s.next(event).wf(),
        s.next(event).config == s.config,
        s.phase != Phase::Discovering ==> s.next(event).secrets == s.secrets,
{
    match (s.phase, event) {
        (Phase::Discovering, EventView::Discovered(secrets)) => {
            lemma_seek_wf(RunView { secrets, ..s }, 0);
        },
        (Phase::Fetching, EventView::Fetched(text)) => {
            if payload_of(text) is None {
                lemma_seek_wf(s.giving_up(SyncError::MalformedPayload), s.secret + 1);
            } else {
                crate::tags::lemma_routing_namespaces(s.secrets[s.secret], s.config);
            }
        },
        (Phase::Fetching, EventView::FetchFailed) => {
            lemma_seek_wf(s.giving_up(SyncError::FetchFailure), s.secret + 1);
        },
        (Phase::Applying, EventView::Applied) => {
            let noted = s.noting(
                OutcomeView { secret: s.secret, namespace: Some(s.namespace), error: None },
            );
            lemma_seek_wf(noted, s.secret + 1);
        },
        (Phase::Applying, EventView::ApplyFailed) => {
            let noted = s.noting(
                OutcomeView {
                    secret: s.secret,
                    namespace: Some(s.namespace),
                    error: Some(SyncError::ApplyFailure),
                },
            );
            lemma_seek_wf(noted, s.secret + 1);
        },
        _ => {},
    }
}

/// Seeking from `from` stops at the first secret at or after `from` that can
/// be routed: it passes over no secret that can be routed, and it completes
/// the run only where none is left.
pub proof fn lemma_seek_stops_at_first_routable(s: RunView, from: int)
    requires
        0 <= from <= s.secrets.len(),
    ensures
        from <= s.seek(from).secret <= s.secrets.len(),
        forall|k: int| from <= k < s.seek(from).secret ==> !s.routable(k),
        s.seek(from).phase == Phase::Fetching || s.seek(from).phase == Phase::Completed,
        s.seek(from).phase == Phase::Fetching ==> s.routable(s.seek(from).secret),
        s.seek(from).phase == Phase::Completed ==> s.seek(from).secret == s.secrets.len(),
    decreases s.secrets.len() - from,
{
    if from < s.secrets.len() && !s.routable(from) {
        let noted = s.noting(
            OutcomeView { secret: from, namespace: None, error: Some(SyncError::MissingTag) },
        );
        lemma_seek_stops_at_first_routable(noted, from + 1);
        assert forall|k: int| from <= k < s.seek(from).secret implies !s.routable(k) by {
            if k > from {
                assert(!noted.routable(k));
            }
        }
    }
}

/// Seeking passes over no work: what is left after it is what the secrets
/// from `from` on can take.
pub proof fn lemma_seek_keeps_work(s: RunView, from: int)
    requires
        0 <= from <= s.secrets.len(),
    ensures
        s.seek(from).work_left() == s.work_from(from),
    decreases s.secrets.len() - from,
{
    if from < s.secrets.len() {
        if s.routable(from) {
            lemma_work_ignores_progress(s, s.seek(from), from);
        } else {
            let noted = s.noting(
                OutcomeView { secret: from, namespace: None, error: Some(SyncError::MissingTag) },
            );
            lemma_seek_keeps_work(noted, from + 1);
            lemma_work_ignores_progress(s, noted, from + 1);
        }
    }
}

/// The work of the secrets depends on the secrets and the configuration
/// alone.
pub proof fn lemma_work_ignores_progress(s: RunView, t: RunView, from: int)
    requires
        s.secrets == t.secrets,
        s.config == t.config,
    ensures
        s.work_from(from) == t.work_from(from),
    decreases s.secrets.len() - from,
{
    if 0 <= from < s.secrets.len() {
        lemma_work_ignores_progress(s, t, from + 1);
    }
}

/// Every answer brings a run closer to its end: once the secrets are
/// discovered, an event that answers the pending action leaves less work
/// than there was, so a run that is answered finishes. An event that answers
/// nothing leaves the run as it is.
pub proof fn lemma_answer_makes_progress(s: RunView, event: EventView)
    requires
        s.wf(),
    ensures
        !s.answers(event) ==> s.next(event) == s,
        s.answers(event) && s.phase != Phase::Discovering ==> s.next(event).work_left()
            < s.work_left(),
        s.phase == Phase::Completed || s.phase == Phase::Failed ==> !s.answers(event),
{
    if s.answers(event) && s.phase != Phase::Discovering {
        let after = s.secret + 1;
        lemma_next_wf(s, event);
        match (s.phase, event) {
            (Phase::Fetching, EventView::Fetched(text)) => {
                let gone = s.giving_up(SyncError::MalformedPayload);
                lemma_seek_keeps_work(gone, after);
                lemma_work_ignores_progress(gone, s, after);
                lemma_work_ignores_progress(s.next(event), s, after);
            },
            (Phase::Fetching, EventView::FetchFailed) => {
                let gone = s.giving_up(SyncError::FetchFailure);
                lemma_seek_keeps_work(gone, after);
                lemma_work_ignores_progress(gone, s, after);
            },
            _ => {
                let error = if event == EventView::Applied {
                    None
                } else {
                    Some(SyncError::ApplyFailure)
                };
                let noted = s.noting(
                    OutcomeView { secret: s.secret, namespace: Some(s.namespace), error },
                );
                lemma_seek_keeps_work(noted, after);
                lemma_work_ignores_progress(noted, s, after);
                lemma_work_ignores_progress(s.next(event), s, after);
            },
        }
    }
}

/// Where seeking stops does not depend on what was noted before: two states
/// with the same secrets and configuration take up the same secret.
pub proof fn lemma_seek_ignores_outcomes(s: RunView, t: RunView, from: int)
    requires
        s.secrets == t.secrets,
        s.config == t.config,
    ensures
        s.seek(from).phase == t.seek(from).phase,
        s.seek(from).secret == t.seek(from).secret,
        s.seek(from).pending() == t.seek(from).pending(),
    decreases s.secrets.len() - from,
{
    if 0 <= from < s.secrets.len() && !s.routable(from) {
        let outcome = OutcomeView {
            secret: from,
            namespace: None,
            error: Some(SyncError::MissingTag),
        };
        lemma_seek_ignores_outcomes(s.noting(outcome), t.noting(outcome), from + 1);
    }
}

/// A failure does not stop the run. After a failed fetch, after a payload
/// that cannot be read, and after the answer on the last namespace of a
/// secret, be it success or failure, the run takes up the same secret: the
/// first one after the secret in work that can be routed.
pub proof fn lemma_failure_moves_on(s: RunView, text: Seq<char>)
    requires
        s.wf(),
        s.phase == Phase::Fetching || s.phase == Phase::Applying,
    ensures
        s.phase == Phase::Fetching ==> s.next(EventView::FetchFailed).pending() == s.seek(
            s.secret + 1,
        ).pending(),
        s.phase == Phase::Fetching && payload_of(text) is None ==> s.next(
            EventView::Fetched(text),
        ).pending() == s.seek(s.secret + 1).pending(),
        s.phase == Phase::Applying ==> s.next(EventView::ApplyFailed).pending() == s.next(
            EventView::Applied,
        ).pending(),
        s.phase == Phase::Applying && s.namespace + 1 == s.routing().namespaces.len() ==> s.next(
            EventView::ApplyFailed,
        ).pending() == s.seek(s.secret + 1).pending(),
{
    let next = s.secret + 1;
    if s.phase == Phase::Fetching {
        lemma_seek_ignores_outcomes(s.giving_up(SyncError::FetchFailure), s, next);
        lemma_seek_ignores_outcomes(s.giving_up(SyncError::MalformedPayload), s, next);
    } else {
        let failed = s.noting(
            OutcomeView {
                secret: s.secret,
                namespace: Some(s.namespace),
                error: Some(SyncError::ApplyFailure),
            },
        );
        let applied = s.noting(
            OutcomeView { secret: s.secret, namespace: Some(s.namespace), error: None },
        );
        lemma_seek_ignores_outcomes(failed, applied, next);
        lemma_seek_ignores_outcomes(failed, s, next);
    }
}

/// The namespaces of a secret are applied to from left to right, and a
/// failure in one does not keep the next from its turn: whatever the cluster
/// answers on a namespace that is not the last, the next request is for the
/// following namespace, with the same name and the same data.
pub proof fn lemma_namespaces_in_order(s: RunView, event: EventView)
    requires
        s.wf(),
        s.phase == Phase::Applying,
        event == EventView::Applied || event == EventView::ApplyFailed,
        s.namespace + 1 < s.routing().namespaces.len(),
    ensures
        s.next(event).pending() == ActionView::Apply(requests_of(s.record())[s.namespace + 1]),
{
}

/// The writes of a secret are those of its record: once the payload of the
/// secret in work is read, the run asks for the first write of the record
/// that the secret's tags and payload give.
pub proof fn lemma_run_applies_record(s: RunView, payload: Seq<FieldView>)
    requires
        s.wf(),
        s.phase == Phase::Fetching,
    ensures
        record_of(s.secrets[s.secret], s.config, Some(payload)) == Ok::<
            DestinationRecordView,
            SyncError,
        >(s.with_payload(Some(payload)).record()),
        s.with_payload(Some(payload)).pending() == ActionView::Apply(
            requests_of(record_with(s.routing(), payload))[0],
        ),
{
    crate::tags::lemma_routing_namespaces(s.secrets[s.secret], s.config);
}

/// The state of a run after the first `n` of `events`.
pub open spec fn state_after(start: RunView, events: Seq<EventView>, n: int) -> RunView
    decreases n,
{
    if n <= 0 {
        start
    } else {
        state_after(start, events, n - 1).next(events[n - 1])
    }
}

/// Within the first `n` events the run was waiting for the payload of the
/// secret at position `k`: that secret's fetch was asked for.
pub open spec fn fetch_asked(start: RunView, events: Seq<EventView>, n: int, k: int) -> bool {
    exists|m: int|
        0 <= m <= n && (#[trigger] state_after(start, events, m)).phase == Phase::Fetching
            && state_after(start, events, m).secret == k
}

/// How far the run has come: every secret before this position has had its
/// turn.
pub open spec fn frontier(s: RunView) -> int {
    match s.phase {
        Phase::Discovering | Phase::Failed => 0,
        Phase::Fetching | Phase::Applying => s.secret + 1,
        Phase::Completed => s.secrets.len() as int,
    }
}

/// A run from the start stays well formed, and by the time it has come to a
/// position, the fetch of every secret before that position that can be
/// routed was asked for.
pub proof fn lemma_run_skips_nothing(config: RunConfigView, events: Seq<EventView>, n: int)
    requires
        0 <= n <= events.len(),
    ensures
        state_after(RunView::initial(config), events, n).wf(),
        state_after(RunView::initial(config), events, n).config == config,
        forall|k: int|
            0 <= k < frontier(state_after(RunView::initial(config), events, n)) && state_after(
                RunView::initial(config),
                events,
                n,
            ).routable(k) ==> fetch_asked(RunView::initial(config), events, n, k),
    decreases n,
{
    let start = RunView::initial(config);
    let now = state_after(start, events, n);
    if n > 0 {
        lemma_run_skips_nothing(config, events, n - 1);
        let before = state_after(start, events, n - 1);
        let event = events[n - 1];
        lemma_next_wf(before, event);
        assert forall|k: int| 0 <= k < frontier(now) && now.routable(k) implies fetch_asked(
            start,
            events,
            n,
            k,
        ) by {
            if before.phase == Phase::Discovering {
                if let EventView::Discovered(secrets) = event {
                    let found = RunView { secrets, ..before };
                    lemma_seek_stops_at_first_routable(found, 0);
                    lemma_seek_wf(found, 0);
                    assert(found.routable(k) == now.routable(k));
                    assert(now.phase == Phase::Fetching && now.secret == k);
                    assert(state_after(start, events, n).secret == k);
                }
            } else if 0 <= k < frontier(before) {
                assert(before.routable(k) == now.routable(k));
                assert(fetch_asked(start, events, n - 1, k));
                let m = choose|m: int|
                    0 <= m <= n - 1 && (#[trigger] state_after(start, events, m)).phase
                        == Phase::Fetching && state_after(start, events, m).secret == k;
                assert(state_after(start, events, m).phase == Phase::Fetching);
            } else {
                // The run has left the secret it was working on.
                assert(before.phase == Phase::Fetching || before.phase == Phase::Applying);
                let left = if before.phase == Phase::Fetching {
                    if event == EventView::FetchFailed {
                        before.giving_up(SyncError::FetchFailure)
                    } else {
                        before.giving_up(SyncError::MalformedPayload)
                    }
                } else {
                    before.noting(
                        OutcomeView {
                            secret: before.secret,
                            namespace: Some(before.namespace),
                            error: if event == EventView::Applied {
                                None
                            } else {
                                Some(SyncError::ApplyFailure)
                            },
                        },
                    )
                };
                assert(now == left.seek(before.secret + 1));
                lemma_seek_stops_at_first_routable(left, before.secret + 1);
                lemma_seek_wf(left, before.secret + 1);
                assert(left.routable(k) == now.routable(k));
                assert(now.phase == Phase::Fetching && now.secret == k);
                assert(state_after(start, events, n).secret == k);
            }
        }
    }
}

/// Fault isolation: in a run that has completed, the fetch of every
/// discovered secret that can be routed was asked for, whatever failed on
/// the way.
pub proof fn lemma_every_routable_secret_is_fetched(
    config: RunConfigView,
    events: Seq<EventView>,
    k: int,
)
    requires
        state_after(RunView::initial(config), events, events.len() as int).phase
            == Phase::Completed,
        state_after(RunView::initial(config), events, events.len() as int).routable(k),
    ensures
        fetch_asked(RunView::initial(config), events, events.len() as int, k),
{
    lemma_run_skips_nothing(config, events, events.len() as int);
}

/// A run of the synchronisation.
#[derive(Debug)]
pub struct SyncRun {
    pub(crate) config: RunConfig,
    pub(crate) phase: Phase,
    pub(crate) secrets: Vec<SecretDescriptor>,
    pub(crate) secret: usize,
    pub(crate) namespace: usize,
    pub(crate) routing: Option<Routing>,
    pub(crate) data: Option<DataMap>,
    pub(crate) outcomes: Vec<Outcome>,
}

impl View for SyncRun {
    type V = RunView;

    open(crate) spec fn view(&self) -> RunView {
        RunView {
            config: self.config@,
            phase: self.phase,
            secrets: descriptor_views(self.secrets@),
            secret: self.secret as int,
            namespace: self.namespace as int,
            data: match self.data {
                Some(data) => data@,
                None => Seq::empty(),
            },
            outcomes: outcome_views(self.outcomes@),
        }
    }
}

impl SyncRun {
    #[verifier::type_invariant]
    pub open(crate) spec fn consistent(self) -> bool {
        &&& self@.wf()
        &&& match self.phase {
            Phase::Fetching => self.routing is Some && self.routing->Some_0@ == self@.routing()
                && self.data is None,
            Phase::Applying => self.routing is Some && self.routing->Some_0@ == self@.routing()
                && self.data is Some,
            _ => self.routing is None && self.data is None,
        }
    }

    /// A run that has not done anything yet, and its first action: the
    /// discovery of the secrets that carry the namespace tag.
    pub fn start(config: RunConfig) -> (started: (SyncRun, Action))
        ensures
            started.0@ == RunView::initial(config@),
            started.1@ == started.0@.pending(),
    {
        let action = Action::Discover { tag_key: config.namespace_tag.clone() };
        let run = SyncRun {
            config,
            phase: Phase::Discovering,
            secrets: Vec::new(),
            secret: 0,
            namespace: 0,
            routing: None,
            data: None,
            outcomes: Vec::new(),
        };
        proof {
            assert(descriptor_views(run.secrets@) == Seq::<SecretDescriptorView>::empty());
            assert(outcome_views(run.outcomes@) == Seq::<OutcomeView>::empty());
        }
        (run, action)
    }

    /// Where the run stands.
    pub fn phase(&self) -> (phase: Phase)
        ensures
            phase == self@.phase,
            self@.wf(),
    {
        proof {
            use_type_invariant(self);
        }
        self.phase
    }

    /// What has happened so far, oldest first.
    pub fn outcomes(&self) -> (outcomes: &Vec<Outcome>)
        ensures
            outcome_views(outcomes@) == self@.outcomes,
    {
        &self.outcomes
    }

    /// The action that the run waits on.
    pub fn pending(&self) -> (action: Action)
        ensures
            action@ == self@.pending(),
    {
        proof {
            use_type_invariant(self);
        }
        match self.phase {
            Phase::Discovering => Action::Discover { tag_key: self.config.namespace_tag.clone() },
            Phase::Fetching => Action::Fetch { id: self.secrets[self.secret].id.clone() },
            Phase::Applying => {
                let routing = self.routing.as_ref().unwrap();
                let data = self.data.as_ref().unwrap();
                Action::Apply(
                    ApplyRequest {
                        namespace: routing.namespaces[self.namespace].clone(),
                        name: routing.name.clone(),
                        data: data.clone(),
                    },
                )
            },
            Phase::Completed => Action::Finish { error: None },
            Phase::Failed => Action::Finish { error: Some(SyncError::DiscoveryFailure) },
        }
    }

    /// Takes up the first secret at or after position `from` that can be
    /// routed, noting `MissingTag` for every secret passed over on the way.
    fn seek(
        config: RunConfig,
        secrets: Vec<SecretDescriptor>,
        outcomes: Vec<Outcome>,
        from: usize,
        Ghost(before): Ghost<RunView>,
    ) -> (run: SyncRun)
        requires
            before.config == config@,
            before.secrets == descriptor_views(secrets@),
            before.outcomes == outcome_views(outcomes@),
            from <= secrets.len(),
        ensures
            run@ == before.seek(from as int),
    {
        let mut outcomes = outcomes;
        let mut at: usize = from;
        let ghost mut state = before;
        while at < secrets.len()
            invariant
                at <= secrets.len(),
                state.config == config@,
                state.secrets == descriptor_views(secrets@),
                state.outcomes == outcome_views(outcomes@),
                state.seek(at as int) == before.seek(from as int),
            decreases secrets.len() - at,
        {
            match extract(&secrets[at], &config) {
                Ok(routing) => {
                    let run = SyncRun {
                        config,
                        phase: Phase::Fetching,
                        secrets,
                        secret: at,
                        namespace: 0,
                        routing: Some(routing),
                        data: None,
                        outcomes,
                    };
                    assert(run@ == state.seek(at as int));
                    return run;
                },
                Err(_) => {
                    let ghost noted = outcomes@;
                    let outcome = Outcome {
                        secret: at,
                        namespace: None,
                        error: Some(SyncError::MissingTag),
                    };
                    outcomes.push(outcome);
                    proof {
                        assert(outcome_views(outcomes@) == outcome_views(noted).push(outcome@));
                        state = state.noting(outcome@);
                    }
                    at = at + 1;
                },
            }
        }
        let run = SyncRun {
            config,
            phase: Phase::Completed,
            secret: secrets.len(),
            secrets,
            namespace: 0,
            routing: None,
            data: None,
            outcomes,
        };
        assert(run@ == state.seek(at as int));
        run
    }

    /// Gives up the secret in work with `error` and takes up the next one.
    fn give_up(self, error: SyncError) -> (run: SyncRun)
        requires
            self@.phase == Phase::Fetching,
        ensures
            run@ == self@.giving_up(error).seek(self@.secret + 1),
    {
        proof {
            use_type_invariant(&self);
            assert(self@.routable(self@.secret));
        }
        let ghost before = self@;
        let SyncRun { config, secrets, secret, outcomes, .. } = self;
        assert(secret < secrets.len());
        let mut outcomes = outcomes;
        let ghost noted = outcomes@;
        let outcome = Outcome { secret, namespace: None, error: Some(error) };
        outcomes.push(outcome);
        proof {
            assert(outcome_views(outcomes@) == outcome_views(noted).push(outcome@));
        }
        SyncRun::seek(config, secrets, outcomes, secret + 1, Ghost(before.giving_up(error)))
    }

    /// Hands the run the payload of the secret in work, or the failure to
    /// read one, and returns the run after it with the action that is next.
    ///
    /// A payload becomes the data of the secret: one file where the secret
    /// names a file, field by field where it does not. The first namespace of
    /// the secret is next. Without a payload the secret is given up as
    /// malformed and the next secret is taken up. Where the run is not waiting
    /// for a payload, nothing changes.
    pub fn accept_payload(self, payload: Option<SecretPayload>) -> (next: (SyncRun, Action))
        ensures
            next.0@ == self@.with_payload(
                match payload {
                    Some(payload) => Some(payload@),
                    None => None,
                },
            ),
            next.1@ == next.0@.pending(),
    {
        proof {
            use_type_invariant(&self);
        }
        if self.phase != Phase::Fetching {
            let action = self.pending();
            return (self, action);
        }
        let run = match payload {
            Some(payload) => {
                proof {
                    crate::tags::lemma_routing_namespaces(
                        self@.secrets[self@.secret],
                        self@.config,
                    );
                }
                let SyncRun { config, phase, secrets, secret, namespace, routing, data, outcomes } =
                    self;
                let filename = match &routing {
                    Some(routing) => match &routing.filename {
                        Some(filename) => Some(filename.clone()),
                        None => None,
                    },
                    None => None,
                };
                let data = transform(payload, filename);
                SyncRun {
                    config,
                    phase: Phase::Applying,
                    secrets,
                    secret,
                    namespace: 0,
                    routing,
                    data: Some(data),
                    outcomes,
                }
            },
            None => self.give_up(SyncError::MalformedPayload),
        };
        let action = run.pending();
        (run, action)
    }

    /// Notes the cluster's answer on the namespace in work and moves on to
    /// the next namespace or, after the last one, to the next secret.
    fn answered(self, error: Option<SyncError>) -> (run: SyncRun)
        requires
            self@.phase == Phase::Applying,
        ensures
            run@ == self@.answered(error),
    {
        proof {
            use_type_invariant(&self);
            assert(self@.routable(self@.secret));
        }
        let ghost before = self@;
        let SyncRun { config, phase, secrets, secret, namespace, routing, data, outcomes } = self;
        assert(secret < secrets.len());
        let mut outcomes = outcomes;
        let ghost noted = outcomes@;
        let outcome = Outcome { secret, namespace: Some(namespace), error };
        outcomes.push(outcome);
        proof {
            assert(outcome_views(outcomes@) == outcome_views(noted).push(outcome@));
        }
        let count = match &routing {
            Some(routing) => routing.namespaces.len(),
            None => 0,
        };
        if namespace + 1 < count {
            SyncRun {
                config,
                phase,
                secrets,
                secret,
                namespace: namespace + 1,
                routing,
                data,
                outcomes,
            }
        } else {
            SyncRun::seek(config, secrets, outcomes, secret + 1, Ghost(before.noting(outcome@)))
        }
    }

    /// Hands the run what happened outside and returns the run after it with
    /// the action that is next.
    ///
    /// A list of secrets starts the work on the first secret that can be
    /// routed; a failed discovery ends the run. A payload is read and written
    /// as cluster data; a failed fetch, or a payload that cannot be read,
    /// gives up the secret and takes up the next one. The cluster's answer on
    /// a namespace is noted, whichever it is, and the next namespace or the
    /// next secret follows. An event that does not answer the pending action
    /// changes nothing, and the pending action is handed out again.
    pub fn step(self, event: Event) -> (next: (SyncRun, Action))
        ensures
            next.0@ == self@.next(event@),
            next.1@ == next.0@.pending(),
    {
        proof {
            use_type_invariant(&self);
        }
        match self.phase {
            Phase::Discovering => match event {
                Event::Discovered(secrets) => {
                    let ghost before = RunView { secrets: descriptor_views(secrets@), ..self@ };
                    let SyncRun { config, outcomes, .. } = self;
                    let run = SyncRun::seek(config, secrets, outcomes, 0, Ghost(before));
                    let action = run.pending();
                    (run, action)
                },
                Event::DiscoveryFailed => {
                    let SyncRun {
                        config,
                        phase,
                        secrets,
                        secret,
                        namespace,
                        routing,
                        data,
                        outcomes,
                    } = self;
                    let run = SyncRun {
                        config,
                        phase: Phase::Failed,
                        secrets,
                        secret,
                        namespace,
                        routing,
                        data,
                        outcomes,
                    };
                    (run, Action::Finish { error: Some(SyncError::DiscoveryFailure) })
                },
                _ => {
                    let action = self.pending();
                    (self, action)
                },
            },
            Phase::Fetching => match event {
                Event::Fetched(text) => {
                    let payload = match parse_payload(text.as_str()) {
                        Ok(payload) => Some(payload),
                        Err(_) => None,
                    };
                    self.accept_payload(payload)
                },
                Event::FetchFailed => {
                    let run = self.give_up(SyncError::FetchFailure);
                    let action = run.pending();
                    (run, action)
                },
                _ => {
                    let action = self.pending();
                    (self, action)
                },
            },
            Phase::Applying => match event {
                Event::Applied => {
                    let run = self.answered(None);
                    let action = run.pending();
                    (run, action)
                },
                Event::ApplyFailed => {
                    let run = self.answered(Some(SyncError::ApplyFailure));
                    let action = run.pending();
                    (run, action)
                },
                _ => {
                    let action = self.pending();
                    (self, action)
                },
            },
            _ => {
                let action = self.pending();
                (self, action)
            },
        }
    }
}

} // verus!
