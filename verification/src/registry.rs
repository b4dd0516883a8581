//! The destination registry.
//!
//! [`AppLinks`] holds what is known of every destination: its spec, whether a path race has
//! found it ready, the outbound link held for it and the link its peer opened to us. Every
//! method is one atomic step. What only the transport knows comes in as an argument, and what
//! only the driver can do goes out as an [`Effect`].
//!
//! `L` is the driver's handle of a link, `C` its status callback.
use crate::dest_map::{lemma_lists_once_push, lists_once, DestMap};
use crate::effects::{
    asked, notice, notice_with, Effect, EffectView, LinkJob, LinkJobView, RaceJob, RaceJobView,
    StatusChange,
};
use crate::send::{ChainAction, ChainEvent, ChainStage, FireOutcome, LinkOutcome, TierChain};
use crate::types::{
    copy_texts, has_text, texts, AppLinkSpec, AppLinkSpecView, Flags, FlagsKey, LinkMode, LinkPolicy, SendErr, SpecView, APP_LINK_ACTIVE,
    APP_LINK_DISCONNECTED, APP_LINK_ESTABLISHING, APP_LINK_NONE, APP_LINK_PATH_REQUESTED,
    LIVENESS_CACHE_TTL, PROP_FALLBACK_DELAY,
};
use vstd::prelude::*;
use vstd::slice::slice_to_vec;

verus! {

/// What the transport knows of a destination at one moment.
#[derive(Clone, Copy, Debug, PartialEq, Eq, Structural)]
pub struct LinkFacts {
    /// The outbound link held for the destination is active. Of no consequence when none is
    /// held.
    pub link_active: bool,
    /// The transport has a path to the destination.
    pub has_path: bool,
}

/// What `facts` says of a destination. One that it does not name has no path and no active
/// link.
pub open spec fn facts_of(facts: Map<Seq<u8>, LinkFacts>, dest: Seq<u8>) -> LinkFacts {
    if facts.contains_key(dest) {
        facts[dest]
    } else {
        LinkFacts { link_active: false, has_path: false }
    }
}

/// The sighted destinations are distinct.
pub open spec fn distinct(seen: Seq<(Seq<u8>, LinkFacts)>) -> bool {
    forall|i: int, j: int|
        0 <= i < seen.len() && 0 <= j < seen.len() && (#[trigger] seen[i]).0 == (
        #[trigger] seen[j]).0 ==> i == j
}

/// What the transport knows of one of several destinations.
struct Sighting {
    dest: Vec<u8>,
    facts: LinkFacts,
}

/// What a list of sightings says.
spec fn sighted(seen: Seq<Sighting>) -> Seq<(Seq<u8>, LinkFacts)> {
    seen.map_values(|s: Sighting| (s.dest@, s.facts))
}

/// What the driver of a send reports, with what it brought.
#[derive(Debug)]
pub enum SendEvent<L> {
    /// The link asked for: `None` when none is held, else whether it is active.
    Held(Option<bool>),
    /// The packet was handed to the link.
    Fired(FireOutcome),
    /// The wait for an earlier tier's proof is over.
    WaitOver,
    /// How the path race ended.
    Raced(Result<String, SendErr>),
    /// True when the identity is known.
    IdentityRecalled(bool),
    /// True when the destination could be built.
    DestinationBuilt(bool),
    /// True when the link could be built.
    LinkBuilt(bool),
    /// True when the link request went out.
    Initiated(bool),
    /// The link is established: two handles of it, one to hold and one to hand to the host.
    LinkEstablished(L, L),
    /// The link closed before it was established.
    LinkClosed,
    /// The link was not established in time.
    LinkTimedOut,
    /// True when the proof of the packet on the fresh link arrived in time.
    ProofWaited(bool),
}

impl<L> SendEvent<L> {
    /// What the report means to the course of the send.
    pub open spec fn plain(self) -> ChainEvent {
        match self {
            SendEvent::Held(link) => ChainEvent::Held(link),
            SendEvent::Fired(outcome) => ChainEvent::Fired(outcome),
            SendEvent::WaitOver => ChainEvent::WaitOver,
            SendEvent::Raced(result) => ChainEvent::Raced(result is Ok),
            SendEvent::IdentityRecalled(ok) => ChainEvent::IdentityRecalled(ok),
            SendEvent::DestinationBuilt(ok) => ChainEvent::DestinationBuilt(ok),
            SendEvent::LinkBuilt(ok) => ChainEvent::LinkBuilt(ok),
            SendEvent::Initiated(ok) => ChainEvent::Initiated(ok),
            SendEvent::LinkEstablished(_, _) => ChainEvent::LinkWaited(LinkOutcome::Established),
            SendEvent::LinkClosed => ChainEvent::LinkWaited(LinkOutcome::Closed),
            SendEvent::LinkTimedOut => ChainEvent::LinkWaited(LinkOutcome::TimedOut),
            SendEvent::ProofWaited(arrived) => ChainEvent::ProofWaited(arrived),
        }
    }

    fn to_chain_event(&self) -> (event: ChainEvent)
        ensures
            event == self.plain(),
    {
        match self {
            SendEvent::Held(link) => ChainEvent::Held(*link),
            SendEvent::Fired(outcome) => ChainEvent::Fired(*outcome),
            SendEvent::WaitOver => ChainEvent::WaitOver,
            SendEvent::Raced(result) => ChainEvent::Raced(result.is_ok()),
            SendEvent::IdentityRecalled(ok) => ChainEvent::IdentityRecalled(*ok),
            SendEvent::DestinationBuilt(ok) => ChainEvent::DestinationBuilt(*ok),
            SendEvent::LinkBuilt(ok) => ChainEvent::LinkBuilt(*ok),
            SendEvent::Initiated(ok) => ChainEvent::Initiated(*ok),
            SendEvent::LinkEstablished(_, _) => ChainEvent::LinkWaited(LinkOutcome::Established),
            SendEvent::LinkClosed => ChainEvent::LinkWaited(LinkOutcome::Closed),
            SendEvent::LinkTimedOut => ChainEvent::LinkWaited(LinkOutcome::TimedOut),
            SendEvent::ProofWaited(arrived) => ChainEvent::ProofWaited(*arrived),
        }
    }
}

/// What a step of a send asks for.
#[derive(Debug)]
pub struct SendStep<L> {
    pub action: ChainAction,
    /// Reports to the host.
    pub effects: Vec<Effect<L>>,
    /// A handle that is not held: the one that was held before, or the one that came.
    pub released: Option<L>,
    /// The handle that came for the host, when there is nothing to report.
    pub unreported: Option<L>,
    /// How many status callbacks there are.
    pub audience: usize,
}

/// A registration in force.
struct Registration {
    app_name: String,
    aspects: Vec<String>,
    mode: LinkMode,
    flags: Flags,
    number: usize,
}

impl View for Registration {
    type V = SpecView;

    closed spec fn view(&self) -> SpecView {
        SpecView {
            app_name: self.app_name@,
            aspects: texts(self.aspects@),
            mode: self.mode,
            attempt_in_flight: self.flags.attempt_in_flight,
            ever_established: self.flags.ever_established,
            latest: self.flags.latest,
            number: self.number as nat,
        }
    }
}

/// The registry of app-links.
///
/// It keeps the two flags of every registration there ever was, since a spec that was handed out
/// goes on showing them.
pub struct AppLinks<L, C> {
    specs: DestMap<Registration>,
    past: Vec<Flags>,
    ready: DestMap<u64>,
    links: DestMap<L>,
    inbound_links: DestMap<L>,
    status_callbacks: Vec<C>,
    announce_handler_installed: bool,
    policy: LinkPolicy,
    liveness: DestMap<(String, u64)>,
    next_attempt: u64,
}

/// The state of an [`AppLinks`].
#[verifier::ext_equal]
pub struct LinksView<L, C> {
    /// The registrations in force.
    pub specs: Map<Seq<u8>, SpecView>,
    /// The flags of each registration, by its number, once it is no longer in force.
    pub past: Seq<Flags>,
    /// When each destination that a path race found ready was found so, in milliseconds.
    pub ready: Map<Seq<u8>, u64>,
    /// The outbound links held.
    pub links: Map<Seq<u8>, L>,
    /// The links that peers opened to us.
    pub inbound: Map<Seq<u8>, L>,
    /// The status callbacks, in the order of their registration.
    pub callbacks: Seq<C>,
    pub handler_installed: bool,
    pub policy: LinkPolicy,
    /// The interface that won the latest race for each destination, and when, in milliseconds.
    pub liveness: Map<Seq<u8>, (Seq<char>, u64)>,
    /// The number that the next attempt gets.
    pub next_attempt: u64,
}

/// What a map of specs holds.
spec fn spec_views(specs: Map<Seq<u8>, Registration>) -> Map<Seq<u8>, SpecView> {
    specs.map_values(|s: Registration| s@)
}

/// What news of an attempt does to the flags of past registrations.
pub open spec fn settle_all(flags: Seq<Flags>, attempt: u64, ready: bool, over: bool) -> Seq<
    Flags,
> {
    flags.map_values(|f: Flags| f.settled(attempt, ready, over))
}

/// What a map of race winners holds.
spec fn winner_views(winners: Map<Seq<u8>, (String, u64)>) -> Map<Seq<u8>, (Seq<char>, u64)> {
    winners.map_values(|w: (String, u64)| (w.0@, w.1))
}

impl<L, C> View for AppLinks<L, C> {
    type V = LinksView<L, C>;

    closed spec fn view(&self) -> LinksView<L, C> {
        LinksView {
            specs: spec_views(self.specs@),
            past: self.past@,
            ready: self.ready@,
            links: self.links@,
            inbound: self.inbound_links@,
            callbacks: self.status_callbacks@,
            handler_installed: self.announce_handler_installed,
            policy: self.policy,
            liveness: winner_views(self.liveness@),
            next_attempt: self.next_attempt,
        }
    }
}

impl<L, C> LinksView<L, C> {
    /// A registry that knows nothing.
    pub open spec fn empty() -> Self {
        LinksView {
            specs: Map::empty(),
            past: Seq::empty(),
            ready: Map::empty(),
            links: Map::empty(),
            inbound: Map::empty(),
            callbacks: Seq::empty(),
            handler_installed: false,
            policy: LinkPolicy::Foreground,
            liveness: Map::empty(),
            next_attempt: 0,
        }
    }

    /// How many status callbacks there are.
    pub open spec fn audience(self) -> nat {
        self.callbacks.len()
    }

    /// The status of a destination.
    pub open spec fn status(self, dest: Seq<u8>, facts: LinkFacts) -> u8 {
        if !self.specs.contains_key(dest) {
            APP_LINK_NONE
        } else if self.links.contains_key(dest) {
            if facts.link_active {
                APP_LINK_ACTIVE
            } else {
                APP_LINK_ESTABLISHING
            }
        } else if self.specs[dest].attempt_in_flight {
            APP_LINK_PATH_REQUESTED
        } else if self.ready.contains_key(dest) && facts.has_path {
            APP_LINK_ACTIVE
        } else {
            APP_LINK_DISCONNECTED
        }
    }

    /// Whether `attempt` is the latest attempt under the present registration of `dest`.
    pub open spec fn is_current(self, dest: Seq<u8>, attempt: u64) -> bool {
        self.specs.contains_key(dest) && self.specs[dest].latest == Some(attempt)
    }

    /// How the flags stand that are kept under a destination and the number of a registration.
    pub open spec fn flags_of(self, key: (Seq<u8>, nat)) -> Flags {
        if self.specs.contains_key(key.0) && self.specs[key.0].number == key.1 {
            self.specs[key.0].flags()
        } else if key.1 < self.past.len() {
            self.past[key.1 as int]
        } else {
            Flags::unset()
        }
    }

    /// The spec of a registered destination, as it is handed out.
    pub open spec fn handed_out(self, dest: Seq<u8>) -> AppLinkSpecView {
        AppLinkSpecView {
            app_name: self.specs[dest].app_name,
            aspects: self.specs[dest].aspects,
            mode: self.specs[dest].mode,
            flags: Some((dest, self.specs[dest].number)),
        }
    }

    /// How the flags of a spec stand.
    pub open spec fn spec_flags(self, spec: AppLinkSpecView) -> Flags {
        match spec.flags {
            Some(key) => self.flags_of(key),
            None => Flags::unset(),
        }
    }

    /// The flags of past registrations once `dest` is no longer registered as it is.
    pub open spec fn retired(self, dest: Seq<u8>) -> Seq<Flags> {
        if self.specs.contains_key(dest) && self.specs[dest].number < self.past.len() {
            self.past.update(self.specs[dest].number as int, self.specs[dest].flags())
        } else {
            self.past
        }
    }

    /// News of an attempt came in: whether it has found the destination ready, and whether it is
    /// over. They reach the registrations, in force or not, that had it as their latest attempt.
    pub open spec fn settled(self, dest: Seq<u8>, attempt: u64, ready: bool, over: bool) -> Self {
        LinksView {
            specs: if self.is_current(dest, attempt) {
                self.specs.insert(
                    dest,
                    SpecView {
                        attempt_in_flight: self.specs[dest].attempt_in_flight && !over,
                        ever_established: self.specs[dest].ever_established || ready,
                        ..self.specs[dest]
                    },
                )
            } else {
                self.specs
            },
            past: settle_all(self.past, attempt, ready, over),
            ..self
        }
    }

    /// An attempt has resolved.
    pub open spec fn release(self, dest: Seq<u8>, attempt: u64) -> Self {
        self.settled(dest, attempt, false, true)
    }

    /// An attempt has found the destination ready.
    pub open spec fn mark_established(self, dest: Seq<u8>, attempt: u64) -> Self {
        self.settled(dest, attempt, true, false)
    }

    /// Whether an attempt for `dest` may start now.
    pub open spec fn may_start(self, dest: Seq<u8>, facts: LinkFacts) -> bool {
        &&& self.policy != LinkPolicy::Suspended
        &&& self.specs.contains_key(dest)
        &&& self.status(dest, facts) != APP_LINK_ACTIVE
        &&& !self.specs[dest].attempt_in_flight
    }

    /// The race that an attempt for a registered destination runs.
    pub open spec fn race_job(self, dest: Seq<u8>) -> RaceJobView {
        RaceJobView {
            dest,
            attempt: self.next_attempt,
            app_name: self.specs[dest].app_name,
            aspects: self.specs[dest].aspects,
            propagation: self.specs[dest].is_propagation(),
        }
    }

    /// Starts a race for `dest` unless one is in flight, it is active, or the host is
    /// suspended.
    pub open spec fn establish(self, dest: Seq<u8>, facts: LinkFacts) -> (
        Self,
        Seq<EffectView<L>>,
    ) {
        if self.may_start(dest, facts) {
            (
                LinksView {
                    specs: self.specs.insert(
                        dest,
                        SpecView {
                            attempt_in_flight: true,
                            latest: Some(self.next_attempt),
                            ..self.specs[dest]
                        },
                    ),
                    next_attempt: if self.next_attempt == u64::MAX {
                        0
                    } else {
                        (self.next_attempt + 1) as u64
                    },
                    ..self
                },
                seq![
                    notice(dest, APP_LINK_PATH_REQUESTED, self.audience()),
                    EffectView::StartRace(self.race_job(dest)),
                ],
            )
        } else {
            (self, seq![])
        }
    }

    /// Forgets the winner of the latest race for `dest`.
    pub open spec fn invalidate(self, dest: Seq<u8>) -> Self {
        LinksView { liveness: self.liveness.remove(dest), ..self }
    }

    /// `seen` names every registered destination exactly once, with what `facts` says of it, in
    /// some order.
    pub open spec fn sights(
        self,
        seen: Seq<(Seq<u8>, LinkFacts)>,
        facts: Map<Seq<u8>, LinkFacts>,
    ) -> bool {
        &&& distinct(seen)
        &&& forall|i: int|
            0 <= i < seen.len() ==> self.specs.contains_key((#[trigger] seen[i]).0) && seen[i].1
                == facts_of(facts, seen[i].0)
        &&& forall|dest: Seq<u8>| #[trigger]
            self.specs.contains_key(dest) ==> exists|i: int|
                0 <= i < seen.len() && (#[trigger] seen[i]).0 == dest
    }

    /// Whether a sighted destination gets an attempt when the network changes.
    pub open spec fn wants_attempt(self, seen: (Seq<u8>, LinkFacts)) -> bool {
        let status = self.status(seen.0, seen.1);
        status != APP_LINK_ACTIVE && status != APP_LINK_ESTABLISHING
    }

    /// The sighted destinations that get an attempt when the network changes.
    pub open spec fn candidates(self, seen: Seq<(Seq<u8>, LinkFacts)>) -> Seq<
        (Seq<u8>, LinkFacts),
    > {
        seen.filter(|s: (Seq<u8>, LinkFacts)| self.wants_attempt(s))
    }

    /// One fresh attempt for each destination in turn, with its latest race forgotten.
    pub open spec fn attempt_each(self, which: Seq<(Seq<u8>, LinkFacts)>) -> (
        Self,
        Seq<EffectView<L>>,
    )
        decreases which.len(),
    {
        if which.len() == 0 {
            (self, seq![])
        } else {
            let before = self.attempt_each(which.drop_last());
            let last = before.0.invalidate(which.last().0).establish(
                which.last().0,
                which.last().1,
            );
            (last.0, before.1 + last.1)
        }
    }

    /// The network changed.
    pub open spec fn network_changed(self, seen: Seq<(Seq<u8>, LinkFacts)>) -> (
        Self,
        Seq<EffectView<L>>,
    ) {
        if self.policy == LinkPolicy::Foreground {
            self.attempt_each(self.candidates(seen))
        } else {
            (self, seq![])
        }
    }

    /// An announce of `dest` came in.
    pub open spec fn announce_received(self, dest: Seq<u8>, facts: LinkFacts) -> (
        Self,
        Seq<EffectView<L>>,
    ) {
        self.establish(dest, facts)
    }

    /// Nothing is ready and no link is held any more.
    pub open spec fn cleared(self) -> Self {
        LinksView { ready: Map::empty(), links: Map::empty(), inbound: Map::empty(), ..self }
    }

    /// Under another policy.
    pub open spec fn under(self, policy: LinkPolicy) -> Self {
        LinksView { policy, ..self }
    }

    /// The policy changes, other than to `Suspended`: when the host was suspended, the sighted
    /// destinations that want one get an attempt.
    pub open spec fn relaxed(self, policy: LinkPolicy, seen: Seq<(Seq<u8>, LinkFacts)>) -> (
        Self,
        Seq<EffectView<L>>,
    ) {
        let after = self.under(policy);
        if self.policy == LinkPolicy::Suspended && policy != LinkPolicy::Suspended {
            after.attempt_each(after.candidates(seen))
        } else {
            (after, seq![])
        }
    }

    /// `dest` is registered anew. An attempt that is in flight stays in flight and belongs to
    /// the new registration.
    pub open spec fn registered(
        self,
        dest: Seq<u8>,
        app_name: Seq<char>,
        aspects: Seq<Seq<char>>,
    ) -> Self {
        let fresh = SpecView::fresh(app_name, aspects, self.past.len());
        LinksView {
            past: self.retired(dest).push(Flags::unset()),
            specs: self.specs.insert(
                dest,
                if self.specs.contains_key(dest) && self.specs[dest].attempt_in_flight {
                    SpecView {
                        attempt_in_flight: true,
                        latest: self.specs[dest].latest,
                        ..fresh
                    }
                } else {
                    fresh
                },
            ),
            handler_installed: true,
            ..self
        }
    }

    /// Opens `dest`: it is registered, watched and, unless something is there or under way
    /// already, raced for.
    pub open spec fn open(
        self,
        dest: Seq<u8>,
        app_name: Seq<char>,
        aspects: Seq<Seq<char>>,
        facts: LinkFacts,
    ) -> (Self, Seq<EffectView<L>>) {
        let before = self.status(dest, facts);
        let opened = self.registered(dest, app_name, aspects);
        let prepare: Seq<EffectView<L>> = if self.handler_installed {
            seq![EffectView::WatchAnnounce(dest)]
        } else {
            seq![EffectView::InstallAnnounceHandler, EffectView::WatchAnnounce(dest)]
        };
        if before == APP_LINK_NONE || before == APP_LINK_DISCONNECTED {
            let attempt = opened.establish(dest, facts);
            (attempt.0, prepare + attempt.1)
        } else {
            (opened, prepare)
        }
    }

    /// Closes `dest`: nothing is kept of it but the winner of its latest race.
    pub open spec fn close(self, dest: Seq<u8>) -> (Self, Seq<EffectView<L>>) {
        (
            LinksView {
                specs: self.specs.remove(dest),
                past: self.retired(dest),
                ready: self.ready.remove(dest),
                links: self.links.remove(dest),
                inbound: self.inbound.remove(dest),
                ..self
            },
            if self.specs.contains_key(dest) {
                seq![notice(dest, APP_LINK_NONE, self.audience())]
            } else {
                seq![]
            },
        )
    }

    /// One more status callback.
    pub open spec fn subscribed(self, callback: C) -> Self {
        LinksView { callbacks: self.callbacks.push(callback), ..self }
    }

    /// A link that the peer opened to us is tracked, if `dest` is registered.
    pub open spec fn inbound_held(self, dest: Seq<u8>, link: L) -> Self {
        if self.specs.contains_key(dest) {
            LinksView { inbound: self.inbound.insert(dest, link), ..self }
        } else {
            self
        }
    }

    /// The link that the peer opened to us closed.
    pub open spec fn inbound_closed(self, dest: Seq<u8>) -> Self {
        LinksView { inbound: self.inbound.remove(dest), ..self }
    }

    /// `interface` is the winner of the latest race for `dest`.
    pub open spec fn winner_known(self, dest: Seq<u8>, interface: Seq<char>, now: u64) -> Self {
        LinksView { liveness: self.liveness.insert(dest, (interface, now)), ..self }
    }

    /// A race found a path through `interface`.
    pub open spec fn race_won(self, job: RaceJobView, interface: Seq<char>, now: u64) -> (
        Self,
        Seq<EffectView<L>>,
    ) {
        let ready = LinksView {
            ready: self.ready.insert(job.dest, now),
            ..self.winner_known(job.dest, interface, now)
        }.mark_established(job.dest, job.attempt);
        if job.propagation {
            (
                ready,
                seq![
                    EffectView::StartPersistentLink(
                        LinkJobView {
                            dest: job.dest,
                            attempt: job.attempt,
                            app_name: job.app_name,
                            aspects: job.aspects,
                            audience: self.audience(),
                        },
                    ),
                ],
            )
        } else {
            (
                ready.release(job.dest, job.attempt),
                seq![notice(job.dest, APP_LINK_ACTIVE, self.audience())],
            )
        }
    }

    /// A race found no path.
    pub open spec fn race_lost(self, job: RaceJobView) -> (Self, Seq<EffectView<L>>) {
        (
            self.release(job.dest, job.attempt),
            seq![notice(job.dest, APP_LINK_DISCONNECTED, self.audience())],
        )
    }

    /// The persistent link could not be built.
    pub open spec fn link_unavailable(self, job: LinkJobView) -> (Self, Seq<EffectView<L>>) {
        (
            self.release(job.dest, job.attempt),
            seq![notice(job.dest, APP_LINK_DISCONNECTED, job.audience)],
        )
    }

    /// The persistent link is held from now on.
    pub open spec fn link_held(self, job: LinkJobView, link: L, shared: L) -> (
        Self,
        Seq<EffectView<L>>,
    ) {
        (
            LinksView { links: self.links.insert(job.dest, link), ..self },
            seq![
                notice_with(job.dest, APP_LINK_ESTABLISHING, shared, job.audience),
                EffectView::InitiateLink(job.dest),
            ],
        )
    }

    /// The persistent link is active.
    pub open spec fn link_established(self, job: LinkJobView, link: L) -> (
        Self,
        Seq<EffectView<L>>,
    ) {
        (
            self.release(job.dest, job.attempt),
            seq![notice_with(job.dest, APP_LINK_ACTIVE, link, job.audience)],
        )
    }

    /// Neither ready nor linked any more.
    pub open spec fn dropped(self, dest: Seq<u8>) -> Self {
        LinksView { ready: self.ready.remove(dest), links: self.links.remove(dest), ..self }
    }

    /// The persistent link closed.
    pub open spec fn link_closed(self, job: LinkJobView) -> (Self, Seq<EffectView<L>>) {
        (
            self.dropped(job.dest).release(job.dest, job.attempt),
            seq![notice(job.dest, APP_LINK_DISCONNECTED, job.audience)],
        )
    }

    /// The link that a send built for `dest` is held for the next send. A registered destination
    /// is reported active with it.
    pub open spec fn send_link_held(self, dest: Seq<u8>, link: L, shared: L, now: u64) -> (
        Self,
        Seq<EffectView<L>>,
    ) {
        (
            LinksView {
                links: self.links.insert(dest, link),
                ready: self.ready.insert(dest, now),
                ..self
            },
            if self.specs.contains_key(dest) {
                seq![notice_with(dest, APP_LINK_ACTIVE, shared, self.audience())]
            } else {
                seq![]
            },
        )
    }

    /// What a step of a send for `dest` leaves in the registry, and what it reports.
    pub open spec fn send_step(
        self,
        dest: Seq<u8>,
        stage: ChainStage,
        event: SendEvent<L>,
        now: u64,
    ) -> (Self, Seq<EffectView<L>>) {
        match event {
            SendEvent::Raced(Ok(interface)) => if stage == ChainStage::Tier3Race {
                (self.winner_known(dest, interface@, now), seq![])
            } else {
                (self, seq![])
            },
            SendEvent::LinkEstablished(link, shared) => if stage == ChainStage::Tier3Establish {
                self.send_link_held(dest, link, shared, now)
            } else {
                (self, seq![])
            },
            _ => (self, seq![]),
        }
    }

    /// The link that a send built for `dest` closed.
    pub open spec fn send_link_closed(self, dest: Seq<u8>, audience: nat) -> (
        Self,
        Seq<EffectView<L>>,
    ) {
        (
            self.dropped(dest).invalidate(dest),
            seq![notice(dest, APP_LINK_DISCONNECTED, audience)],
        )
    }

    /// The application name and aspects under which a link to `dest` is built.
    pub open spec fn link_target(self, dest: Seq<u8>) -> (Seq<char>, Seq<Seq<char>>) {
        if self.specs.contains_key(dest) {
            (self.specs[dest].app_name, self.specs[dest].aspects)
        } else {
            ("lxmf"@, seq!["delivery"@])
        }
    }

    /// The interface that won the latest race for `dest`, while that is fresh at `now`.
    pub open spec fn fresh_winner(self, dest: Seq<u8>, now: u64) -> Option<Seq<char>> {
        if self.liveness.contains_key(dest) && now - self.liveness[dest].1 < LIVENESS_CACHE_TTL {
            Some(self.liveness[dest].0)
        } else {
            None
        }
    }
}

/// `effects` report to the first `audience` callbacks that each of `dests` is disconnected,
/// each once, in no particular order, and do nothing else.
pub open spec fn disconnects<L>(
    effects: Seq<EffectView<L>>,
    dests: Set<Seq<u8>>,
    audience: nat,
) -> bool {
    &&& effects.no_duplicates()
    &&& forall|dest: Seq<u8>|
        dests.contains(dest) ==> effects.contains(
            #[trigger] notice(dest, APP_LINK_DISCONNECTED, audience),
        )
    &&& forall|i: int|
        0 <= i < effects.len() ==> exists|dest: Seq<u8>|
            dests.contains(dest) && (#[trigger] effects[i]) == #[trigger] notice::<L>(
                dest,
                APP_LINK_DISCONNECTED,
                audience,
            )
}

/// Reports a change that concerns no live link.
fn plain_notice<L>(dest: &[u8], status: u8, audience: usize) -> (effect: Effect<L>)
    ensures
        effect@ == notice::<L>(dest@, status, audience as nat),
{
    Effect::Notify(StatusChange { dest: slice_to_vec(dest), status, link: None, audience })
}

impl<L, C> AppLinks<L, C> {
    /// A registry that knows nothing, under the policy `Foreground`.
    pub fn new() -> (links: Self)
        ensures
            links@ == LinksView::<L, C>::empty(),
    {
        let links = AppLinks {
            specs: DestMap::new(),
            past: Vec::new(),
            ready: DestMap::new(),
            links: DestMap::new(),
            inbound_links: DestMap::new(),
            status_callbacks: Vec::new(),
            announce_handler_installed: false,
            policy: LinkPolicy::Foreground,
            liveness: DestMap::new(),
            next_attempt: 0,
        };
        assert(links@ =~= LinksView::<L, C>::empty());
        links
    }

    /// The status of `dest_hash`:
    ///
    ///   * `APP_LINK_NONE`: not registered;
    ///   * `APP_LINK_PATH_REQUESTED`: a path race is in flight;
    ///   * `APP_LINK_ESTABLISHING`: a link is held but is not active yet;
    ///   * `APP_LINK_ACTIVE`: a path is known and still valid, or a held link is active;
    ///   * `APP_LINK_DISCONNECTED`: registered, with no path and no race.
    pub fn status(&self, dest_hash: &[u8], facts: LinkFacts) -> (status: u8)
        ensures
            status == self@.status(dest_hash@, facts),
    {
        match self.specs.get(dest_hash) {
            None => APP_LINK_NONE,
            Some(spec) => {
                if self.links.contains_key(dest_hash) {
                    if facts.link_active {
                        APP_LINK_ACTIVE
                    } else {
                        APP_LINK_ESTABLISHING
                    }
                } else if spec.flags.attempt_in_flight {
                    APP_LINK_PATH_REQUESTED
                } else if self.ready.contains_key(dest_hash) && facts.has_path {
                    APP_LINK_ACTIVE
                } else {
                    APP_LINK_DISCONNECTED
                }
            },
        }
    }

    /// Takes in news of an attempt: whether it has found the destination ready, and whether it
    /// is over.
    fn settle(&mut self, dest_hash: &[u8], attempt: u64, ready: bool, over: bool)
        ensures
            final(self)@ == old(self)@.settled(dest_hash@, attempt, ready, over),
    {
        settle_flags(&mut self.past, attempt, ready, over);
        match self.specs.remove(dest_hash) {
            None => {
                assert(self@.specs =~= old(self)@.specs);
            },
            Some(mut spec) => {
                if spec.flags.latest == Some(attempt) {
                    if ready {
                        spec.flags.ever_established = true;
                    }
                    if over {
                        spec.flags.attempt_in_flight = false;
                    }
                }
                self.specs.insert(dest_hash, spec);
                assert(self@.specs =~= old(self)@.settled(dest_hash@, attempt, ready, over).specs);
            },
        }
    }

    /// Resolves an attempt.
    fn release(&mut self, dest_hash: &[u8], attempt: u64)
        ensures
            final(self)@ == old(self)@.release(dest_hash@, attempt),
    {
        self.settle(dest_hash, attempt, false, true);
    }

    /// Notes that an attempt has found the destination ready.
    fn mark_established(&mut self, dest_hash: &[u8], attempt: u64)
        ensures
            final(self)@ == old(self)@.mark_established(dest_hash@, attempt),
    {
        self.settle(dest_hash, attempt, true, false);
    }

    /// Keeps the flags of the present registration of `dest_hash`, which is about to end.
    fn retire(&mut self, dest_hash: &[u8])
        ensures
            final(self)@ == (LinksView { past: old(self)@.retired(dest_hash@), ..old(self)@ }),
    {
        if let Some(spec) = self.specs.get(dest_hash) {
            if spec.number < self.past.len() {
                let (number, flags) = (spec.number, spec.flags);
                self.past.set(number, flags);
            }
        }
    }

    /// Starts a path race for a registered destination, unless the host is suspended, the
    /// destination is active or an attempt is in flight already.
    fn establish(&mut self, dest_hash: &[u8], facts: LinkFacts) -> (effects: Vec<Effect<L>>)
        ensures
            (final(self)@, asked(effects@)) == old(self)@.establish(dest_hash@, facts),
    {
        let mut effects: Vec<Effect<L>> = Vec::new();
        assert(asked(effects@) =~= Seq::<EffectView<L>>::empty());
        if self.policy == LinkPolicy::Suspended {
            return effects;
        }
        if self.status(dest_hash, facts) == APP_LINK_ACTIVE {
            return effects;
        }
        match self.specs.remove(dest_hash) {
            None => {
                assert(self@ =~= old(self)@);
                effects
            },
            Some(mut spec) => {
                if spec.flags.attempt_in_flight {
                    self.specs.insert(dest_hash, spec);
                    assert(self@.specs =~= old(self)@.specs);
                    return effects;
                }
                let attempt = self.next_attempt;
                self.next_attempt = attempt.wrapping_add(1);
                spec.flags.attempt_in_flight = true;
                spec.flags.latest = Some(attempt);
                let job = RaceJob {
                    dest: slice_to_vec(dest_hash),
                    attempt,
                    app_name: spec.app_name.clone(),
                    aspects: copy_texts(&spec.aspects),
                    propagation: has_text(&spec.aspects, "propagation"),
                };
                self.specs.insert(dest_hash, spec);
                effects.push(
                    plain_notice(
                        dest_hash,
                        APP_LINK_PATH_REQUESTED,
                        self.status_callbacks.len(),
                    ),
                );
                effects.push(Effect::StartRace(job));
                proof {
                    let expected = old(self)@.establish(dest_hash@, facts);
                    assert(self@.specs =~= expected.0.specs);
                    assert(asked(effects@) =~= expected.1);
                }
                effects
            },
        }
    }

    /// The current host lifecycle policy.
    pub fn policy(&self) -> (policy: LinkPolicy)
        ensures
            policy == self@.policy,
    {
        self.policy
    }

    /// Subscribes to status changes. Any number of callbacks may subscribe.
    pub fn register_status_callback(&mut self, callback: C)
        ensures
            final(self)@ == old(self)@.subscribed(callback),
    {
        self.status_callbacks.push(callback);
    }

    /// The `index`-th status callback, in the order of registration.
    pub fn status_callback(&self, index: usize) -> (callback: Option<&C>)
        ensures
            match callback {
                Some(c) => index < self@.callbacks.len() && *c == self@.callbacks[index as int],
                None => index >= self@.callbacks.len(),
            },
    {
        if index < self.status_callbacks.len() {
            Some(&self.status_callbacks[index])
        } else {
            None
        }
    }

    /// True when `dest_hash` is registered.
    pub fn contains(&self, dest_hash: &[u8]) -> (registered: bool)
        ensures
            registered == self@.specs.contains_key(dest_hash@),
    {
        self.specs.contains_key(dest_hash)
    }

    /// The registered destinations, each once, in no particular order.
    pub fn destinations(&self) -> (dests: Vec<Vec<u8>>)
        ensures
            lists_once(dests@, self@.specs.dom()),
    {
        assert(self@.specs.dom() =~= self.specs@.dom());
        self.specs.keys()
    }

    /// The spec of `dest_hash`, if it is registered. Its flags are those of the registration and
    /// follow what happens to it.
    pub fn spec(&self, dest_hash: &[u8]) -> (spec: Option<AppLinkSpec>)
        ensures
            match spec {
                Some(s) => self@.specs.contains_key(dest_hash@) && s@ == self@.handed_out(
                    dest_hash@,
                ),
                None => !self@.specs.contains_key(dest_hash@),
            },
    {
        match self.specs.get(dest_hash) {
            Some(spec) => {
                let copy = AppLinkSpec {
                    app_name: spec.app_name.clone(),
                    aspects: copy_texts(&spec.aspects),
                    mode: spec.mode,
                    flags: Some(
                        FlagsKey { dest: slice_to_vec(dest_hash), number: spec.number },
                    ),
                };
                assert(copy@ =~= self@.handed_out(dest_hash@));
                Some(copy)
            },
            None => None,
        }
    }

    /// How the flags of a spec stand now.
    fn flags(&self, spec: &AppLinkSpec) -> (flags: Flags)
        ensures
            flags == self@.spec_flags(spec@),
    {
        let unset = Flags { attempt_in_flight: false, ever_established: false, latest: None };
        match &spec.flags {
            None => unset,
            Some(key) => {
                if let Some(present) = self.specs.get(key.dest.as_slice()) {
                    if present.number == key.number {
                        return present.flags;
                    }
                }
                if key.number < self.past.len() {
                    self.past[key.number]
                } else {
                    unset
                }
            },
        }
    }

    /// True from the start of an attempt under the registration of `spec` until it resolves.
    pub fn attempt_in_flight(&self, spec: &AppLinkSpec) -> (set: bool)
        ensures
            set == self@.spec_flags(spec@).attempt_in_flight,
    {
        self.flags(spec).attempt_in_flight
    }

    /// True once the destination has been ready at least once since it was opened with `spec`.
    pub fn ever_established(&self, spec: &AppLinkSpec) -> (set: bool)
        ensures
            set == self@.spec_flags(spec@).ever_established,
    {
        self.flags(spec).ever_established
    }

    /// The outbound link held for `dest_hash`, if any.
    pub fn get_handle(&self, dest_hash: &[u8]) -> (link: Option<&L>)
        ensures
            match link {
                Some(l) => self@.links.contains_key(dest_hash@) && *l == self@.links[dest_hash@],
                None => !self@.links.contains_key(dest_hash@),
            },
    {
        self.links.get(dest_hash)
    }

    /// The link that the peer opened to us, if any.
    pub fn get_inbound_handle(&self, dest_hash: &[u8]) -> (link: Option<&L>)
        ensures
            match link {
                Some(l) => self@.inbound.contains_key(dest_hash@) && *l
                    == self@.inbound[dest_hash@],
                None => !self@.inbound.contains_key(dest_hash@),
            },
    {
        self.inbound_links.get(dest_hash)
    }

    /// True when an inbound link is tracked for `dest_hash`.
    pub fn has_inbound(&self, dest_hash: &[u8]) -> (tracked_link: bool)
        ensures
            tracked_link == self@.inbound.contains_key(dest_hash@),
    {
        self.inbound_links.contains_key(dest_hash)
    }

    /// Forgets the winner of the latest race for `dest_hash`.
    pub fn invalidate_liveness(&mut self, dest_hash: &[u8])
        ensures
            final(self)@ == old(self)@.invalidate(dest_hash@),
    {
        self.liveness.remove(dest_hash);
        assert(self@.liveness =~= old(self)@.invalidate(dest_hash@).liveness);
    }

    /// The interface that won the latest race for `dest_hash`, while that is fresh: for
    /// `LIVENESS_CACHE_TTL` after the race.
    pub fn liveness_winner(&self, dest_hash: &[u8], now: u64) -> (winner: Option<&String>)
        ensures
            match winner {
                Some(interface) => self@.fresh_winner(dest_hash@, now) == Some(interface@),
                None => self@.fresh_winner(dest_hash@, now) is None,
            },
    {
        match self.liveness.get(dest_hash) {
            None => None,
            Some(entry) => {
                if now < entry.1 || now - entry.1 < LIVENESS_CACHE_TTL {
                    Some(&entry.0)
                } else {
                    None
                }
            },
        }
    }

    /// Notes `interface` as the winner of a race for `dest_hash`.
    fn record_winner(&mut self, dest_hash: &[u8], interface: String, now: u64)
        ensures
            final(self)@ == old(self)@.winner_known(dest_hash@, interface@, now),
    {
        let ghost shown = interface@;
        self.liveness.insert(dest_hash, (interface, now));
        assert(self@.liveness =~= old(self)@.liveness.insert(dest_hash@, (shown, now)));
    }

    /// Registers `dest_hash` and races a path to it. No link is built by this call; only a
    /// propagation destination gets one, once its race is won. While an attempt is in flight the
    /// destination only takes the new name and aspects: that attempt goes on, and no second one
    /// is made beside it.
    pub fn open(&mut self, dest_hash: &[u8], app_name: &str, aspects: &[&str], facts: LinkFacts) -> (
        effects: Vec<Effect<L>>)
        ensures
            (final(self)@, asked(effects@)) == old(self)@.open(
                dest_hash@,
                app_name@,
                slice_texts(aspects@),
                facts,
            ),
    {
        self.open_with_mode(dest_hash, app_name, aspects, LinkMode::PersistentLink, facts)
    }

    /// The same as [`AppLinks::open`].
    pub fn open_persistent(
        &mut self,
        dest_hash: &[u8],
        app_name: &str,
        aspects: &[&str],
        facts: LinkFacts,
    ) -> (effects: Vec<Effect<L>>)
        ensures
            (final(self)@, asked(effects@)) == old(self)@.open(
                dest_hash@,
                app_name@,
                slice_texts(aspects@),
                facts,
            ),
    {
        self.open(dest_hash, app_name, aspects, facts)
    }

    /// The same as [`AppLinks::open`], whatever the mode.
    pub fn open_with_mode(
        &mut self,
        dest_hash: &[u8],
        app_name: &str,
        aspects: &[&str],
        mode: LinkMode,
        facts: LinkFacts,
    ) -> (effects: Vec<Effect<L>>)
        ensures
            (final(self)@, asked(effects@)) == old(self)@.open(
                dest_hash@,
                app_name@,
                slice_texts(aspects@),
                facts,
            ),
    {
        let mut effects: Vec<Effect<L>> = Vec::new();
        if !self.announce_handler_installed {
            self.announce_handler_installed = true;
            effects.push(Effect::InstallAnnounceHandler);
        }
        let spec = AppLinkSpec::with_mode(app_name, own_texts(aspects), mode);
        let before = self.status(dest_hash, facts);
        let mut flags = Flags { attempt_in_flight: false, ever_established: false, latest: None };
        if let Some(present) = self.specs.get(dest_hash) {
            if present.flags.attempt_in_flight {
                flags.attempt_in_flight = true;
                flags.latest = present.flags.latest;
            }
        }
        let registration = Registration {
            app_name: spec.app_name,
            aspects: spec.aspects,
            mode: spec.mode,
            flags,
            number: self.past.len(),
        };
        let ghost shown = registration@;
        self.retire(dest_hash);
        self.past.push(Flags { attempt_in_flight: false, ever_established: false, latest: None });
        self.specs.insert(dest_hash, registration);
        effects.push(Effect::WatchAnnounce(slice_to_vec(dest_hash)));
        proof {
            let opened = old(self)@.registered(dest_hash@, app_name@, slice_texts(aspects@));
            assert(shown =~= opened.specs[dest_hash@]);
            assert(self@.specs =~= opened.specs);
            assert(self@.past =~= opened.past);
            assert(self@ =~= opened);
            assert(asked(effects@) =~= if old(self)@.handler_installed {
                seq![EffectView::<L>::WatchAnnounce(dest_hash@)]
            } else {
                seq![
                    EffectView::<L>::InstallAnnounceHandler,
                    EffectView::<L>::WatchAnnounce(dest_hash@),
                ]
            });
        }
        if before == APP_LINK_ACTIVE || before == APP_LINK_ESTABLISHING || before
            == APP_LINK_PATH_REQUESTED {
            return effects;
        }
        let mut attempt = self.establish(dest_hash, facts);
        let ghost (a, b) = (effects@, attempt@);
        effects.append(&mut attempt);
        assert(asked(effects@) =~= asked(a) + asked(b));
        effects
    }
}

/// What closing a destination asks for, and the links that are no longer held.
pub struct Closed<L> {
    pub effects: Vec<Effect<L>>,
    pub link: Option<L>,
    pub inbound: Option<L>,
}

/// What a change of policy asks for, and the links that are no longer held.
pub struct PolicyChange<L> {
    pub effects: Vec<Effect<L>>,
    pub links: DestMap<L>,
    pub inbound: DestMap<L>,
}

/// `held` is what the map holds under `key`.
pub open spec fn is_value<V>(held: Option<V>, map: Map<Seq<u8>, V>, key: Seq<u8>) -> bool {
    match held {
        Some(value) => map.contains_key(key) && value == map[key],
        None => !map.contains_key(key),
    }
}

impl<L, C> AppLinks<L, C> {
    /// Closes an app-link: it leaves the registry, and the links held for it are handed back
    /// to be dropped.
    pub fn close(&mut self, dest_hash: &[u8]) -> (closed: Closed<L>)
        ensures
            (final(self)@, asked(closed.effects@)) == old(self)@.close(dest_hash@),
            is_value(closed.link, old(self)@.links, dest_hash@),
            is_value(closed.inbound, old(self)@.inbound, dest_hash@),
    {
        self.retire(dest_hash);
        let was_registered = self.specs.remove(dest_hash).is_some();
        self.ready.remove(dest_hash);
        let link = self.links.remove(dest_hash);
        let inbound = self.inbound_links.remove(dest_hash);
        let mut effects: Vec<Effect<L>> = Vec::new();
        if was_registered {
            effects.push(plain_notice(dest_hash, APP_LINK_NONE, self.status_callbacks.len()));
        }
        proof {
            let expected = old(self)@.close(dest_hash@);
            assert(self@.specs =~= expected.0.specs);
            assert(asked(effects@) =~= expected.1);
        }
        Closed { effects, link, inbound }
    }

    /// Tracks a link that a peer opened to us and identified itself on. It is stored only if
    /// `dest_hash` is registered; what comes back beside that is a handle that is not held: the
    /// one that stood there before, or `link` itself.
    pub fn register_inbound(&mut self, dest_hash: &[u8], link: L) -> (registered: (bool, Option<L>))
        ensures
            registered.0 == old(self)@.specs.contains_key(dest_hash@),
            final(self)@ == old(self)@.inbound_held(dest_hash@, link),
            registered.0 ==> is_value(registered.1, old(self)@.inbound, dest_hash@),
            !registered.0 ==> registered.1 == Some(link),
    {
        if !self.contains(dest_hash) {
            return (false, Some(link));
        }
        (true, self.inbound_links.insert(dest_hash, link))
    }

    /// The link that a peer opened to us closed.
    pub fn inbound_closed(&mut self, dest_hash: &[u8]) -> (released: Option<L>)
        ensures
            final(self)@ == old(self)@.inbound_closed(dest_hash@),
            is_value(released, old(self)@.inbound, dest_hash@),
    {
        self.inbound_links.remove(dest_hash)
    }

    /// An announce came in: one fresh race, unless the destination is not registered, is
    /// active or is being raced for already.
    pub fn announce_received(&mut self, dest_hash: &[u8], facts: LinkFacts) -> (effects: Vec<
        Effect<L>,
    >)
        ensures
            (final(self)@, asked(effects@)) == old(self)@.announce_received(dest_hash@, facts),
    {
        self.establish(dest_hash, facts)
    }

    /// The registered destinations, each once, with what `facts` says of them.
    fn sightings(&self, facts: &DestMap<LinkFacts>) -> (seen: Vec<Sighting>)
        ensures
            self@.sights(sighted(seen@), facts@),
    {
        let dests = self.destinations();
        let mut seen: Vec<Sighting> = Vec::new();
        let mut i: usize = 0;
        while i < dests.len()
            invariant
                i <= dests@.len(),
                seen@.len() == i,
                forall|j: int|
                    0 <= j < i ==> (#[trigger] seen@[j]).dest@ == dests@[j]@ && seen@[j].facts
                        == facts_of(facts@, dests@[j]@),
            decreases dests@.len() - i,
        {
            let dest = slice_to_vec(dests[i].as_slice());
            let known = match facts.get(dests[i].as_slice()) {
                Some(known) => *known,
                None => LinkFacts { link_active: false, has_path: false },
            };
            seen.push(Sighting { dest, facts: known });
            i = i + 1;
        }
        proof {
            let list = sighted(seen@);
            assert forall|j: int| 0 <= j < list.len() implies (#[trigger] list[j]) == (
                dests@[j]@,
                facts_of(facts@, dests@[j]@),
            ) && self@.specs.contains_key(list[j].0) by {
                assert(seen@[j].dest@ == dests@[j]@);
            }
            assert forall|a: int, b: int|
                0 <= a < list.len() && 0 <= b < list.len() && (#[trigger] list[a]).0 == (
                #[trigger] list[b]).0 implies a == b by {
                assert(dests@[a]@ == dests@[b]@);
            }
            assert forall|dest: Seq<u8>| #[trigger] self@.specs.contains_key(dest) implies exists|
                j: int,
            | 0 <= j < list.len() && (#[trigger] list[j]).0 == dest by {
                assert(self@.specs.dom().contains(dest));
                let j = choose|j: int| 0 <= j < dests@.len() && (#[trigger] dests@[j])@ == dest;
                assert(list[j].0 == dest);
            }
        }
        seen
    }

    /// One fresh attempt for each sighted destination that is neither active nor
    /// establishing.
    fn attempt_candidates(&mut self, seen: &Vec<Sighting>) -> (effects: Vec<Effect<L>>)
        ensures
            (final(self)@, asked(effects@)) == old(self)@.attempt_each(
                old(self)@.candidates(sighted(seen@)),
            ),
    {
        let ghost start = self@;
        let ghost all = sighted(seen@);
        let mut chosen: Vec<usize> = Vec::new();
        let mut i: usize = 0;
        while i < seen.len()
            invariant
                self@ == start,
                all == sighted(seen@),
                i <= seen@.len(),
                forall|k: int| 0 <= k < chosen@.len() ==> (#[trigger] chosen@[k]) < seen@.len(),
                chosen@.map_values(|k: usize| all[k as int]) =~= start.candidates(
                    all.take(i as int),
                ),
            decreases seen@.len() - i,
        {
            let ghost before = chosen@;
            let status = self.status(seen[i].dest.as_slice(), seen[i].facts);
            if status != APP_LINK_ACTIVE && status != APP_LINK_ESTABLISHING {
                chosen.push(i);
                assert(chosen@.map_values(|k: usize| all[k as int]) =~= before.map_values(
                    |k: usize| all[k as int],
                ).push(all[i as int]));
            }
            proof {
                reveal(Seq::filter);
                let more = all.take(i + 1);
                assert(more.drop_last() =~= all.take(i as int));
                assert(more.last() == all[i as int]);
            }
            i = i + 1;
        }
        assert(all.take(all.len() as int) =~= all);
        let ghost which = start.candidates(all);
        let mut effects: Vec<Effect<L>> = Vec::new();
        assert(asked(effects@) =~= Seq::<EffectView<L>>::empty());
        assert(which.take(0) =~= Seq::<(Seq<u8>, LinkFacts)>::empty());
        let mut n: usize = 0;
        while n < chosen.len()
            invariant
                n <= chosen@.len(),
                all == sighted(seen@),
                forall|k: int| 0 <= k < chosen@.len() ==> (#[trigger] chosen@[k]) < seen@.len(),
                which == chosen@.map_values(|k: usize| all[k as int]),
                (self@, asked(effects@)) == start.attempt_each(which.take(n as int)),
            decreases chosen@.len() - n,
        {
            let sighting = &seen[chosen[n]];
            self.invalidate_liveness(sighting.dest.as_slice());
            let mut attempt = self.establish(sighting.dest.as_slice(), sighting.facts);
            let ghost (a, b) = (effects@, attempt@);
            effects.append(&mut attempt);
            proof {
                assert(asked(effects@) =~= asked(a) + asked(b));
                let more = which.take(n + 1);
                assert(more.drop_last() =~= which.take(n as int));
                assert(more.last() == (sighting.dest@, sighting.facts));
            }
            n = n + 1;
        }
        assert(which.take(which.len() as int) =~= which);
        effects
    }

    /// The network changed: in the foreground, one fresh attempt for every registered
    /// destination that is neither active nor establishing, in no particular order. `facts` says
    /// what the transport knows of them.
    pub fn network_changed(&mut self, facts: &DestMap<LinkFacts>) -> (effects: Vec<Effect<L>>)
        ensures
            exists|seen: Seq<(Seq<u8>, LinkFacts)>| #[trigger]
                old(self)@.sights(seen, facts@) && (final(self)@, asked(effects@)) == old(
                    self,
                )@.network_changed(seen),
    {
        let seen = self.sightings(facts);
        assert(old(self)@.sights(sighted(seen@), facts@));
        if self.policy != LinkPolicy::Foreground {
            let effects: Vec<Effect<L>> = Vec::new();
            assert(asked(effects@) =~= Seq::<EffectView<L>>::empty());
            return effects;
        }
        self.attempt_candidates(&seen)
    }

    /// Empties the registry of ready destinations and links, and reports each destination
    /// that was ready or linked as disconnected.
    fn clear_all_ready(&mut self) -> (change: PolicyChange<L>)
        ensures
            final(self)@ == old(self)@.cleared(),
            disconnects(
                asked(change.effects@),
                old(self)@.ready.dom().union(old(self)@.links.dom()),
                old(self)@.audience(),
            ),
            change.links@ == old(self)@.links,
            change.inbound@ == old(self)@.inbound,
    {
        let audience = self.status_callbacks.len();
        let ready = self.ready.take();
        let links = self.links.take();
        let inbound = self.inbound_links.take();
        let mut dests = ready.keys();
        let linked = links.keys();
        let ghost mut done = ready@.dom();
        let mut i: usize = 0;
        while i < linked.len()
            invariant
                i <= linked@.len(),
                lists_once(linked@, links@.dom()),
                lists_once(dests@, done),
                forall|key: Seq<u8>|
                    done.contains(key) <==> ready@.contains_key(key) || exists|j: int|
                        0 <= j < i && (#[trigger] linked@[j])@ == key,
            decreases linked@.len() - i,
        {
            let ghost key = linked@[i as int]@;
            let ghost done_before = done;
            if !ready.contains_key(linked[i].as_slice()) {
                let dest = slice_to_vec(linked[i].as_slice());
                proof {
                    assert(!done.contains(key)) by {
                        if done.contains(key) {
                            let j = choose|j: int| 0 <= j < i && (#[trigger] linked@[j])@ == key;
                            assert(j == i);
                        }
                    }
                    lemma_lists_once_push(dests@, done, dest);
                    done = done.insert(key);
                }
                dests.push(dest);
            }
            proof {
                assert forall|k: Seq<u8>|
                    done.contains(k) <==> ready@.contains_key(k) || exists|j: int|
                        0 <= j < i + 1 && (#[trigger] linked@[j])@ == k by {
                    if exists|j: int| 0 <= j < i + 1 && (#[trigger] linked@[j])@ == k {
                        let j = choose|j: int| 0 <= j < i + 1 && (#[trigger] linked@[j])@ == k;
                        if j < i {
                            assert(done_before.contains(k));
                        }
                    }
                    if done.contains(k) && !ready@.contains_key(k) {
                        if k == key {
                            assert(linked@[i as int]@ == k);
                        } else {
                            assert(done_before.contains(k));
                        }
                    }
                }
            }
            i = i + 1;
        }
        assert(done =~= ready@.dom().union(links@.dom()));
        let mut effects: Vec<Effect<L>> = Vec::new();
        let mut n: usize = 0;
        while n < dests.len()
            invariant
                n <= dests@.len(),
                effects@.len() == n,
                forall|j: int|
                    0 <= j < n ==> (#[trigger] effects@[j])@ == notice::<L>(
                        dests@[j]@,
                        APP_LINK_DISCONNECTED,
                        audience as nat,
                    ),
            decreases dests@.len() - n,
        {
            effects.push(plain_notice(dests[n].as_slice(), APP_LINK_DISCONNECTED, audience));
            n = n + 1;
        }
        proof {
            lemma_disconnects(asked(effects@), dests@, done, audience as nat);
        }
        PolicyChange { effects, links, inbound }
    }

    /// Changes the host lifecycle policy. Entering `Suspended` drops every ready entry and
    /// every link; leaving it gives every registered destination that is neither active nor
    /// establishing a fresh attempt, in no particular order. `facts` says what the transport
    /// knows of them.
    pub fn set_policy(&mut self, policy: LinkPolicy, facts: &DestMap<LinkFacts>) -> (change:
        PolicyChange<L>)
        ensures
            policy == LinkPolicy::Suspended && old(self)@.policy != policy ==> {
                &&& final(self)@ == old(self)@.under(policy).cleared()
                &&& disconnects(
                    asked(change.effects@),
                    old(self)@.ready.dom().union(old(self)@.links.dom()),
                    old(self)@.audience(),
                )
                &&& change.links@ == old(self)@.links
                &&& change.inbound@ == old(self)@.inbound
            },
            policy != LinkPolicy::Suspended || old(self)@.policy == policy ==> {
                &&& exists|seen: Seq<(Seq<u8>, LinkFacts)>| #[trigger]
                    old(self)@.sights(seen, facts@) && (final(self)@, asked(change.effects@))
                        == old(self)@.relaxed(policy, seen)
                &&& change.links@ == Map::<Seq<u8>, L>::empty()
                &&& change.inbound@ == Map::<Seq<u8>, L>::empty()
            },
    {
        let prev = self.policy;
        let seen = self.sightings(facts);
        assert(old(self)@.sights(sighted(seen@), facts@));
        self.policy = policy;
        assert(self@ =~= old(self)@.under(policy));
        if prev != policy && policy == LinkPolicy::Suspended {
            return self.clear_all_ready();
        }
        let mut effects: Vec<Effect<L>> = Vec::new();
        assert(asked(effects@) =~= Seq::<EffectView<L>>::empty());
        if prev == LinkPolicy::Suspended && policy != LinkPolicy::Suspended {
            effects = self.attempt_candidates(&seen);
        }
        PolicyChange { effects, links: DestMap::new(), inbound: DestMap::new() }
    }
}

impl<L, C> AppLinks<L, C> {
    /// A path race ended. On success the destination is ready; a propagation destination then
    /// gets a link of its own and stays in flight until that is settled.
    pub fn race_finished(&mut self, job: RaceJob, result: Result<String, SendErr>, now: u64) -> (
        effects: Vec<Effect<L>>)
        ensures
            (final(self)@, asked(effects@)) == match result {
                Ok(interface) => old(self)@.race_won(job@, interface@, now),
                Err(_) => old(self)@.race_lost(job@),
            },
    {
        let audience = self.status_callbacks.len();
        let dest = job.dest.as_slice();
        let mut effects: Vec<Effect<L>> = Vec::new();
        match result {
            Ok(interface) => {
                self.ready.insert(dest, now);
                self.mark_established(dest, job.attempt);
                self.record_winner(dest, interface, now);
                if job.propagation {
                    let ghost shown = job@;
                    effects.push(
                        Effect::StartPersistentLink(
                            LinkJob {
                                dest: job.dest,
                                attempt: job.attempt,
                                app_name: job.app_name,
                                aspects: job.aspects,
                                audience,
                            },
                        ),
                    );
                    proof {
                        let expected = old(self)@.race_won(shown, interface@, now);
                        assert(self@ =~= expected.0);
                        assert(asked(effects@) =~= expected.1);
                    }
                } else {
                    self.release(dest, job.attempt);
                    effects.push(plain_notice(dest, APP_LINK_ACTIVE, audience));
                    proof {
                        let expected = old(self)@.race_won(job@, interface@, now);
                        assert(self@ =~= expected.0);
                        assert(asked(effects@) =~= expected.1);
                    }
                }
            },
            Err(_) => {
                self.release(dest, job.attempt);
                effects.push(plain_notice(dest, APP_LINK_DISCONNECTED, audience));
                assert(asked(effects@) =~= old(self)@.race_lost(job@).1);
            },
        }
        effects
    }

    /// Takes in the persistent link that was built for `job`: `built` is two handles of it,
    /// one to hold and one to hand to the host, or `None` when it could not be built. The
    /// attempt stays in flight until the link is active or closed. A handle that was held
    /// before is handed back.
    pub fn start_persistent_link(&mut self, job: &LinkJob, built: Option<(L, L)>) -> (started: (
        Vec<Effect<L>>,
        Option<L>,
    ))
        ensures
            (final(self)@, asked(started.0@)) == match built {
                Some((link, shared)) => old(self)@.link_held(job@, link, shared),
                None => old(self)@.link_unavailable(job@),
            },
            match built {
                Some(_) => is_value(started.1, old(self)@.links, job@.dest),
                None => started.1 is None,
            },
    {
        let dest = job.dest.as_slice();
        let mut effects: Vec<Effect<L>> = Vec::new();
        match built {
            None => {
                self.release(dest, job.attempt);
                effects.push(plain_notice(dest, APP_LINK_DISCONNECTED, job.audience));
                assert(asked(effects@) =~= old(self)@.link_unavailable(job@).1);
                (effects, None)
            },
            Some((link, shared)) => {
                let replaced = self.links.insert(dest, link);
                effects.push(
                    Effect::Notify(
                        StatusChange {
                            dest: slice_to_vec(dest),
                            status: APP_LINK_ESTABLISHING,
                            link: Some(shared),
                            audience: job.audience,
                        },
                    ),
                );
                effects.push(Effect::InitiateLink(slice_to_vec(dest)));
                assert(asked(effects@) =~= old(self)@.link_held(job@, link, shared).1);
                (effects, replaced)
            },
        }
    }

    /// The persistent link is active: the attempt has resolved.
    pub fn persistent_link_established(&mut self, job: &LinkJob, link: L) -> (effects: Vec<
        Effect<L>,
    >)
        ensures
            (final(self)@, asked(effects@)) == old(self)@.link_established(job@, link),
    {
        self.release(job.dest.as_slice(), job.attempt);
        let mut effects: Vec<Effect<L>> = Vec::new();
        effects.push(
            Effect::Notify(
                StatusChange {
                    dest: slice_to_vec(job.dest.as_slice()),
                    status: APP_LINK_ACTIVE,
                    link: Some(link),
                    audience: job.audience,
                },
            ),
        );
        assert(asked(effects@) =~= old(self)@.link_established(job@, link).1);
        effects
    }

    /// The persistent link closed. This reports the loss and nothing more: no new attempt is
    /// made on that account. The handle that was held is handed back.
    pub fn persistent_link_closed(&mut self, job: &LinkJob) -> (closed: (
        Vec<Effect<L>>,
        Option<L>,
    ))
        ensures
            (final(self)@, asked(closed.0@)) == old(self)@.link_closed(job@),
            is_value(closed.1, old(self)@.links, job@.dest),
    {
        let dest = job.dest.as_slice();
        self.ready.remove(dest);
        let link = self.links.remove(dest);
        assert(self@ =~= old(self)@.dropped(job@.dest));
        self.release(dest, job.attempt);
        let mut effects: Vec<Effect<L>> = Vec::new();
        effects.push(plain_notice(dest, APP_LINK_DISCONNECTED, job.audience));
        assert(asked(effects@) =~= old(self)@.link_closed(job@).1);
        (effects, link)
    }

    /// The link that a send built closed: it is no longer held, the destination is no longer
    /// ready, and its latest race is forgotten. `audience` is how many status callbacks there
    /// were when the link came to be held.
    pub fn send_link_closed(&mut self, dest_hash: &[u8], audience: usize) -> (closed: (
        Vec<Effect<L>>,
        Option<L>,
    ))
        ensures
            (final(self)@, asked(closed.0@)) == old(self)@.send_link_closed(
                dest_hash@,
                audience as nat,
            ),
            is_value(closed.1, old(self)@.links, dest_hash@),
    {
        self.ready.remove(dest_hash);
        let link = self.links.remove(dest_hash);
        assert(self@ =~= old(self)@.dropped(dest_hash@));
        self.invalidate_liveness(dest_hash);
        let mut effects: Vec<Effect<L>> = Vec::new();
        effects.push(plain_notice(dest_hash, APP_LINK_DISCONNECTED, audience));
        assert(asked(effects@) =~= old(self)@.send_link_closed(dest_hash@, audience as nat).1);
        (effects, link)
    }

    /// The application name and aspects under which a send builds a link to `dest_hash`:
    /// those it is registered with, else those of LXMF delivery.
    pub fn link_target(&self, dest_hash: &[u8]) -> (target: (String, Vec<String>))
        ensures
            (target.0@, texts(target.1@)) == self@.link_target(dest_hash@),
    {
        match self.specs.get(dest_hash) {
            Some(spec) => (spec.app_name.clone(), copy_texts(&spec.aspects)),
            None => {
                let mut aspects: Vec<String> = Vec::new();
                aspects.push("delivery".to_owned());
                assert(texts(aspects@) =~= seq!["delivery"@]);
                ("lxmf".to_owned(), aspects)
            },
        }
    }

    /// Starts a send: its state, what to do first, and after how many milliseconds the
    /// propagation timer runs out. The timer runs beside the tiers.
    pub fn send() -> (started: (TierChain, ChainAction, u64))
        ensures
            started == (TierChain::initial(), ChainAction::FindInbound, PROP_FALLBACK_DELAY),
    {
        let (chain, action) = TierChain::new();
        (chain, action, PROP_FALLBACK_DELAY)
    }

    /// Takes a send one step further. What the step brought is kept for later sends: the
    /// winner of its race, and its link once that is established, which is reported if the
    /// destination is registered. A winner that is still fresh at `now` spares the send its race.
    pub fn advance_send(
        &mut self,
        dest_hash: &[u8],
        send: &mut TierChain,
        event: SendEvent<L>,
        now: u64,
    ) -> (step: SendStep<L>)
        ensures
            (*final(send), step.action) == old(send).next(
                event.plain(),
                old(self)@.fresh_winner(dest_hash@, now) is Some,
            ),
            (final(self)@, asked(step.effects@)) == old(self)@.send_step(
                dest_hash@,
                old(send).stage,
                event,
                now,
            ),
            step.audience == old(self)@.audience(),
            match event {
                SendEvent::LinkEstablished(link, shared) => {
                    &&& if old(send).stage == ChainStage::Tier3Establish {
                        is_value(step.released, old(self)@.links, dest_hash@)
                    } else {
                        step.released == Some(link)
                    }
                    &&& step.unreported == if step.effects@.len() == 0 {
                        Some(shared)
                    } else {
                        None
                    }
                },
                _ => step.released is None && step.unreported is None,
            },
    {
        let audience = self.status_callbacks.len();
        let stage = send.stage;
        let fresh = self.liveness_winner(dest_hash, now).is_some();
        let plain = event.to_chain_event();
        let action = send.step(plain, fresh);
        let mut effects: Vec<Effect<L>> = Vec::new();
        assert(asked(effects@) =~= Seq::<EffectView<L>>::empty());
        let mut released: Option<L> = None;
        let mut unreported: Option<L> = None;
        match event {
            SendEvent::Raced(Ok(interface)) => {
                if stage == ChainStage::Tier3Race {
                    self.record_winner(dest_hash, interface, now);
                }
            },
            SendEvent::LinkEstablished(link, shared) => {
                if stage == ChainStage::Tier3Establish {
                    self.ready.insert(dest_hash, now);
                    released = self.links.insert(dest_hash, link);
                    if self.contains(dest_hash) {
                        effects.push(
                            Effect::Notify(
                                StatusChange {
                                    dest: slice_to_vec(dest_hash),
                                    status: APP_LINK_ACTIVE,
                                    link: Some(shared),
                                    audience,
                                },
                            ),
                        );
                    } else {
                        unreported = Some(shared);
                    }
                    proof {
                        let expected = old(self)@.send_link_held(dest_hash@, link, shared, now);
                        assert(self@ =~= expected.0);
                        assert(asked(effects@) =~= expected.1);
                    }
                } else {
                    released = Some(link);
                    unreported = Some(shared);
                }
            },
            _ => {},
        }
        SendStep { action, effects, released, unreported, audience }
    }
}

/// Takes news of an attempt into a list of flags.
fn settle_flags(flags: &mut Vec<Flags>, attempt: u64, ready: bool, over: bool)
    ensures
        final(flags)@ == settle_all(old(flags)@, attempt, ready, over),
{
    let mut i: usize = 0;
    while i < flags.len()
        invariant
            i <= flags@.len(),
            flags@.len() == old(flags)@.len(),
            forall|j: int|
                0 <= j < i ==> (#[trigger] flags@[j]) == old(flags)@[j].settled(
                    attempt,
                    ready,
                    over,
                ),
            forall|j: int| i <= j < flags@.len() ==> (#[trigger] flags@[j]) == old(flags)@[j],
        decreases flags@.len() - i,
    {
        let mut now = flags[i];
        if now.latest == Some(attempt) {
            if ready {
                now.ever_established = true;
            }
            if over {
                now.attempt_in_flight = false;
            }
            flags.set(i, now);
        }
        i = i + 1;
    }
    assert(flags@ =~= settle_all(old(flags)@, attempt, ready, over));
}

/// Reporting each destination of a list once.
proof fn lemma_disconnects<L>(
    effects: Seq<EffectView<L>>,
    order: Seq<Vec<u8>>,
    dests: Set<Seq<u8>>,
    audience: nat,
)
    requires
        lists_once(order, dests),
        effects.len() == order.len(),
        forall|j: int|
            0 <= j < order.len() ==> (#[trigger] effects[j]) == notice::<L>(
                order[j]@,
                APP_LINK_DISCONNECTED,
                audience,
            ),
    ensures
        disconnects(effects, dests, audience),
{
    assert forall|i: int, j: int|
        0 <= i < effects.len() && 0 <= j < effects.len() && i != j implies effects[i]
        != effects[j] by {
        assert(order[i]@ != order[j]@);
    }
    assert forall|dest: Seq<u8>| dests.contains(dest) implies effects.contains(
        #[trigger] notice(dest, APP_LINK_DISCONNECTED, audience),
    ) by {
        let i = choose|i: int| 0 <= i < order.len() && (#[trigger] order[i])@ == dest;
        assert(effects[i] == notice::<L>(dest, APP_LINK_DISCONNECTED, audience));
    }
    assert forall|i: int| 0 <= i < effects.len() implies exists|dest: Seq<u8>|
        dests.contains(dest) && (#[trigger] effects[i]) == #[trigger] notice::<L>(
            dest,
            APP_LINK_DISCONNECTED,
            audience,
        ) by {
        assert(dests.contains(order[i]@));
        assert(effects[i] == notice::<L>(order[i]@, APP_LINK_DISCONNECTED, audience));
    }
}

/// The texts in a list of string slices.
pub open spec fn slice_texts(list: Seq<&str>) -> Seq<Seq<char>> {
    list.map_values(|s: &str| s@)
}

/// Owned copies of a list of string slices.
fn own_texts(list: &[&str]) -> (owned: Vec<String>)
    ensures
        texts(owned@) == slice_texts(list@),
{
    let mut owned: Vec<String> = Vec::new();
    let mut i: usize = 0;
    while i < list.len()
        invariant
            i <= list@.len(),
            owned@.len() == i,
            forall|j: int| 0 <= j < i ==> (#[trigger] owned@[j])@ == list@[j]@,
        decreases list@.len() - i,
    {
        owned.push(list[i].to_owned());
        i = i + 1;
    }
    assert(texts(owned@) =~= slice_texts(list@));
    owned
}

} // verus!
