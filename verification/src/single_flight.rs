//! Concurrent triggers collapse into one race.
//!
//! A history of a registry is followed together with the races that its driver is running and
//! the links that it was asked to build. Whatever the driver reports of these, and in whatever
//! order, no destination has two races running at once for as long as it stays registered.
use crate::effects::{EffectView, LinkJobView, RaceJobView};
use crate::registry::{LinkFacts, LinksView};
use crate::registry_laws::{lemma_races_add, lemma_races_establish, races};
use crate::types::{LinkPolicy, APP_LINK_DISCONNECTED, APP_LINK_NONE};
use vstd::prelude::*;

verus! {

/// Anything that can happen to a registry.
pub enum Happening<L, C> {
    Open { dest: Seq<u8>, app_name: Seq<char>, aspects: Seq<Seq<char>>, facts: LinkFacts },
    Close(Seq<u8>),
    Announce(Seq<u8>, LinkFacts),
    NetworkChange(Seq<(Seq<u8>, LinkFacts)>),
    Suspend,
    Relax(LinkPolicy, Seq<(Seq<u8>, LinkFacts)>),
    RaceWon(RaceJobView, Seq<char>, u64),
    RaceLost(RaceJobView),
    LinkHeld(LinkJobView, L, L),
    LinkUnavailable(LinkJobView),
    LinkEstablished(LinkJobView, L),
    LinkClosed(LinkJobView),
    Subscribe(C),
    InboundHeld(Seq<u8>, L),
    InboundClosed(Seq<u8>),
    Invalidate(Seq<u8>),
    SendWinner(Seq<u8>, Seq<char>, u64),
    SendLinkHeld(Seq<u8>, L, L, u64),
    SendLinkClosed(Seq<u8>, nat),
}

/// What a happening does to a registry, and which effects it asks for where their order is
/// settled. (Suspending asks for reports only.)
pub open spec fn happens<L, C>(links: LinksView<L, C>, what: Happening<L, C>) -> (
    LinksView<L, C>,
    Seq<EffectView<L>>,
) {
    match what {
        Happening::Open { dest, app_name, aspects, facts } => links.open(
            dest,
            app_name,
            aspects,
            facts,
        ),
        Happening::Close(dest) => links.close(dest),
        Happening::Announce(dest, facts) => links.announce_received(dest, facts),
        Happening::NetworkChange(seen) => links.network_changed(seen),
        Happening::Suspend => (links.under(LinkPolicy::Suspended).cleared(), seq![]),
        Happening::Relax(policy, seen) => links.relaxed(policy, seen),
        Happening::RaceWon(job, interface, now) => links.race_won(job, interface, now),
        Happening::RaceLost(job) => links.race_lost(job),
        Happening::LinkHeld(job, link, shared) => links.link_held(job, link, shared),
        Happening::LinkUnavailable(job) => links.link_unavailable(job),
        Happening::LinkEstablished(job, link) => links.link_established(job, link),
        Happening::LinkClosed(job) => links.link_closed(job),
        Happening::Subscribe(callback) => (links.subscribed(callback), seq![]),
        Happening::InboundHeld(dest, link) => (links.inbound_held(dest, link), seq![]),
        Happening::InboundClosed(dest) => (links.inbound_closed(dest), seq![]),
        Happening::Invalidate(dest) => (links.invalidate(dest), seq![]),
        Happening::SendWinner(dest, interface, now) => (
            links.winner_known(dest, interface, now),
            seq![],
        ),
        Happening::SendLinkHeld(dest, link, shared, now) => links.send_link_held(
            dest,
            link,
            shared,
            now,
        ),
        Happening::SendLinkClosed(dest, audience) => links.send_link_closed(dest, audience),
    }
}

/// A registry and what its driver has at hand. Races and links go by their destination and the
/// number of their attempt.
#[verifier::ext_equal]
pub struct World<L, C> {
    pub links: LinksView<L, C>,
    /// The races running for destinations that have stayed registered since the start.
    pub running: Set<(Seq<u8>, u64)>,
    /// The races running for destinations that were closed meanwhile.
    pub orphaned: Set<(Seq<u8>, u64)>,
    /// The links that the driver was asked to build.
    pub linked: Set<(Seq<u8>, u64)>,
    /// How many races have been started.
    pub count: nat,
}

/// How many races are started.
pub open spec fn total<L>(effects: Seq<EffectView<L>>) -> nat
    decreases effects.len(),
{
    if effects.len() == 0 {
        0
    } else {
        total(effects.drop_last()) + if effects.last() is StartRace {
            1nat
        } else {
            0nat
        }
    }
}

/// The races that a list of effects starts.
pub open spec fn started<L>(effects: Seq<EffectView<L>>) -> Set<(Seq<u8>, u64)> {
    Set::new(
        |key: (Seq<u8>, u64)|
            exists|i: int|
                0 <= i < effects.len() && (#[trigger] effects[i] matches EffectView::StartRace(job)
                    && (job.dest, job.attempt) == key),
    )
}

/// The links that a list of effects asks for.
pub open spec fn commissioned<L>(effects: Seq<EffectView<L>>) -> Set<(Seq<u8>, u64)> {
    Set::new(
        |key: (Seq<u8>, u64)|
            exists|i: int|
                0 <= i < effects.len() && (
                #[trigger] effects[i] matches EffectView::StartPersistentLink(job) && (
                    job.dest,
                    job.attempt,
                ) == key),
    )
}

/// The races that a happening reports the end of.
pub open spec fn ended<L, C>(what: Happening<L, C>) -> Set<(Seq<u8>, u64)> {
    match what {
        Happening::RaceWon(job, _, _) => set![(job.dest, job.attempt)],
        Happening::RaceLost(job) => set![(job.dest, job.attempt)],
        _ => Set::empty(),
    }
}

/// The races that lose their registration by a happening.
pub open spec fn cut_off<L, C>(running: Set<(Seq<u8>, u64)>, what: Happening<L, C>) -> Set<
    (Seq<u8>, u64),
> {
    match what {
        Happening::Close(dest) => running.filter(|key: (Seq<u8>, u64)| key.0 == dest),
        _ => Set::empty(),
    }
}

impl<L, C> World<L, C> {
    /// Nothing is registered and nothing runs.
    pub open spec fn initial() -> Self {
        World {
            links: LinksView::empty(),
            running: Set::empty(),
            orphaned: Set::empty(),
            linked: Set::empty(),
            count: 0,
        }
    }

    pub open spec fn after(self, what: Happening<L, C>) -> Self {
        let (links, effects) = happens(self.links, what);
        let cut = cut_off(self.running, what);
        World {
            links,
            running: self.running.difference(ended(what)).difference(cut).union(started(effects)),
            orphaned: self.orphaned.difference(ended(what)).union(cut),
            linked: self.linked.union(commissioned(effects)),
            count: self.count + total(effects),
        }
    }

    /// A driver can report this now: it reports the end of races that it runs, and news of links
    /// that it was asked to build.
    pub open spec fn possible(self, what: Happening<L, C>) -> bool {
        match what {
            Happening::RaceWon(job, _, _) => self.races((job.dest, job.attempt)),
            Happening::RaceLost(job) => self.races((job.dest, job.attempt)),
            Happening::LinkHeld(job, _, _) => self.linked.contains((job.dest, job.attempt)),
            Happening::LinkUnavailable(job) => self.linked.contains((job.dest, job.attempt)),
            Happening::LinkEstablished(job, _) => self.linked.contains((job.dest, job.attempt)),
            Happening::LinkClosed(job) => self.linked.contains((job.dest, job.attempt)),
            _ => true,
        }
    }

    /// The driver runs this race.
    pub open spec fn races(self, key: (Seq<u8>, u64)) -> bool {
        self.running.contains(key) || self.orphaned.contains(key)
    }

    /// Attempts are numbered one by one; every race that runs for a registered destination is
    /// that of its latest attempt, which is in flight; and a race that led to a link is over.
    pub open spec fn sound(self) -> bool {
        &&& self.links.next_attempt == self.count
        &&& forall|key: (Seq<u8>, u64)| #[trigger]
            self.linked.contains(key) ==> key.1 < self.count && !self.running.contains(key)
        &&& forall|key: (Seq<u8>, u64)| #[trigger] self.orphaned.contains(key) ==> key.1 < self.count
        &&& forall|key: (Seq<u8>, u64)| #[trigger]
            self.running.contains(key) ==> {
                &&& key.1 < self.count
                &&& self.links.is_current(key.0, key.1)
                &&& self.links.specs[key.0].attempt_in_flight
            }
    }
}

/// The world after a history.
pub open spec fn world<L, C>(whats: Seq<Happening<L, C>>) -> World<L, C>
    decreases whats.len(),
{
    if whats.len() == 0 {
        World::initial()
    } else {
        world(whats.drop_last()).after(whats.last())
    }
}

/// Whether a driver can bring a history about.
pub open spec fn can_happen<L, C>(whats: Seq<Happening<L, C>>) -> bool
    decreases whats.len(),
{
    whats.len() == 0 || (can_happen(whats.drop_last()) && world(whats.drop_last()).possible(
        whats.last(),
    ))
}

/// Counting over a concatenation.
proof fn lemma_total_add<L>(a: Seq<EffectView<L>>, b: Seq<EffectView<L>>)
    ensures
        total(a + b) == total(a) + total(b),
    decreases b.len(),
{
    if b.len() == 0 {
        assert(a + b =~= a);
    } else {
        assert((a + b).drop_last() =~= a + b.drop_last());
        lemma_total_add(a, b.drop_last());
    }
}

/// What a list of effects of attempts starts, given the states before and after.
spec fn started_from<L, C>(
    before: LinksView<L, C>,
    after: LinksView<L, C>,
    effects: Seq<EffectView<L>>,
) -> bool {
    &&& after.specs.dom() == before.specs.dom()
    &&& after.next_attempt == before.next_attempt + total(effects)
    &&& forall|dest: Seq<u8>|
        before.specs.contains_key(dest) && before.specs[dest].attempt_in_flight ==> #[trigger]
            after.specs[dest] == before.specs[dest]
    &&& forall|i: int|
        0 <= i < effects.len() && (#[trigger] effects[i]) is StartRace ==> {
            let job = effects[i]->StartRace_0;
            &&& before.specs.contains_key(job.dest)
            &&& !before.specs[job.dest].attempt_in_flight
            &&& after.specs[job.dest].attempt_in_flight
            &&& after.specs[job.dest].latest == Some(job.attempt)
            &&& before.next_attempt <= job.attempt < after.next_attempt
        }
    &&& forall|i: int|
        0 <= i < effects.len() ==> !((#[trigger] effects[i]) is StartPersistentLink)
    &&& forall|dest: Seq<u8>| #[trigger] races(effects, dest) <= 1
    &&& forall|dest: Seq<u8>|
        #![trigger races(effects, dest)]
        races(effects, dest) > 0 ==> {
            &&& before.specs.contains_key(dest)
            &&& !before.specs[dest].attempt_in_flight
            &&& after.specs[dest].attempt_in_flight
        }
}

/// One attempt.
proof fn lemma_establish_starts<L, C>(links: LinksView<L, C>, dest: Seq<u8>, facts: LinkFacts)
    requires
        links.next_attempt + total(links.establish(dest, facts).1) <= u64::MAX,
    ensures
        started_from(links, links.establish(dest, facts).0, links.establish(dest, facts).1),
{
    let (after, effects) = links.establish(dest, facts);
    assert(after.specs.dom() =~= links.specs.dom());
    assert forall|d: Seq<u8>| #[trigger] races(effects, d) == if links.may_start(dest, facts) && d
        == dest {
        1nat
    } else {
        0nat
    } by {
        lemma_races_establish(links, dest, facts, d);
    }
    if links.may_start(dest, facts) {
        reveal_with_fuel(total, 3);
        assert(effects.drop_last().drop_last() =~= Seq::<EffectView<L>>::empty());
        assert(effects.drop_last().last() == effects[0]);
        assert(total(effects) == 1);
    } else {
        assert(effects =~= Seq::<EffectView<L>>::empty());
    }
}

/// Attempts one after the other.
proof fn lemma_starts_compose<L, C>(
    a: LinksView<L, C>,
    b: LinksView<L, C>,
    c: LinksView<L, C>,
    first: Seq<EffectView<L>>,
    second: Seq<EffectView<L>>,
)
    requires
        started_from(a, b, first),
        started_from(b, c, second),
    ensures
        started_from(a, c, first + second),
{
    let all = first + second;
    lemma_total_add(first, second);
    assert forall|d: Seq<u8>| #[trigger] races(all, d) == races(first, d) + races(second, d) by {
        lemma_races_add(first, second, d);
    }
    assert forall|d: Seq<u8>| a.specs.contains_key(d) == #[trigger] b.specs.contains_key(d) by {
        assert(a.specs.dom().contains(d) == b.specs.dom().contains(d));
    }
    assert forall|d: Seq<u8>|
        a.specs.contains_key(d) && a.specs[d].attempt_in_flight implies #[trigger] c.specs[d]
        == a.specs[d] by {
        assert(b.specs.contains_key(d));
        assert(b.specs[d] == a.specs[d]);
    }
    assert forall|i: int| 0 <= i < all.len() && (#[trigger] all[i]) is StartRace implies {
        let job = all[i]->StartRace_0;
        &&& a.specs.contains_key(job.dest)
        &&& !a.specs[job.dest].attempt_in_flight
        &&& c.specs[job.dest].attempt_in_flight
        &&& c.specs[job.dest].latest == Some(job.attempt)
        &&& a.next_attempt <= job.attempt < c.next_attempt
    } by {
        let d = all[i]->StartRace_0.dest;
        assert(b.specs.contains_key(d) == a.specs.contains_key(d));
        if i < first.len() {
            assert(all[i] == first[i]);
            assert(c.specs[d] == b.specs[d]);
        } else {
            assert(all[i] == second[i - first.len()]);
            if a.specs[d].attempt_in_flight {
                assert(b.specs[d] == a.specs[d]);
            }
        }
    }
    assert forall|i: int| 0 <= i < all.len() implies !((#[trigger] all[i]) is StartPersistentLink) by {
        if i < first.len() {
            assert(all[i] == first[i]);
        } else {
            assert(all[i] == second[i - first.len()]);
        }
    }
    assert forall|d: Seq<u8>|
        #![trigger races(all, d)]
        races(all, d) <= 1 && (races(all, d) > 0 ==> {
            &&& a.specs.contains_key(d)
            &&& !a.specs[d].attempt_in_flight
            &&& c.specs[d].attempt_in_flight
        }) by {
        assert(b.specs.contains_key(d) == a.specs.contains_key(d));
        assert(races(first, d) <= 1);
        assert(races(second, d) <= 1);
        if races(first, d) > 0 {
            assert(c.specs[d] == b.specs[d]);
        }
        if races(second, d) > 0 && a.specs[d].attempt_in_flight {
            assert(b.specs[d] == a.specs[d]);
        }
    }
}

/// A run of attempts.
proof fn lemma_attempt_each_starts<L, C>(
    links: LinksView<L, C>,
    which: Seq<(Seq<u8>, LinkFacts)>,
)
    requires
        links.next_attempt + total(links.attempt_each(which).1) <= u64::MAX,
    ensures
        started_from(links, links.attempt_each(which).0, links.attempt_each(which).1),
    decreases which.len(),
{
    if which.len() > 0 {
        let before = links.attempt_each(which.drop_last());
        let forgot = before.0.invalidate(which.last().0);
        let last = forgot.establish(which.last().0, which.last().1);
        lemma_total_add(before.1, last.1);
        lemma_attempt_each_starts(links, which.drop_last());
        assert(started_from(links, forgot, before.1));
        lemma_establish_starts(forgot, which.last().0, which.last().1);
        lemma_starts_compose(links, forgot, last.0, before.1, last.1);
    } else {
        assert(links.attempt_each(which).1 =~= Seq::<EffectView<L>>::empty());
    }
}

/// No race that `effects` starts is for a destination that has one running.
spec fn no_second<L>(running: Set<(Seq<u8>, u64)>, effects: Seq<EffectView<L>>) -> bool {
    &&& forall|i: int, attempt: u64|
        0 <= i < effects.len() && (#[trigger] effects[i]) is StartRace ==> !(
        #[trigger] running.contains((effects[i]->StartRace_0.dest, attempt)))
    &&& forall|dest: Seq<u8>| #[trigger] races(effects, dest) <= 1
}

/// A step that only attempts keeps a world sound and starts no second race.
proof fn lemma_attempts_keep_sound<L, C>(
    before: World<L, C>,
    links: LinksView<L, C>,
    effects: Seq<EffectView<L>>,
)
    requires
        before.sound(),
        started_from(before.links, links, effects),
    ensures
        (World {
            links,
            running: before.running.union(started(effects)),
            count: before.count + total(effects),
            ..before
        }).sound(),
        commissioned(effects) == Set::<(Seq<u8>, u64)>::empty(),
        no_second(before.running, effects),
{
    let after = World {
        links,
        running: before.running.union(started(effects)),
        count: before.count + total(effects),
        ..before
    };
    assert(commissioned(effects) =~= Set::<(Seq<u8>, u64)>::empty());
    assert forall|key: (Seq<u8>, u64)| #[trigger] after.running.contains(key) implies {
        &&& key.1 < after.count
        &&& links.is_current(key.0, key.1)
        &&& links.specs[key.0].attempt_in_flight
        &&& (before.running.contains(key) || key.1 >= before.count)
    } by {
        if before.running.contains(key) {
            assert(before.links.is_current(key.0, key.1));
            assert(links.specs.dom().contains(key.0));
            assert(links.specs[key.0] == before.links.specs[key.0]);
        } else {
            let i = choose|i: int|
                0 <= i < effects.len() && (#[trigger] effects[i] matches EffectView::StartRace(job)
                    && (job.dest, job.attempt) == key);
            assert(effects[i] is StartRace);
            assert(links.specs.dom().contains(key.0));
        }
    }
    assert forall|key: (Seq<u8>, u64)| #[trigger] after.linked.contains(key) implies key.1
        < after.count && !after.running.contains(key) by {
        assert(before.linked.contains(key));
    }
    assert forall|i: int, attempt: u64|
        0 <= i < effects.len() && (#[trigger] effects[i]) is StartRace implies !(
    #[trigger] before.running.contains((effects[i]->StartRace_0.dest, attempt))) by {
        if before.running.contains((effects[i]->StartRace_0.dest, attempt)) {
            assert(before.links.is_current(effects[i]->StartRace_0.dest, attempt));
        }
    }
}

/// Opening keeps a world sound and starts no second race.
proof fn lemma_open_keeps_sound<L, C>(
    before: World<L, C>,
    dest: Seq<u8>,
    app_name: Seq<char>,
    aspects: Seq<Seq<char>>,
    facts: LinkFacts,
)
    requires
        before.sound(),
        before.count + total(before.links.open(dest, app_name, aspects, facts).1) <= u64::MAX,
    ensures
        ({
            let (links, effects) = before.links.open(dest, app_name, aspects, facts);
            &&& (World {
                links,
                running: before.running.union(started(effects)),
                count: before.count + total(effects),
                ..before
            }).sound()
            &&& commissioned(effects) == Set::<(Seq<u8>, u64)>::empty()
            &&& no_second(before.running, effects)
        }),
{
    let (links, effects) = before.links.open(dest, app_name, aspects, facts);
    let opened = before.links.registered(dest, app_name, aspects);
    let mid = World { links: opened, ..before };
    assert(mid.sound()) by {
        assert forall|key: (Seq<u8>, u64)| #[trigger] mid.running.contains(key) implies {
            &&& opened.is_current(key.0, key.1)
            &&& opened.specs[key.0].attempt_in_flight
        } by {
            assert(before.running.contains(key));
            assert(before.links.is_current(key.0, key.1));
        }
    }
    let prepare: Seq<EffectView<L>> = if before.links.handler_installed {
        seq![EffectView::WatchAnnounce(dest)]
    } else {
        seq![EffectView::InstallAnnounceHandler, EffectView::WatchAnnounce(dest)]
    };
    assert(started_from(before.links, before.links, prepare)) by {
        assert forall|d: Seq<u8>| #[trigger] races(prepare, d) == 0 by {
            lemma_no_races(prepare, d);
        }
        lemma_no_races(prepare, seq![]);
    }
    assert(started_from(opened, opened, prepare));
    let status = before.links.status(dest, facts);
    if status == APP_LINK_NONE || status == APP_LINK_DISCONNECTED {
        let attempt = opened.establish(dest, facts);
        lemma_total_add(prepare, attempt.1);
        lemma_establish_starts(opened, dest, facts);
        lemma_starts_compose(opened, opened, attempt.0, prepare, attempt.1);
        lemma_attempts_keep_sound(mid, attempt.0, effects);
    } else {
        lemma_attempts_keep_sound(mid, opened, effects);
    }
}

/// Counting races where none is started.
proof fn lemma_no_races<L>(effects: Seq<EffectView<L>>, dest: Seq<u8>)
    requires
        forall|i: int| 0 <= i < effects.len() ==> !((#[trigger] effects[i]) is StartRace),
    ensures
        races(effects, dest) == 0,
        started(effects) == Set::<(Seq<u8>, u64)>::empty(),
        total(effects) == 0,
    decreases effects.len(),
{
    assert(started(effects) =~= Set::<(Seq<u8>, u64)>::empty());
    if effects.len() > 0 {
        assert(!(effects[effects.len() - 1] is StartRace));
        assert forall|i: int| 0 <= i < effects.drop_last().len() implies !((
        #[trigger] effects.drop_last()[i]) is StartRace) by {
            assert(effects[i] == effects.drop_last()[i]);
        }
        lemma_no_races(effects.drop_last(), dest);
    }
}

/// A possible happening keeps a world sound and starts no second race.
proof fn lemma_step<L, C>(before: World<L, C>, what: Happening<L, C>)
    requires
        before.sound(),
        before.possible(what),
        before.after(what).count <= u64::MAX,
    ensures
        before.after(what).sound(),
        no_second(before.running, happens(before.links, what).1),
{
    let (links, effects) = happens(before.links, what);
    let after = before.after(what);
    let grown = World {
        links,
        running: before.running.union(started(effects)),
        count: before.count + total(effects),
        ..before
    };
    match what {
        Happening::Open { dest, app_name, aspects, facts } => {
            lemma_open_keeps_sound(before, dest, app_name, aspects, facts);
            assert(after =~= grown);
        },
        Happening::Announce(dest, facts) => {
            lemma_establish_starts(before.links, dest, facts);
            lemma_attempts_keep_sound(before, links, effects);
            assert(after =~= grown);
        },
        Happening::NetworkChange(seen) => {
            let which = if before.links.policy == LinkPolicy::Foreground {
                before.links.candidates(seen)
            } else {
                seq![]
            };
            assert(before.links.attempt_each(seq![]).1 =~= Seq::<EffectView<L>>::empty());
            lemma_attempt_each_starts(before.links, which);
            lemma_attempts_keep_sound(before, links, effects);
            assert(after =~= grown);
        },
        Happening::Relax(policy, seen) => {
            let start = before.links.under(policy);
            let which = if before.links.policy == LinkPolicy::Suspended && policy
                != LinkPolicy::Suspended {
                start.candidates(seen)
            } else {
                seq![]
            };
            assert(start.attempt_each(seq![]).1 =~= Seq::<EffectView<L>>::empty());
            lemma_attempt_each_starts(start, which);
            let mid = World { links: start, ..before };
            assert(mid.sound()) by {
                assert forall|key: (Seq<u8>, u64)| #[trigger] mid.running.contains(key) implies {
                    &&& start.is_current(key.0, key.1)
                    &&& start.specs[key.0].attempt_in_flight
                } by {
                    assert(before.running.contains(key));
                    assert(before.links.is_current(key.0, key.1));
                }
            }
            lemma_attempts_keep_sound(mid, links, effects);
            assert(after =~= grown);
        },
        _ => {
            assert forall|d: Seq<u8>| #[trigger] races(effects, d) == 0 by {
                lemma_no_races(effects, d);
            }
            lemma_no_races(effects, seq![]);
            assert forall|key: (Seq<u8>, u64)| #[trigger] after.running.contains(key) implies {
                &&& key.1 < after.count
                &&& links.is_current(key.0, key.1)
                &&& links.specs[key.0].attempt_in_flight
            } by {
                assert(before.running.contains(key));
                assert(before.links.is_current(key.0, key.1));
                lemma_flag_is_kept(before, what, key);
            }
            assert forall|key: (Seq<u8>, u64)| #[trigger] after.linked.contains(key) implies key.1
                < after.count && !after.running.contains(key) by {
                if !before.linked.contains(key) {
                    lemma_commissioned(before.links, what, key);
                } else {
                    assert(!before.running.contains(key));
                }
            }
            assert forall|key: (Seq<u8>, u64)| #[trigger] after.orphaned.contains(key) implies key.1
                < after.count by {
                if !before.orphaned.contains(key) {
                    assert(before.running.contains(key));
                }
            }
        },
    }
}

/// A race that goes on after a happening which attempts nothing is still that of the latest
/// attempt, which is still in flight.
proof fn lemma_flag_is_kept<L, C>(before: World<L, C>, what: Happening<L, C>, key: (Seq<u8>, u64))
    requires
        before.sound(),
        before.possible(what),
        before.running.contains(key),
        before.after(what).running.contains(key),
        !started(happens(before.links, what).1).contains(key),
        !(what is Open || what is Announce || what is NetworkChange || what is Relax),
    ensures
        happens(before.links, what).0.is_current(key.0, key.1),
        happens(before.links, what).0.specs[key.0].attempt_in_flight,
{
    let links = happens(before.links, what).0;
    assert(before.links.is_current(key.0, key.1));
    assert(!ended(what).contains(key));
    match what {
        Happening::Close(dest) => {
            assert(!cut_off(before.running, what).contains(key));
            assert(key.0 != dest);
        },
        Happening::LinkUnavailable(job) => {
            assert(!before.running.contains((job.dest, job.attempt)));
        },
        Happening::LinkEstablished(job, _) => {
            assert(!before.running.contains((job.dest, job.attempt)));
        },
        Happening::LinkClosed(job) => {
            assert(!before.running.contains((job.dest, job.attempt)));
        },
        _ => {},
    }
}

/// A link is asked for only by the end of the race of its attempt.
proof fn lemma_commissioned<L, C>(
    links: LinksView<L, C>,
    what: Happening<L, C>,
    key: (Seq<u8>, u64),
)
    requires
        commissioned(happens(links, what).1).contains(key),
        !(what is Open || what is Announce || what is NetworkChange || what is Relax),
    ensures
        ended(what).contains(key),
        what is RaceWon,
{
    let effects = happens(links, what).1;
    let i = choose|i: int|
        0 <= i < effects.len() && (#[trigger] effects[i] matches EffectView::StartPersistentLink(job)
            && (job.dest, job.attempt) == key);
    assert(effects[i] is StartPersistentLink);
}

/// Every world that a driver can bring about is sound.
proof fn lemma_worlds_are_sound<L, C>(whats: Seq<Happening<L, C>>)
    requires
        can_happen(whats),
        world(whats).count <= u64::MAX,
    ensures
        world(whats).sound(),
    decreases whats.len(),
{
    if whats.len() > 0 {
        lemma_worlds_are_sound(whats.drop_last());
        lemma_step(world(whats.drop_last()), whats.last());
    }
}

/// Concurrent triggers collapse into one race: whatever has happened, nothing that can happen
/// next starts a race for a destination that has had one running since it was registered, nor
/// two races at once for one destination.
///
/// The attempts are numbered with 64 bits, which bounds how many races a history may start.
pub proof fn law_no_second_race<L, C>(whats: Seq<Happening<L, C>>, what: Happening<L, C>)
    requires
        can_happen(whats),
        world(whats).possible(what),
        world(whats).after(what).count <= u64::MAX,
    ensures
        ({
            let effects = happens(world(whats).links, what).1;
            &&& forall|i: int, attempt: u64|
                0 <= i < effects.len() && (#[trigger] effects[i]) is StartRace ==> !(
                #[trigger] world(whats).running.contains(
                    (effects[i]->StartRace_0.dest, attempt),
                ))
            &&& forall|dest: Seq<u8>| #[trigger] races(effects, dest) <= 1
        }),
{
    lemma_worlds_are_sound(whats);
    lemma_step(world(whats), what);
}

/// A destination is in flight for as long as a race runs for it, and has no other race running,
/// until it is closed.
pub proof fn law_running_race_is_in_flight<L, C>(
    whats: Seq<Happening<L, C>>,
    dest: Seq<u8>,
    attempt: u64,
    other: u64,
)
    requires
        can_happen(whats),
        world(whats).count <= u64::MAX,
        world(whats).running.contains((dest, attempt)),
    ensures
        world(whats).links.specs.contains_key(dest),
        world(whats).links.specs[dest].attempt_in_flight,
        world(whats).running.contains((dest, other)) ==> other == attempt,
{
    lemma_worlds_are_sound(whats);
}

} // verus!
