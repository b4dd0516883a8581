//! What holds of every registry.
use crate::effects::{notice, notice_with, EffectView, LinkJobView, RaceJobView};
use crate::registry::{distinct, facts_of, LinkFacts, LinksView};
use crate::send::{ChainEvent, TierChain};
use crate::types::{
    AppLinkSpecView, Flags, LinkPolicy, SpecView, APP_LINK_ACTIVE, APP_LINK_DISCONNECTED,
    APP_LINK_ESTABLISHING, APP_LINK_NONE, APP_LINK_PATH_REQUESTED, LIVENESS_CACHE_TTL,
};
use vstd::prelude::*;

verus! {

/// No race is started.
pub open spec fn no_race<L>(effects: Seq<EffectView<L>>) -> bool {
    forall|i: int| 0 <= i < effects.len() ==> !((#[trigger] effects[i]) is StartRace)
}

/// How many races for `dest` are started.
pub open spec fn races<L>(effects: Seq<EffectView<L>>, dest: Seq<u8>) -> nat
    decreases effects.len(),
{
    if effects.len() == 0 {
        0
    } else {
        races(effects.drop_last(), dest) + match effects.last() {
            EffectView::StartRace(job) => if job.dest == dest {
                1nat
            } else {
                0nat
            },
            _ => 0nat,
        }
    }
}

/// Two maps agree but for one key.
pub open spec fn agree_but_for<V>(a: Map<Seq<u8>, V>, b: Map<Seq<u8>, V>, dest: Seq<u8>) -> bool {
    a.remove(dest) == b.remove(dest)
}

/// Two states agree in everything that does not concern `dest`, but for three things that are
/// kept for the registry as a whole: whether the announce handler is installed, the number that
/// the next attempt gets, and the flags of registrations that are no longer in force.
pub open spec fn same_elsewhere<L, C>(
    a: LinksView<L, C>,
    b: LinksView<L, C>,
    dest: Seq<u8>,
) -> bool {
    &&& agree_but_for(a.specs, b.specs, dest)
    &&& agree_but_for(a.ready, b.ready, dest)
    &&& agree_but_for(a.links, b.links, dest)
    &&& agree_but_for(a.inbound, b.inbound, dest)
    &&& agree_but_for(a.liveness, b.liveness, dest)
    &&& a.callbacks == b.callbacks
    &&& a.policy == b.policy
}

/// Counting over a concatenation.
pub proof fn lemma_races_add<L>(a: Seq<EffectView<L>>, b: Seq<EffectView<L>>, dest: Seq<u8>)
    ensures
        races(a + b, dest) == races(a, dest) + races(b, dest),
    decreases b.len(),
{
    if b.len() == 0 {
        assert(a + b =~= a);
    } else {
        assert((a + b).drop_last() =~= a + b.drop_last());
        lemma_races_add(a, b.drop_last(), dest);
    }
}

/// What one attempt starts.
pub proof fn lemma_races_establish<L, C>(
    links: LinksView<L, C>,
    dest: Seq<u8>,
    facts: LinkFacts,
    other: Seq<u8>,
)
    ensures
        races(links.establish(dest, facts).1, other) == if links.may_start(dest, facts) && other
            == dest {
            1nat
        } else {
            0nat
        },
{
    let effects = links.establish(dest, facts).1;
    if links.may_start(dest, facts) {
        assert(effects.drop_last() =~= seq![effects[0]]);
        assert(effects.drop_last().drop_last() =~= Seq::<EffectView<L>>::empty());
        assert(races(effects.drop_last().drop_last(), other) == 0);
        assert(races(effects.drop_last(), other) == 0);
    } else {
        assert(effects =~= Seq::<EffectView<L>>::empty());
    }
}

/// The trigger gates: a suspended host starts no race, whatever the trigger, and a host in
/// the background starts none when the network changes.
pub proof fn law_policy_gates<L, C>(
    links: LinksView<L, C>,
    dest: Seq<u8>,
    app_name: Seq<char>,
    aspects: Seq<Seq<char>>,
    facts: LinkFacts,
    seen: Seq<(Seq<u8>, LinkFacts)>,
)
    ensures
        links.policy == LinkPolicy::Suspended ==> no_race(
            links.open(dest, app_name, aspects, facts).1,
        ),
        links.policy == LinkPolicy::Suspended ==> links.announce_received(dest, facts) == (
            links,
            Seq::<EffectView<L>>::empty(),
        ),
        links.policy != LinkPolicy::Foreground ==> links.network_changed(seen) == (
            links,
            Seq::<EffectView<L>>::empty(),
        ),
{
    let opened = links.registered(dest, app_name, aspects);
    if links.policy == LinkPolicy::Suspended {
        assert(opened.establish(dest, facts).1 =~= Seq::<EffectView<L>>::empty());
    }
}

/// A host that is not suspended races for a destination that is opened and neither active nor
/// under way, and for a registered one that announces itself: exactly one race, by the rule
/// that fits its aspects.
pub proof fn law_triggers_start_one_race<L, C>(
    links: LinksView<L, C>,
    dest: Seq<u8>,
    app_name: Seq<char>,
    aspects: Seq<Seq<char>>,
    facts: LinkFacts,
)
    requires
        links.policy != LinkPolicy::Suspended,
    ensures
        !links.specs.contains_key(dest) && !links.links.contains_key(dest)
            && !links.ready.contains_key(dest) ==> {
            let effects = links.open(dest, app_name, aspects, facts).1;
            &&& races(effects, dest) == 1
            &&& effects.last() == EffectView::<L>::StartRace(
                RaceJobView {
                    dest,
                    attempt: links.next_attempt,
                    app_name,
                    aspects,
                    propagation: aspects.contains("propagation"@),
                },
            )
        },
        links.status(dest, facts) == APP_LINK_DISCONNECTED ==> {
            let effects = links.announce_received(dest, facts).1;
            &&& races(effects, dest) == 1
            &&& effects == seq![
                notice::<L>(dest, APP_LINK_PATH_REQUESTED, links.audience()),
                EffectView::StartRace(links.race_job(dest)),
            ]
        },
{
    let opened = links.registered(dest, app_name, aspects);
    lemma_races_establish(opened, dest, facts, dest);
    lemma_races_establish(links, dest, facts, dest);
    let prepare: Seq<EffectView<L>> = if links.handler_installed {
        seq![EffectView::WatchAnnounce(dest)]
    } else {
        seq![EffectView::InstallAnnounceHandler, EffectView::WatchAnnounce(dest)]
    };
    lemma_races_add(prepare, opened.establish(dest, facts).1, dest);
    reveal_with_fuel(races, 3);
    assert(prepare.drop_last().drop_last() =~= Seq::<EffectView<L>>::empty()
        || prepare.drop_last() =~= Seq::<EffectView<L>>::empty());
    assert(races(prepare, dest) == 0);
}

/// One race at a time: a race is started only while none is in flight, and from then on no
/// trigger starts another one for that destination until the attempt has resolved.
pub proof fn law_one_race_at_a_time<L, C>(
    links: LinksView<L, C>,
    dest: Seq<u8>,
    facts: LinkFacts,
    later: LinkFacts,
)
    ensures
        races(links.establish(dest, facts).1, dest) > 0 ==> {
            &&& !links.specs[dest].attempt_in_flight
            &&& links.establish(dest, facts).0.specs[dest].attempt_in_flight
        },
        links.specs.contains_key(dest) && links.specs[dest].attempt_in_flight ==> {
            &&& links.establish(dest, later) == (links, Seq::<EffectView<L>>::empty())
            &&& links.announce_received(dest, later) == (links, Seq::<EffectView<L>>::empty())
        },
{
    lemma_races_establish(links, dest, facts, dest);
}

/// The attempt stays in flight until its race is lost or won; for a propagation destination
/// that wins, until its link turns out unavailable, becomes active or closes.
pub proof fn law_attempt_resolves<L, C>(
    links: LinksView<L, C>,
    race: RaceJobView,
    job: LinkJobView,
    interface: Seq<char>,
    link: L,
    shared: L,
    now: u64,
)
    requires
        links.is_current(race.dest, race.attempt),
        links.is_current(job.dest, job.attempt),
    ensures
        !links.race_lost(race).0.specs[race.dest].attempt_in_flight,
        links.race_won(race, interface, now).0.specs[race.dest].attempt_in_flight == (
        race.propagation && links.specs[race.dest].attempt_in_flight),
        links.race_won(race, interface, now).0.specs[race.dest].ever_established,
        links.link_held(job, link, shared).0.specs == links.specs,
        !links.link_unavailable(job).0.specs[job.dest].attempt_in_flight,
        !links.link_established(job, link).0.specs[job.dest].attempt_in_flight,
        !links.link_closed(job).0.specs[job.dest].attempt_in_flight,
{
}

/// A race or link of an earlier attempt, or of an attempt under a registration that was closed,
/// touches no flag.
pub proof fn law_stale_attempt_touches_no_flag<L, C>(
    links: LinksView<L, C>,
    race: RaceJobView,
    job: LinkJobView,
    interface: Seq<char>,
    link: L,
    now: u64,
)
    requires
        !links.is_current(race.dest, race.attempt),
        !links.is_current(job.dest, job.attempt),
    ensures
        links.race_lost(race).0.specs == links.specs,
        links.race_won(race, interface, now).0.specs == links.specs,
        links.link_unavailable(job).0.specs == links.specs,
        links.link_established(job, link).0.specs == links.specs,
        links.link_closed(job).0.specs == links.specs,
{
}

/// Every attempt that a registration in force knows of was given its number before the next one.
pub open spec fn attempts_numbered<L, C>(links: LinksView<L, C>) -> bool {
    forall|dest: Seq<u8>, attempt: u64| #[trigger]
        links.is_current(dest, attempt) ==> attempt < links.next_attempt
}

/// Each attempt gets a number that no attempt before it had, so that none is taken for another.
pub proof fn law_new_attempt_has_new_number<L, C>(
    links: LinksView<L, C>,
    dest: Seq<u8>,
    facts: LinkFacts,
    other: Seq<u8>,
)
    requires
        attempts_numbered(links),
        links.next_attempt < u64::MAX,
    ensures
        attempts_numbered(links.establish(dest, facts).0),
        links.may_start(dest, facts) ==> links.establish(dest, facts).0.is_current(
            dest,
            links.next_attempt,
        ) && links.establish(dest, facts).0.next_attempt == links.next_attempt + 1,
        !links.is_current(other, links.next_attempt),
        attempts_numbered(LinksView::<L, C>::empty()),
{
    let after = links.establish(dest, facts).0;
    assert forall|d: Seq<u8>, attempt: u64| #[trigger] after.is_current(d, attempt) implies attempt
        < after.next_attempt by {
        if d != dest || !links.may_start(dest, facts) {
            assert(links.is_current(d, attempt));
        }
    }
}

/// Opening a destination again while an attempt is in flight leaves that attempt in flight: the
/// destination takes its new name and aspects, no race is started, its status stays as it was,
/// and no announce starts a second race before the attempt resolves.
pub proof fn law_reopening_keeps_the_attempt<L, C>(
    links: LinksView<L, C>,
    dest: Seq<u8>,
    app_name: Seq<char>,
    aspects: Seq<Seq<char>>,
    facts: LinkFacts,
    later: LinkFacts,
)
    requires
        links.specs.contains_key(dest),
        links.specs[dest].attempt_in_flight,
    ensures
        ({
            let (after, effects) = links.open(dest, app_name, aspects, facts);
            &&& no_race(effects)
            &&& after.specs[dest].attempt_in_flight
            &&& after.specs[dest].latest == links.specs[dest].latest
            &&& after.specs[dest].app_name == app_name
            &&& after.specs[dest].aspects == aspects
            &&& after.status(dest, later) == links.status(dest, later)
            &&& !links.links.contains_key(dest) ==> after.status(dest, later)
                == APP_LINK_PATH_REQUESTED
            &&& after.announce_received(dest, later) == (after, Seq::<EffectView<L>>::empty())
        }),
{
}

/// Every registration in force has a number of its own that was given out.
pub open spec fn registrations_numbered<L, C>(links: LinksView<L, C>) -> bool {
    &&& forall|dest: Seq<u8>| #[trigger]
        links.specs.contains_key(dest) ==> links.specs[dest].number < links.past.len()
    &&& forall|dest: Seq<u8>, other: Seq<u8>| #[trigger]
        links.specs.contains_key(dest) && #[trigger] links.specs.contains_key(other)
            && links.specs[dest].number == links.specs[other].number ==> dest == other
}

/// Registrations are numbered from the start, by opening alone, and stay so.
pub proof fn law_registrations_are_numbered<L, C>(
    links: LinksView<L, C>,
    dest: Seq<u8>,
    app_name: Seq<char>,
    aspects: Seq<Seq<char>>,
    facts: LinkFacts,
    attempt: u64,
)
    requires
        registrations_numbered(links),
    ensures
        registrations_numbered(LinksView::<L, C>::empty()),
        registrations_numbered(links.open(dest, app_name, aspects, facts).0),
        links.open(dest, app_name, aspects, facts).0.specs[dest].number == links.past.len(),
        registrations_numbered(links.close(dest).0),
        registrations_numbered(links.establish(dest, facts).0),
        registrations_numbered(links.release(dest, attempt)),
        registrations_numbered(links.mark_established(dest, attempt)),
{
    broadcast use lemma_insert_elsewhere, lemma_remove_elsewhere;

    lemma_numbers_kept(links, links.registered(dest, app_name, aspects), dest);
    lemma_numbers_kept(
        links.registered(dest, app_name, aspects),
        links.open(dest, app_name, aspects, facts).0,
        dest,
    );
    lemma_numbers_kept(links, links.close(dest).0, dest);
    lemma_numbers_kept(links, links.establish(dest, facts).0, dest);
    lemma_numbers_kept(links, links.release(dest, attempt), dest);
    lemma_numbers_kept(links, links.mark_established(dest, attempt), dest);
}

/// Registrations stay numbered where those of other destinations stay as they are, and that of
/// `dest` goes, keeps its number or gets the next one.
proof fn lemma_numbers_kept<L, C>(before: LinksView<L, C>, after: LinksView<L, C>, dest: Seq<u8>)
    requires
        registrations_numbered(before),
        after.past.len() >= before.past.len(),
        agree_but_for(before.specs, after.specs, dest),
        after.specs.contains_key(dest) ==> {
            ||| after.specs[dest].number == before.past.len() < after.past.len()
            ||| before.specs.contains_key(dest) && after.specs[dest].number
                == before.specs[dest].number
        },
    ensures
        registrations_numbered(after),
{
    assert forall|d: Seq<u8>| d != dest implies (#[trigger] after.specs.contains_key(d)
        == before.specs.contains_key(d)) && (after.specs.contains_key(d) ==> after.specs[d]
        == before.specs[d]) by {
        assert(before.specs.remove(dest).contains_key(d) == after.specs.remove(dest).contains_key(d));
        assert(before.specs.remove(dest)[d] == after.specs.remove(dest)[d]);
    }
}

/// A spec that was handed out follows the flags of its registration: right away it shows how they
/// stand, an attempt that starts shows as in flight, and closing or opening the destination
/// again leaves the flags of the registration that ends as they were.
pub proof fn law_spec_shows_its_registration<L, C>(
    links: LinksView<L, C>,
    dest: Seq<u8>,
    app_name: Seq<char>,
    aspects: Seq<Seq<char>>,
    facts: LinkFacts,
)
    requires
        registrations_numbered(links),
        links.specs.contains_key(dest),
    ensures
        ({
            let spec = links.handed_out(dest);
            &&& links.spec_flags(spec) == links.specs[dest].flags()
            &&& links.may_start(dest, facts) ==> links.establish(dest, facts).0.spec_flags(spec)
                == Flags {
                attempt_in_flight: true,
                latest: Some(links.next_attempt),
                ..links.spec_flags(spec)
            }
            &&& links.close(dest).0.spec_flags(spec) == links.spec_flags(spec)
            &&& links.open(dest, app_name, aspects, facts).0.spec_flags(spec) == links.spec_flags(
                spec,
            )
        }),
{
    assert(links.specs[dest].number < links.past.len());
}

/// News of an attempt reaches every spec whose registration had it as its latest attempt, in
/// force or not, and no other: winning its race sets `ever_established`, and the attempt is out
/// of flight once its race is lost, or won without a link to build, or once its link turns out
/// unavailable, becomes active or closes.
pub proof fn law_spec_follows_its_flags<L, C>(
    links: LinksView<L, C>,
    spec: AppLinkSpecView,
    number: nat,
    race: RaceJobView,
    job: LinkJobView,
    interface: Seq<char>,
    link: L,
    now: u64,
)
    requires
        spec.flags == Some((race.dest, number)),
        job.dest == race.dest,
    ensures
        links.race_lost(race).0.spec_flags(spec) == links.spec_flags(spec).settled(
            race.attempt,
            false,
            true,
        ),
        links.race_won(race, interface, now).0.spec_flags(spec) == links.spec_flags(spec).settled(
            race.attempt,
            true,
            !race.propagation,
        ),
        links.link_unavailable(job).0.spec_flags(spec) == links.spec_flags(spec).settled(
            job.attempt,
            false,
            true,
        ),
        links.link_established(job, link).0.spec_flags(spec) == links.spec_flags(spec).settled(
            job.attempt,
            false,
            true,
        ),
        links.link_closed(job).0.spec_flags(spec) == links.spec_flags(spec).settled(
            job.attempt,
            false,
            true,
        ),
{
}

/// Opening builds no link, nor does a race, however it ends: links and inbound links stay as
/// they were.
pub proof fn law_opening_builds_no_link<L, C>(
    links: LinksView<L, C>,
    dest: Seq<u8>,
    app_name: Seq<char>,
    aspects: Seq<Seq<char>>,
    facts: LinkFacts,
    job: RaceJobView,
    interface: Seq<char>,
    now: u64,
)
    ensures
        links.open(dest, app_name, aspects, facts).0.links == links.links,
        links.open(dest, app_name, aspects, facts).0.inbound == links.inbound,
        links.announce_received(dest, facts).0.links == links.links,
        links.race_won(job, interface, now).0.links == links.links,
        links.race_lost(job).0.links == links.links,
        links.race_won(job, interface, now).1.contains(
            EffectView::StartPersistentLink(
                LinkJobView {
                    dest: job.dest,
                    attempt: job.attempt,
                    app_name: job.app_name,
                    aspects: job.aspects,
                    audience: links.audience(),
                },
            ),
        ) == job.propagation,
        !job.propagation ==> links.race_won(job, interface, now).1 == seq![
            notice::<L>(job.dest, APP_LINK_ACTIVE, links.audience()),
        ],
{
    let effects = links.race_won(job, interface, now).1;
    assert(effects.len() == 1);
    assert(effects.contains(effects[0]));
}

/// What a run of attempts over distinct destinations does to the destinations in it and to
/// those that are not.
proof fn lemma_attempt_each<L, C>(
    links: LinksView<L, C>,
    which: Seq<(Seq<u8>, LinkFacts)>,
    dest: Seq<u8>,
)
    requires
        distinct(which),
    ensures
        ({
            let after = links.attempt_each(which);
            &&& after.0.ready == links.ready
            &&& after.0.links == links.links
            &&& after.0.inbound == links.inbound
            &&& after.0.callbacks == links.callbacks
            &&& after.0.policy == links.policy
            &&& after.0.handler_installed == links.handler_installed
            &&& after.0.past == links.past
            &&& after.0.specs.dom() == links.specs.dom()
            &&& (forall|i: int| 0 <= i < which.len() ==> (#[trigger] which[i]).0 != dest) ==> {
                &&& races(after.1, dest) == 0
                &&& after.0.specs.contains_key(dest) ==> after.0.specs[dest] == links.specs[dest]
                &&& after.0.liveness.contains_key(dest) == links.liveness.contains_key(dest)
                &&& after.0.liveness.contains_key(dest) ==> after.0.liveness[dest]
                    == links.liveness[dest]
            }
            &&& forall|i: int|
                0 <= i < which.len() && (#[trigger] which[i]).0 == dest ==> {
                    &&& races(after.1, dest) == if links.may_start(dest, which[i].1) {
                        1nat
                    } else {
                        0nat
                    }
                    &&& after.0.specs.contains_key(dest) ==> after.0.specs[dest] == SpecView {
                        attempt_in_flight: links.specs[dest].attempt_in_flight || links.may_start(
                            dest,
                            which[i].1,
                        ),
                        latest: if links.may_start(dest, which[i].1) {
                            after.0.specs[dest].latest
                        } else {
                            links.specs[dest].latest
                        },
                        ..links.specs[dest]
                    }
                    &&& !after.0.liveness.contains_key(dest)
                }
        }),
    decreases which.len(),
{
    if which.len() > 0 {
        let init = which.drop_last();
        let last = which.last();
        assert(distinct(init)) by {
            assert forall|i: int, j: int|
                0 <= i < init.len() && 0 <= j < init.len() && (#[trigger] init[i]).0 == (
                #[trigger] init[j]).0 implies i == j by {
                assert(which[i].0 == which[j].0);
            }
        }
        lemma_attempt_each(links, init, dest);
        lemma_attempt_each(links, init, last.0);
        assert forall|i: int| 0 <= i < init.len() implies (#[trigger] init[i]).0 != last.0 by {
            assert(which[i] == init[i]);
            assert(which[which.len() - 1] == last);
        }
        let before = links.attempt_each(init);
        let ready = before.0.invalidate(last.0);
        lemma_races_establish(ready, last.0, last.1, dest);
        lemma_races_add(before.1, ready.establish(last.0, last.1).1, dest);
        assert(ready.may_start(last.0, last.1) == links.may_start(last.0, last.1));
        let after = links.attempt_each(which);
        assert(after.0.specs.dom() =~= links.specs.dom());
        if forall|i: int| 0 <= i < which.len() ==> (#[trigger] which[i]).0 != dest {
            assert(which[which.len() - 1].0 != dest);
            assert forall|i: int| 0 <= i < init.len() implies (#[trigger] init[i]).0 != dest by {
                assert(which[i].0 != dest);
            }
        }
        assert forall|i: int| 0 <= i < which.len() && (#[trigger] which[i]).0 == dest implies {
            &&& races(after.1, dest) == if links.may_start(dest, which[i].1) {
                1nat
            } else {
                0nat
            }
            &&& after.0.specs.contains_key(dest) ==> after.0.specs[dest] == SpecView {
                attempt_in_flight: links.specs[dest].attempt_in_flight || links.may_start(
                    dest,
                    which[i].1,
                ),
                latest: if links.may_start(dest, which[i].1) {
                    after.0.specs[dest].latest
                } else {
                    links.specs[dest].latest
                },
                ..links.specs[dest]
            }
            &&& !after.0.liveness.contains_key(dest)
        } by {
            if i < init.len() {
                assert(init[i].0 == dest);
                assert(dest != last.0);
            }
        }
    } else {
        assert(links.attempt_each(which).1 =~= Seq::<EffectView<L>>::empty());
    }
}

/// What a filter keeps of a list of distinct destinations.
proof fn lemma_candidates<L, C>(links: LinksView<L, C>, seen: Seq<(Seq<u8>, LinkFacts)>)
    requires
        distinct(seen),
    ensures
        distinct(links.candidates(seen)),
        forall|i: int|
            0 <= i < seen.len() && links.wants_attempt(#[trigger] seen[i]) ==> links.candidates(
                seen,
            ).contains(seen[i]),
        forall|k: int|
            0 <= k < links.candidates(seen).len() ==> seen.contains(
                #[trigger] links.candidates(seen)[k],
            ) && links.wants_attempt(links.candidates(seen)[k]),
    decreases seen.len(),
{
    reveal(Seq::filter);
    if seen.len() > 0 {
        let init = seen.drop_last();
        assert forall|i: int, j: int|
            0 <= i < init.len() && 0 <= j < init.len() && (#[trigger] init[i]).0 == (
            #[trigger] init[j]).0 implies i == j by {
            assert(seen[i].0 == seen[j].0);
        }
        lemma_candidates(links, init);
        let fewer = links.candidates(init);
        let all = links.candidates(seen);
        assert forall|k: int| 0 <= k < all.len() implies seen.contains(#[trigger] all[k])
            && links.wants_attempt(all[k]) by {
            if k < fewer.len() {
                assert(all[k] == fewer[k]);
                assert(init.contains(fewer[k]));
                let i = choose|i: int| 0 <= i < init.len() && init[i] == fewer[k];
                assert(seen[i] == all[k]);
            } else {
                assert(all[k] == seen.last());
                assert(seen[seen.len() - 1] == all[k]);
            }
        }
        assert forall|i: int|
            0 <= i < seen.len() && links.wants_attempt(#[trigger] seen[i]) implies all.contains(
            seen[i],
        ) by {
            if i < init.len() {
                assert(init[i] == seen[i]);
                assert(fewer.contains(init[i]));
                let k = choose|k: int| 0 <= k < fewer.len() && fewer[k] == init[i];
                assert(all[k] == seen[i]);
            } else {
                assert(all[fewer.len() as int] == seen[i]);
            }
        }
        assert forall|a: int, b: int|
            0 <= a < all.len() && 0 <= b < all.len() && (#[trigger] all[a]).0 == (
            #[trigger] all[b]).0 implies a == b by {
            if a < fewer.len() && b < fewer.len() {
                assert(fewer[a].0 == fewer[b].0);
            } else if a < fewer.len() || b < fewer.len() {
                let c = if a < fewer.len() {
                    a
                } else {
                    b
                };
                assert(all[c] == fewer[c]);
                assert(init.contains(fewer[c]));
                let i = choose|i: int| 0 <= i < init.len() && init[i] == fewer[c];
                assert(seen[i].0 == seen[seen.len() - 1].0);
            }
        }
    }
}

/// Whether a registered destination is raced for when the network changes.
pub open spec fn is_raced<L, C>(links: LinksView<L, C>, dest: Seq<u8>, facts: LinkFacts) -> bool {
    &&& links.wants_attempt((dest, facts))
    &&& !links.specs[dest].attempt_in_flight
}

/// When the network changes in the foreground, every registered destination that is neither
/// active nor establishing nor in flight gets exactly one race and is in flight from then on;
/// the latest race of each that is neither active nor establishing is forgotten; no other
/// destination is raced for, and nothing but that and the numbers of the attempts changes.
pub proof fn law_network_change_races_each_once<L, C>(
    links: LinksView<L, C>,
    seen: Seq<(Seq<u8>, LinkFacts)>,
    facts: Map<Seq<u8>, LinkFacts>,
    dest: Seq<u8>,
)
    requires
        links.policy == LinkPolicy::Foreground,
        links.sights(seen, facts),
    ensures
        ({
            let (after, effects) = links.network_changed(seen);
            let known = facts_of(facts, dest);
            let registered = links.specs.contains_key(dest);
            &&& races(effects, dest) == if registered && is_raced(links, dest, known) {
                1nat
            } else {
                0nat
            }
            &&& registered ==> after.specs[dest] == SpecView {
                attempt_in_flight: links.specs[dest].attempt_in_flight || is_raced(
                    links,
                    dest,
                    known,
                ),
                latest: if is_raced(links, dest, known) {
                    after.specs[dest].latest
                } else {
                    links.specs[dest].latest
                },
                ..links.specs[dest]
            }
            &&& after.liveness.contains_key(dest) == (links.liveness.contains_key(dest) && !(
            registered && links.wants_attempt((dest, known))))
            &&& after.liveness.contains_key(dest) ==> after.liveness[dest] == links.liveness[dest]
            &&& after.specs.dom() == links.specs.dom()
            &&& after.ready == links.ready
            &&& after.links == links.links
            &&& after.inbound == links.inbound
            &&& after.callbacks == links.callbacks
            &&& after.policy == links.policy
            &&& after.handler_installed == links.handler_installed
            &&& after.past == links.past
        }),
{
    let which = links.candidates(seen);
    let known = facts_of(facts, dest);
    lemma_candidates(links, seen);
    lemma_attempt_each(links, which, dest);
    if links.specs.contains_key(dest) && links.wants_attempt((dest, known)) {
        let i = choose|i: int| 0 <= i < seen.len() && (#[trigger] seen[i]).0 == dest;
        assert(seen[i] == (dest, known));
        assert(which.contains(seen[i]));
        let k = choose|k: int| 0 <= k < which.len() && which[k] == seen[i];
        assert(which[k].0 == dest);
        assert(links.may_start(dest, which[k].1) == is_raced(links, dest, known));
    } else {
        assert forall|k: int| 0 <= k < which.len() implies (#[trigger] which[k]).0 != dest by {
            assert(seen.contains(which[k]));
            let j = choose|j: int| 0 <= j < seen.len() && seen[j] == which[k];
            assert(links.specs.contains_key(seen[j].0));
        }
        if links.specs.contains_key(dest) {
            assert(links.network_changed(seen).0.specs.dom().contains(dest));
        }
    }
}

/// A state without the numbers of its attempts.
pub open spec fn unnumbered<L, C>(links: LinksView<L, C>) -> LinksView<L, C> {
    LinksView {
        specs: links.specs.map_values(|spec: SpecView| SpecView { latest: None, ..spec }),
        next_attempt: 0,
        ..links
    }
}

/// The order in which the destinations are taken when the network changes makes no difference
/// to the state, but for the numbers of the attempts.
pub proof fn law_order_of_attempts_is_immaterial<L, C>(
    links: LinksView<L, C>,
    seen: Seq<(Seq<u8>, LinkFacts)>,
    other: Seq<(Seq<u8>, LinkFacts)>,
    facts: Map<Seq<u8>, LinkFacts>,
)
    requires
        links.sights(seen, facts),
        links.sights(other, facts),
    ensures
        unnumbered(links.network_changed(seen).0) == unnumbered(links.network_changed(other).0),
{
    if links.policy == LinkPolicy::Foreground {
        let (c, d) = (links.network_changed(seen).0, links.network_changed(other).0);
        let (a, b) = (unnumbered(c), unnumbered(d));
        assert forall|dest: Seq<u8>|
            {
                &&& #[trigger] a.specs.contains_key(dest) == b.specs.contains_key(dest)
                &&& a.specs.contains_key(dest) ==> a.specs[dest] == b.specs[dest]
            } by {
            law_network_change_races_each_once(links, seen, facts, dest);
            law_network_change_races_each_once(links, other, facts, dest);
            assert(c.specs.dom().contains(dest) == d.specs.dom().contains(dest));
        }
        assert forall|dest: Seq<u8>|
            {
                &&& #[trigger] a.liveness.contains_key(dest) == b.liveness.contains_key(dest)
                &&& a.liveness.contains_key(dest) ==> a.liveness[dest] == b.liveness[dest]
            } by {
            law_network_change_races_each_once(links, seen, facts, dest);
            law_network_change_races_each_once(links, other, facts, dest);
        }
        law_network_change_races_each_once(links, seen, facts, seq![]);
        law_network_change_races_each_once(links, other, facts, seq![]);
        assert(a.specs =~= b.specs);
        assert(a.liveness =~= b.liveness);
    }
}

/// Leaving `Suspended`, for whichever policy, every registered destination that is neither
/// active nor establishing nor in flight gets exactly one race, and no other destination does.
pub proof fn law_resuming_races_each_once<L, C>(
    links: LinksView<L, C>,
    policy: LinkPolicy,
    seen: Seq<(Seq<u8>, LinkFacts)>,
    facts: Map<Seq<u8>, LinkFacts>,
    dest: Seq<u8>,
)
    requires
        links.policy == LinkPolicy::Suspended,
        policy != LinkPolicy::Suspended,
        links.sights(seen, facts),
    ensures
        races(links.relaxed(policy, seen).1, dest) == if links.specs.contains_key(dest) && is_raced(
            links,
            dest,
            facts_of(facts, dest),
        ) {
            1nat
        } else {
            0nat
        },
{
    let awake = links.under(LinkPolicy::Foreground);
    law_resuming_is_a_network_change(links, policy, seen);
    assert(awake.sights(seen, facts)) by {
        assert forall|i: int| 0 <= i < seen.len() implies awake.specs.contains_key(
            (#[trigger] seen[i]).0,
        ) by {
            assert(links.specs.contains_key(seen[i].0));
        }
        assert forall|d: Seq<u8>| #[trigger] awake.specs.contains_key(d) implies exists|i: int|
            0 <= i < seen.len() && (#[trigger] seen[i]).0 == d by {
            assert(links.specs.contains_key(d));
        }
    }
    law_network_change_races_each_once(awake, seen, facts, dest);
}

/// Leaving `Suspended` for the foreground makes the attempts that a change of the network
/// makes; leaving it for the background starts the same races.
pub proof fn law_resuming_is_a_network_change<L, C>(
    links: LinksView<L, C>,
    policy: LinkPolicy,
    seen: Seq<(Seq<u8>, LinkFacts)>,
)
    requires
        links.policy == LinkPolicy::Suspended,
        policy != LinkPolicy::Suspended,
    ensures
        links.relaxed(LinkPolicy::Foreground, seen) == links.under(
            LinkPolicy::Foreground,
        ).network_changed(seen),
        links.relaxed(policy, seen) == links.under(policy).attempt_each(
            links.under(policy).candidates(seen),
        ),
        links.relaxed(policy, seen).0.under(LinkPolicy::Foreground) == links.relaxed(
            LinkPolicy::Foreground,
            seen,
        ).0,
        links.relaxed(policy, seen).1 == links.relaxed(LinkPolicy::Foreground, seen).1,
{
    let a = links.under(policy);
    let b = links.under(LinkPolicy::Foreground);
    assert forall|s: (Seq<u8>, LinkFacts)| a.wants_attempt(s) == b.wants_attempt(s) by {}
    lemma_same_candidates(a, b, seen);
    lemma_policy_of_attempts(a, b, a.candidates(seen));
}

/// The candidates do not depend on the policy.
proof fn lemma_same_candidates<L, C>(
    a: LinksView<L, C>,
    b: LinksView<L, C>,
    seen: Seq<(Seq<u8>, LinkFacts)>,
)
    requires
        a.under(b.policy) == b,
    ensures
        a.candidates(seen) == b.candidates(seen),
    decreases seen.len(),
{
    reveal(Seq::filter);
    if seen.len() > 0 {
        lemma_same_candidates(a, b, seen.drop_last());
    }
}

/// Attempts do not depend on the policy, as long as the host is not suspended.
proof fn lemma_policy_of_attempts<L, C>(
    a: LinksView<L, C>,
    b: LinksView<L, C>,
    which: Seq<(Seq<u8>, LinkFacts)>,
)
    requires
        a.under(b.policy) == b,
        a.policy != LinkPolicy::Suspended,
        b.policy != LinkPolicy::Suspended,
    ensures
        a.attempt_each(which).0.under(b.policy) == b.attempt_each(which).0,
        a.attempt_each(which).0.policy == a.policy,
        a.attempt_each(which).1 == b.attempt_each(which).1,
    decreases which.len(),
{
    if which.len() > 0 {
        lemma_policy_of_attempts(a, b, which.drop_last());
    }
}

/// Suspending the host leaves no destination active, whatever the transport knows, and no link
/// held; what is registered stays registered.
pub proof fn law_suspended_host_has_no_active_link<L, C>(
    links: LinksView<L, C>,
    dest: Seq<u8>,
    facts: LinkFacts,
)
    ensures
        ({
            let after = links.under(LinkPolicy::Suspended).cleared();
            &&& after.status(dest, facts) != APP_LINK_ACTIVE
            &&& after.status(dest, facts) != APP_LINK_ESTABLISHING
            &&& !after.links.contains_key(dest)
            &&& !after.inbound.contains_key(dest)
            &&& after.specs == links.specs
        }),
{
}

/// Opening registers a destination and closing undoes that: a closed destination has no spec,
/// no link in either direction and the status `APP_LINK_NONE`, closing it again reports
/// nothing, and every other destination is as if it had never been opened.
pub proof fn law_close_undoes_open<L, C>(
    links: LinksView<L, C>,
    dest: Seq<u8>,
    app_name: Seq<char>,
    aspects: Seq<Seq<char>>,
    facts: LinkFacts,
    later: LinkFacts,
)
    ensures
        ({
            let opened = links.open(dest, app_name, aspects, facts).0;
            let closed = opened.close(dest);
            &&& opened.specs.contains_key(dest)
            &&& opened.specs[dest].app_name == app_name
            &&& opened.specs[dest].aspects == aspects
            &&& closed.1 == seq![notice::<L>(dest, APP_LINK_NONE, links.audience())]
            &&& !closed.0.specs.contains_key(dest)
            &&& !closed.0.links.contains_key(dest)
            &&& !closed.0.inbound.contains_key(dest)
            &&& !closed.0.ready.contains_key(dest)
            &&& closed.0.status(dest, later) == APP_LINK_NONE
            &&& closed.0.close(dest) == (closed.0, Seq::<EffectView<L>>::empty())
            &&& same_elsewhere(links, closed.0, dest)
        }),
{
    let opened = links.open(dest, app_name, aspects, facts).0;
    let closed = opened.close(dest);
    assert(closed.0.close(dest).0 =~= closed.0);
    assert(links.specs.remove(dest) =~= closed.0.specs.remove(dest));
    assert(links.ready.remove(dest) =~= closed.0.ready.remove(dest));
    assert(links.links.remove(dest) =~= closed.0.links.remove(dest));
    assert(links.inbound.remove(dest) =~= closed.0.inbound.remove(dest));
    assert(links.liveness.remove(dest) =~= closed.0.liveness.remove(dest));
}

/// What concerns one destination leaves every other one alone.
pub proof fn law_destinations_are_independent<L, C>(
    links: LinksView<L, C>,
    dest: Seq<u8>,
    facts: LinkFacts,
    race: RaceJobView,
    job: LinkJobView,
    interface: Seq<char>,
    link: L,
    shared: L,
    audience: nat,
    now: u64,
)
    requires
        race.dest == dest,
        job.dest == dest,
    ensures
        same_elsewhere(links, links.establish(dest, facts).0, dest),
        same_elsewhere(links, links.close(dest).0, dest),
        same_elsewhere(links, links.invalidate(dest), dest),
        same_elsewhere(links, links.race_won(race, interface, now).0, dest),
        same_elsewhere(links, links.race_lost(race).0, dest),
        same_elsewhere(links, links.link_held(job, link, shared).0, dest),
        same_elsewhere(links, links.link_unavailable(job).0, dest),
        same_elsewhere(links, links.link_established(job, link).0, dest),
        same_elsewhere(links, links.link_closed(job).0, dest),
        same_elsewhere(links, links.send_link_held(dest, link, shared, now).0, dest),
        same_elsewhere(links, links.send_link_closed(dest, audience).0, dest),
{
    broadcast use lemma_insert_elsewhere, lemma_remove_elsewhere;

}

/// Putting something under a key leaves the other keys alone.
broadcast proof fn lemma_insert_elsewhere<V>(map: Map<Seq<u8>, V>, dest: Seq<u8>, value: V)
    ensures
        #[trigger] map.insert(dest, value).remove(dest) == map.remove(dest),
{
    assert(map.insert(dest, value).remove(dest) =~= map.remove(dest));
}

/// Taking a key out leaves the other keys alone.
broadcast proof fn lemma_remove_elsewhere<V>(map: Map<Seq<u8>, V>, dest: Seq<u8>)
    ensures
        #[trigger] map.remove(dest).remove(dest) == map.remove(dest),
{
    assert(map.remove(dest).remove(dest) =~= map.remove(dest));
}

/// A persistent link that closes is reported and not reopened: the only effect is the report,
/// and the destination is left disconnected, with its attempt out of flight; unless the host is
/// suspended a later announce may start a new one. Another attempt that is in flight goes on.
pub proof fn law_closed_link_is_not_reopened<L, C>(
    links: LinksView<L, C>,
    job: LinkJobView,
    facts: LinkFacts,
)
    ensures
        ({
            let (after, effects) = links.link_closed(job);
            &&& effects == seq![notice::<L>(job.dest, APP_LINK_DISCONNECTED, job.audience)]
            &&& no_race(effects)
            &&& !after.links.contains_key(job.dest)
            &&& !after.ready.contains_key(job.dest)
            &&& links.specs.contains_key(job.dest) ==> {
                let going_on = links.specs[job.dest].attempt_in_flight && !links.is_current(
                    job.dest,
                    job.attempt,
                );
                &&& after.status(job.dest, facts) == if going_on {
                    APP_LINK_PATH_REQUESTED
                } else {
                    APP_LINK_DISCONNECTED
                }
                &&& after.may_start(job.dest, facts) == (links.policy != LinkPolicy::Suspended
                    && !going_on)
            }
        }),
{
}

/// The same of a link that a send built; its latest race is forgotten besides.
pub proof fn law_closed_send_link_is_forgotten<L, C>(
    links: LinksView<L, C>,
    dest: Seq<u8>,
    audience: nat,
    facts: LinkFacts,
    now: u64,
)
    ensures
        ({
            let (after, effects) = links.send_link_closed(dest, audience);
            &&& effects == seq![notice::<L>(dest, APP_LINK_DISCONNECTED, audience)]
            &&& no_race(effects)
            &&& !after.links.contains_key(dest)
            &&& after.fresh_winner(dest, now) is None
            &&& after.specs == links.specs
            &&& after.status(dest, facts) != APP_LINK_ACTIVE
        }),
{
}

/// The announce handler is installed by the first destination that is opened and never again.
pub proof fn law_handler_is_installed_once<L, C>(
    links: LinksView<L, C>,
    dest: Seq<u8>,
    app_name: Seq<char>,
    aspects: Seq<Seq<char>>,
    facts: LinkFacts,
)
    ensures
        links.open(dest, app_name, aspects, facts).0.handler_installed,
        links.open(dest, app_name, aspects, facts).1.contains(
            EffectView::InstallAnnounceHandler,
        ) == !links.handler_installed,
        links.open(dest, app_name, aspects, facts).1.contains(EffectView::WatchAnnounce(dest)),
{
    let effects = links.open(dest, app_name, aspects, facts).1;
    if links.handler_installed {
        assert(effects[0] == EffectView::<L>::WatchAnnounce(dest));
    } else {
        assert(effects[0] == EffectView::<L>::InstallAnnounceHandler);
        assert(effects[1] == EffectView::<L>::WatchAnnounce(dest));
    }
}

/// A destination that is opened reaches readiness: its race is started, and once that is won
/// it is reported active without a link, and it is active as long as the transport has a path.
pub proof fn law_open_reaches_ready<L, C>(
    links: LinksView<L, C>,
    dest: Seq<u8>,
    app_name: Seq<char>,
    aspects: Seq<Seq<char>>,
    facts: LinkFacts,
    interface: Seq<char>,
    now: u64,
    later: LinkFacts,
)
    requires
        links.policy != LinkPolicy::Suspended,
        links.status(dest, facts) == APP_LINK_NONE || links.status(dest, facts)
            == APP_LINK_DISCONNECTED,
        !links.links.contains_key(dest),
        !links.ready.contains_key(dest) || !facts.has_path,
        !aspects.contains("propagation"@),
    ensures
        ({
            let (racing, effects) = links.open(dest, app_name, aspects, facts);
            let job = links.registered(dest, app_name, aspects).race_job(dest);
            let (ready, reports) = racing.race_won(job, interface, now);
            &&& effects.last() == EffectView::<L>::StartRace(job)
            &&& racing.status(dest, later) == APP_LINK_PATH_REQUESTED
            &&& reports == seq![notice::<L>(dest, APP_LINK_ACTIVE, links.audience())]
            &&& ready.status(dest, later) == if later.has_path {
                APP_LINK_ACTIVE
            } else {
                APP_LINK_DISCONNECTED
            }
            &&& ready.specs[dest].ever_established
            &&& ready.links == links.links
        }),
{
}

/// A propagation destination that is opened reaches an active link: its race is started, once
/// that is won a link is built, held and reported with its handle, and it stays in flight
/// until the link is active.
pub proof fn law_open_reaches_persistent_link<L, C>(
    links: LinksView<L, C>,
    dest: Seq<u8>,
    app_name: Seq<char>,
    aspects: Seq<Seq<char>>,
    facts: LinkFacts,
    interface: Seq<char>,
    now: u64,
    link: L,
    shared: L,
    later: LinkFacts,
)
    requires
        links.policy != LinkPolicy::Suspended,
        links.status(dest, facts) == APP_LINK_NONE || links.status(dest, facts)
            == APP_LINK_DISCONNECTED,
        !links.links.contains_key(dest),
        !links.ready.contains_key(dest) || !facts.has_path,
        aspects.contains("propagation"@),
    ensures
        ({
            let (racing, effects) = links.open(dest, app_name, aspects, facts);
            let race = links.registered(dest, app_name, aspects).race_job(dest);
            let (ready, asked) = racing.race_won(race, interface, now);
            let job = LinkJobView {
                dest,
                attempt: links.next_attempt,
                app_name,
                aspects,
                audience: links.audience(),
            };
            let (held, reports) = ready.link_held(job, link, shared);
            let (active, news) = held.link_established(job, shared);
            &&& effects.last() == EffectView::<L>::StartRace(race)
            &&& race.propagation
            &&& asked == seq![EffectView::<L>::StartPersistentLink(job)]
            &&& ready.status(dest, later) == APP_LINK_PATH_REQUESTED
            &&& reports == seq![
                notice_with(dest, APP_LINK_ESTABLISHING, shared, links.audience()),
                EffectView::InitiateLink(dest),
            ]
            &&& held.links[dest] == link
            &&& held.specs[dest].attempt_in_flight
            &&& held.status(dest, later) == if later.link_active {
                APP_LINK_ACTIVE
            } else {
                APP_LINK_ESTABLISHING
            }
            &&& news == seq![notice_with(dest, APP_LINK_ACTIVE, shared, links.audience())]
            &&& active.links[dest] == link
            &&& !active.specs[dest].attempt_in_flight
        }),
{
}

/// The winner of a race is fresh for `LIVENESS_CACHE_TTL`, and gone once it is invalidated.
pub proof fn law_winner_stays_fresh<L, C>(
    links: LinksView<L, C>,
    dest: Seq<u8>,
    interface: Seq<char>,
    now: u64,
    later: u64,
)
    requires
        now <= later,
    ensures
        links.winner_known(dest, interface, now).fresh_winner(dest, later) == if later - now
            < LIVENESS_CACHE_TTL {
            Some(interface)
        } else {
            None
        },
        links.invalidate(dest).fresh_winner(dest, later) is None,
{
}

/// A send to a destination that won a race less than `LIVENESS_CACHE_TTL` ago, be it the race
/// of an attempt or that of another send, asks for no race; once the winner is invalidated, a
/// send proceeds as if there had been none.
pub proof fn law_recent_winner_spares_the_race<L, C>(
    links: LinksView<L, C>,
    job: RaceJobView,
    interface: Seq<char>,
    now: u64,
    later: u64,
    send: TierChain,
    event: ChainEvent,
)
    requires
        now <= later < now + LIVENESS_CACHE_TTL,
    ensures
        !(send.next(
            event,
            links.race_won(job, interface, now).0.fresh_winner(job.dest, later) is Some,
        ).1 is ExpireAndRace),
        !(send.next(
            event,
            links.winner_known(job.dest, interface, now).fresh_winner(job.dest, later) is Some,
        ).1 is ExpireAndRace),
        send.next(event, links.invalidate(job.dest).fresh_winner(job.dest, later) is Some)
            == send.next(event, false),
{
}

/// A link that a send built serves the next send: it is held, and a registered destination is
/// reported active with it and is active while it is.
pub proof fn law_send_link_is_kept<L, C>(
    links: LinksView<L, C>,
    dest: Seq<u8>,
    link: L,
    shared: L,
    now: u64,
    facts: LinkFacts,
)
    ensures
        ({
            let (after, effects) = links.send_link_held(dest, link, shared, now);
            &&& after.links[dest] == link
            &&& after.specs == links.specs
            &&& links.specs.contains_key(dest) ==> effects == seq![
                notice_with(dest, APP_LINK_ACTIVE, shared, links.audience()),
            ]
            &&& links.specs.contains_key(dest) && facts.link_active ==> after.status(dest, facts)
                == APP_LINK_ACTIVE
            &&& !links.specs.contains_key(dest) ==> effects == Seq::<EffectView<L>>::empty()
        }),
{
}

/// Subscribing adds a callback behind those there are, so a report to the first `audience`
/// callbacks reaches the same ones however many subscribe meanwhile.
pub proof fn law_subscribers_keep_their_place<L, C>(links: LinksView<L, C>, callback: C, index: int)
    requires
        0 <= index < links.audience(),
    ensures
        links.subscribed(callback).callbacks[index] == links.callbacks[index],
        links.subscribed(callback).audience() == links.audience() + 1,
        links.subscribed(callback).callbacks.last() == callback,
{
}

/// An inbound link is tracked for a registered destination only, is gone once it closes, and
/// changes nothing else; in particular it does not make the destination active.
pub proof fn law_inbound_links_stand_apart<L, C>(
    links: LinksView<L, C>,
    dest: Seq<u8>,
    link: L,
    facts: LinkFacts,
)
    ensures
        links.specs.contains_key(dest) ==> links.inbound_held(dest, link).inbound.contains_key(dest)
            && links.inbound_held(dest, link).inbound[dest] == link,
        !links.specs.contains_key(dest) ==> links.inbound_held(dest, link) == links,
        links.inbound_held(dest, link).status(dest, facts) == links.status(dest, facts),
        !links.inbound_closed(dest).inbound.contains_key(dest),
        links.inbound_closed(dest).links == links.links,
        links.inbound_closed(dest).status(dest, facts) == links.status(dest, facts),
{
}

} // verus!
