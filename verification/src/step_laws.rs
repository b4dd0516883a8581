//! What each step of a registry does, in terms of what a lookup finds before and after.
//!
//! The laws speak of an arbitrary destination `d`: one of them says both what a step does to the
//! destination that it concerns and that it does nothing to any other.
use crate::effects::{ChangeView, EffectView, LinkJobView, RaceJobView};
use crate::registry::{LinkFacts, LinksView, SendEvent};
use crate::registry_laws::races;
use crate::send::ChainStage;
use crate::types::{AppLinkSpecView, Flags, LinkMode, LinkPolicy, SendErr, SpecView};
use vstd::prelude::*;

verus! {

/// What a lookup finds.
pub open spec fn found<V>(map: Map<Seq<u8>, V>, key: Seq<u8>) -> Option<V> {
    if map.contains_key(key) {
        Some(map[key])
    } else {
        None
    }
}

/// The same links are held, in both directions.
pub open spec fn same_links<L, C>(a: LinksView<L, C>, b: LinksView<L, C>) -> bool {
    a.links == b.links && a.inbound == b.inbound
}

/// The same is known of paths.
pub open spec fn same_paths<L, C>(a: LinksView<L, C>, b: LinksView<L, C>) -> bool {
    a.ready == b.ready && a.liveness == b.liveness
}

/// The same callbacks, policy and announce handler.
pub open spec fn same_host<L, C>(a: LinksView<L, C>, b: LinksView<L, C>) -> bool {
    &&& a.callbacks == b.callbacks
    &&& a.policy == b.policy
    &&& a.handler_installed == b.handler_installed
}

/// The same registrations, flags and numbers.
pub open spec fn same_registrations<L, C>(a: LinksView<L, C>, b: LinksView<L, C>) -> bool {
    a.specs == b.specs && a.past == b.past && a.next_attempt == b.next_attempt
}

/// A new registry holds nothing and is in the foreground.
pub proof fn law_new_registry_is_empty<L, C>(d: Seq<u8>)
    ensures
        ({
            let links = LinksView::<L, C>::empty();
            &&& found(links.specs, d) is None
            &&& found(links.ready, d) is None
            &&& found(links.links, d) is None
            &&& found(links.inbound, d) is None
            &&& found(links.liveness, d) is None
            &&& links.callbacks.len() == 0
            &&& links.past.len() == 0
            &&& links.policy == LinkPolicy::Foreground
            &&& !links.handler_installed
            &&& links.next_attempt == 0
        }),
{
}

/// The status of a destination, in every state: it depends on whether the destination is
/// registered, whether a link is held and is active, whether an attempt is in flight, and whether
/// it was found ready and still has a path, and on nothing else.
pub proof fn law_status_says_what_is_there<L, C>(
    links: LinksView<L, C>,
    d: Seq<u8>,
    facts: LinkFacts,
)
    ensures
        ({
            let status = links.status(d, facts);
            let registered = links.specs.contains_key(d);
            let held = links.links.contains_key(d);
            let racing = links.specs[d].attempt_in_flight;
            let ready = links.ready.contains_key(d) && facts.has_path;
            &&& status == 0 <==> !registered
            &&& status == 1 <==> registered && !held && racing
            &&& status == 2 <==> registered && held && !facts.link_active
            &&& status == 3 <==> registered && (held && facts.link_active || !held && !racing
                && ready)
            &&& status == 4 <==> registered && !held && !racing && !ready
        }),
{
}

/// Opening a destination that is active, establishing or raced for leaves its status as it was,
/// whatever the transport learns later; opening any other one that a suspended host has
/// registered does so too.
pub proof fn law_reopening_keeps_the_status<L, C>(
    links: LinksView<L, C>,
    dest: Seq<u8>,
    app_name: Seq<char>,
    aspects: Seq<Seq<char>>,
    facts: LinkFacts,
    later: LinkFacts,
)
    requires
        links.specs.contains_key(dest),
        links.status(dest, facts) != 4 || links.policy == LinkPolicy::Suspended,
    ensures
        links.open(dest, app_name, aspects, facts).0.status(dest, later) == links.status(dest, later),
        forall|i: int|
            0 <= i < links.open(dest, app_name, aspects, facts).1.len() ==> !((
            #[trigger] links.open(dest, app_name, aspects, facts).1[i]) is StartRace),
{
}

/// An attempt, by an announce or any other trigger. A race is started if and only if the host is
/// not suspended and the destination is registered, not in flight, and not active: neither by an
/// active link nor, without a link, by being ready with a path. It is reported first, to every
/// callback. The race is for what the destination is registered with, and it is a propagation
/// race if and only if "propagation" is among the aspects.
pub proof fn law_attempt<L, C>(
    links: LinksView<L, C>,
    dest: Seq<u8>,
    facts: LinkFacts,
    d: Seq<u8>,
)
    ensures
        links.announce_received(dest, facts) == links.establish(dest, facts),
        ({
            let (after, effects) = links.announce_received(dest, facts);
            let spec = links.specs[dest];
            let starts = {
                &&& links.policy != LinkPolicy::Suspended
                &&& links.specs.contains_key(dest)
                &&& !spec.attempt_in_flight
                &&& !(links.links.contains_key(dest) && facts.link_active)
                &&& !(!links.links.contains_key(dest) && links.ready.contains_key(dest)
                    && facts.has_path)
            };
            &&& effects == if starts {
                seq![
                    EffectView::<L>::Notify(
                        ChangeView {
                            dest,
                            status: 1,
                            link: None,
                            audience: links.callbacks.len(),
                        },
                    ),
                    EffectView::<L>::StartRace(
                        RaceJobView {
                            dest,
                            attempt: links.next_attempt,
                            app_name: spec.app_name,
                            aspects: spec.aspects,
                            propagation: spec.aspects.contains("propagation"@),
                        },
                    ),
                ]
            } else {
                Seq::empty()
            }
            &&& found(after.specs, d) == if starts && d == dest {
                Some(
                    SpecView {
                        attempt_in_flight: true,
                        latest: Some(links.next_attempt),
                        ..spec
                    },
                )
            } else {
                found(links.specs, d)
            }
            &&& after.next_attempt == if !starts {
                links.next_attempt as int
            } else if links.next_attempt == u64::MAX {
                0
            } else {
                links.next_attempt + 1
            }
            &&& after.past == links.past
            &&& same_links(after, links)
            &&& same_paths(after, links)
            &&& same_host(after, links)
        }),
{
}

/// Opening a destination, but for the attempt that may follow: it is registered with its new name
/// and aspects under the next number, with flags unset but that an attempt in flight stays in
/// flight; the flags of the registration that it replaces are kept under their number; and every
/// other destination stays as it was.
pub proof fn law_registering<L, C>(
    links: LinksView<L, C>,
    dest: Seq<u8>,
    app_name: Seq<char>,
    aspects: Seq<Seq<char>>,
    d: Seq<u8>,
    k: int,
)
    ensures
        ({
            let after = links.registered(dest, app_name, aspects);
            let before = links.specs[dest];
            let going_on = links.specs.contains_key(dest) && before.attempt_in_flight;
            &&& found(after.specs, d) == if d == dest {
                Some(
                    SpecView {
                        app_name,
                        aspects,
                        mode: LinkMode::PersistentLink,
                        attempt_in_flight: going_on,
                        ever_established: false,
                        latest: if going_on {
                            before.latest
                        } else {
                            None
                        },
                        number: links.past.len(),
                    },
                )
            } else {
                found(links.specs, d)
            }
            &&& after.past.len() == links.past.len() + 1
            &&& 0 <= k < links.past.len() ==> after.past[k] == if links.specs.contains_key(dest)
                && before.number == k {
                Flags {
                    attempt_in_flight: before.attempt_in_flight,
                    ever_established: before.ever_established,
                    latest: before.latest,
                }
            } else {
                links.past[k]
            }
            &&& after.past.last() == (Flags {
                attempt_in_flight: false,
                ever_established: false,
                latest: None,
            })
            &&& after.handler_installed
            &&& after.callbacks == links.callbacks
            &&& after.policy == links.policy
            &&& after.next_attempt == links.next_attempt
            &&& same_links(after, links)
            &&& same_paths(after, links)
        }),
{
}

/// Opening registers the destination, has its announces watched, through a handler that the first
/// opening installs, and then makes the attempt that an announce would make, unless the
/// destination had a link, was raced for, or was ready with a path.
pub proof fn law_opening<L, C>(
    links: LinksView<L, C>,
    dest: Seq<u8>,
    app_name: Seq<char>,
    aspects: Seq<Seq<char>>,
    facts: LinkFacts,
)
    ensures
        ({
            let (after, effects) = links.open(dest, app_name, aspects, facts);
            let opened = links.registered(dest, app_name, aspects);
            let busy = links.specs.contains_key(dest) && (links.links.contains_key(dest)
                || links.specs[dest].attempt_in_flight || (links.ready.contains_key(dest)
                && facts.has_path));
            let prepare = if links.handler_installed {
                seq![EffectView::<L>::WatchAnnounce(dest)]
            } else {
                seq![
                    EffectView::<L>::InstallAnnounceHandler,
                    EffectView::<L>::WatchAnnounce(dest),
                ]
            };
            &&& busy ==> after == opened && effects == prepare
            &&& !busy ==> after == opened.announce_received(dest, facts).0 && effects == prepare
                + opened.announce_received(dest, facts).1
        }),
{
}

/// The effects of a run of attempts come in pairs: a report that a path is being asked for, and
/// the race for the same destination, with what that is registered with. It is a propagation race
/// if and only if "propagation" is among the aspects.
pub proof fn law_races_fit_their_registrations<L, C>(
    links: LinksView<L, C>,
    which: Seq<(Seq<u8>, LinkFacts)>,
    k: int,
)
    requires
        0 <= k,
        2 * k < links.attempt_each(which).1.len(),
    ensures
        ({
            let effects = links.attempt_each(which).1;
            &&& 2 * k + 1 < effects.len()
            &&& effects[2 * k + 1] is StartRace
            &&& {
                let job = effects[2 * k + 1]->StartRace_0;
                let spec = links.specs[job.dest];
                &&& links.specs.contains_key(job.dest)
                &&& job.app_name == spec.app_name
                &&& job.aspects == spec.aspects
                &&& job.propagation == spec.aspects.contains("propagation"@)
                &&& effects[2 * k] == EffectView::<L>::Notify(
                    ChangeView {
                        dest: job.dest,
                        status: 1,
                        link: None,
                        audience: links.callbacks.len(),
                    },
                )
            }
        }),
{
    lemma_attempts_pair_up(links, which);
}

/// A run of attempts: its effects pair up, and names, aspects and callbacks stay as they are.
proof fn lemma_attempts_pair_up<L, C>(links: LinksView<L, C>, which: Seq<(Seq<u8>, LinkFacts)>)
    ensures
        links.attempt_each(which).1.len() % 2 == 0,
        links.attempt_each(which).0.callbacks == links.callbacks,
        forall|d: Seq<u8>| #[trigger] same_texts(links, links.attempt_each(which).0, d),
        forall|k: int|
            0 <= k && 2 * k < links.attempt_each(which).1.len() ==> pair_fits(
                links,
                links.attempt_each(which).1,
                #[trigger] (2 * k),
            ),
    decreases which.len(),
{
    if which.len() > 0 {
        let (before, first) = links.attempt_each(which.drop_last());
        lemma_attempts_pair_up(links, which.drop_last());
        let forgot = before.invalidate(which.last().0);
        law_attempt(forgot, which.last().0, which.last().1, which.last().0);
        let (after, second) = forgot.establish(which.last().0, which.last().1);
        assert forall|d: Seq<u8>| #[trigger] same_texts(links, after, d) by {
            assert(same_texts(links, before, d));
        }
        let all = first + second;
        assert forall|k: int| 0 <= k && 2 * k < all.len() implies pair_fits(
            links,
            all,
            #[trigger] (2 * k),
        ) by {
            if 2 * k < first.len() {
                assert(pair_fits(links, first, 2 * k));
                assert(2 * k + 1 < first.len());
                assert(all[2 * k] == first[2 * k] && all[2 * k + 1] == first[2 * k + 1]);
            } else {
                assert(2 * k == first.len());
                assert(all[2 * k] == second[0] && all[2 * k + 1] == second[1]);
                assert(same_texts(links, before, which.last().0));
            }
        }
    }
}

/// A destination is registered with the same name and aspects in both states, or in neither.
spec fn same_texts<L, C>(a: LinksView<L, C>, b: LinksView<L, C>, d: Seq<u8>) -> bool {
    &&& a.specs.contains_key(d) == b.specs.contains_key(d)
    &&& a.specs.contains_key(d) ==> a.specs[d].app_name == b.specs[d].app_name
        && a.specs[d].aspects == b.specs[d].aspects
}

/// A report and a race that fit what their destination is registered with.
spec fn pair_fits<L, C>(links: LinksView<L, C>, effects: Seq<EffectView<L>>, i: int) -> bool {
    &&& i + 1 < effects.len()
    &&& effects[i + 1] is StartRace
    &&& {
        let job = effects[i + 1]->StartRace_0;
        let spec = links.specs[job.dest];
        &&& links.specs.contains_key(job.dest)
        &&& job.app_name == spec.app_name
        &&& job.aspects == spec.aspects
        &&& job.propagation == spec.aspects.contains("propagation"@)
        &&& effects[i] == EffectView::<L>::Notify(
            ChangeView { dest: job.dest, status: 1, link: None, audience: links.callbacks.len() },
        )
    }
}

/// Which of several destinations get an attempt when the network changes: one after the other in
/// their order, those that hold no link and are not, without an attempt in flight, ready with a
/// path.
pub proof fn law_candidates<L, C>(
    links: LinksView<L, C>,
    seen: Seq<(Seq<u8>, LinkFacts)>,
    dest: Seq<u8>,
    facts: LinkFacts,
)
    requires
        links.specs.contains_key(dest),
    ensures
        links.candidates(Seq::empty()) == Seq::<(Seq<u8>, LinkFacts)>::empty(),
        links.candidates(seen.push((dest, facts))) == if !(links.links.contains_key(dest)
            && facts.link_active) && !links.links.contains_key(dest)
            && (links.specs[dest].attempt_in_flight || !(links.ready.contains_key(dest)
            && facts.has_path)) {
            links.candidates(seen).push((dest, facts))
        } else {
            links.candidates(seen)
        },
{
    reveal(Seq::filter);
    assert(seen.push((dest, facts)).drop_last() =~= seen);
}

/// A run of attempts is one attempt after the other, each for a destination whose latest winner
/// is forgotten first.
pub proof fn law_attempts_one_by_one<L, C>(
    links: LinksView<L, C>,
    which: Seq<(Seq<u8>, LinkFacts)>,
    dest: Seq<u8>,
    facts: LinkFacts,
)
    ensures
        links.attempt_each(Seq::empty()) == (links, Seq::<EffectView<L>>::empty()),
        ({
            let (before, first) = links.attempt_each(which);
            let (after, second) = before.invalidate(dest).announce_received(dest, facts);
            links.attempt_each(which.push((dest, facts))) == (after, first + second)
        }),
{
    assert(which.push((dest, facts)).drop_last() =~= which);
    assert(links.attempt_each(Seq::empty()).1 =~= Seq::<EffectView<L>>::empty());
}

/// In the foreground, and only there, a change of the network attempts the candidates. The policy
/// changes to what was set; other than by suspending, this attempts the candidates when, and only
/// when, the host was suspended, and does nothing else.
pub proof fn law_network_and_policy<L, C>(
    links: LinksView<L, C>,
    policy: LinkPolicy,
    seen: Seq<(Seq<u8>, LinkFacts)>,
)
    ensures
        links.policy == LinkPolicy::Foreground ==> links.network_changed(seen)
            == links.attempt_each(links.candidates(seen)),
        links.policy != LinkPolicy::Foreground ==> links.network_changed(seen) == (
            links,
            Seq::<EffectView<L>>::empty(),
        ),
        ({
            let set = links.under(policy);
            &&& set.policy == policy
            &&& set.callbacks == links.callbacks
            &&& set.handler_installed == links.handler_installed
            &&& same_registrations(set, links)
            &&& same_links(set, links)
            &&& same_paths(set, links)
            &&& links.relaxed(policy, seen) == if links.policy == LinkPolicy::Suspended && policy
                != LinkPolicy::Suspended {
                set.attempt_each(set.candidates(seen))
            } else {
                (set, Seq::<EffectView<L>>::empty())
            }
        }),
{
}

/// In the foreground, each registered destination is raced for once when the network changes if
/// it holds no link, is not in flight, and is not ready with a path; its latest winner is
/// forgotten if it is attempted at all; and no other destination is raced for.
pub proof fn law_network_change<L, C>(
    links: LinksView<L, C>,
    seen: Seq<(Seq<u8>, LinkFacts)>,
    facts: Map<Seq<u8>, LinkFacts>,
    d: Seq<u8>,
)
    requires
        links.policy == LinkPolicy::Foreground,
        links.sights(seen, facts),
    ensures
        ({
            let (after, effects) = links.network_changed(seen);
            let registered = links.specs.contains_key(d);
            let has_path = facts.contains_key(d) && facts[d].has_path;
            let idle = registered && !links.links.contains_key(d) && !(
            links.ready.contains_key(d) && has_path);
            let in_flight = links.specs[d].attempt_in_flight;
            &&& races(effects, d) == if idle && !in_flight {
                1nat
            } else {
                0nat
            }
            &&& found(after.liveness, d) == if registered && !links.links.contains_key(d) && (
            in_flight || idle) {
                None
            } else {
                found(links.liveness, d)
            }
            &&& same_links(after, links)
            &&& after.ready == links.ready
            &&& same_host(after, links)
            &&& after.past == links.past
        }),
{
    crate::registry_laws::law_network_change_races_each_once(links, seen, facts, d);
}

/// Suspending forgets what is ready and every link, in both directions, and nothing else.
pub proof fn law_suspending<L, C>(links: LinksView<L, C>, d: Seq<u8>)
    ensures
        ({
            let after = links.cleared();
            &&& found(after.ready, d) is None
            &&& found(after.links, d) is None
            &&& found(after.inbound, d) is None
            &&& after.liveness == links.liveness
            &&& same_registrations(after, links)
            &&& same_host(after, links)
        }),
{
}

/// Closing a destination forgets its registration, its readiness and its links, reports that once
/// if it was registered, keeps its flags under their number, and leaves every other destination,
/// and the winner of its latest race, as they were.
pub proof fn law_closing<L, C>(links: LinksView<L, C>, dest: Seq<u8>, d: Seq<u8>, k: int)
    ensures
        ({
            let (after, effects) = links.close(dest);
            let before = links.specs[dest];
            let registered = links.specs.contains_key(dest);
            &&& effects == if registered {
                seq![
                    EffectView::<L>::Notify(
                        ChangeView {
                            dest,
                            status: 0,
                            link: None,
                            audience: links.callbacks.len(),
                        },
                    ),
                ]
            } else {
                Seq::empty()
            }
            &&& d == dest ==> {
                &&& found(after.specs, d) is None
                &&& found(after.ready, d) is None
                &&& found(after.links, d) is None
                &&& found(after.inbound, d) is None
            }
            &&& d != dest ==> {
                &&& found(after.specs, d) == found(links.specs, d)
                &&& found(after.ready, d) == found(links.ready, d)
                &&& found(after.links, d) == found(links.links, d)
                &&& found(after.inbound, d) == found(links.inbound, d)
            }
            &&& after.past.len() == links.past.len()
            &&& 0 <= k < links.past.len() ==> after.past[k] == if registered && before.number == k {
                Flags {
                    attempt_in_flight: before.attempt_in_flight,
                    ever_established: before.ever_established,
                    latest: before.latest,
                }
            } else {
                links.past[k]
            }
            &&& after.liveness == links.liveness
            &&& after.next_attempt == links.next_attempt
            &&& same_host(after, links)
        }),
{
}

/// A callback that subscribes is added behind the others, and nothing else changes.
pub proof fn law_subscribing<L, C>(links: LinksView<L, C>, callback: C, i: int)
    ensures
        ({
            let after = links.subscribed(callback);
            &&& after.callbacks.len() == links.callbacks.len() + 1
            &&& after.callbacks[links.callbacks.len() as int] == callback
            &&& 0 <= i < links.callbacks.len() ==> after.callbacks[i] == links.callbacks[i]
            &&& after.audience() == links.callbacks.len() + 1
            &&& after.policy == links.policy
            &&& after.handler_installed == links.handler_installed
            &&& same_registrations(after, links)
            &&& same_links(after, links)
            &&& same_paths(after, links)
        }),
{
}

/// Tracking an inbound link, and its closing, concern the inbound link of the one destination
/// alone: those of all others, and everything else, stay as they were. A destination that is not
/// registered gets none.
pub proof fn law_inbound_links_are_kept_apart<L, C>(
    links: LinksView<L, C>,
    dest: Seq<u8>,
    link: L,
    d: Seq<u8>,
)
    ensures
        ({
            let held = links.inbound_held(dest, link);
            &&& found(held.inbound, d) == if d == dest && links.specs.contains_key(dest) {
                Some(link)
            } else {
                found(links.inbound, d)
            }
            &&& held.links == links.links
            &&& same_registrations(held, links)
            &&& same_paths(held, links)
            &&& same_host(held, links)
        }),
        ({
            let closed = links.inbound_closed(dest);
            &&& found(closed.inbound, d) == if d == dest {
                None
            } else {
                found(links.inbound, d)
            }
            &&& closed.links == links.links
            &&& same_registrations(closed, links)
            &&& same_paths(closed, links)
            &&& same_host(closed, links)
        }),
{
}

/// Links of two destinations are tracked side by side, in either order.
pub proof fn law_inbound_links_do_not_displace_each_other<L, C>(
    links: LinksView<L, C>,
    one: Seq<u8>,
    first: L,
    two: Seq<u8>,
    second: L,
)
    requires
        one != two,
        links.specs.contains_key(one),
        links.specs.contains_key(two),
    ensures
        ({
            let both = links.inbound_held(one, first).inbound_held(two, second);
            &&& found(both.inbound, one) == Some(first)
            &&& found(both.inbound, two) == Some(second)
            &&& both.inbound == links.inbound_held(two, second).inbound_held(one, first).inbound
            &&& found(both.inbound_closed(two).inbound, one) == Some(first)
        }),
{
    let both = links.inbound_held(one, first).inbound_held(two, second);
    assert(both.inbound =~= links.inbound_held(two, second).inbound_held(one, first).inbound);
}

/// Noting the winner of a race, and forgetting it, concern the one destination alone, and nothing
/// but its winner.
pub proof fn law_winners_are_kept_apart<L, C>(
    links: LinksView<L, C>,
    dest: Seq<u8>,
    interface: Seq<char>,
    now: u64,
    d: Seq<u8>,
)
    ensures
        ({
            let known = links.winner_known(dest, interface, now);
            &&& found(known.liveness, d) == if d == dest {
                Some((interface, now))
            } else {
                found(links.liveness, d)
            }
            &&& known.ready == links.ready
            &&& same_registrations(known, links)
            &&& same_links(known, links)
            &&& same_host(known, links)
        }),
        ({
            let forgot = links.invalidate(dest);
            &&& found(forgot.liveness, d) == if d == dest {
                None
            } else {
                found(links.liveness, d)
            }
            &&& forgot.ready == links.ready
            &&& same_registrations(forgot, links)
            &&& same_links(forgot, links)
            &&& same_host(forgot, links)
        }),
{
}

/// A winner is fresh until two seconds after it won, and then no more.
pub proof fn law_fresh_winner<L, C>(links: LinksView<L, C>, d: Seq<u8>, now: u64)
    ensures
        links.fresh_winner(d, now) == match found(links.liveness, d) {
            Some((interface, since)) => if now < since + 2000 {
                Some(interface)
            } else {
                None
            },
            None => None,
        },
{
}

/// News of an attempt: what it does to the flags of a registration in force and of one that is no
/// longer. It concerns only those that had the attempt as their latest, and of these that are in
/// force only the one of its destination. Being over takes an attempt out of flight; being ready
/// is remembered; neither ever undoes anything else.
pub proof fn law_news_of_an_attempt<L, C>(
    links: LinksView<L, C>,
    dest: Seq<u8>,
    attempt: u64,
    d: Seq<u8>,
    k: int,
)
    ensures
        ({
            let over = links.release(dest, attempt);
            let spec = links.specs[dest];
            let concerned = d == dest && links.specs.contains_key(dest) && spec.latest == Some(
                attempt,
            );
            &&& found(over.specs, d) == if concerned {
                Some(SpecView { attempt_in_flight: false, ..spec })
            } else {
                found(links.specs, d)
            }
            &&& over.past.len() == links.past.len()
            &&& 0 <= k < links.past.len() ==> over.past[k] == if links.past[k].latest == Some(
                attempt,
            ) {
                Flags { attempt_in_flight: false, ..links.past[k] }
            } else {
                links.past[k]
            }
            &&& over.next_attempt == links.next_attempt
            &&& same_links(over, links)
            &&& same_paths(over, links)
            &&& same_host(over, links)
        }),
        ({
            let ready = links.mark_established(dest, attempt);
            let spec = links.specs[dest];
            let concerned = d == dest && links.specs.contains_key(dest) && spec.latest == Some(
                attempt,
            );
            &&& found(ready.specs, d) == if concerned {
                Some(SpecView { ever_established: true, ..spec })
            } else {
                found(links.specs, d)
            }
            &&& ready.past.len() == links.past.len()
            &&& 0 <= k < links.past.len() ==> ready.past[k] == if links.past[k].latest == Some(
                attempt,
            ) {
                Flags { ever_established: true, ..links.past[k] }
            } else {
                links.past[k]
            }
            &&& ready.next_attempt == links.next_attempt
            &&& same_links(ready, links)
            &&& same_paths(ready, links)
            &&& same_host(ready, links)
        }),
{
}

/// A race that is won: the destination is ready from now on and its winner is known; the attempt
/// has found it ready; and either its link is asked for, for a propagation race, and the attempt
/// goes on, or it is over and the destination is reported active without a link.
pub proof fn law_winning_a_race<L, C>(
    links: LinksView<L, C>,
    job: RaceJobView,
    interface: Seq<char>,
    now: u64,
    d: Seq<u8>,
)
    ensures
        ({
            let (after, effects) = links.race_won(job, interface, now);
            let noted = links.mark_established(job.dest, job.attempt);
            let settled = if job.propagation {
                noted
            } else {
                noted.release(job.dest, job.attempt)
            };
            &&& found(after.ready, d) == if d == job.dest {
                Some(now)
            } else {
                found(links.ready, d)
            }
            &&& found(after.liveness, d) == if d == job.dest {
                Some((interface, now))
            } else {
                found(links.liveness, d)
            }
            &&& same_registrations(after, settled)
            &&& same_links(after, links)
            &&& same_host(after, links)
            &&& effects == if job.propagation {
                seq![
                    EffectView::<L>::StartPersistentLink(
                        LinkJobView {
                            dest: job.dest,
                            attempt: job.attempt,
                            app_name: job.app_name,
                            aspects: job.aspects,
                            audience: links.callbacks.len(),
                        },
                    ),
                ]
            } else {
                seq![
                    EffectView::<L>::Notify(
                        ChangeView {
                            dest: job.dest,
                            status: 3,
                            link: None,
                            audience: links.callbacks.len(),
                        },
                    ),
                ]
            }
        }),
{
    assert(same_registrations(
        links.race_won(job, interface, now).0,
        if job.propagation {
            links.mark_established(job.dest, job.attempt)
        } else {
            links.mark_established(job.dest, job.attempt).release(job.dest, job.attempt)
        },
    ));
}

/// A race that is lost, a link that cannot be built, and one that becomes active: the attempt is
/// over, and that is all that changes. The first two are reported as disconnected, the last as
/// active with its handle.
pub proof fn law_attempts_that_end<L, C>(
    links: LinksView<L, C>,
    race: RaceJobView,
    job: LinkJobView,
    link: L,
)
    ensures
        links.race_lost(race) == (
            links.release(race.dest, race.attempt),
            seq![
                EffectView::<L>::Notify(
                    ChangeView {
                        dest: race.dest,
                        status: 4,
                        link: None,
                        audience: links.callbacks.len(),
                    },
                ),
            ],
        ),
        links.link_unavailable(job) == (
            links.release(job.dest, job.attempt),
            seq![
                EffectView::<L>::Notify(
                    ChangeView { dest: job.dest, status: 4, link: None, audience: job.audience },
                ),
            ],
        ),
        links.link_established(job, link) == (
            links.release(job.dest, job.attempt),
            seq![
                EffectView::<L>::Notify(
                    ChangeView {
                        dest: job.dest,
                        status: 3,
                        link: Some(link),
                        audience: job.audience,
                    },
                ),
            ],
        ),
{
}

/// A persistent link that is held: it is found for its destination and for no other, it is
/// reported as establishing with the handle for the host and then initiated, and nothing else
/// changes; in particular its attempt goes on.
pub proof fn law_holding_a_link<L, C>(
    links: LinksView<L, C>,
    job: LinkJobView,
    link: L,
    shared: L,
    d: Seq<u8>,
)
    ensures
        ({
            let (after, effects) = links.link_held(job, link, shared);
            &&& found(after.links, d) == if d == job.dest {
                Some(link)
            } else {
                found(links.links, d)
            }
            &&& after.inbound == links.inbound
            &&& same_registrations(after, links)
            &&& same_paths(after, links)
            &&& same_host(after, links)
            &&& effects == seq![
                EffectView::<L>::Notify(
                    ChangeView {
                        dest: job.dest,
                        status: 2,
                        link: Some(shared),
                        audience: job.audience,
                    },
                ),
                EffectView::<L>::InitiateLink(job.dest),
            ]
        }),
{
}

/// A persistent link that closes: its destination is neither ready nor linked any more, its
/// attempt is over, and it is reported as disconnected; no other destination is touched, nor
/// anything else.
pub proof fn law_losing_a_link<L, C>(links: LinksView<L, C>, job: LinkJobView, d: Seq<u8>)
    ensures
        ({
            let (after, effects) = links.link_closed(job);
            &&& found(after.links, d) == if d == job.dest {
                None
            } else {
                found(links.links, d)
            }
            &&& found(after.ready, d) == if d == job.dest {
                None
            } else {
                found(links.ready, d)
            }
            &&& same_registrations(after, links.release(job.dest, job.attempt))
            &&& after.inbound == links.inbound
            &&& after.liveness == links.liveness
            &&& same_host(after, links)
            &&& effects == seq![
                EffectView::<L>::Notify(
                    ChangeView { dest: job.dest, status: 4, link: None, audience: job.audience },
                ),
            ]
        }),
{
}

/// The link of a send, once it is established: it is found for its destination and for no other,
/// the destination is ready, and if it is registered it is reported as active with the handle for
/// the host.
pub proof fn law_link_of_a_send<L, C>(
    links: LinksView<L, C>,
    dest: Seq<u8>,
    link: L,
    shared: L,
    now: u64,
    d: Seq<u8>,
)
    ensures
        ({
            let (after, effects) = links.send_link_held(dest, link, shared, now);
            &&& found(after.links, d) == if d == dest {
                Some(link)
            } else {
                found(links.links, d)
            }
            &&& found(after.ready, d) == if d == dest {
                Some(now)
            } else {
                found(links.ready, d)
            }
            &&& after.inbound == links.inbound
            &&& after.liveness == links.liveness
            &&& same_registrations(after, links)
            &&& same_host(after, links)
            &&& effects == if links.specs.contains_key(dest) {
                seq![
                    EffectView::<L>::Notify(
                        ChangeView {
                            dest,
                            status: 3,
                            link: Some(shared),
                            audience: links.callbacks.len(),
                        },
                    ),
                ]
            } else {
                Seq::empty()
            }
        }),
{
}

/// The link of a send that closes: its destination is neither ready nor linked any more, the
/// winner of its latest race is forgotten, it is reported as disconnected to those who heard of
/// the link, and nothing else changes.
pub proof fn law_link_of_a_send_closing<L, C>(
    links: LinksView<L, C>,
    dest: Seq<u8>,
    audience: nat,
    d: Seq<u8>,
)
    ensures
        ({
            let (after, effects) = links.send_link_closed(dest, audience);
            &&& d == dest ==> {
                &&& found(after.links, d) is None
                &&& found(after.ready, d) is None
                &&& found(after.liveness, d) is None
            }
            &&& d != dest ==> {
                &&& found(after.links, d) == found(links.links, d)
                &&& found(after.ready, d) == found(links.ready, d)
                &&& found(after.liveness, d) == found(links.liveness, d)
            }
            &&& after.inbound == links.inbound
            &&& same_registrations(after, links)
            &&& same_host(after, links)
            &&& effects == seq![
                EffectView::<L>::Notify(ChangeView { dest, status: 4, link: None, audience }),
            ]
        }),
{
}

/// What a step of a send leaves in the registry: the winner of its race, when the race is what
/// the send waits for; its link, when that is what it waits for; and otherwise nothing.
pub proof fn law_what_a_send_leaves<L, C>(
    links: LinksView<L, C>,
    dest: Seq<u8>,
    stage: ChainStage,
    event: SendEvent<L>,
    interface: String,
    e: SendErr,
    link: L,
    shared: L,
    now: u64,
)
    ensures
        links.send_step(
            dest,
            ChainStage::Tier3Race,
            SendEvent::Raced(Ok(interface)),
            now,
        ) == (links.winner_known(dest, interface@, now), Seq::<EffectView<L>>::empty()),
        links.send_step(
            dest,
            ChainStage::Tier3Establish,
            SendEvent::LinkEstablished(link, shared),
            now,
        ) == links.send_link_held(dest, link, shared, now),
        links.send_step(dest, stage, SendEvent::Raced(Err(e)), now) == (
            links,
            Seq::<EffectView<L>>::empty(),
        ),
        !(stage == ChainStage::Tier3Race && event is Raced) && !(stage
            == ChainStage::Tier3Establish && event is LinkEstablished) ==> links.send_step(
            dest,
            stage,
            event,
            now,
        ) == (links, Seq::<EffectView<L>>::empty()),
{
}

/// A send builds its link under the name and aspects of the registration, and where there is none
/// under those of LXMF delivery.
pub proof fn law_link_target<L, C>(links: LinksView<L, C>, d: Seq<u8>)
    ensures
        match found(links.specs, d) {
            Some(spec) => links.link_target(d) == (spec.app_name, spec.aspects),
            None => links.link_target(d) == ("lxmf"@, seq!["delivery"@]),
        },
{
}

/// A spec that is handed out holds what its destination is registered with, and shows the flags
/// of that registration; one that belongs to no registration in force shows those kept under its
/// number; and one that was never registered shows none set.
pub proof fn law_handed_out_spec<L, C>(
    links: LinksView<L, C>,
    d: Seq<u8>,
    spec: AppLinkSpecView,
    number: nat,
)
    ensures
        links.specs.contains_key(d) ==> {
            let given = links.handed_out(d);
            &&& given.app_name == links.specs[d].app_name
            &&& given.aspects == links.specs[d].aspects
            &&& given.mode == links.specs[d].mode
            &&& links.spec_flags(given).attempt_in_flight == links.specs[d].attempt_in_flight
            &&& links.spec_flags(given).ever_established == links.specs[d].ever_established
            &&& given.flags == Some((d, links.specs[d].number))
        },
        spec.flags is None ==> !links.spec_flags(spec).attempt_in_flight && !links.spec_flags(
            spec,
        ).ever_established,
        spec.flags == Some((d, number)) && !(links.specs.contains_key(d) && links.specs[d].number
            == number) && number < links.past.len() ==> links.spec_flags(spec)
            == links.past[number as int],
        spec.flags == Some((d, number)) && !(links.specs.contains_key(d) && links.specs[d].number
            == number) && number >= links.past.len() ==> !links.spec_flags(
            spec,
        ).attempt_in_flight && !links.spec_flags(spec).ever_established,
{
}

} // verus!
