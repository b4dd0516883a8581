//! What the values that go in and out show, and what lists and reports mean.
use crate::dest_map::lists_once;
use crate::effects::{
    asked, notice, notice_with, BuildStep, ChangeView, Effect, EffectView, LinkJob, RaceJob,
    StatusChange,
};
use crate::liveness::{RaceAction, RaceActionView, RaceEvent, RaceEventView};
use crate::registry::{
    disconnects, facts_of, is_value, slice_texts, LinkFacts, LinksView, SendEvent,
};
use crate::send::{ChainEvent, LinkOutcome};
use crate::types::{
    texts, AppLinkSpec, AppLinkSpecView, FlagsKey, LinkMode, SendErr, APP_LINK_ACTIVE,
    APP_LINK_DISCONNECTED, APP_LINK_ESTABLISHING, APP_LINK_NONE, APP_LINK_PATH_REQUESTED,
    DIRECT_STAGGER_WAIT, DUAL_LINK_SETTLING_SECS, LIVENESS_BUDGET, LIVENESS_CACHE_TTL,
    LORA_BITRATE_THRESHOLD, PROP_FALLBACK_DELAY,
};
use vstd::prelude::*;

verus! {

/// The status codes and the limits.
pub proof fn law_codes_and_limits()
    ensures
        APP_LINK_NONE == 0,
        APP_LINK_PATH_REQUESTED == 1,
        APP_LINK_ESTABLISHING == 2,
        APP_LINK_ACTIVE == 3,
        APP_LINK_DISCONNECTED == 4,
        DIRECT_STAGGER_WAIT == 1000,
        DUAL_LINK_SETTLING_SECS == 720,
        LORA_BITRATE_THRESHOLD == 50_000,
        LIVENESS_CACHE_TTL == 2000,
        LIVENESS_BUDGET == 5000,
        PROP_FALLBACK_DELAY == 5000,
{
}

/// Lists of texts and of effects are shown element by element.
pub proof fn law_lists_are_shown_in_full<L>(
    list: Seq<String>,
    slices: Seq<&str>,
    effects: Seq<Effect<L>>,
    i: int,
)
    ensures
        texts(list).len() == list.len(),
        slice_texts(slices).len() == slices.len(),
        asked(effects).len() == effects.len(),
        0 <= i < list.len() ==> texts(list)[i] == list[i]@,
        0 <= i < slices.len() ==> slice_texts(slices)[i] == slices[i]@,
        0 <= i < effects.len() ==> asked(effects)[i] == effects[i]@,
{
}

/// Jobs, reports and specs are shown as they are, field by field.
pub proof fn law_values_are_shown_as_they_are<L>(
    race: RaceJob,
    job: LinkJob,
    change: StatusChange<L>,
    spec: AppLinkSpec,
    key: FlagsKey,
)
    ensures
        race@.dest == race.dest@,
        race@.attempt == race.attempt,
        race@.app_name == race.app_name@,
        race@.aspects == texts(race.aspects@),
        race@.propagation == race.propagation,
        job@.dest == job.dest@,
        job@.attempt == job.attempt,
        job@.app_name == job.app_name@,
        job@.aspects == texts(job.aspects@),
        job@.audience == job.audience,
        change@.dest == change.dest@,
        change@.status == change.status,
        change@.link == change.link,
        change@.audience == change.audience,
        spec@.app_name == spec.app_name@,
        spec@.aspects == texts(spec.aspects@),
        spec@.mode == spec.mode,
        spec@.flags == match spec.flags {
            Some(k) => Some((k.dest@, k.number as nat)),
            None => None,
        },
        key@ == (key.dest@, key.number as nat),
{
}

/// An effect is shown as the effect that it is, with what it carries.
pub proof fn law_effects_are_shown_as_they_are<L>(effect: Effect<L>)
    ensures
        match effect {
            Effect::InstallAnnounceHandler => effect@ == EffectView::<L>::InstallAnnounceHandler,
            Effect::WatchAnnounce(dest) => effect@ == EffectView::<L>::WatchAnnounce(dest@),
            Effect::Notify(change) => effect@ == EffectView::Notify(change@),
            Effect::StartRace(job) => effect@ == EffectView::<L>::StartRace(job@),
            Effect::StartPersistentLink(job) => effect@ == EffectView::<L>::StartPersistentLink(
                job@,
            ),
            Effect::InitiateLink(dest) => effect@ == EffectView::<L>::InitiateLink(dest@),
        },
{
}

/// What goes in and out of a race is shown as it is.
pub proof fn law_races_are_shown_as_they_are(event: RaceEvent, action: RaceAction)
    ensures
        match event {
            RaceEvent::Interfaces(list) => event@ == RaceEventView::Interfaces(list@),
            RaceEvent::PathKnown { known, verified } => event@ == RaceEventView::PathKnown {
                known,
                verified,
            },
            RaceEvent::NextHop(Some(name)) => event@ == RaceEventView::NextHop(Some(name@)),
            RaceEvent::NextHop(None) => event@ == RaceEventView::NextHop(None),
            RaceEvent::PathArrived(arrived) => event@ == RaceEventView::PathArrived(arrived),
        },
        match action {
            RaceAction::ListInterfaces => action@ == RaceActionView::ListInterfaces,
            RaceAction::CheckPath => action@ == RaceActionView::CheckPath,
            RaceAction::FindNextHop => action@ == RaceActionView::FindNextHop,
            RaceAction::RequestAndWait { via, budget, verified } => action@
                == RaceActionView::RequestAndWait { via: texts(via@), budget, verified },
            RaceAction::Finish(Ok(name)) => action@ == RaceActionView::Finish(Ok(name@)),
            RaceAction::Finish(Err(e)) => action@ == RaceActionView::Finish(Err(e)),
            RaceAction::Ignore => action@ == RaceActionView::Ignore,
        },
{
}

/// A report names its destination, its status, its link if it comes with one, and how many
/// callbacks hear it.
pub proof fn law_reports_say_what_changed<L>(dest: Seq<u8>, status: u8, link: L, audience: nat)
    ensures
        notice::<L>(dest, status, audience) == EffectView::<L>::Notify(
            ChangeView { dest, status, link: None, audience },
        ),
        notice_with(dest, status, link, audience) == EffectView::<L>::Notify(
            ChangeView { dest, status, link: Some(link), audience },
        ),
{
}

/// A list that names a set once has an element for each member, a member for each element, and
/// no element twice.
pub proof fn law_listing_is_one_for_one(
    list: Seq<Vec<u8>>,
    set: Set<Seq<u8>>,
    i: int,
    j: int,
    member: Seq<u8>,
)
    requires
        lists_once(list, set),
    ensures
        0 <= i < list.len() ==> set.contains(list[i]@),
        0 <= i < j < list.len() ==> list[i]@ != list[j]@,
        set.contains(member) ==> exists|k: int| 0 <= k < list.len() && (#[trigger] list[k])@ == member,
{
}

/// Disconnecting a set of destinations reports each of them once, as disconnected, without a
/// link, to the callbacks there are, and does nothing else.
pub proof fn law_disconnecting_is_one_for_one<L>(
    effects: Seq<EffectView<L>>,
    dests: Set<Seq<u8>>,
    audience: nat,
    i: int,
    j: int,
    member: Seq<u8>,
)
    requires
        disconnects(effects, dests, audience),
    ensures
        0 <= i < effects.len() ==> effects[i] is Notify && {
            let change = effects[i]->Notify_0;
            &&& dests.contains(change.dest)
            &&& change.status == 4
            &&& change.link is None
            &&& change.audience == audience
        },
        0 <= i < j < effects.len() ==> effects[i]->Notify_0.dest != effects[j]->Notify_0.dest,
        dests.contains(member) ==> exists|k: int|
            0 <= k < effects.len() && (#[trigger] effects[k])->Notify_0.dest == member,
{
    assert(0 <= i < effects.len() ==> effects[i] == effects[i]);
    assert(0 <= j < effects.len() ==> effects[j] == effects[j]);
    if dests.contains(member) {
        assert(effects.contains(notice::<L>(member, APP_LINK_DISCONNECTED, audience)));
        let k = choose|k: int|
            0 <= k < effects.len() && effects[k] == notice::<L>(
                member,
                APP_LINK_DISCONNECTED,
                audience,
            );
        assert(effects[k]->Notify_0.dest == member);
    }
}

/// What is handed back of a map is what it held under the key, and nothing where it held nothing.
pub proof fn law_handed_back_is_what_was_held<V>(
    held: Option<V>,
    map: Map<Seq<u8>, V>,
    key: Seq<u8>,
)
    ensures
        is_value(held, map, key) == (held == if map.contains_key(key) {
            Some(map[key])
        } else {
            None
        }),
{
}

/// What is known of several destinations is what the map says, and nothing of one that it does
/// not name.
pub proof fn law_unnamed_destinations_have_no_facts(
    facts: Map<Seq<u8>, LinkFacts>,
    dest: Seq<u8>,
)
    ensures
        facts.contains_key(dest) ==> facts_of(facts, dest) == facts[dest],
        !facts.contains_key(dest) ==> !facts_of(facts, dest).has_path && !facts_of(
            facts,
            dest,
        ).link_active,
{
}

/// A list of sightings of a registry names each registered destination once, with what is known
/// of it, and no other.
pub proof fn law_sightings_are_one_for_one<L, C>(
    links: LinksView<L, C>,
    seen: Seq<(Seq<u8>, LinkFacts)>,
    facts: Map<Seq<u8>, LinkFacts>,
    i: int,
    j: int,
    dest: Seq<u8>,
)
    requires
        links.sights(seen, facts),
    ensures
        0 <= i < seen.len() ==> links.specs.contains_key(seen[i].0),
        0 <= i < seen.len() && facts.contains_key(seen[i].0) ==> seen[i].1 == facts[seen[i].0],
        0 <= i < seen.len() && !facts.contains_key(seen[i].0) ==> !seen[i].1.has_path
            && !seen[i].1.link_active,
        0 <= i < j < seen.len() ==> seen[i].0 != seen[j].0,
        links.specs.contains_key(dest) ==> exists|k: int|
            0 <= k < seen.len() && (#[trigger] seen[k]).0 == dest,
{
}

/// What the driver of a send reports means to the send what it says.
pub proof fn law_send_reports_mean_what_they_say<L>(event: SendEvent<L>)
    ensures
        match event {
            SendEvent::Held(link) => event.plain() == ChainEvent::Held(link),
            SendEvent::Fired(outcome) => event.plain() == ChainEvent::Fired(outcome),
            SendEvent::WaitOver => event.plain() == ChainEvent::WaitOver,
            SendEvent::Raced(Ok(_)) => event.plain() == ChainEvent::Raced(true),
            SendEvent::Raced(Err(_)) => event.plain() == ChainEvent::Raced(false),
            SendEvent::IdentityRecalled(ok) => event.plain() == ChainEvent::IdentityRecalled(ok),
            SendEvent::DestinationBuilt(ok) => event.plain() == ChainEvent::DestinationBuilt(ok),
            SendEvent::LinkBuilt(ok) => event.plain() == ChainEvent::LinkBuilt(ok),
            SendEvent::Initiated(ok) => event.plain() == ChainEvent::Initiated(ok),
            SendEvent::LinkEstablished(_, _) => event.plain() == ChainEvent::LinkWaited(
                LinkOutcome::Established,
            ),
            SendEvent::LinkClosed => event.plain() == ChainEvent::LinkWaited(LinkOutcome::Closed),
            SendEvent::LinkTimedOut => event.plain() == ChainEvent::LinkWaited(
                LinkOutcome::TimedOut,
            ),
            SendEvent::ProofWaited(arrived) => event.plain() == ChainEvent::ProofWaited(arrived),
        },
{
}

/// The messages of the errors; that of a dispatch error ends in its cause.
pub proof fn law_messages_of_errors(cause: String)
    ensures
        SendErr::NoUsableInterface.text() == "no usable (online, non-LoRa) interface"@,
        SendErr::LivenessTimeout.text() == "liveness race timed out (>5s)"@,
        SendErr::Dispatch(cause).text() == "dispatch failed: "@ + cause@,
{
}

/// A spec that was never registered holds what it was made with, and no flags.
pub proof fn law_new_spec_holds_what_it_was_made_with(
    app_name: Seq<char>,
    aspects: Seq<Seq<char>>,
)
    ensures
        ({
            let spec = AppLinkSpecView::unregistered(app_name, aspects);
            &&& spec.app_name == app_name
            &&& spec.aspects == aspects
            &&& spec.mode == LinkMode::PersistentLink
            &&& spec.flags is None
        }),
{
}

/// The steps of building a link: the identity, the destination, the link; then there is no more.
pub proof fn law_link_is_built_in_three_steps()
    ensures
        BuildStep::RecallIdentity.following() == BuildStep::BuildDestination,
        BuildStep::BuildDestination.following() == BuildStep::BuildLink,
        BuildStep::BuildLink.following() == BuildStep::Built,
        BuildStep::Built.following() == BuildStep::Built,
        BuildStep::GiveUp.following() == BuildStep::GiveUp,
        BuildStep::Built.is_last(),
        BuildStep::GiveUp.is_last(),
        !BuildStep::RecallIdentity.is_last(),
        !BuildStep::BuildDestination.is_last(),
        !BuildStep::BuildLink.is_last(),
{
}

} // verus!
