//! The destination registry.
use app_links::{
    AppLinkSpec, AppLinks, BuildStep, DestMap, Effect, LinkFacts, LinkJob, LinkMode, LinkPolicy,
    RaceJob, SendErr, StatusChange, APP_LINK_ACTIVE, APP_LINK_DISCONNECTED,
    APP_LINK_ESTABLISHING, APP_LINK_NONE, APP_LINK_PATH_REQUESTED,
};

type Links = AppLinks<u32, &'static str>;

const NOTHING: LinkFacts = LinkFacts { link_active: false, has_path: false };
const PATH: LinkFacts = LinkFacts { link_active: false, has_path: true };
const LINK: LinkFacts = LinkFacts { link_active: true, has_path: false };

const A: [u8; 2] = [0xaa, 1];
const B: [u8; 2] = [0xbb, 2];

fn kinds(effects: &[Effect<u32>]) -> Vec<String> {
    effects
        .iter()
        .map(|e| match e {
            Effect::InstallAnnounceHandler => "install".to_string(),
            Effect::WatchAnnounce(d) => format!("watch {:?}", d),
            Effect::Notify(c) => format!("notify {:?} {} {:?} {}", c.dest, c.status, c.link, c.audience),
            Effect::StartRace(j) => format!("race {:?} {}", j.dest, j.propagation),
            Effect::StartPersistentLink(j) => format!("link {:?} {}", j.dest, j.audience),
            Effect::InitiateLink(d) => format!("initiate {:?}", d),
        })
        .collect()
}

fn race(effects: Vec<Effect<u32>>) -> RaceJob {
    for effect in effects {
        if let Effect::StartRace(job) = effect {
            return job;
        }
    }
    panic!("no race")
}

fn races(effects: &[Effect<u32>]) -> usize {
    effects.iter().filter(|e| matches!(e, Effect::StartRace(_))).count()
}

fn link_job(effects: Vec<Effect<u32>>) -> LinkJob {
    for effect in effects {
        if let Effect::StartPersistentLink(job) = effect {
            return job;
        }
    }
    panic!("no link")
}

fn notes(effects: &[Effect<u32>]) -> Vec<(Vec<u8>, u8)> {
    let mut list: Vec<(Vec<u8>, u8)> = effects
        .iter()
        .filter_map(|e| match e {
            Effect::Notify(StatusChange { dest, status, .. }) => Some((dest.clone(), *status)),
            _ => None,
        })
        .collect();
    list.sort();
    list
}

fn known(list: &[(&[u8], LinkFacts)]) -> DestMap<LinkFacts> {
    let mut map = DestMap::new();
    for (dest, facts) in list {
        map.insert(dest, *facts);
    }
    map
}

fn won(links: &mut Links, job: RaceJob, now: u64) -> Vec<Effect<u32>> {
    links.race_finished(job, Ok("tcp".to_string()), now)
}

#[test]
fn a_new_registry_is_empty_and_in_the_foreground() {
    let links = Links::new();
    assert_eq!(links.policy(), LinkPolicy::Foreground);
    assert_eq!(LinkPolicy::default(), LinkPolicy::Foreground);
    assert_eq!(LinkMode::default(), LinkMode::PersistentLink);
    assert!(links.destinations().is_empty());
    assert!(!links.contains(&A));
    assert!(links.spec(&A).is_none());
    assert_eq!(links.status(&A, PATH), APP_LINK_NONE);
    assert_eq!(links.get_handle(&A), None);
    assert_eq!(links.get_inbound_handle(&A), None);
    assert!(!links.has_inbound(&A));
    assert_eq!(links.status_callback(0), None);
}

#[test]
fn specs_start_without_attempts() {
    for spec in [
        AppLinkSpec::new("chat", vec!["a".to_string(), "b".to_string()]),
        AppLinkSpec::with_mode(
            "chat",
            vec!["a".to_string(), "b".to_string()],
            LinkMode::PersistentLink,
        ),
    ] {
        assert_eq!(spec.app_name, "chat");
        assert_eq!(spec.aspects, vec!["a", "b"]);
        assert_eq!(spec.mode, LinkMode::PersistentLink);
        let links = Links::new();
        for spec in [spec.clone(), spec] {
            assert!(!links.attempt_in_flight(&spec));
            assert!(!links.ever_established(&spec));
            assert_eq!(spec.aspects, vec!["a", "b"]);
            assert!(spec.flags.is_none());
        }
    }
}

#[test]
fn errors_have_messages() {
    assert_eq!(
        SendErr::NoUsableInterface.to_string(),
        "no usable (online, non-LoRa) interface"
    );
    assert_eq!(SendErr::LivenessTimeout.to_string(), "liveness race timed out (>5s)");
    assert_eq!(SendErr::Dispatch("no route".to_string()).to_string(), "dispatch failed: no route");
    assert_eq!(SendErr::Dispatch("a".to_string()).clone(), SendErr::Dispatch("a".to_string()));
}

#[test]
fn opening_installs_the_handler_once_watches_and_races() {
    let mut links = Links::new();
    links.register_status_callback("ui");
    let effects = links.open(&A, "lxmf", &["delivery"], NOTHING);
    assert_eq!(
        kinds(&effects),
        vec!["install", "watch [170, 1]", "notify [170, 1] 1 None 1", "race [170, 1] false"]
    );
    assert_eq!(links.status(&A, PATH), APP_LINK_PATH_REQUESTED);
    let spec = links.spec(&A).unwrap();
    assert_eq!(spec.app_name, "lxmf");
    assert_eq!(spec.aspects, vec!["delivery"]);
    assert!(links.attempt_in_flight(&spec));
    let effects = links.open_persistent(&B, "lxmf", &["propagation"], NOTHING);
    assert_eq!(
        kinds(&effects),
        vec!["watch [187, 2]", "notify [187, 2] 1 None 1", "race [187, 2] true"]
    );
    let mut dests = links.destinations();
    dests.sort();
    assert_eq!(dests, vec![A.to_vec(), B.to_vec()]);
    assert_eq!(links.status_callback(0), Some(&"ui"));
    assert_eq!(links.status_callback(1), None);
}

#[test]
fn a_won_race_makes_a_destination_ready_without_a_link() {
    let mut links = Links::new();
    let job = race(links.open(&A, "lxmf", &["delivery"], NOTHING));
    let effects = won(&mut links, job, 100);
    assert_eq!(kinds(&effects), vec!["notify [170, 1] 3 None 0"]);
    assert_eq!(links.status(&A, PATH), APP_LINK_ACTIVE);
    assert_eq!(links.status(&A, NOTHING), APP_LINK_DISCONNECTED);
    assert_eq!(links.get_handle(&A), None);
    let spec = links.spec(&A).unwrap();
    assert!(links.ever_established(&spec));
    assert!(!links.attempt_in_flight(&spec));
    assert_eq!(links.liveness_winner(&A, 100).map(|s| s.as_str()), Some("tcp"));
    links.invalidate_liveness(&A);
    assert_eq!(links.liveness_winner(&A, 100), None);
}

#[test]
fn a_lost_race_leaves_a_destination_disconnected() {
    let mut links = Links::new();
    let job = race(links.open(&A, "lxmf", &["delivery"], NOTHING));
    let effects = links.race_finished(job, Err(SendErr::LivenessTimeout), 1);
    assert_eq!(kinds(&effects), vec!["notify [170, 1] 4 None 0"]);
    assert_eq!(links.status(&A, PATH), APP_LINK_DISCONNECTED);
    assert!(!links.ever_established(&links.spec(&A).unwrap()));
    // The attempt is over, and another may start.
    assert_eq!(races(&links.announce_received(&A, NOTHING)), 1);
}

#[test]
fn concurrent_triggers_collapse_into_one_race() {
    let mut links = Links::new();
    let job = race(links.open(&A, "lxmf", &["delivery"], NOTHING));
    assert!(links.announce_received(&A, NOTHING).is_empty());
    assert!(links.network_changed(&known(&[(&A, NOTHING)])).is_empty());
    won(&mut links, job, 1);
    // Active: no race; its path lost: one race.
    assert!(links.announce_received(&A, PATH).is_empty());
    assert_eq!(races(&links.announce_received(&A, NOTHING)), 1);
    assert!(links.announce_received(&B, NOTHING).is_empty());
}

#[test]
fn a_propagation_destination_gets_a_persistent_link() {
    let mut links = Links::new();
    links.register_status_callback("one");
    let job = race(links.open(&A, "lxmf", &["propagation"], NOTHING));
    let effects = won(&mut links, job, 1);
    assert_eq!(kinds(&effects), vec!["link [170, 1] 1"]);
    assert_eq!(links.status(&A, PATH), APP_LINK_PATH_REQUESTED);
    let job = link_job(effects);
    assert_eq!(job.app_name, "lxmf");
    assert_eq!(job.aspects, vec!["propagation"]);
    // A callback registered later does not hear of this link.
    links.register_status_callback("two");
    let (effects, replaced) = links.start_persistent_link(&job, Some((7, 7)));
    assert_eq!(replaced, None);
    assert_eq!(kinds(&effects), vec!["notify [170, 1] 2 Some(7) 1", "initiate [170, 1]"]);
    assert_eq!(links.get_handle(&A), Some(&7));
    assert_eq!(links.status(&A, PATH), APP_LINK_ESTABLISHING);
    assert_eq!(links.status(&A, LINK), APP_LINK_ACTIVE);
    // Still in flight.
    assert!(links.announce_received(&A, PATH).is_empty());
    let effects = links.persistent_link_established(&job, 7);
    assert_eq!(kinds(&effects), vec!["notify [170, 1] 3 Some(7) 1"]);
    assert!(!links.attempt_in_flight(&links.spec(&A).unwrap()));
}

#[test]
fn persistent_link_close_does_not_auto_reopen() {
    let mut links = Links::new();
    let job = race(links.open(&A, "lxmf", &["propagation"], NOTHING));
    let job = link_job(won(&mut links, job, 1));
    links.start_persistent_link(&job, Some((7, 7)));
    links.persistent_link_established(&job, 7);
    let (effects, dropped) = links.persistent_link_closed(&job);
    assert_eq!(dropped, Some(7));
    assert!(
        kinds(&effects) == vec!["notify [170, 1] 4 None 0"],
        "PersistentLink CLOSED callback must surface DISCONNECTED, not retry by calling establish"
    );
    assert!(
        races(&effects) == 0 && links.status(&A, PATH) == APP_LINK_DISCONNECTED,
        "a closed persistent link must leave the destination disconnected"
    );
    // A later announce may start a new cycle.
    assert_eq!(races(&links.announce_received(&A, PATH)), 1);
}

#[test]
fn a_link_that_cannot_be_built_is_reported() {
    let mut links = Links::new();
    let job = race(links.open(&A, "lxmf", &["propagation"], NOTHING));
    let job = link_job(won(&mut links, job, 1));
    let (effects, replaced) = links.start_persistent_link(&job, None);
    assert_eq!(replaced, None);
    assert_eq!(kinds(&effects), vec!["notify [170, 1] 4 None 0"]);
    assert!(!links.attempt_in_flight(&links.spec(&A).unwrap()));
    assert_eq!(links.get_handle(&A), None);
}

#[test]
fn link_building_stops_at_its_first_failure() {
    let first = BuildStep::RecallIdentity;
    assert_eq!(first.next(true), BuildStep::BuildDestination);
    assert_eq!(first.next(true).next(true), BuildStep::BuildLink);
    assert_eq!(first.next(true).next(true).next(true), BuildStep::Built);
    assert_eq!(first.next(false), BuildStep::GiveUp);
    assert_eq!(first.next(true).next(false), BuildStep::GiveUp);
    assert_eq!(first.next(true).next(true).next(false), BuildStep::GiveUp);
    assert_eq!(BuildStep::GiveUp.next(true), BuildStep::GiveUp);
    assert_eq!(BuildStep::Built.next(false), BuildStep::Built);
}

#[test]
fn closing_drops_everything_and_reports_once() {
    let mut links = Links::new();
    let job = race(links.open(&A, "lxmf", &["propagation"], NOTHING));
    let job = link_job(won(&mut links, job, 1));
    links.start_persistent_link(&job, Some((7, 7)));
    assert_eq!(links.register_inbound(&A, 9), (true, None));
    let closed = links.close(&A);
    assert_eq!(kinds(&closed.effects), vec!["notify [170, 1] 0 None 0"]);
    assert_eq!((closed.link, closed.inbound), (Some(7), Some(9)));
    assert_eq!(links.status(&A, LINK), APP_LINK_NONE);
    assert!(!links.has_inbound(&A));
    let closed = links.close(&A);
    assert!(closed.effects.is_empty());
    assert_eq!((closed.link, closed.inbound), (None, None));
}

#[test]
fn inbound_links_are_tracked_for_registered_destinations_only() {
    let mut links = Links::new();
    assert_eq!(links.register_inbound(&A, 1), (false, Some(1)));
    assert!(!links.has_inbound(&A));
    links.open(&A, "lxmf", &["delivery"], NOTHING);
    assert_eq!(links.register_inbound(&A, 1), (true, None));
    assert_eq!(links.register_inbound(&A, 2), (true, Some(1)));
    assert_eq!(links.get_inbound_handle(&A), Some(&2));
    assert!(links.has_inbound(&A));
    assert_eq!(links.get_handle(&A), None);
    assert_eq!(links.inbound_closed(&A), Some(2));
    assert_eq!(links.inbound_closed(&A), None);
    assert!(!links.has_inbound(&A));
}

#[test]
fn policies_gate_the_triggers() {
    let seen = known(&[]);
    for (policy, opens, announces, changes) in [
        (LinkPolicy::Foreground, 1, 1, 1),
        (LinkPolicy::Background, 1, 1, 0),
        (LinkPolicy::Suspended, 0, 0, 0),
    ] {
        let mut links = Links::new();
        links.set_policy(policy, &known(&[]));
        assert_eq!(links.policy(), policy);
        let effects = links.open(&A, "lxmf", &["delivery"], NOTHING);
        assert_eq!(races(&effects), opens);
        assert!(links.contains(&A));

        let mut links = Links::new();
        let job = race(links.open(&A, "lxmf", &["delivery"], NOTHING));
        links.race_finished(job, Err(SendErr::LivenessTimeout), 1);
        links.set_policy(policy, &known(&[]));
        assert_eq!(races(&links.announce_received(&A, NOTHING)), announces);

        let mut links = Links::new();
        let job = race(links.open(&A, "lxmf", &["delivery"], NOTHING));
        links.race_finished(job, Err(SendErr::LivenessTimeout), 1);
        links.set_policy(policy, &known(&[]));
        assert_eq!(races(&links.network_changed(&seen)), changes);
    }
}

#[test]
fn suspending_drops_ready_entries_and_links_and_resuming_attempts_again() {
    let mut links = Links::new();
    let job = race(links.open(&A, "lxmf", &["delivery"], NOTHING));
    won(&mut links, job, 1);
    let job = race(links.open(&B, "lxmf", &["propagation"], NOTHING));
    let job = link_job(won(&mut links, job, 1));
    links.start_persistent_link(&job, Some((7, 7)));
    links.persistent_link_established(&job, 7);
    links.register_inbound(&A, 8);

    let mut change = links.set_policy(LinkPolicy::Suspended, &known(&[]));
    assert_eq!(
        notes(&change.effects),
        vec![(A.to_vec(), APP_LINK_DISCONNECTED), (B.to_vec(), APP_LINK_DISCONNECTED)]
    );
    assert_eq!(change.effects.len(), 2);
    assert_eq!(change.links.remove(&B), Some(7));
    assert_eq!(change.inbound.remove(&A), Some(8));
    assert_eq!(links.status(&A, PATH), APP_LINK_DISCONNECTED);
    assert_eq!(links.status(&B, LINK), APP_LINK_DISCONNECTED);
    assert!(!links.has_inbound(&A));

    let again = links.set_policy(LinkPolicy::Suspended, &known(&[(&A, NOTHING)]));
    assert!(again.effects.is_empty());

    let seen = known(&[(&A, NOTHING), (&B, NOTHING)]);
    let change = links.set_policy(LinkPolicy::Background, &seen);
    assert_eq!(races(&change.effects), 2);
    // Between the other two policies nothing happens.
    assert!(links.set_policy(LinkPolicy::Foreground, &seen).effects.is_empty());
}

#[test]
fn a_network_change_attempts_what_is_neither_active_nor_establishing() {
    let c = [0xcc, 3];
    let d = [0xdd, 4];
    let mut links = Links::new();
    // A is ready, B has a link that is not active, C is in flight, D is disconnected.
    let job = race(links.open(&A, "lxmf", &["delivery"], NOTHING));
    won(&mut links, job, 1);
    let job = race(links.open(&B, "lxmf", &["propagation"], NOTHING));
    let job = link_job(won(&mut links, job, 1));
    links.start_persistent_link(&job, Some((7, 7)));
    links.open(&c, "lxmf", &["delivery"], NOTHING);
    let job = race(links.open(&d, "lxmf", &["delivery"], NOTHING));
    links.race_finished(job, Err(SendErr::LivenessTimeout), 1);
    let seen =
        known(&[(&A, PATH), (&B, NOTHING), (&c, NOTHING), (&d, NOTHING)]);
    let effects = links.network_changed(&seen);
    assert_eq!(kinds(&effects), vec!["notify [221, 4] 1 None 0", "race [221, 4] false"]);
    // The winner of A's race is kept, since A is active; that of a lost path is forgotten.
    assert!(links.liveness_winner(&A, 1).is_some());
    let effects = links.network_changed(&known(&[(&A, NOTHING)]));
    assert_eq!(races(&effects), 1);
    assert!(links.liveness_winner(&A, 1).is_none());
}

#[test]
fn reopening_leaves_a_race_in_flight_and_starts_no_other() {
    let mut links = Links::new();
    let job = race(links.open(&A, "lxmf", &["delivery"], NOTHING));
    let effects = links.open_with_mode(&A, "chat", &["x"], LinkMode::PersistentLink, NOTHING);
    assert_eq!(kinds(&effects), vec!["watch [170, 1]"]);
    let spec = links.spec(&A).unwrap();
    assert_eq!(spec.app_name, "chat");
    assert_eq!(spec.aspects, vec!["x"]);
    assert!(links.attempt_in_flight(&spec));
    assert_eq!(links.status(&A, PATH), APP_LINK_PATH_REQUESTED);
    assert!(links.announce_received(&A, NOTHING).is_empty());
    assert!(links.network_changed(&known(&[])).is_empty());
    // The race resolves under the new registration.
    won(&mut links, job, 2);
    assert_eq!(links.status(&A, PATH), APP_LINK_ACTIVE);
    assert!(links.ever_established(&links.spec(&A).unwrap()));
    // Opening an active destination starts nothing, and its flags start anew.
    assert_eq!(races(&links.open(&A, "chat", &["x"], PATH)), 0);
    let spec = links.spec(&A).unwrap();
    assert!(!links.attempt_in_flight(&spec) && !links.ever_established(&spec));
}

#[test]
fn reopening_leaves_a_link_in_flight() {
    let mut links = Links::new();
    let job = race(links.open(&A, "lxmf", &["propagation"], NOTHING));
    let job = link_job(won(&mut links, job, 1));
    links.open(&A, "lxmf", &["propagation"], NOTHING);
    assert_eq!(links.status(&A, PATH), APP_LINK_PATH_REQUESTED);
    links.start_persistent_link(&job, Some((7, 7)));
    assert_eq!(races(&links.open(&A, "lxmf", &["propagation"], NOTHING)), 0);
    assert!(links.attempt_in_flight(&links.spec(&A).unwrap()));
    links.persistent_link_established(&job, 7);
    assert!(!links.attempt_in_flight(&links.spec(&A).unwrap()));
}

#[test]
fn an_attempt_of_a_closed_registration_touches_no_flag() {
    let mut links = Links::new();
    let old = race(links.open(&A, "lxmf", &["delivery"], NOTHING));
    links.close(&A);
    let new = race(links.open(&A, "lxmf", &["delivery"], NOTHING));
    assert_ne!(old.attempt, new.attempt);
    links.race_finished(old, Err(SendErr::LivenessTimeout), 1);
    assert_eq!(links.status(&A, PATH), APP_LINK_PATH_REQUESTED);
    assert!(links.announce_received(&A, NOTHING).is_empty());
    won(&mut links, new, 2);
    assert_eq!(links.status(&A, PATH), APP_LINK_ACTIVE);
}

#[test]
fn an_old_link_that_closes_leaves_a_newer_race_in_flight() {
    let mut links = Links::new();
    let job = race(links.open(&A, "lxmf", &["propagation"], NOTHING));
    let job = link_job(won(&mut links, job, 1));
    links.start_persistent_link(&job, Some((7, 7)));
    links.persistent_link_established(&job, 7);
    // The link has gone stale; an announce starts a race before it closes.
    let newer = race(links.announce_received(&A, NOTHING));
    assert_ne!(job.attempt, newer.attempt);
    let (effects, dropped) = links.persistent_link_closed(&job);
    assert_eq!(kinds(&effects), vec!["notify [170, 1] 4 None 0"]);
    assert_eq!(dropped, Some(7));
    assert_eq!(links.status(&A, NOTHING), APP_LINK_PATH_REQUESTED);
    assert!(links.announce_received(&A, NOTHING).is_empty());
    links.race_finished(newer, Err(SendErr::LivenessTimeout), 2);
    assert_eq!(links.status(&A, NOTHING), APP_LINK_DISCONNECTED);
    assert_eq!(races(&links.announce_received(&A, NOTHING)), 1);
}

#[test]
fn a_spec_follows_the_flags_of_its_registration() {
    let mut links = Links::new();
    let job = race(links.open(&A, "lxmf", &["delivery"], NOTHING));
    let spec = links.spec(&A).unwrap();
    let copy = spec.clone();
    assert!(links.attempt_in_flight(&spec) && links.attempt_in_flight(&copy));
    assert!(!links.ever_established(&spec) && !links.ever_established(&copy));
    won(&mut links, job, 1);
    assert!(!links.attempt_in_flight(&spec) && !links.attempt_in_flight(&copy));
    assert!(links.ever_established(&spec) && links.ever_established(&copy));
    // The next attempt shows in it as well.
    let job = race(links.announce_received(&A, NOTHING));
    assert!(links.attempt_in_flight(&spec));
    // Closing leaves the flags, and the race that still runs resolves them.
    links.close(&A);
    assert!(links.attempt_in_flight(&spec) && links.ever_established(&spec));
    links.open(&A, "lxmf", &["delivery"], NOTHING);
    let other = links.spec(&A).unwrap();
    links.race_finished(job, Err(SendErr::LivenessTimeout), 2);
    assert!(!links.attempt_in_flight(&spec) && links.ever_established(&spec));
    assert!(links.attempt_in_flight(&other) && !links.ever_established(&other));
}

#[test]
fn specs_from_before_and_after_reopening_both_follow_the_race_that_goes_on() {
    let mut links = Links::new();
    let job = race(links.open(&A, "lxmf", &["delivery"], NOTHING));
    let before = links.spec(&A).unwrap();
    links.open(&A, "chat", &["x"], NOTHING);
    let after = links.spec(&A).unwrap();
    assert_eq!((before.app_name.as_str(), after.app_name.as_str()), ("lxmf", "chat"));
    assert!(links.attempt_in_flight(&before) && links.attempt_in_flight(&after));
    won(&mut links, job, 1);
    for spec in [before, after] {
        assert!(!links.attempt_in_flight(&spec));
        assert!(links.ever_established(&spec));
    }
}

#[test]
fn a_send_link_that_closes_is_forgotten() {
    let mut links = Links::new();
    let job = race(links.open(&A, "lxmf", &["delivery"], NOTHING));
    won(&mut links, job, 1);
    let (effects, dropped) = links.send_link_closed(&A, 3);
    assert_eq!(kinds(&effects), vec!["notify [170, 1] 4 None 3"]);
    assert_eq!(dropped, None);
    assert_eq!(links.status(&A, PATH), APP_LINK_DISCONNECTED);
    assert_eq!(links.liveness_winner(&A, 1), None);
}

#[test]
fn links_are_built_under_the_registered_name_or_that_of_lxmf_delivery() {
    let mut links = Links::new();
    assert_eq!(links.link_target(&A), ("lxmf".to_string(), vec!["delivery".to_string()]));
    links.open(&A, "chat", &["room", "one"], NOTHING);
    assert_eq!(
        links.link_target(&A),
        ("chat".to_string(), vec!["room".to_string(), "one".to_string()])
    );
}

#[test]
fn destination_maps_hold_each_key_once() {
    let mut map: DestMap<u8> = DestMap::new();
    assert_eq!(map.insert(&A, 1), None);
    assert_eq!(map.insert(&B, 2), None);
    assert_eq!(map.insert(&A, 3), Some(1));
    assert_eq!(map.get(&A), Some(&3));
    assert_eq!(map.get(&[]), None);
    assert!(map.contains_key(&B));
    let mut keys = map.keys();
    keys.sort();
    assert_eq!(keys, vec![A.to_vec(), B.to_vec()]);
    assert_eq!(map.remove(&A), Some(3));
    assert_eq!(map.remove(&A), None);
    let mut taken = map.take();
    assert_eq!(taken.remove(&B), Some(2));
    assert!(map.keys().is_empty());
}

#[test]
fn what_happens_to_one_destination_leaves_the_others_alone() {
    let mut links = Links::new();
    let job = race(links.open(&A, "lxmf", &["delivery"], NOTHING));
    won(&mut links, job, 1);
    let job = race(links.open(&B, "lxmf", &["delivery"], NOTHING));
    links.race_finished(job, Err(SendErr::NoUsableInterface), 2);
    links.send_link_closed(&B, 0);
    links.invalidate_liveness(&B);
    links.close(&B);
    assert_eq!(links.status(&A, PATH), APP_LINK_ACTIVE);
    assert_eq!(links.liveness_winner(&A, 2).map(|s| s.as_str()), Some("tcp"));
    assert_eq!(links.destinations(), vec![A.to_vec()]);
}

#[test]
fn the_order_of_registration_makes_no_difference_to_a_network_change() {
    let mut results = Vec::new();
    for order in [[A, B], [B, A]] {
        let mut links = Links::new();
        for dest in order {
            let job = race(links.open(&dest, "lxmf", &["delivery"], NOTHING));
            links.race_finished(job, Err(SendErr::LivenessTimeout), 1);
        }
        let effects = links.network_changed(&known(&[]));
        assert_eq!(races(&effects), 2);
        assert_eq!(effects.len(), 4);
        results.push(notes(&effects));
        for dest in order {
            assert_eq!(links.status(&dest, PATH), APP_LINK_PATH_REQUESTED);
        }
    }
    assert_eq!(results[0], results[1]);
}
