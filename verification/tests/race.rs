//! Path races.
use app_links::liveness::{
    race_path, race_path_verified_this_session, usable_interfaces, InterfaceInfo, PathRace,
    RaceAction, RaceEvent,
};
use app_links::{AppLinks, Effect, LinkFacts, RaceJob, SendErr, LIVENESS_BUDGET};

fn interface(name: &str, online: bool, bitrate: Option<u64>) -> InterfaceInfo {
    InterfaceInfo { name: name.to_string(), online, bitrate }
}

fn network() -> Vec<InterfaceInfo> {
    vec![
        interface("tcp", true, Some(10_000_000)),
        interface("lora", true, Some(49_999)),
        interface("edge", true, Some(50_000)),
        interface("down", false, Some(10_000_000)),
        interface("plain", true, None),
        interface("off", false, None),
    ]
}

/// Races on to the point where the known path has been looked at.
fn looked(start: (PathRace, RaceAction), known: bool, verified: bool) -> (PathRace, RaceAction) {
    let (mut race, action) = start;
    assert!(matches!(action, RaceAction::ListInterfaces));
    assert!(matches!(race.step(RaceEvent::Interfaces(network())), RaceAction::CheckPath));
    let action = race.step(RaceEvent::PathKnown { known, verified });
    (race, action)
}

fn finished(action: RaceAction) -> Result<String, SendErr> {
    match action {
        RaceAction::Finish(result) => result,
        other => panic!("unexpected {:?}", other),
    }
}

fn requested(action: RaceAction) -> (Vec<String>, u64, bool) {
    match action {
        RaceAction::RequestAndWait { via, budget, verified } => (via, budget, verified),
        other => panic!("unexpected {:?}", other),
    }
}

#[test]
fn only_online_interfaces_above_the_threshold_are_usable() {
    assert_eq!(usable_interfaces(&network()), vec!["tcp", "edge", "plain"]);
    assert!(usable_interfaces(&vec![]).is_empty());
}

#[test]
fn no_usable_interface_ends_the_race_at_once() {
    let (mut race, _) = race_path(&[1], 5000);
    let action = race.step(RaceEvent::Interfaces(vec![
        interface("lora", true, Some(1200)),
        interface("down", false, None),
    ]));
    assert_eq!(finished(action), Err(SendErr::NoUsableInterface));
    assert!(matches!(race.step(RaceEvent::PathArrived(true)), RaceAction::Ignore));
}

#[test]
fn a_known_path_wins_at_once() {
    let (mut race, action) = looked(race_path(&[1, 2], 5000), true, false);
    assert_eq!(race.dest(), &[1, 2]);
    assert!(matches!(action, RaceAction::FindNextHop));
    let action = race.step(RaceEvent::NextHop(Some("tcp".to_string())));
    assert_eq!(finished(action), Ok("tcp".to_string()));
}

#[test]
fn a_known_path_without_a_next_hop_is_raced_for() {
    let (mut race, _) = looked(race_path(&[1], 77), true, true);
    let (via, budget, verified) = requested(race.step(RaceEvent::NextHop(None)));
    assert_eq!(via, vec!["tcp", "edge", "plain"]);
    assert_eq!(budget, 77);
    assert!(!verified);
}

#[test]
fn a_path_that_turns_up_wins() {
    let (mut race, action) = looked(race_path(&[1], 5000), false, false);
    let (via, budget, verified) = requested(action);
    assert_eq!((via.len(), budget, verified), (3, 5000, false));
    assert!(matches!(race.step(RaceEvent::PathArrived(true)), RaceAction::FindNextHop));
    let action = race.step(RaceEvent::NextHop(Some("edge".to_string())));
    assert_eq!(finished(action), Ok("edge".to_string()));
}

#[test]
fn a_race_times_out() {
    let (mut race, _) = looked(race_path(&[1], 5000), false, false);
    assert_eq!(finished(race.step(RaceEvent::PathArrived(false))), Err(SendErr::LivenessTimeout));

    let (mut race, _) = looked(race_path(&[1], 5000), false, false);
    race.step(RaceEvent::PathArrived(true));
    assert_eq!(finished(race.step(RaceEvent::NextHop(None))), Err(SendErr::LivenessTimeout));
}

#[test]
fn a_verified_race_is_not_won_by_a_path_from_disk() {
    let (_, action) = looked(race_path_verified_this_session(&[1], 9), true, false);
    let (via, budget, verified) = requested(action);
    assert_eq!(via, vec!["tcp", "edge", "plain"]);
    assert_eq!((budget, verified), (9, true));
    let (mut race, action) = looked(race_path_verified_this_session(&[1], 9), true, true);
    assert!(matches!(action, RaceAction::FindNextHop));
    let action = race.step(RaceEvent::NextHop(Some("tcp".to_string())));
    assert_eq!(finished(action), Ok("tcp".to_string()));
    // A verification without a path counts for nothing.
    let (_, action) = looked(race_path_verified_this_session(&[1], 9), false, true);
    requested(action);
}

fn opened(aspects: &[&str]) -> RaceJob {
    let mut links: AppLinks<u32, u8> = AppLinks::new();
    let facts = LinkFacts { link_active: false, has_path: true };
    let effects = links.open(&[5, 5], "lxmf", aspects, facts);
    for effect in effects {
        if let Effect::StartRace(job) = effect {
            return job;
        }
    }
    panic!("no race")
}

#[test]
fn propagation_open_requires_session_verified_path() {
    let job = opened(&["propagation"]);
    let (_, action) = looked(job.start(), true, false);
    let (_, budget, verified) = requested(action);
    assert!(
        job.propagation && budget == LIVENESS_BUDGET,
        "propagation AppLinks establishment must require a current-session PATH_RESPONSE / announce before LRREQ"
    );
    assert!(
        verified,
        "verified propagation path-race must wake from the transport path-added event, not a sleep-poll loop"
    );
}

#[test]
fn other_destinations_accept_a_path_from_disk() {
    let job = opened(&["delivery"]);
    assert!(!job.propagation);
    let (race, action) = looked(job.start(), true, false);
    assert_eq!(race.dest(), &[5, 5]);
    assert!(matches!(action, RaceAction::FindNextHop));
}
