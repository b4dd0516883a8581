//! The three-tier send: callbacks, order of the tiers, and every way to fail.
use app_links::{
    AppLinks, ChainAction, ChainEvent, ChainStage, Effect, FireOutcome, LinkFacts, LinkOutcome,
    RaceJob, SendErr, SendEvent, TierChain, APP_LINK_ACTIVE, APP_LINK_DISCONNECTED,
    PROP_FALLBACK_DELAY,
};

type Links = AppLinks<u32, u8>;

/// What happens to a send, with the millisecond at which it does.
#[derive(Clone, Copy)]
enum At {
    Proof(u64),
    Timer(u64),
    Step(u64, ChainEvent),
}

impl At {
    fn time(&self) -> u64 {
        match self {
            At::Proof(t) | At::Timer(t) | At::Step(t, _) => *t,
        }
    }
}

#[derive(Default)]
struct Calls {
    delivered: Vec<u64>,
    propagation: Vec<u64>,
    failed: Vec<u64>,
}

/// Plays what happens up to `until`, in the order of time.
fn play(send: &mut TierChain, happenings: &[At], until: u64) -> Calls {
    let mut order: Vec<At> = happenings.to_vec();
    order.sort_by_key(|h| h.time());
    let mut calls = Calls::default();
    for h in order {
        if h.time() > until {
            continue;
        }
        match h {
            At::Proof(t) => {
                if send.delivery_proof() {
                    calls.delivered.push(t);
                }
            }
            At::Timer(t) => {
                if send.propagation_timer() {
                    calls.propagation.push(t);
                }
            }
            At::Step(t, event) => {
                if send.step(event, false) == ChainAction::EndFailed {
                    calls.failed.push(t);
                }
            }
        }
    }
    calls
}

fn new_send() -> TierChain {
    let (send, first) = TierChain::new();
    assert_eq!(first, ChainAction::FindInbound);
    send
}

#[test]
fn timer_p_fires_when_not_delivered() {
    let mut send = new_send();
    let calls = play(&mut send, &[At::Timer(50)], 200);
    assert!(
        calls.propagation == vec![50],
        "Timer P must fire on_propagation_needed when not delivered"
    );
}

#[test]
fn timer_p_suppressed_when_already_delivered() {
    let mut send = new_send();
    assert!(send.delivery_proof());
    let calls = play(&mut send, &[At::Timer(50)], 200);
    assert!(
        calls.propagation.is_empty(),
        "Timer P must NOT fire when delivery already happened"
    );
}

#[test]
fn timer_p_suppressed_when_delivery_beats_timer() {
    let mut send = new_send();
    let calls = play(&mut send, &[At::Timer(100), At::Proof(20)], 200);
    assert!(
        calls.propagation.is_empty(),
        "Timer P must not fire when delivery beat it to the punch"
    );
}

#[test]
fn delivered_gate_fires_exactly_once() {
    let mut send = new_send();
    let calls = play(&mut send, &[At::Proof(1), At::Proof(1), At::Proof(1)], 10);
    assert_eq!(
        calls.delivered.len(), 1,
        "on_delivered must fire exactly once regardless of concurrent tier deliveries"
    );
}

#[test]
fn prop_and_failed_are_independent() {
    let mut send = new_send();
    let calls = play(
        &mut send,
        &[
            At::Step(0, ChainEvent::Held(None)),
            At::Step(0, ChainEvent::Held(None)),
            At::Timer(50),
            At::Step(150, ChainEvent::Raced(false)),
        ],
        300,
    );
    assert!(
        calls.propagation.iter().any(|t| *t <= 200),
        "on_propagation_needed must fire independently of on_failed"
    );
    assert!(
        calls.failed == vec![150],
        "on_failed must fire independently of on_propagation_needed"
    );
}

#[test]
fn tier1_delivery_accepted_after_tier2_starts() {
    let mut send = new_send();
    let calls = play(
        &mut send,
        &[
            At::Step(0, ChainEvent::Held(Some(true))),
            At::Step(0, ChainEvent::Fired(FireOutcome::Queued)),
            At::Step(50, ChainEvent::WaitOver),
            At::Step(50, ChainEvent::Held(Some(true))),
            At::Step(50, ChainEvent::Fired(FireOutcome::Queued)),
            At::Proof(80),
            At::Proof(120),
        ],
        300 + 100,
    );
    assert!(calls.delivered.first() == Some(&80), "delivery must be notified");
    assert!(
        calls.delivered.len() == 1,
        "delivery must not fire twice (delivered gate broken)"
    );
    assert_eq!(send.stage, ChainStage::Tier2Wait);
}

#[test]
fn timer_asks_for_propagation_once() {
    let mut send = new_send();
    assert!(send.propagation_timer());
    assert!(!send.propagation_timer());
    assert!(!send.delivered);
}

#[test]
fn every_tier_in_turn_and_a_late_proof() {
    let (mut send, mut action) = TierChain::new();
    let mut waited = 0u64;
    let mut actions = Vec::new();
    while send.stage != ChainStage::Over {
        actions.push(action);
        let event = match action {
            ChainAction::FindInbound | ChainAction::FindOutbound => ChainEvent::Held(Some(true)),
            ChainAction::FireInbound | ChainAction::FireOutbound | ChainAction::FireFresh => {
                ChainEvent::Fired(FireOutcome::Queued)
            }
            ChainAction::Wait(ms) => {
                waited += ms;
                ChainEvent::WaitOver
            }
            ChainAction::ExpireAndRace(ms) => {
                waited += ms;
                ChainEvent::Raced(true)
            }
            ChainAction::RecallIdentity => ChainEvent::IdentityRecalled(true),
            ChainAction::BuildDestination => ChainEvent::DestinationBuilt(true),
            ChainAction::BuildLink => ChainEvent::LinkBuilt(true),
            ChainAction::Initiate => ChainEvent::Initiated(true),
            ChainAction::AwaitLink(ms) => {
                waited += ms;
                ChainEvent::LinkWaited(LinkOutcome::Established)
            }
            ChainAction::AwaitProof(ms) => {
                waited += ms;
                ChainEvent::ProofWaited(false)
            }
            other => panic!("unexpected {:?}", other),
        };
        action = send.step(event, false);
    }
    assert_eq!(action, ChainAction::EndFailed);
    assert_eq!(waited, 17_000);
    assert_eq!(
        actions,
        vec![
            ChainAction::FindInbound,
            ChainAction::FireInbound,
            ChainAction::Wait(1000),
            ChainAction::FindOutbound,
            ChainAction::FireOutbound,
            ChainAction::Wait(1000),
            ChainAction::ExpireAndRace(5000),
            ChainAction::RecallIdentity,
            ChainAction::BuildDestination,
            ChainAction::BuildLink,
            ChainAction::Initiate,
            ChainAction::AwaitLink(5000),
            ChainAction::FireFresh,
            ChainAction::AwaitProof(5000),
        ]
    );
    // The failure is reported, and still the first proof counts.
    assert!(send.delivery_proof());
    assert!(!send.delivery_proof());
}

#[test]
fn tiers_without_an_active_link_are_skipped_without_waiting() {
    for link in [None, Some(false)] {
        let mut send = new_send();
        assert_eq!(send.step(ChainEvent::Held(link), false), ChainAction::FindOutbound);
        assert_eq!(send.step(ChainEvent::Held(link), false), ChainAction::ExpireAndRace(5000));
    }
}

#[test]
fn a_tier_is_given_its_time_only_if_its_packet_was_queued() {
    let mut send = new_send();
    send.step(ChainEvent::Held(Some(true)), false);
    assert_eq!(send.step(ChainEvent::Fired(FireOutcome::Queued), false), ChainAction::Wait(1000));
    for outcome in [FireOutcome::NoDestination, FireOutcome::SendFailed, FireOutcome::NoReceipt] {
        let mut send = new_send();
        send.step(ChainEvent::Held(Some(true)), false);
        assert_eq!(send.step(ChainEvent::Fired(outcome), false), ChainAction::FindOutbound);
        assert_eq!(send.stage, ChainStage::Tier2Link);
        send.step(ChainEvent::Held(Some(true)), false);
        assert_eq!(
            send.step(ChainEvent::Fired(outcome), false),
            ChainAction::ExpireAndRace(5000)
        );
        assert_eq!(send.stage, ChainStage::Tier3Race);
    }
}

#[test]
fn a_fresh_winner_spares_the_race_on_every_way_into_tier_three() {
    // No cached link.
    let mut send = new_send();
    send.step(ChainEvent::Held(None), true);
    assert_eq!(send.step(ChainEvent::Held(None), true), ChainAction::RecallIdentity);
    assert_eq!(send.stage, ChainStage::Tier3Identity);
    // A packet that could not be queued.
    let mut send = new_send();
    send.step(ChainEvent::Held(None), true);
    send.step(ChainEvent::Held(Some(true)), true);
    assert_eq!(
        send.step(ChainEvent::Fired(FireOutcome::SendFailed), true),
        ChainAction::RecallIdentity
    );
    // A packet that was not proven in time.
    let mut send = new_send();
    send.step(ChainEvent::Held(None), true);
    send.step(ChainEvent::Held(Some(true)), true);
    assert_eq!(send.step(ChainEvent::Fired(FireOutcome::Queued), true), ChainAction::Wait(1000));
    assert_eq!(send.step(ChainEvent::WaitOver, true), ChainAction::RecallIdentity);
}

#[test]
fn delivery_during_a_wait_ends_the_send() {
    let mut send = new_send();
    send.step(ChainEvent::Held(Some(true)), false);
    send.step(ChainEvent::Fired(FireOutcome::Queued), false);
    assert!(send.delivery_proof());
    assert_eq!(send.step(ChainEvent::WaitOver, false), ChainAction::EndDelivered);

    let mut send = new_send();
    send.step(ChainEvent::Held(None), false);
    send.step(ChainEvent::Held(Some(true)), false);
    send.step(ChainEvent::Fired(FireOutcome::Queued), false);
    assert!(send.delivery_proof());
    assert_eq!(send.step(ChainEvent::WaitOver, false), ChainAction::EndDelivered);
    assert_eq!(send.step(ChainEvent::WaitOver, false), ChainAction::Ignore);
}

/// A send without links whose tier 3 has got through `good`.
fn tier3(good: &[ChainEvent]) -> TierChain {
    let mut send = new_send();
    send.step(ChainEvent::Held(None), false);
    send.step(ChainEvent::Held(None), false);
    for event in good {
        assert_ne!(send.step(*event, false), ChainAction::Ignore);
    }
    send
}

#[test]
fn tier_three_gives_up_at_its_first_failure() {
    let good = [
        ChainEvent::Raced(true),
        ChainEvent::IdentityRecalled(true),
        ChainEvent::DestinationBuilt(true),
        ChainEvent::LinkBuilt(true),
        ChainEvent::Initiated(true),
        ChainEvent::LinkWaited(LinkOutcome::Established),
        ChainEvent::Fired(FireOutcome::Queued),
        ChainEvent::ProofWaited(true),
    ];
    let bad: [Vec<ChainEvent>; 8] = [
        vec![ChainEvent::Raced(false)],
        vec![ChainEvent::IdentityRecalled(false)],
        vec![ChainEvent::DestinationBuilt(false)],
        vec![ChainEvent::LinkBuilt(false)],
        vec![ChainEvent::Initiated(false)],
        vec![
            ChainEvent::LinkWaited(LinkOutcome::Closed),
            ChainEvent::LinkWaited(LinkOutcome::TimedOut),
        ],
        vec![
            ChainEvent::Fired(FireOutcome::NoDestination),
            ChainEvent::Fired(FireOutcome::SendFailed),
            ChainEvent::Fired(FireOutcome::NoReceipt),
        ],
        vec![ChainEvent::ProofWaited(false)],
    ];
    for (n, events) in bad.iter().enumerate() {
        for event in events {
            let mut send = tier3(&good[..n]);
            assert_eq!(send.step(*event, false), ChainAction::EndFailed);
            assert_eq!(send.stage, ChainStage::Over);
            // With a proof from an earlier tier there is no failure to report.
            let mut send = tier3(&good[..n]);
            assert!(send.delivery_proof());
            assert_eq!(send.step(*event, false), ChainAction::EndDelivered);
        }
    }
    let mut send = tier3(&good[..7]);
    assert_eq!(send.step(good[7], false), ChainAction::EndDelivered);
}

#[test]
fn events_of_another_stage_are_ignored() {
    let mut send = new_send();
    let before = send;
    assert_eq!(send.step(ChainEvent::Raced(true), false), ChainAction::Ignore);
    assert_eq!(send.step(ChainEvent::WaitOver, false), ChainAction::Ignore);
    assert_eq!(send, before);
}

#[test]
fn a_send_leaves_its_winner_and_its_link_in_the_registry() {
    let dest = [7u8, 8, 9];
    let mut links: Links = AppLinks::new();
    links.register_status_callback(1);
    let (mut send, first, timer) = Links::send();
    assert_eq!(first, ChainAction::FindInbound);
    assert_eq!(timer, PROP_FALLBACK_DELAY);
    assert_eq!(timer, 5000);
    for _ in 0..2 {
        links.advance_send(&dest, &mut send, SendEvent::Held(None), 0);
    }
    assert_eq!(links.liveness_winner(&dest, 10), None);
    let step = links.advance_send(&dest, &mut send, SendEvent::Raced(Ok("tcp0".to_string())), 10);
    assert_eq!(step.action, ChainAction::RecallIdentity);
    assert_eq!(step.audience, 1);
    assert_eq!(links.liveness_winner(&dest, 2009).map(|s| s.as_str()), Some("tcp0"));
    assert_eq!(links.liveness_winner(&dest, 2010), None);
    links.advance_send(&dest, &mut send, SendEvent::IdentityRecalled(true), 11);
    links.advance_send(&dest, &mut send, SendEvent::DestinationBuilt(true), 11);
    links.advance_send(&dest, &mut send, SendEvent::LinkBuilt(true), 11);
    links.advance_send(&dest, &mut send, SendEvent::Initiated(true), 11);
    let step = links.advance_send(&dest, &mut send, SendEvent::LinkEstablished(42, 142), 12);
    assert_eq!(step.action, ChainAction::FireFresh);
    assert_eq!(step.released, None);
    // Nobody has opened the destination, so there is nothing to report.
    assert!(step.effects.is_empty());
    assert_eq!(step.unreported, Some(142));
    assert_eq!(links.get_handle(&dest), Some(&42));
    // A second report does not belong to this stage: the handles come back.
    let step = links.advance_send(&dest, &mut send, SendEvent::LinkEstablished(43, 143), 13);
    assert_eq!(step.action, ChainAction::Ignore);
    assert_eq!((step.released, step.unreported), (Some(43), Some(143)));
    assert!(step.effects.is_empty());
    assert_eq!(links.get_handle(&dest), Some(&42));
    let step = links.advance_send(&dest, &mut send, SendEvent::Fired(FireOutcome::Queued), 14);
    assert_eq!(step.action, ChainAction::AwaitProof(5000));
    let step = links.advance_send(&dest, &mut send, SendEvent::ProofWaited(true), 15);
    assert_eq!(step.action, ChainAction::EndDelivered);
}

#[test]
fn a_lost_race_leaves_nothing_in_the_registry() {
    let dest = [1u8];
    for event in [
        SendEvent::Raced(Err(SendErr::LivenessTimeout)),
        SendEvent::Raced(Err(SendErr::NoUsableInterface)),
        SendEvent::Raced(Err(SendErr::Dispatch("x".to_string()))),
    ] {
        let mut links: Links = AppLinks::new();
        let (mut send, _, _) = Links::send();
        links.advance_send(&dest, &mut send, SendEvent::Held(None), 0);
        links.advance_send(&dest, &mut send, SendEvent::Held(Some(false)), 0);
        let step = links.advance_send(&dest, &mut send, event, 1);
        assert_eq!(step.action, ChainAction::EndFailed);
        assert_eq!(links.liveness_winner(&dest, 1), None);
    }
    for event in [SendEvent::LinkClosed, SendEvent::LinkTimedOut] {
        let mut links: Links = AppLinks::new();
        let (mut send, _, _) = Links::send();
        links.advance_send(&dest, &mut send, SendEvent::Held(None), 0);
        links.advance_send(&dest, &mut send, SendEvent::Held(None), 0);
        links.advance_send(&dest, &mut send, SendEvent::Raced(Ok("a".to_string())), 0);
        links.advance_send(&dest, &mut send, SendEvent::IdentityRecalled(true), 0);
        links.advance_send(&dest, &mut send, SendEvent::DestinationBuilt(true), 0);
        links.advance_send(&dest, &mut send, SendEvent::LinkBuilt(true), 0);
        links.advance_send(&dest, &mut send, SendEvent::Initiated(true), 0);
        let step = links.advance_send(&dest, &mut send, event, 0);
        assert_eq!(step.action, ChainAction::EndFailed);
        assert_eq!(links.get_handle(&dest), None);
    }
}

#[test]
fn a_link_of_a_send_is_reported_for_a_registered_destination() {
    let dest = [4u8, 5];
    let nothing = LinkFacts { link_active: false, has_path: false };
    let mut links: Links = AppLinks::new();
    links.register_status_callback(1);
    links.register_status_callback(2);
    let mut jobs: Vec<RaceJob> = Vec::new();
    for effect in links.open(&dest, "lxmf", &["delivery"], nothing) {
        if let Effect::StartRace(job) = effect {
            jobs.push(job);
        }
    }
    links.race_finished(jobs.remove(0), Err(SendErr::LivenessTimeout), 0);
    assert_eq!(links.status(&dest, nothing), APP_LINK_DISCONNECTED);
    let (mut send, _, _) = Links::send();
    for event in [
        SendEvent::Held(None),
        SendEvent::Held(None),
        SendEvent::Raced(Ok("tcp".to_string())),
        SendEvent::IdentityRecalled(true),
        SendEvent::DestinationBuilt(true),
        SendEvent::LinkBuilt(true),
        SendEvent::Initiated(true),
    ] {
        let step = links.advance_send(&dest, &mut send, event, 1);
        assert!(step.effects.is_empty());
    }
    let step = links.advance_send(&dest, &mut send, SendEvent::LinkEstablished(7, 8), 2);
    assert_eq!(step.action, ChainAction::FireFresh);
    assert_eq!((step.released, step.unreported), (None, None));
    assert_eq!(step.effects.len(), 1);
    match &step.effects[0] {
        Effect::Notify(change) => {
            assert_eq!(change.dest, dest.to_vec());
            assert_eq!(change.status, APP_LINK_ACTIVE);
            assert_eq!(change.link, Some(8));
            assert_eq!(change.audience, 2);
        }
        other => panic!("unexpected {:?}", other),
    }
    let active = LinkFacts { link_active: true, has_path: false };
    assert_eq!(links.status(&dest, active), APP_LINK_ACTIVE);
}

#[test]
fn a_send_soon_after_a_race_skips_the_race() {
    let dest = [6u8];
    let mut links: Links = AppLinks::new();
    let (mut first, _, _) = Links::send();
    links.advance_send(&dest, &mut first, SendEvent::Held(None), 0);
    links.advance_send(&dest, &mut first, SendEvent::Held(None), 0);
    links.advance_send(&dest, &mut first, SendEvent::Raced(Ok("tcp".to_string())), 100);

    // Fresh for two seconds.
    let (mut send, _, _) = Links::send();
    links.advance_send(&dest, &mut send, SendEvent::Held(None), 2099);
    let step = links.advance_send(&dest, &mut send, SendEvent::Held(Some(false)), 2099);
    assert_eq!(step.action, ChainAction::RecallIdentity);
    // Not a moment longer.
    let (mut send, _, _) = Links::send();
    links.advance_send(&dest, &mut send, SendEvent::Held(None), 2100);
    let step = links.advance_send(&dest, &mut send, SendEvent::Held(None), 2100);
    assert_eq!(step.action, ChainAction::ExpireAndRace(5000));
    // Of no use to another destination.
    let (mut send, _, _) = Links::send();
    links.advance_send(&[9], &mut send, SendEvent::Held(None), 200);
    let step = links.advance_send(&[9], &mut send, SendEvent::Held(None), 200);
    assert_eq!(step.action, ChainAction::ExpireAndRace(5000));
    // Invalidating forces a race.
    links.invalidate_liveness(&dest);
    let (mut send, _, _) = Links::send();
    links.advance_send(&dest, &mut send, SendEvent::Held(None), 200);
    let step = links.advance_send(&dest, &mut send, SendEvent::Held(None), 200);
    assert_eq!(step.action, ChainAction::ExpireAndRace(5000));
}
