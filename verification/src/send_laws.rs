//! What holds of every send, whatever happens to it and in whatever order.
use crate::send::{ChainAction, ChainEvent, ChainStage, FireOutcome, LinkOutcome, TierChain};
use vstd::prelude::*;

verus! {

/// Anything that can happen to a send.
pub enum SendHappening {
    /// The driver reports on the step that the chain asked for, while the winner of the latest
    /// race is fresh or not.
    Step(ChainEvent, bool),
    /// A delivery proof comes in.
    Proof,
    /// The propagation timer runs out.
    Timer,
}

/// A callback of the host.
pub enum HostCall {
    Delivered,
    PropagationNeeded,
    Failed,
}

/// What one happening does to a send, and which callbacks it fires.
pub open spec fn happen(send: TierChain, what: SendHappening) -> (TierChain, Seq<HostCall>) {
    match what {
        SendHappening::Step(event, fresh) => (
            send.next(event, fresh).0,
            if send.next(event, fresh).1 == ChainAction::EndFailed {
                seq![HostCall::Failed]
            } else {
                seq![]
            },
        ),
        SendHappening::Proof => (
            send.proven().0,
            if send.proven().1 {
                seq![HostCall::Delivered]
            } else {
                seq![]
            },
        ),
        SendHappening::Timer => (
            send.timed_out().0,
            if send.timed_out().1 {
                seq![HostCall::PropagationNeeded]
            } else {
                seq![]
            },
        ),
    }
}

/// A history of a send: the state it ends in and the callbacks fired, in order.
pub open spec fn history(whats: Seq<SendHappening>) -> (TierChain, Seq<HostCall>)
    decreases whats.len(),
{
    if whats.len() == 0 {
        (TierChain::initial(), seq![])
    } else {
        let before = history(whats.drop_last());
        let last = happen(before.0, whats.last());
        (last.0, before.1 + last.1)
    }
}

/// How often `call` was fired.
pub open spec fn times(calls: Seq<HostCall>, call: HostCall) -> nat {
    calls.to_multiset().count(call)
}

/// The milliseconds that performing `action` may take by waiting.
pub open spec fn waiting(action: ChainAction) -> nat {
    match action {
        ChainAction::Wait(ms) => ms as nat,
        ChainAction::ExpireAndRace(ms) => ms as nat,
        ChainAction::AwaitLink(ms) => ms as nat,
        ChainAction::AwaitProof(ms) => ms as nat,
        _ => 0,
    }
}

/// The milliseconds that a send may spend waiting over a history.
pub open spec fn total_waiting(whats: Seq<SendHappening>) -> nat
    decreases whats.len(),
{
    if whats.len() == 0 {
        0
    } else {
        total_waiting(whats.drop_last()) + match whats.last() {
            SendHappening::Step(event, fresh) => waiting(
                history(whats.drop_last()).0.next(event, fresh).1,
            ),
            _ => 0,
        }
    }
}

/// The happenings without the timer.
pub open spec fn without_timer(whats: Seq<SendHappening>) -> Seq<SendHappening> {
    whats.filter(|what: SendHappening| !(what is Timer))
}

/// The happenings without the steps of the chain.
pub open spec fn without_steps(whats: Seq<SendHappening>) -> Seq<SendHappening> {
    whats.filter(|what: SendHappening| !(what is Step))
}

/// The most steps that a chain can still take.
pub open spec fn steps_left(stage: ChainStage) -> nat {
    match stage {
        ChainStage::Tier1Link => 14,
        ChainStage::Tier1Fire => 13,
        ChainStage::Tier1Wait => 12,
        ChainStage::Tier2Link => 11,
        ChainStage::Tier2Fire => 10,
        ChainStage::Tier2Wait => 9,
        ChainStage::Tier3Race => 8,
        ChainStage::Tier3Identity => 7,
        ChainStage::Tier3Destination => 6,
        ChainStage::Tier3Link => 5,
        ChainStage::Tier3Initiate => 4,
        ChainStage::Tier3Establish => 3,
        ChainStage::Tier3Fire => 2,
        ChainStage::Tier3Proof => 1,
        ChainStage::Over => 0,
    }
}

/// The most milliseconds that a chain at `stage` can still spend waiting.
spec fn waiting_left(stage: ChainStage) -> nat {
    match stage {
        ChainStage::Tier1Link => 17000,
        ChainStage::Tier1Fire => 17000,
        ChainStage::Tier1Wait => 16000,
        ChainStage::Tier2Link => 16000,
        ChainStage::Tier2Fire => 16000,
        ChainStage::Tier2Wait => 15000,
        ChainStage::Tier3Race => 10000,
        ChainStage::Tier3Identity => 10000,
        ChainStage::Tier3Destination => 10000,
        ChainStage::Tier3Link => 10000,
        ChainStage::Tier3Initiate => 10000,
        ChainStage::Tier3Establish => 5000,
        ChainStage::Tier3Fire => 5000,
        ChainStage::Tier3Proof => 0,
        ChainStage::Over => 0,
    }
}

/// Counting over a concatenation.
proof fn lemma_times_add(a: Seq<HostCall>, b: Seq<HostCall>, call: HostCall)
    ensures
        times(a + b, call) == times(a, call) + times(b, call),
{
    vstd::seq_lib::lemma_multiset_commutative(a, b);
}

/// Counting in an empty and in a one-element sequence.
proof fn lemma_times_small(call: HostCall, other: HostCall)
    ensures
        times(seq![], call) == 0,
        times(seq![other], call) == if other == call { 1nat } else { 0nat },
{
    broadcast use vstd::seq_lib::group_to_multiset_ensures;

    assert(seq![other] =~= Seq::<HostCall>::empty().push(other));
}

/// Counting what one more happening fires.
proof fn lemma_times_history(whats: Seq<SendHappening>, call: HostCall)
    requires
        whats.len() > 0,
    ensures
        times(history(whats).1, call) == times(history(whats.drop_last()).1, call) + (if happen(
            history(whats.drop_last()).0,
            whats.last(),
        ).1 == seq![call] {
            1nat
        } else {
            0nat
        }),
{
    let before = history(whats.drop_last());
    let fired = happen(before.0, whats.last()).1;
    lemma_times_add(before.1, fired, call);
    lemma_times_small(call, call);
    if fired.len() == 1 {
        lemma_times_small(call, fired[0]);
        assert(fired =~= seq![fired[0]]);
        assert(fired == seq![call] ==> seq![call][0] == fired[0]);
    } else {
        assert(fired =~= seq![]);
        assert(seq![call].len() == 1);
    }
}

/// The delivery gate: the delivery is reported exactly once when a proof comes in from any
/// tier, however many proofs there are, and not at all without one.
pub proof fn law_delivered_exactly_once(whats: Seq<SendHappening>)
    ensures
        times(history(whats).1, HostCall::Delivered) == if whats.contains(SendHappening::Proof) {
            1nat
        } else {
            0nat
        },
        history(whats).0.delivered == whats.contains(SendHappening::Proof),
    decreases whats.len(),
{
    if whats.len() == 0 {
        lemma_times_small(HostCall::Delivered, HostCall::Delivered);
    } else {
        let init = whats.drop_last();
        law_delivered_exactly_once(init);
        lemma_times_history(whats, HostCall::Delivered);
        assert(whats =~= init.push(whats.last()));
        assert(whats.contains(SendHappening::Proof) == (init.contains(SendHappening::Proof)
            || whats.last() == SendHappening::Proof)) by {
            if init.contains(SendHappening::Proof) {
                let i = choose|i: int| 0 <= i < init.len() && init[i] == SendHappening::Proof;
                assert(whats[i] == SendHappening::Proof);
            }
            if whats.last() == SendHappening::Proof {
                assert(whats[whats.len() - 1] == SendHappening::Proof);
            }
            if whats.contains(SendHappening::Proof) {
                let i = choose|i: int| 0 <= i < whats.len() && whats[i] == SendHappening::Proof;
                if i < init.len() {
                    assert(init[i] == SendHappening::Proof);
                }
            }
        }
        lemma_calls_differ();
    }
}

/// The three kinds of callback differ, also as sequences of one.
proof fn lemma_calls_differ()
    ensures
        seq![HostCall::Delivered] != seq![HostCall::Failed],
        seq![HostCall::Delivered] != seq![HostCall::PropagationNeeded],
        seq![HostCall::Failed] != seq![HostCall::PropagationNeeded],
        forall|call: HostCall| #[trigger] seq![call] != Seq::<HostCall>::empty(),
{
    assert(seq![HostCall::Delivered][0] == HostCall::Delivered);
    assert(seq![HostCall::Failed][0] == HostCall::Failed);
    assert(seq![HostCall::PropagationNeeded][0] == HostCall::PropagationNeeded);
    assert forall|call: HostCall| #[trigger] seq![call] != Seq::<HostCall>::empty() by {
        assert(seq![call].len() == 1);
    }
}

/// Without a run-out timer, propagation is not asked for.
proof fn lemma_no_timer_no_propagation(whats: Seq<SendHappening>)
    requires
        !whats.contains(SendHappening::Timer),
    ensures
        times(history(whats).1, HostCall::PropagationNeeded) == 0,
        !history(whats).0.timer_ran,
    decreases whats.len(),
{
    if whats.len() == 0 {
        lemma_times_small(HostCall::PropagationNeeded, HostCall::PropagationNeeded);
    } else {
        let init = whats.drop_last();
        assert forall|i: int| 0 <= i < init.len() implies init[i] != SendHappening::Timer by {
            assert(init[i] == whats[i]);
        }
        lemma_no_timer_no_propagation(init);
        lemma_times_history(whats, HostCall::PropagationNeeded);
        lemma_calls_differ();
        assert(whats[whats.len() - 1] != SendHappening::Timer);
    }
}

/// Once the timer has run out, the number of requests for propagation is settled.
proof fn lemma_after_timer(before: Seq<SendHappening>, after: Seq<SendHappening>)
    requires
        history(before).0.timer_ran,
    ensures
        times(history(before + after).1, HostCall::PropagationNeeded) == times(
            history(before).1,
            HostCall::PropagationNeeded,
        ),
        history(before + after).0.timer_ran,
    decreases after.len(),
{
    if after.len() == 0 {
        assert(before + after =~= before);
    } else {
        let whats = before + after;
        assert(whats.drop_last() =~= before + after.drop_last());
        lemma_after_timer(before, after.drop_last());
        lemma_times_history(whats, HostCall::PropagationNeeded);
        lemma_calls_differ();
    }
}

/// The propagation fallback: when the timer runs out for the first time, propagation is asked
/// for if and only if no proof has come in by then, and it is never asked for again.
pub proof fn law_propagation_asked_iff_undelivered(
    before: Seq<SendHappening>,
    after: Seq<SendHappening>,
)
    requires
        !before.contains(SendHappening::Timer),
    ensures
        times(
            history(before.push(SendHappening::Timer) + after).1,
            HostCall::PropagationNeeded,
        ) == if before.contains(SendHappening::Proof) {
            0nat
        } else {
            1nat
        },
        times(history(before).1, HostCall::PropagationNeeded) == 0,
{
    let at = before.push(SendHappening::Timer);
    assert(at.drop_last() =~= before);
    lemma_no_timer_no_propagation(before);
    law_delivered_exactly_once(before);
    lemma_times_history(at, HostCall::PropagationNeeded);
    lemma_calls_differ();
    lemma_after_timer(at, after);
}

/// A failure is reported at most once, only when every tier is exhausted, and never after
/// the delivery was reported.
pub proof fn law_failure_reported_at_most_once(whats: Seq<SendHappening>)
    ensures
        times(history(whats).1, HostCall::Failed) <= 1,
        times(history(whats).1, HostCall::Failed) == 1 ==> history(whats).0.stage
            == ChainStage::Over,
        forall|i: int, j: int|
            0 <= j < i < history(whats).1.len() && (#[trigger] history(whats).1[i])
                == HostCall::Failed ==> #[trigger] history(whats).1[j] != HostCall::Delivered,
        !history(whats).0.delivered ==> !history(whats).1.contains(HostCall::Delivered),
    decreases whats.len(),
{
    if whats.len() == 0 {
        lemma_times_small(HostCall::Failed, HostCall::Failed);
    } else {
        let init = whats.drop_last();
        law_failure_reported_at_most_once(init);
        lemma_times_history(whats, HostCall::Failed);
        lemma_calls_differ();
        let calls = history(init).1;
        let fired = happen(history(init).0, whats.last()).1;
        let all = history(whats).1;
        assert(all == calls + fired);
        assert(fired.len() <= 1);
        assert forall|i: int, j: int|
            0 <= j < i < all.len() && (#[trigger] all[i]) == HostCall::Failed implies #[trigger] all[j]
            != HostCall::Delivered by {
            if i >= calls.len() {
                assert(fired[0] == HostCall::Failed);
                assert(!history(init).0.delivered);
                assert(all[j] == calls[j]);
                if all[j] == HostCall::Delivered {
                    assert(calls.contains(HostCall::Delivered));
                }
            } else {
                assert(all[i] == calls[i] && all[j] == calls[j]);
            }
        }
        if !history(whats).0.delivered && all.contains(HostCall::Delivered) {
            let k = choose|k: int| 0 <= k < all.len() && all[k] == HostCall::Delivered;
            if k < calls.len() {
                assert(calls[k] == HostCall::Delivered);
                assert(calls.contains(HostCall::Delivered));
            } else {
                assert(fired[0] == HostCall::Delivered);
            }
        }
    }
}

/// The propagation timer is independent of the tiers: leaving it out of a history changes
/// neither the course of the tiers nor the delivery and failure reports.
pub proof fn law_timer_leaves_tiers_alone(whats: Seq<SendHappening>)
    ensures
        history(without_timer(whats)).0.stage == history(whats).0.stage,
        history(without_timer(whats)).0.delivered == history(whats).0.delivered,
        times(history(without_timer(whats)).1, HostCall::Delivered) == times(
            history(whats).1,
            HostCall::Delivered,
        ),
        times(history(without_timer(whats)).1, HostCall::Failed) == times(
            history(whats).1,
            HostCall::Failed,
        ),
    decreases whats.len(),
{
    reveal(Seq::filter);
    if whats.len() > 0 {
        let init = whats.drop_last();
        law_timer_leaves_tiers_alone(init);
        lemma_times_history(whats, HostCall::Delivered);
        lemma_times_history(whats, HostCall::Failed);
        lemma_calls_differ();
        let kept = without_timer(whats);
        if !(whats.last() is Timer) {
            assert(kept =~= without_timer(init).push(whats.last()));
            assert(kept.drop_last() =~= without_timer(init));
            lemma_times_history(kept, HostCall::Delivered);
            lemma_times_history(kept, HostCall::Failed);
        } else {
            assert(kept == without_timer(init));
        }
    }
}

/// The tiers are independent of the propagation timer: whatever the tiers do, and even when
/// they have failed already, propagation is asked for as if they had done nothing.
pub proof fn law_tiers_leave_timer_alone(whats: Seq<SendHappening>)
    ensures
        times(history(without_steps(whats)).1, HostCall::PropagationNeeded) == times(
            history(whats).1,
            HostCall::PropagationNeeded,
        ),
        history(without_steps(whats)).0.delivered == history(whats).0.delivered,
        history(without_steps(whats)).0.timer_ran == history(whats).0.timer_ran,
    decreases whats.len(),
{
    reveal(Seq::filter);
    if whats.len() > 0 {
        let init = whats.drop_last();
        law_tiers_leave_timer_alone(init);
        lemma_times_history(whats, HostCall::PropagationNeeded);
        lemma_calls_differ();
        let kept = without_steps(whats);
        if !(whats.last() is Step) {
            assert(kept =~= without_steps(init).push(whats.last()));
            assert(kept.drop_last() =~= without_steps(init));
            lemma_times_history(kept, HostCall::PropagationNeeded);
        } else {
            assert(kept == without_steps(init));
        }
    }
}

/// Advancing never cancels an earlier tier: no step touches the delivery gate or the timer,
/// and at every stage, also when the send is over, a first proof is still accepted and leaves
/// the course of the tiers as it was.
pub proof fn law_advancing_cancels_nothing(send: TierChain, event: ChainEvent, fresh: bool)
    ensures
        send.next(event, fresh).0.delivered == send.delivered,
        send.next(event, fresh).0.timer_ran == send.timer_ran,
        !send.delivered ==> happen(send.next(event, fresh).0, SendHappening::Proof).1
            == seq![HostCall::Delivered],
        happen(send, SendHappening::Proof).0.stage == send.stage,
{
}

/// Every step brings a send closer to its end, so a send takes at most 14 steps; an event
/// that does not belong to the stage changes nothing.
pub proof fn law_send_ends(send: TierChain, event: ChainEvent, fresh: bool)
    ensures
        send.next(event, fresh).1 != ChainAction::Ignore ==> steps_left(send.next(event, fresh).0.stage)
            < steps_left(send.stage),
        send.next(event, fresh).1 == ChainAction::Ignore ==> send.next(event, fresh).0 == send,
        steps_left(TierChain::initial().stage) == 14,
        send.stage == ChainStage::Over ==> send.next(event, fresh) == (send, ChainAction::Ignore),
{
}

/// Whether `event` reports on `action`.
pub open spec fn reports_on(event: ChainEvent, action: ChainAction) -> bool {
    match action {
        ChainAction::FindInbound | ChainAction::FindOutbound => event is Held,
        ChainAction::FireInbound | ChainAction::FireOutbound | ChainAction::FireFresh => event is Fired,
        ChainAction::Wait(_) => event is WaitOver,
        ChainAction::ExpireAndRace(_) => event is Raced,
        ChainAction::RecallIdentity => event is IdentityRecalled,
        ChainAction::BuildDestination => event is DestinationBuilt,
        ChainAction::BuildLink => event is LinkBuilt,
        ChainAction::Initiate => event is Initiated,
        ChainAction::AwaitLink(_) => event is LinkWaited,
        ChainAction::AwaitProof(_) => event is ProofWaited,
        ChainAction::EndDelivered | ChainAction::EndFailed | ChainAction::Ignore => false,
    }
}

/// A send never gets stuck: after each step, either it is over, or every report on the action
/// that was asked for is taken up. The same holds of the first action.
pub proof fn law_reports_are_taken_up(
    send: TierChain,
    event: ChainEvent,
    fresh: bool,
    report: ChainEvent,
    later: bool,
)
    ensures
        ({
            let (after, action) = send.next(event, fresh);
            &&& action != ChainAction::Ignore && reports_on(report, action) ==> after.next(
                report,
                later,
            ).1 != ChainAction::Ignore
            &&& (action == ChainAction::EndDelivered || action == ChainAction::EndFailed)
                ==> after.stage == ChainStage::Over
            &&& after.stage == ChainStage::Over && send.stage != ChainStage::Over ==> (action
                == ChainAction::EndDelivered || action == ChainAction::EndFailed)
        }),
        reports_on(report, ChainAction::FindInbound) ==> TierChain::initial().next(report, later).1
            != ChainAction::Ignore,
{
}

/// The driver reports that the proof of the packet on the fresh link arrived.
pub open spec fn reports_proof(what: SendHappening) -> bool {
    what is Step && what->Step_0 == ChainEvent::ProofWaited(true)
}

/// Whether the driver reported that the proof of the packet on the fresh link arrived.
pub open spec fn proof_reported(whats: Seq<SendHappening>) -> bool {
    exists|i: int| 0 <= i < whats.len() && reports_proof(#[trigger] whats[i])
}

/// A send that is over has an outcome: its failure was reported, exactly once, or a delivery
/// proof came in, or the driver reported the proof of the packet on the fresh link.
pub proof fn law_ended_send_has_an_outcome(whats: Seq<SendHappening>)
    ensures
        history(whats).0.stage == ChainStage::Over ==> {
            ||| times(history(whats).1, HostCall::Failed) == 1
            ||| history(whats).0.delivered
            ||| proof_reported(whats)
        },
    decreases whats.len(),
{
    if whats.len() > 0 {
        let init = whats.drop_last();
        law_ended_send_has_an_outcome(init);
        law_failure_reported_at_most_once(whats);
        lemma_times_history(whats, HostCall::Failed);
        if proof_reported(init) {
            let i = choose|i: int| 0 <= i < init.len() && reports_proof(#[trigger] init[i]);
            assert(whats[i] == init[i]);
        }
        assert(whats[whats.len() - 1] == whats.last());
    }
}

/// The actions that a history asks for, in order.
pub open spec fn asked_for(whats: Seq<SendHappening>) -> Seq<ChainAction>
    decreases whats.len(),
{
    if whats.len() == 0 {
        seq![]
    } else {
        let before = asked_for(whats.drop_last());
        match whats.last() {
            SendHappening::Step(event, fresh) => before.push(
                history(whats.drop_last()).0.next(event, fresh).1,
            ),
            _ => before,
        }
    }
}

/// The tier on whose link `action` hands the packet over, if it does.
pub open spec fn packet_tier(action: ChainAction) -> Option<nat> {
    match action {
        ChainAction::FireInbound => Some(1),
        ChainAction::FireOutbound => Some(2),
        ChainAction::FireFresh => Some(3),
        _ => None,
    }
}

/// The steps that are left when the packet of `tier` is handed over.
spec fn left_at_tier(tier: nat) -> nat {
    if tier <= 1 {
        steps_left(ChainStage::Tier1Fire)
    } else if tier == 2 {
        steps_left(ChainStage::Tier2Fire)
    } else {
        steps_left(ChainStage::Tier3Fire)
    }
}

/// A chain that has handed over the packet of a tier has got at least as far as that.
proof fn lemma_packets_are_behind(whats: Seq<SendHappening>)
    ensures
        forall|i: int|
            0 <= i < asked_for(whats).len() && packet_tier(#[trigger] asked_for(whats)[i]) is Some
                ==> steps_left(history(whats).0.stage) <= left_at_tier(
                packet_tier(asked_for(whats)[i])->0,
            ),
    decreases whats.len(),
{
    if whats.len() > 0 {
        let init = whats.drop_last();
        lemma_packets_are_behind(init);
        assert forall|i: int|
            0 <= i < asked_for(whats).len() && packet_tier(
                #[trigger] asked_for(whats)[i],
            ) is Some implies steps_left(history(whats).0.stage) <= left_at_tier(
            packet_tier(asked_for(whats)[i])->0,
        ) by {
            if i < asked_for(init).len() {
                assert(asked_for(whats)[i] == asked_for(init)[i]);
            }
        }
    }
}

/// The packet is handed to each tier at most once, and to the tiers in their order.
pub proof fn law_one_packet_per_tier_in_order(whats: Seq<SendHappening>, i: int, j: int)
    requires
        0 <= i < j < asked_for(whats).len(),
        packet_tier(asked_for(whats)[i]) is Some,
        packet_tier(asked_for(whats)[j]) is Some,
    ensures
        packet_tier(asked_for(whats)[i])->0 < packet_tier(asked_for(whats)[j])->0,
    decreases whats.len(),
{
    let init = whats.drop_last();
    assert(asked_for(whats)[i] == asked_for(init)[i]);
    if j < asked_for(init).len() {
        assert(asked_for(whats)[j] == asked_for(init)[j]);
        law_one_packet_per_tier_in_order(init, i, j);
    } else {
        lemma_packets_are_behind(init);
    }
}

/// The waiting done so far and the waiting still possible never exceed the bound.
proof fn lemma_waiting(whats: Seq<SendHappening>)
    ensures
        total_waiting(whats) + waiting_left(history(whats).0.stage) <= 17000,
    decreases whats.len(),
{
    if whats.len() > 0 {
        lemma_waiting(whats.drop_last());
    }
}

/// A send waits at most one second for each of the first two tiers and five seconds for each
/// of the race, the link and the proof of the third: never more than 17 seconds in all.
pub proof fn law_waiting_is_bounded(whats: Seq<SendHappening>)
    ensures
        total_waiting(whats) <= 17000,
{
    lemma_waiting(whats);
}

/// A tier that sent no packet is not waited for, be it that its link is missing or not active,
/// or that the packet could not be queued: the next tier follows at once.
pub proof fn law_no_wait_without_a_packet(
    send: TierChain,
    link: Option<bool>,
    outcome: FireOutcome,
    fresh: bool,
)
    ensures
        link != Some(true) && send.stage == ChainStage::Tier1Link ==> send.next(
            ChainEvent::Held(link),
            fresh,
        ).1 == ChainAction::FindOutbound,
        outcome != FireOutcome::Queued && send.stage == ChainStage::Tier1Fire ==> send.next(
            ChainEvent::Fired(outcome),
            fresh,
        ).1 == ChainAction::FindOutbound,
        link != Some(true) && send.stage == ChainStage::Tier2Link ==> send.next(
            ChainEvent::Held(link),
            fresh,
        ) == send.tier3(fresh),
        outcome != FireOutcome::Queued && send.stage == ChainStage::Tier2Fire ==> send.next(
            ChainEvent::Fired(outcome),
            fresh,
        ) == send.tier3(fresh),
{
}

/// A chain is asked to wait only for a packet that has just been queued.
pub proof fn law_wait_follows_a_packet(send: TierChain, event: ChainEvent, fresh: bool)
    ensures
        send.next(event, fresh).1 is Wait || send.next(event, fresh).1 is AwaitProof ==> event
            == ChainEvent::Fired(FireOutcome::Queued),
{
}

/// The winner of a race that is still fresh spares the race, and nothing else does: a chain
/// asks for a race exactly when it enters tier 3 without one.
pub proof fn law_fresh_winner_spares_the_race(send: TierChain, event: ChainEvent)
    ensures
        !(send.next(event, true).1 is ExpireAndRace),
        send.next(event, false).1 is ExpireAndRace ==> send.next(event, true).0.stage
            == ChainStage::Tier3Identity && send.next(event, true).1
            == ChainAction::RecallIdentity,
        !(send.next(event, false).1 is ExpireAndRace) ==> send.next(event, false) == send.next(
            event,
            true,
        ),
        steps_left(send.stage) > steps_left(ChainStage::Tier3Race) && steps_left(
            send.next(event, false).0.stage,
        ) <= steps_left(ChainStage::Tier3Race) && send.next(event, false).0.stage
            != ChainStage::Over ==> send.next(event, false).1 is ExpireAndRace,
{
}

/// A send starts with nothing delivered, its timer still running, and looking for the inbound
/// link.
pub proof fn law_send_starts_at_tier_one(link: Option<bool>, fresh: bool)
    ensures
        ({
            let send = TierChain::initial();
            &&& !send.delivered
            &&& !send.timer_ran
            &&& send.stage == ChainStage::Tier1Link
            &&& send.next(ChainEvent::Held(link), fresh).1 == if link == Some(true) {
                ChainAction::FireInbound
            } else {
                ChainAction::FindOutbound
            }
        }),
{
}

/// What a step asks for, its time limit included, and where it leads, is the same whether or not
/// the propagation timer has run.
pub proof fn law_timer_changes_no_step(
    send: TierChain,
    other: TierChain,
    event: ChainEvent,
    fresh: bool,
)
    requires
        send.stage == other.stage,
        send.delivered == other.delivered,
    ensures
        send.next(event, fresh).1 == other.next(event, fresh).1,
        send.next(event, fresh).0.stage == other.next(event, fresh).0.stage,
        send.next(event, fresh).0.delivered == other.next(event, fresh).0.delivered,
        send.next(event, fresh).0.timer_ran == send.timer_ran,
        send.proven().1 == other.proven().1,
        send.proven().0.stage == send.stage,
        send.proven().0.timer_ran == send.timer_ran,
{
}

/// A delivery changes a step in one way only: it ends the send when a wait is over, and turns a
/// failure into a success. Every other step is the same with a delivery as without.
pub proof fn law_delivery_only_ends_the_send(
    send: TierChain,
    other: TierChain,
    event: ChainEvent,
    fresh: bool,
)
    requires
        send.stage == other.stage,
        !send.delivered,
        other.delivered,
    ensures
        ({
            let (after, action) = send.next(event, fresh);
            let (done, last) = other.next(event, fresh);
            if action == ChainAction::EndFailed || (event == ChainEvent::WaitOver && action
                != ChainAction::Ignore) {
                last == ChainAction::EndDelivered && done.stage == ChainStage::Over
            } else {
                last == action && done.stage == after.stage
            }
        }),
        other.next(event, fresh).1 != ChainAction::EndFailed,
{
}

/// Whatever a step waits for, it waits for the whole of its time, never less: a second for the
/// proof of a packet on one of the first two links, and five seconds each for a race, for a link
/// and for the proof of the packet on the fresh link.
pub proof fn law_waits_are_given_in_full(send: TierChain, event: ChainEvent, fresh: bool)
    ensures
        match send.next(event, fresh).1 {
            ChainAction::Wait(ms) => ms == 1000,
            ChainAction::ExpireAndRace(ms) => ms == 5000,
            ChainAction::AwaitLink(ms) => ms == 5000,
            ChainAction::AwaitProof(ms) => ms == 5000,
            _ => true,
        },
        send.stage == ChainStage::Tier3Fire ==> send.next(
            ChainEvent::Fired(FireOutcome::Queued),
            fresh,
        ).1 == ChainAction::AwaitProof(5000),
        send.stage == ChainStage::Tier3Initiate ==> send.next(ChainEvent::Initiated(true), fresh).1
            == ChainAction::AwaitLink(5000),
        send.stage == ChainStage::Tier2Link ==> send.next(ChainEvent::Held(None), false).1
            == ChainAction::ExpireAndRace(5000),
{
}

/// The first two tiers: an active link gets the packet, a queued packet gets its second, and an
/// undelivered message goes on to the next tier, whichever way the tier came to its end.
pub proof fn law_first_two_tiers(send: TierChain, outcome: FireOutcome, fresh: bool)
    ensures
        send.stage == ChainStage::Tier1Link ==> send.next(ChainEvent::Held(Some(true)), fresh) == (
            TierChain { stage: ChainStage::Tier1Fire, ..send },
            ChainAction::FireInbound,
        ),
        send.stage == ChainStage::Tier1Fire ==> send.next(ChainEvent::Fired(outcome), fresh) == if outcome
            == FireOutcome::Queued {
            (TierChain { stage: ChainStage::Tier1Wait, ..send }, ChainAction::Wait(1000))
        } else {
            (TierChain { stage: ChainStage::Tier2Link, ..send }, ChainAction::FindOutbound)
        },
        send.stage == ChainStage::Tier1Wait && !send.delivered ==> send.next(
            ChainEvent::WaitOver,
            fresh,
        ) == (TierChain { stage: ChainStage::Tier2Link, ..send }, ChainAction::FindOutbound),
        send.stage == ChainStage::Tier2Link ==> send.next(ChainEvent::Held(Some(true)), fresh) == (
            TierChain { stage: ChainStage::Tier2Fire, ..send },
            ChainAction::FireOutbound,
        ),
        send.stage == ChainStage::Tier2Fire && outcome == FireOutcome::Queued ==> send.next(
            ChainEvent::Fired(outcome),
            fresh,
        ) == (TierChain { stage: ChainStage::Tier2Wait, ..send }, ChainAction::Wait(1000)),
        (send.stage == ChainStage::Tier2Wait && !send.delivered) ==> {
            &&& send.next(ChainEvent::WaitOver, true) == (
                TierChain { stage: ChainStage::Tier3Identity, ..send },
                ChainAction::RecallIdentity,
            )
            &&& send.next(ChainEvent::WaitOver, false) == (
                TierChain { stage: ChainStage::Tier3Race, ..send },
                ChainAction::ExpireAndRace(5000),
            )
        },
        send.stage == ChainStage::Tier1Link ==> send.next(ChainEvent::Held(None), fresh) == send.next(
            ChainEvent::Held(Some(false)),
            fresh,
        ) && send.next(ChainEvent::Held(None), fresh) == (
            TierChain { stage: ChainStage::Tier2Link, ..send },
            ChainAction::FindOutbound,
        ),
        send.stage == ChainStage::Tier2Link || (send.stage == ChainStage::Tier2Fire && outcome
            != FireOutcome::Queued) ==> {
            let event = if send.stage == ChainStage::Tier2Link {
                ChainEvent::Held(None)
            } else {
                ChainEvent::Fired(outcome)
            };
            &&& send.next(event, true) == (
                TierChain { stage: ChainStage::Tier3Identity, ..send },
                ChainAction::RecallIdentity,
            )
            &&& send.next(event, false) == (
                TierChain { stage: ChainStage::Tier3Race, ..send },
                ChainAction::ExpireAndRace(5000),
            )
        },
        send.stage == ChainStage::Tier2Link ==> send.next(ChainEvent::Held(Some(false)), fresh)
            == send.next(ChainEvent::Held(None), fresh),
{
}

/// Tier 3 does one thing after the other, each as soon as the one before has worked.
pub proof fn law_tier_three_course(send: TierChain, fresh: bool)
    ensures
        send.stage == ChainStage::Tier3Race ==> send.next(ChainEvent::Raced(true), fresh) == (
            TierChain { stage: ChainStage::Tier3Identity, ..send },
            ChainAction::RecallIdentity,
        ),
        send.stage == ChainStage::Tier3Identity ==> send.next(
            ChainEvent::IdentityRecalled(true),
            fresh,
        ) == (TierChain { stage: ChainStage::Tier3Destination, ..send }, ChainAction::BuildDestination),
        send.stage == ChainStage::Tier3Destination ==> send.next(
            ChainEvent::DestinationBuilt(true),
            fresh,
        ) == (TierChain { stage: ChainStage::Tier3Link, ..send }, ChainAction::BuildLink),
        send.stage == ChainStage::Tier3Link ==> send.next(ChainEvent::LinkBuilt(true), fresh) == (
            TierChain { stage: ChainStage::Tier3Initiate, ..send },
            ChainAction::Initiate,
        ),
        send.stage == ChainStage::Tier3Initiate ==> send.next(ChainEvent::Initiated(true), fresh)
            == (
            TierChain { stage: ChainStage::Tier3Establish, ..send },
            ChainAction::AwaitLink(5000),
        ),
        send.stage == ChainStage::Tier3Establish ==> send.next(
            ChainEvent::LinkWaited(LinkOutcome::Established),
            fresh,
        ) == (TierChain { stage: ChainStage::Tier3Fire, ..send }, ChainAction::FireFresh),
        send.stage == ChainStage::Tier3Fire ==> send.next(
            ChainEvent::Fired(FireOutcome::Queued),
            fresh,
        ) == (TierChain { stage: ChainStage::Tier3Proof, ..send }, ChainAction::AwaitProof(5000)),
        send.stage == ChainStage::Tier3Proof ==> send.next(ChainEvent::ProofWaited(true), fresh) == (
            TierChain { stage: ChainStage::Over, ..send },
            ChainAction::EndDelivered,
        ),
{
}

/// Tier 3 is exhausted by its first failure, whichever it is, and by nothing else: the failure is
/// then reported unless the message was delivered.
pub proof fn law_send_fails_when_tier_three_does(send: TierChain, event: ChainEvent, fresh: bool)
    ensures
        ({
            let failed = match (send.stage, event) {
                (ChainStage::Tier3Race, ChainEvent::Raced(ok)) => !ok,
                (ChainStage::Tier3Identity, ChainEvent::IdentityRecalled(ok)) => !ok,
                (ChainStage::Tier3Destination, ChainEvent::DestinationBuilt(ok)) => !ok,
                (ChainStage::Tier3Link, ChainEvent::LinkBuilt(ok)) => !ok,
                (ChainStage::Tier3Initiate, ChainEvent::Initiated(ok)) => !ok,
                (ChainStage::Tier3Establish, ChainEvent::LinkWaited(outcome)) => outcome
                    != LinkOutcome::Established,
                (ChainStage::Tier3Fire, ChainEvent::Fired(outcome)) => outcome
                    != FireOutcome::Queued,
                (ChainStage::Tier3Proof, ChainEvent::ProofWaited(arrived)) => !arrived,
                _ => false,
            };
            &&& (send.next(event, fresh).1 == ChainAction::EndFailed) == (failed && !send.delivered)
            &&& failed ==> send.next(event, fresh).0 == (TierChain {
                stage: ChainStage::Over,
                ..send
            })
            &&& failed && send.delivered ==> send.next(event, fresh).1
                == ChainAction::EndDelivered
        }),
{
}

/// A report that does not belong to the stage is ignored, and only such a report is.
pub proof fn law_stray_reports_are_ignored(send: TierChain, event: ChainEvent, fresh: bool)
    ensures
        ({
            let fits = match send.stage {
                ChainStage::Tier1Link | ChainStage::Tier2Link => event is Held,
                ChainStage::Tier1Fire | ChainStage::Tier2Fire | ChainStage::Tier3Fire => event is Fired,
                ChainStage::Tier1Wait | ChainStage::Tier2Wait => event is WaitOver,
                ChainStage::Tier3Race => event is Raced,
                ChainStage::Tier3Identity => event is IdentityRecalled,
                ChainStage::Tier3Destination => event is DestinationBuilt,
                ChainStage::Tier3Link => event is LinkBuilt,
                ChainStage::Tier3Initiate => event is Initiated,
                ChainStage::Tier3Establish => event is LinkWaited,
                ChainStage::Tier3Proof => event is ProofWaited,
                ChainStage::Over => false,
            };
            &&& fits == (send.next(event, fresh).1 != ChainAction::Ignore)
            &&& !fits ==> send.next(event, fresh).0 == send
        }),
{
}

/// A delivery proof and the timer each set their own mark and nothing else; the first proof is
/// reported, and the timer asks for propagation if it is the first and finds nothing delivered.
pub proof fn law_proof_and_timer_set_their_marks(send: TierChain)
    ensures
        send.proven().0 == (TierChain { delivered: true, ..send }),
        send.proven().1 == !send.delivered,
        send.timed_out().0 == (TierChain { timer_ran: true, ..send }),
        send.timed_out().1 == (!send.delivered && !send.timer_ran),
{
}

} // verus!
