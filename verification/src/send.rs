//! The three-tier DIRECT send.
//!
//! A send tries the link the peer opened to us, then the cached outbound link, then a fresh
//! link over a newly raced path. A destination that won a path race a moment ago needs no new
//! race. Beside the tiers run a propagation timer and the delivery
//! proofs of every packet that went out, in any order. [`TierChain`] decides what happens
//! next; the driver performs each [`ChainAction`] and reports back with a [`ChainEvent`].
use crate::types::{DIRECT_STAGGER_WAIT, LIVENESS_BUDGET};
use vstd::prelude::*;

verus! {

/// How far a send has got.
#[derive(Clone, Copy, Debug, PartialEq, Eq, Structural)]
pub enum ChainStage {
    /// Looking for an active inbound link.
    Tier1Link,
    /// A packet is going out on the inbound link.
    Tier1Fire,
    /// Waiting for the proof of the packet on the inbound link.
    Tier1Wait,
    /// Looking for an active cached outbound link.
    Tier2Link,
    /// A packet is going out on the cached link.
    Tier2Fire,
    /// Waiting for the proof of the packet on the cached link.
    Tier2Wait,
    /// Racing a path.
    Tier3Race,
    /// Recalling the identity of the destination.
    Tier3Identity,
    /// Building the outbound destination.
    Tier3Destination,
    /// Building the link.
    Tier3Link,
    /// Sending the link request.
    Tier3Initiate,
    /// Waiting for the link to be established.
    Tier3Establish,
    /// A packet is going out on the fresh link.
    Tier3Fire,
    /// Waiting for the proof of the packet on the fresh link.
    Tier3Proof,
    /// Nothing is left to do.
    Over,
}

/// What became of a packet handed to a link.
#[derive(Clone, Copy, Debug, PartialEq, Eq, Structural)]
pub enum FireOutcome {
    /// The link gave no destination to send to.
    NoDestination,
    /// Sending failed.
    SendFailed,
    /// The packet was sent, but no receipt came back.
    NoReceipt,
    /// The packet is queued and its receipt will report the delivery proof.
    Queued,
}

/// How the wait for a fresh link ended.
#[derive(Clone, Copy, Debug, PartialEq, Eq, Structural)]
pub enum LinkOutcome {
    Established,
    Closed,
    TimedOut,
}

/// What the driver reports to a [`TierChain`].
#[derive(Clone, Copy, Debug, PartialEq, Eq, Structural)]
pub enum ChainEvent {
    /// The link asked for: `None` when none is held, else whether it is active.
    Held(Option<bool>),
    /// The packet was handed to the link.
    Fired(FireOutcome),
    /// The wait for an earlier tier's proof is over.
    WaitOver,
    /// The path race ended: true when it found a path.
    Raced(bool),
    /// True when the identity is known.
    IdentityRecalled(bool),
    /// True when the destination could be built.
    DestinationBuilt(bool),
    /// True when the link could be built.
    LinkBuilt(bool),
    /// True when the link request went out.
    Initiated(bool),
    /// How the wait for the link ended.
    LinkWaited(LinkOutcome),
    /// True when the proof of the packet on the fresh link arrived in time.
    ProofWaited(bool),
}

/// What the driver has to do next.
#[derive(Clone, Copy, Debug, PartialEq, Eq, Structural)]
pub enum ChainAction {
    /// Look up the inbound link and its state.
    FindInbound,
    /// Hand the packet to the inbound link.
    FireInbound,
    /// Look up the cached outbound link and its state.
    FindOutbound,
    /// Hand the packet to the cached outbound link.
    FireOutbound,
    /// Let this many milliseconds pass.
    Wait(u64),
    /// Expire the known path, then race a path for at most this many milliseconds.
    ExpireAndRace(u64),
    /// Recall the identity of the destination.
    RecallIdentity,
    /// Build the outbound destination.
    BuildDestination,
    /// Build the link and start it.
    BuildLink,
    /// Refresh the tunnels and send the link request.
    Initiate,
    /// Wait for the link, for at most this many milliseconds.
    AwaitLink(u64),
    /// Hand the packet to the fresh link.
    FireFresh,
    /// Wait for the proof of that packet, for at most this many milliseconds.
    AwaitProof(u64),
    /// The message was delivered; nothing is left to do.
    EndDelivered,
    /// Every tier is exhausted without a delivery: report the failure.
    EndFailed,
    /// The event does not belong to this stage; nothing changes.
    Ignore,
}

/// The state of one send.
#[derive(Clone, Copy, Debug, PartialEq, Eq, Structural)]
pub struct TierChain {
    /// Set by the first delivery proof, from whichever tier, and never cleared.
    pub delivered: bool,
    /// Set when the propagation timer has run out.
    pub timer_ran: bool,
    pub stage: ChainStage,
}

impl TierChain {
    /// A send that has just been asked for.
    pub open spec fn initial() -> TierChain {
        TierChain { delivered: false, timer_ran: false, stage: ChainStage::Tier1Link }
    }

    pub open spec fn at(self, stage: ChainStage) -> TierChain {
        TierChain { stage, ..self }
    }

    /// The chain moves on to `stage` and asks for `action`.
    pub open spec fn go(self, stage: ChainStage, action: ChainAction) -> (TierChain, ChainAction) {
        (self.at(stage), action)
    }

    /// The chain ends. A failure is reported only while nothing has been delivered.
    pub open spec fn end(self) -> (TierChain, ChainAction) {
        self.go(
            ChainStage::Over,
            if self.delivered {
                ChainAction::EndDelivered
            } else {
                ChainAction::EndFailed
            },
        )
    }

    /// The chain moves on after a step that may have failed; tier 3 gives up at its first
    /// failure.
    pub open spec fn go_if(self, ok: bool, stage: ChainStage, action: ChainAction) -> (
        TierChain,
        ChainAction,
    ) {
        if ok {
            self.go(stage, action)
        } else {
            self.end()
        }
    }

    /// The chain enters tier 3. The winner of a race that is still fresh spares the race.
    pub open spec fn tier3(self, fresh: bool) -> (TierChain, ChainAction) {
        if fresh {
            self.go(ChainStage::Tier3Identity, ChainAction::RecallIdentity)
        } else {
            self.go(ChainStage::Tier3Race, ChainAction::ExpireAndRace(LIVENESS_BUDGET))
        }
    }

    /// What an event does to the chain and what has to be done next. `fresh` says whether the
    /// winner of the latest race for the destination is fresh at that moment.
    pub open spec fn next(self, event: ChainEvent, fresh: bool) -> (TierChain, ChainAction) {
        match (self.stage, event) {
            // A tier sends only on an active link; without one the next tier follows at once.
            (ChainStage::Tier1Link, ChainEvent::Held(link)) => if link == Some(true) {
                self.go(ChainStage::Tier1Fire, ChainAction::FireInbound)
            } else {
                self.go(ChainStage::Tier2Link, ChainAction::FindOutbound)
            },
            // A packet that went out is given its time to be proven; without one there is
            // nothing to wait for.
            (ChainStage::Tier1Fire, ChainEvent::Fired(outcome)) => if outcome
                == FireOutcome::Queued {
                self.go(ChainStage::Tier1Wait, ChainAction::Wait(DIRECT_STAGGER_WAIT))
            } else {
                self.go(ChainStage::Tier2Link, ChainAction::FindOutbound)
            },
            (ChainStage::Tier1Wait, ChainEvent::WaitOver) => if self.delivered {
                self.end()
            } else {
                self.go(ChainStage::Tier2Link, ChainAction::FindOutbound)
            },
            (ChainStage::Tier2Link, ChainEvent::Held(link)) => if link == Some(true) {
                self.go(ChainStage::Tier2Fire, ChainAction::FireOutbound)
            } else {
                self.tier3(fresh)
            },
            (ChainStage::Tier2Fire, ChainEvent::Fired(outcome)) => if outcome
                == FireOutcome::Queued {
                self.go(ChainStage::Tier2Wait, ChainAction::Wait(DIRECT_STAGGER_WAIT))
            } else {
                self.tier3(fresh)
            },
            (ChainStage::Tier2Wait, ChainEvent::WaitOver) => if self.delivered {
                self.end()
            } else {
                self.tier3(fresh)
            },
            (ChainStage::Tier3Race, ChainEvent::Raced(ok)) => self.go_if(
                ok,
                ChainStage::Tier3Identity,
                ChainAction::RecallIdentity,
            ),
            (ChainStage::Tier3Identity, ChainEvent::IdentityRecalled(ok)) => self.go_if(
                ok,
                ChainStage::Tier3Destination,
                ChainAction::BuildDestination,
            ),
            (ChainStage::Tier3Destination, ChainEvent::DestinationBuilt(ok)) => self.go_if(
                ok,
                ChainStage::Tier3Link,
                ChainAction::BuildLink,
            ),
            (ChainStage::Tier3Link, ChainEvent::LinkBuilt(ok)) => self.go_if(
                ok,
                ChainStage::Tier3Initiate,
                ChainAction::Initiate,
            ),
            (ChainStage::Tier3Initiate, ChainEvent::Initiated(ok)) => self.go_if(
                ok,
                ChainStage::Tier3Establish,
                ChainAction::AwaitLink(LIVENESS_BUDGET),
            ),
            (ChainStage::Tier3Establish, ChainEvent::LinkWaited(outcome)) => self.go_if(
                outcome == LinkOutcome::Established,
                ChainStage::Tier3Fire,
                ChainAction::FireFresh,
            ),
            (ChainStage::Tier3Fire, ChainEvent::Fired(outcome)) => self.go_if(
                outcome == FireOutcome::Queued,
                ChainStage::Tier3Proof,
                ChainAction::AwaitProof(LIVENESS_BUDGET),
            ),
            (ChainStage::Tier3Proof, ChainEvent::ProofWaited(arrived)) => if arrived {
                self.go(ChainStage::Over, ChainAction::EndDelivered)
            } else {
                self.end()
            },
            _ => (self, ChainAction::Ignore),
        }
    }

    /// What a delivery proof does to the send, and whether it is the first.
    pub open spec fn proven(self) -> (TierChain, bool) {
        (TierChain { delivered: true, ..self }, !self.delivered)
    }

    /// What the propagation timer does to the send when it runs out, and whether propagation
    /// has to be asked for.
    pub open spec fn timed_out(self) -> (TierChain, bool) {
        (TierChain { timer_ran: true, ..self }, !self.delivered && !self.timer_ran)
    }

    /// Starts a send: the driver starts the propagation timer, which runs for
    /// `PROP_FALLBACK_DELAY`, and looks for the inbound link.
    pub fn new() -> (started: (TierChain, ChainAction))
        ensures
            started == (TierChain::initial(), ChainAction::FindInbound),
    {
        (
            TierChain { delivered: false, timer_ran: false, stage: ChainStage::Tier1Link },
            ChainAction::FindInbound,
        )
    }

    fn finish(&mut self) -> (action: ChainAction)
        ensures
            (*final(self), action) == old(self).end(),
    {
        self.stage = ChainStage::Over;
        if self.delivered {
            ChainAction::EndDelivered
        } else {
            ChainAction::EndFailed
        }
    }

    fn advance_if(&mut self, ok: bool, stage: ChainStage, action: ChainAction) -> (done:
        ChainAction)
        ensures
            (*final(self), done) == old(self).go_if(ok, stage, action),
    {
        if ok {
            self.stage = stage;
            action
        } else {
            self.finish()
        }
    }

    fn enter_tier3(&mut self, fresh: bool) -> (action: ChainAction)
        ensures
            (*final(self), action) == old(self).tier3(fresh),
    {
        if fresh {
            self.stage = ChainStage::Tier3Identity;
            ChainAction::RecallIdentity
        } else {
            self.stage = ChainStage::Tier3Race;
            ChainAction::ExpireAndRace(LIVENESS_BUDGET)
        }
    }

    /// Takes in what the driver reports and says what it has to do next. `fresh` says whether
    /// the winner of the latest race for the destination is fresh: tier 3 then needs no race.
    pub fn step(&mut self, event: ChainEvent, fresh: bool) -> (action: ChainAction)
        ensures
            (*final(self), action) == old(self).next(event, fresh),
    {
        match (self.stage, event) {
            (ChainStage::Tier1Link, ChainEvent::Held(Some(true))) => {
                self.stage = ChainStage::Tier1Fire;
                ChainAction::FireInbound
            },
            (ChainStage::Tier1Link, ChainEvent::Held(_)) => {
                self.stage = ChainStage::Tier2Link;
                ChainAction::FindOutbound
            },
            (ChainStage::Tier1Fire, ChainEvent::Fired(FireOutcome::Queued)) => {
                self.stage = ChainStage::Tier1Wait;
                ChainAction::Wait(DIRECT_STAGGER_WAIT)
            },
            (ChainStage::Tier1Fire, ChainEvent::Fired(_)) => {
                self.stage = ChainStage::Tier2Link;
                ChainAction::FindOutbound
            },
            (ChainStage::Tier1Wait, ChainEvent::WaitOver) => {
                let undelivered = !self.delivered;
                self.advance_if(undelivered, ChainStage::Tier2Link, ChainAction::FindOutbound)
            },
            (ChainStage::Tier2Link, ChainEvent::Held(Some(true))) => {
                self.stage = ChainStage::Tier2Fire;
                ChainAction::FireOutbound
            },
            (ChainStage::Tier2Link, ChainEvent::Held(_)) => self.enter_tier3(fresh),
            (ChainStage::Tier2Fire, ChainEvent::Fired(FireOutcome::Queued)) => {
                self.stage = ChainStage::Tier2Wait;
                ChainAction::Wait(DIRECT_STAGGER_WAIT)
            },
            (ChainStage::Tier2Fire, ChainEvent::Fired(_)) => self.enter_tier3(fresh),
            (ChainStage::Tier2Wait, ChainEvent::WaitOver) => {
                if self.delivered {
                    self.finish()
                } else {
                    self.enter_tier3(fresh)
                }
            },
            (ChainStage::Tier3Race, ChainEvent::Raced(ok)) => self.advance_if(
                ok,
                ChainStage::Tier3Identity,
                ChainAction::RecallIdentity,
            ),
            (ChainStage::Tier3Identity, ChainEvent::IdentityRecalled(ok)) => self.advance_if(
                ok,
                ChainStage::Tier3Destination,
                ChainAction::BuildDestination,
            ),
            (ChainStage::Tier3Destination, ChainEvent::DestinationBuilt(ok)) => self.advance_if(
                ok,
                ChainStage::Tier3Link,
                ChainAction::BuildLink,
            ),
            (ChainStage::Tier3Link, ChainEvent::LinkBuilt(ok)) => self.advance_if(
                ok,
                ChainStage::Tier3Initiate,
                ChainAction::Initiate,
            ),
            (ChainStage::Tier3Initiate, ChainEvent::Initiated(ok)) => self.advance_if(
                ok,
                ChainStage::Tier3Establish,
                ChainAction::AwaitLink(LIVENESS_BUDGET),
            ),
            (ChainStage::Tier3Establish, ChainEvent::LinkWaited(outcome)) => self.advance_if(
                outcome == LinkOutcome::Established,
                ChainStage::Tier3Fire,
                ChainAction::FireFresh,
            ),
            (ChainStage::Tier3Fire, ChainEvent::Fired(outcome)) => self.advance_if(
                outcome == FireOutcome::Queued,
                ChainStage::Tier3Proof,
                ChainAction::AwaitProof(LIVENESS_BUDGET),
            ),
            (ChainStage::Tier3Proof, ChainEvent::ProofWaited(arrived)) => {
                if arrived {
                    self.stage = ChainStage::Over;
                    ChainAction::EndDelivered
                } else {
                    self.finish()
                }
            },
            _ => ChainAction::Ignore,
        }
    }

    /// A delivery proof came in, from any tier, at any time. True when it is the first: the
    /// driver reports the delivery then and only then.
    pub fn delivery_proof(&mut self) -> (first: bool)
        ensures
            (*final(self), first) == old(self).proven(),
    {
        let first = !self.delivered;
        self.delivered = true;
        first
    }

    /// The propagation timer ran out. True when the driver has to ask for propagation: the
    /// timer has not run out before and nothing has been delivered.
    pub fn propagation_timer(&mut self) -> (ask: bool)
        ensures
            (*final(self), ask) == old(self).timed_out(),
    {
        let ask = !self.delivered && !self.timer_ran;
        self.timer_ran = true;
        ask
    }
}

} // verus!
