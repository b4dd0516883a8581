//! What holds of a registry after every history.
use crate::registry::{LinkFacts, LinksView};
use crate::single_flight::{happens, world, Happening};
use crate::types::LinkPolicy;
use vstd::prelude::*;

verus! {

/// A run of attempts leaves the policy, the inbound links and what is registered alone.
proof fn lemma_attempts_keep_registrations<L, C>(
    links: LinksView<L, C>,
    which: Seq<(Seq<u8>, LinkFacts)>,
)
    ensures
        links.attempt_each(which).0.policy == links.policy,
        links.attempt_each(which).0.inbound == links.inbound,
        links.attempt_each(which).0.specs.dom() == links.specs.dom(),
    decreases which.len(),
{
    if which.len() > 0 {
        lemma_attempts_keep_registrations(links, which.drop_last());
        assert(links.attempt_each(which).0.specs.dom() =~= links.specs.dom());
    }
}

/// The policy and what is registered follow the calls that set them, and nothing else: the policy
/// is the one set last, and a destination is registered from when it is opened until it is
/// closed.
pub proof fn law_registrations_and_policy_follow_the_calls<L, C>(
    links: LinksView<L, C>,
    what: Happening<L, C>,
    dest: Seq<u8>,
)
    ensures
        happens(links, what).0.policy == match what {
            Happening::Suspend => LinkPolicy::Suspended,
            Happening::Relax(policy, _) => policy,
            _ => links.policy,
        },
        happens(links, what).0.specs.contains_key(dest) == match what {
            Happening::Open { dest: opened, .. } => opened == dest || links.specs.contains_key(dest),
            Happening::Close(closed) => closed != dest && links.specs.contains_key(dest),
            _ => links.specs.contains_key(dest),
        },
{
    match what {
        Happening::NetworkChange(seen) => {
            lemma_attempts_keep_registrations(links, links.candidates(seen));
            assert(links.attempt_each(links.candidates(seen)).0.specs.dom().contains(dest)
                == links.specs.dom().contains(dest));
        },
        Happening::Relax(policy, seen) => {
            let start = links.under(policy);
            lemma_attempts_keep_registrations(start, start.candidates(seen));
            assert(start.attempt_each(start.candidates(seen)).0.specs.dom().contains(dest)
                == links.specs.dom().contains(dest));
        },
        _ => {},
    }
}

/// After every history, inbound links are held for registered destinations only.
pub proof fn law_inbound_links_are_of_registered_destinations<L, C>(
    whats: Seq<Happening<L, C>>,
    dest: Seq<u8>,
)
    ensures
        world(whats).links.inbound.contains_key(dest) ==> world(whats).links.specs.contains_key(
            dest,
        ),
    decreases whats.len(),
{
    if whats.len() > 0 {
        let before = world(whats.drop_last()).links;
        law_inbound_links_are_of_registered_destinations(whats.drop_last(), dest);
        law_registrations_and_policy_follow_the_calls(before, whats.last(), dest);
        match whats.last() {
            Happening::NetworkChange(seen) => {
                lemma_attempts_keep_registrations(before, before.candidates(seen));
            },
            Happening::Relax(policy, seen) => {
                let start = before.under(policy);
                lemma_attempts_keep_registrations(start, start.candidates(seen));
            },
            _ => {},
        }
    }
}

} // verus!
