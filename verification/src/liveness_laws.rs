//! What holds of every path race.
use crate::liveness::{
    usable_names, InterfaceInfo, PathRaceView, RaceActionView, RaceEventView, RaceStage,
};
use crate::types::SendErr;
use vstd::prelude::*;

verus! {

/// What a race finds when it looks.
pub struct RaceWorld {
    pub interfaces: Seq<InterfaceInfo>,
    /// A path is known when the race begins.
    pub known: bool,
    /// That path was verified in this session.
    pub verified: bool,
    /// The next hop of that path.
    pub known_hop: Option<Seq<char>>,
    /// A path turns up while the race waits.
    pub arrives: bool,
    /// The next hop after the wait.
    pub new_hop: Option<Seq<char>>,
}

impl RaceWorld {
    /// What the driver reports at each stage.
    pub open spec fn report(self, stage: RaceStage) -> RaceEventView {
        match stage {
            RaceStage::Interfaces => RaceEventView::Interfaces(self.interfaces),
            RaceStage::KnownPath => RaceEventView::PathKnown {
                known: self.known,
                verified: self.verified,
            },
            RaceStage::KnownHop => RaceEventView::NextHop(self.known_hop),
            RaceStage::NewPath => RaceEventView::PathArrived(self.arrives),
            RaceStage::NewHop => RaceEventView::NextHop(self.new_hop),
            RaceStage::Over => RaceEventView::NextHop(None),
        }
    }

    /// How a race in this world has to end.
    pub open spec fn outcome(self, must_verify: bool) -> Result<Seq<char>, SendErr> {
        let quick = self.known && (self.verified || !must_verify);
        if usable_names(self.interfaces).len() == 0 {
            Err(SendErr::NoUsableInterface)
        } else if quick && self.known_hop is Some {
            Ok(self.known_hop->0)
        } else if self.arrives && self.new_hop is Some {
            Ok(self.new_hop->0)
        } else {
            Err(SendErr::LivenessTimeout)
        }
    }
}

/// The actions asked for over the next `steps` steps of a race.
pub open spec fn actions(race: PathRaceView, world: RaceWorld, steps: nat) -> Seq<RaceActionView>
    decreases steps,
{
    if steps == 0 || race.stage == RaceStage::Over {
        seq![]
    } else {
        let (after, action) = race.next(world.report(race.stage));
        seq![action] + actions(after, world, (steps - 1) as nat)
    }
}

/// A race ends within five steps: its last action reports the winner or the error that the
/// world calls for, it asks for a path at most once, and if it does so, on exactly the usable
/// interfaces, for the whole budget, and by the rule that it was started under.
pub proof fn law_race_outcome(dest: Seq<u8>, budget: u64, must_verify: bool, world: RaceWorld)
    ensures
        ({
            let run = actions(PathRaceView::initial(dest, budget, must_verify), world, 5);
            &&& 1 <= run.len() <= 5
            &&& run.last() == RaceActionView::Finish(world.outcome(must_verify))
            &&& forall|i: int|
                0 <= i < run.len() && (#[trigger] run[i]) is RequestAndWait ==> run[i]
                    == RaceActionView::RequestAndWait {
                    via: usable_names(world.interfaces),
                    budget,
                    verified: must_verify,
                }
            &&& forall|i: int, j: int|
                0 <= i < run.len() && 0 <= j < run.len() && (#[trigger] run[i]) is RequestAndWait
                    && (#[trigger] run[j]) is RequestAndWait ==> i == j
            &&& forall|i: int| 0 <= i < run.len() ==> !((#[trigger] run[i]) is Ignore)
        }),
{
    reveal_with_fuel(actions, 6);
    let race = PathRaceView::initial(dest, budget, must_verify);
    let (r1, a1) = race.next(world.report(race.stage));
    let (r2, a2) = r1.next(world.report(r1.stage));
    let (r3, a3) = r2.next(world.report(r2.stage));
    let (r4, a4) = r3.next(world.report(r3.stage));
    let (r5, a5) = r4.next(world.report(r4.stage));
    let run = actions(race, world, 5);
    if r1.stage == RaceStage::Over {
        assert(run =~= seq![a1]);
    } else if r2.stage == RaceStage::Over {
        assert(run =~= seq![a1, a2]);
    } else if r3.stage == RaceStage::Over {
        assert(run =~= seq![a1, a2, a3]);
    } else if r4.stage == RaceStage::Over {
        assert(run =~= seq![a1, a2, a3, a4]);
    } else {
        assert(run =~= seq![a1, a2, a3, a4, a5]);
    }
}

/// A race that must be verified is never won by a path that this session has not verified:
/// without a verified path at the start, its outcome does not depend on what was known then.
pub proof fn law_unverified_path_never_wins(world: RaceWorld, other: RaceWorld)
    requires
        !world.verified && !other.verified,
        world.interfaces == other.interfaces,
        world.arrives == other.arrives,
        world.new_hop == other.new_hop,
    ensures
        world.outcome(true) == other.outcome(true),
        !world.arrives ==> world.outcome(true) is Err,
{
}

/// What a filter keeps was there before.
proof fn lemma_kept_was_there<A>(list: Seq<A>, pred: spec_fn(A) -> bool, k: int)
    requires
        0 <= k < list.filter(pred).len(),
    ensures
        list.contains(list.filter(pred)[k]),
    decreases list.len(),
{
    reveal(Seq::filter);
    let init = list.drop_last();
    if k < init.filter(pred).len() {
        lemma_kept_was_there(init, pred, k);
        let i = choose|i: int| 0 <= i < init.len() && init[i] == init.filter(pred)[k];
        assert(list[i] == list.filter(pred)[k]);
    } else {
        assert(list[list.len() - 1] == list.filter(pred)[k]);
    }
}

/// An interface that is offline or LoRa-class is never among those that a race asks on, and
/// every other interface is.
pub proof fn law_lora_takes_no_part(interfaces: Seq<InterfaceInfo>, name: Seq<char>)
    ensures
        usable_names(interfaces).contains(name) <==> exists|i: int|
            0 <= i < interfaces.len() && (#[trigger] interfaces[i]).usable() && interfaces[i].name@
                == name,
{
    let pred = |i: InterfaceInfo| i.usable();
    let kept = interfaces.filter(pred);
    broadcast use vstd::seq_lib::group_filter_ensures;

    if usable_names(interfaces).contains(name) {
        let k = choose|k: int|
            0 <= k < usable_names(interfaces).len() && usable_names(interfaces)[k] == name;
        assert(pred(kept[k]));
        lemma_kept_was_there(interfaces, pred, k);
        let i = choose|i: int| 0 <= i < interfaces.len() && interfaces[i] == kept[k];
        assert(interfaces[i].usable() && interfaces[i].name@ == name);
    }
    if exists|i: int|
        0 <= i < interfaces.len() && (#[trigger] interfaces[i]).usable() && interfaces[i].name@
            == name {
        let i = choose|i: int|
            0 <= i < interfaces.len() && (#[trigger] interfaces[i]).usable()
                && interfaces[i].name@ == name;
        assert(pred(interfaces[i]));
        assert(kept.contains(interfaces[i]));
        let k = choose|k: int| 0 <= k < kept.len() && kept[k] == interfaces[i];
        assert(usable_names(interfaces)[k] == name);
    }
}

/// A race after a run of events.
pub open spec fn raced(race: PathRaceView, events: Seq<RaceEventView>) -> PathRaceView
    decreases events.len(),
{
    if events.len() == 0 {
        race
    } else {
        raced(race, events.drop_last()).next(events.last()).0
    }
}

/// No event changes what a race is for: after any run of events its destination, its budget and
/// its rule are those it was started with.
pub proof fn law_race_keeps_its_purpose(race: PathRaceView, events: Seq<RaceEventView>)
    ensures
        raced(race, events).dest == race.dest,
        raced(race, events).budget == race.budget,
        raced(race, events).verified == race.verified,
    decreases events.len(),
{
    if events.len() > 0 {
        law_race_keeps_its_purpose(race, events.drop_last());
    }
}

/// A race starts with what it was asked for, knowing no interfaces yet.
pub proof fn law_race_starts_as_asked(dest: Seq<u8>, budget: u64, verified: bool)
    ensures
        ({
            let race = PathRaceView::initial(dest, budget, verified);
            &&& race.dest == dest
            &&& race.budget == budget
            &&& race.verified == verified
            &&& race.candidates.len() == 0
            &&& race.stage == RaceStage::Interfaces
        }),
{
}

/// A race settles once, from the list of interfaces, on which of them it asks, and keeps to that.
pub proof fn law_race_settles_its_interfaces_once(race: PathRaceView, event: RaceEventView)
    ensures
        race.next(event).0.candidates == if race.stage == RaceStage::Interfaces
            && event is Interfaces {
            usable_names(event->Interfaces_0)
        } else {
            race.candidates
        },
{
}

/// How a race proceeds on the report that its stage calls for.
pub proof fn law_race_course(
    race: PathRaceView,
    list: Seq<InterfaceInfo>,
    known: bool,
    verified: bool,
    hop: Seq<char>,
)
    ensures
        race.stage == RaceStage::Interfaces ==> {
            let (after, action) = race.next(RaceEventView::Interfaces(list));
            if usable_names(list).len() == 0 {
                &&& after.stage == RaceStage::Over
                &&& action == RaceActionView::Finish(Err(SendErr::NoUsableInterface))
            } else {
                after.stage == RaceStage::KnownPath && action == RaceActionView::CheckPath
            }
        },
        race.stage == RaceStage::KnownPath ==> {
            let (after, action) = race.next(RaceEventView::PathKnown { known, verified });
            if known && (!race.verified || verified) {
                after.stage == RaceStage::KnownHop && action == RaceActionView::FindNextHop
            } else {
                &&& after.stage == RaceStage::NewPath
                &&& action == RaceActionView::RequestAndWait {
                    via: race.candidates,
                    budget: race.budget,
                    verified: race.verified,
                }
            }
        },
        race.stage == RaceStage::KnownHop ==> {
            &&& race.next(RaceEventView::NextHop(Some(hop))).0.stage == RaceStage::Over
            &&& race.next(RaceEventView::NextHop(Some(hop))).1 == RaceActionView::Finish(Ok(hop))
            &&& race.next(RaceEventView::NextHop(None)).0.stage == RaceStage::NewPath
            &&& race.next(RaceEventView::NextHop(None)).1 == RaceActionView::RequestAndWait {
                via: race.candidates,
                budget: race.budget,
                verified: race.verified,
            }
        },
        race.stage == RaceStage::NewPath ==> {
            &&& race.next(RaceEventView::PathArrived(true)).0.stage == RaceStage::NewHop
            &&& race.next(RaceEventView::PathArrived(true)).1 == RaceActionView::FindNextHop
            &&& race.next(RaceEventView::PathArrived(false)).0.stage == RaceStage::Over
            &&& race.next(RaceEventView::PathArrived(false)).1 == RaceActionView::Finish(
                Err(SendErr::LivenessTimeout),
            )
        },
        race.stage == RaceStage::NewHop ==> {
            &&& race.next(RaceEventView::NextHop(Some(hop))).0.stage == RaceStage::Over
            &&& race.next(RaceEventView::NextHop(Some(hop))).1 == RaceActionView::Finish(Ok(hop))
            &&& race.next(RaceEventView::NextHop(None)).0.stage == RaceStage::Over
            &&& race.next(RaceEventView::NextHop(None)).1 == RaceActionView::Finish(
                Err(SendErr::LivenessTimeout),
            )
        },
{
}

/// A report that does not belong to the stage is ignored and changes nothing; every other one is
/// taken up.
pub proof fn law_race_ignores_stray_reports(race: PathRaceView, event: RaceEventView)
    ensures
        ({
            let fits = match race.stage {
                RaceStage::Interfaces => event is Interfaces,
                RaceStage::KnownPath => event is PathKnown,
                RaceStage::KnownHop | RaceStage::NewHop => event is NextHop,
                RaceStage::NewPath => event is PathArrived,
                RaceStage::Over => false,
            };
            &&& fits == (race.next(event).1 != RaceActionView::Ignore)
            &&& !fits ==> race.next(event).0 == race
        }),
{
}

/// The interfaces that a race asks on are named in their order, one for one: a further interface
/// adds its name behind the others if it is online and reports no rate or at least 50 kbit/s, and
/// adds nothing if not.
pub proof fn law_usable_interfaces_keep_their_order(
    interfaces: Seq<InterfaceInfo>,
    more: InterfaceInfo,
)
    ensures
        usable_names(Seq::<InterfaceInfo>::empty()) == Seq::<Seq<char>>::empty(),
        usable_names(interfaces.push(more)) == if more.online && (more.bitrate is None
            || more.bitrate->0 >= 50_000) {
            usable_names(interfaces).push(more.name@)
        } else {
            usable_names(interfaces)
        },
{
    reveal(Seq::filter);
    assert(interfaces.push(more).drop_last() =~= interfaces);
    assert(usable_names(Seq::<InterfaceInfo>::empty()) =~= Seq::<Seq<char>>::empty());
    assert(usable_names(interfaces.push(more)) =~= if more.usable() {
        usable_names(interfaces).push(more.name@)
    } else {
        usable_names(interfaces)
    });
}

} // verus!
