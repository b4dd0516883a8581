//! Path races.
//!
//! A race asks for a path on every usable interface at once and is won by the interface of
//! the next hop of the first path that turns up. [`PathRace`] decides what happens next; the
//! driver performs each [`RaceAction`] and reports back with a [`RaceEvent`].
use crate::types::{texts, SendErr, LORA_BITRATE_THRESHOLD};
use vstd::prelude::*;
use vstd::slice::slice_to_vec;

verus! {

/// A network interface of the transport.
#[derive(Debug)]
pub struct InterfaceInfo {
    pub name: String,
    pub online: bool,
    /// Whole bits per second, rounded down, where the interface reports a rate.
    pub bitrate: Option<u64>,
}

impl InterfaceInfo {
    /// Online and not LoRa-class. An interface that reports no rate counts as fast enough.
    pub open spec fn usable(self) -> bool {
        self.online && match self.bitrate {
            Some(rate) => rate >= LORA_BITRATE_THRESHOLD,
            None => true,
        }
    }
}

/// The names of the usable interfaces, in order.
pub open spec fn usable_names(interfaces: Seq<InterfaceInfo>) -> Seq<Seq<char>> {
    interfaces.filter(|i: InterfaceInfo| i.usable()).map_values(|i: InterfaceInfo| i.name@)
}

/// The names of the usable interfaces, in order.
pub fn usable_interfaces(interfaces: &Vec<InterfaceInfo>) -> (names: Vec<String>)
    ensures
        texts(names@) == usable_names(interfaces@),
{
    let mut names: Vec<String> = Vec::new();
    let mut i: usize = 0;
    assert(usable_names(interfaces@.take(0)) =~= Seq::<Seq<char>>::empty()) by {
        reveal(Seq::filter);
    }
    while i < interfaces.len()
        invariant
            i <= interfaces@.len(),
            texts(names@) =~= usable_names(interfaces@.take(i as int)),
        decreases interfaces@.len() - i,
    {
        let interface = &interfaces[i];
        let fast = match interface.bitrate {
            Some(rate) => rate >= LORA_BITRATE_THRESHOLD,
            None => true,
        };
        let ghost before = names@;
        let ghost taken = interfaces@.take(i as int);
        if interface.online && fast {
            names.push(interface.name.clone());
            assert(texts(names@) =~= texts(before).push(interface.name@));
        }
        proof {
            reveal(Seq::filter);
            let more = interfaces@.take(i + 1);
            assert(more.drop_last() =~= taken);
            assert(more.last() == interface);
            assert(usable_names(more) =~= if interface.usable() {
                usable_names(taken).push(interface.name@)
            } else {
                usable_names(taken)
            });
        }
        i = i + 1;
    }
    assert(interfaces@.take(interfaces@.len() as int) =~= interfaces@);
    names
}

/// How far a race has got.
#[derive(Clone, Copy, Debug, PartialEq, Eq, Structural)]
pub enum RaceStage {
    /// Waiting for the list of interfaces.
    Interfaces,
    /// Asking whether a path is known already.
    KnownPath,
    /// Asking for the next hop of the known path.
    KnownHop,
    /// Waiting for a path to turn up.
    NewPath,
    /// Asking for the next hop of the path that turned up.
    NewHop,
    /// The race has been decided.
    Over,
}

/// What the driver reports to a [`PathRace`].
#[derive(Debug)]
pub enum RaceEvent {
    /// The interfaces of the transport.
    Interfaces(Vec<InterfaceInfo>),
    /// Whether the transport has a path, and whether an inbound response or announce has
    /// verified it in this session.
    PathKnown { known: bool, verified: bool },
    /// The interface of the next hop on the path, if there is one.
    NextHop(Option<String>),
    /// Whether a path turned up within the budget.
    PathArrived(bool),
}

/// What the driver has to do next.
#[derive(Debug)]
pub enum RaceAction {
    /// List the interfaces.
    ListInterfaces,
    /// Look whether a path is known.
    CheckPath,
    /// Look up the next hop.
    FindNextHop,
    /// Request a path on each of these interfaces, then block until one turns up or `budget`
    /// milliseconds have passed. When `verified`, only a path verified in this session counts.
    RequestAndWait { via: Vec<String>, budget: u64, verified: bool },
    /// The race is decided: the winning interface, or why there is none.
    Finish(Result<String, SendErr>),
    /// The event does not belong to this stage; nothing changes.
    Ignore,
}

/// What a [`RaceEvent`] says.
pub enum RaceEventView {
    Interfaces(Seq<InterfaceInfo>),
    PathKnown { known: bool, verified: bool },
    NextHop(Option<Seq<char>>),
    PathArrived(bool),
}

/// What a [`RaceAction`] asks for.
pub enum RaceActionView {
    ListInterfaces,
    CheckPath,
    FindNextHop,
    RequestAndWait { via: Seq<Seq<char>>, budget: u64, verified: bool },
    Finish(Result<Seq<char>, SendErr>),
    Ignore,
}

impl View for RaceEvent {
    type V = RaceEventView;

    open spec fn view(&self) -> RaceEventView {
        match self {
            RaceEvent::Interfaces(list) => RaceEventView::Interfaces(list@),
            RaceEvent::PathKnown { known, verified } => RaceEventView::PathKnown {
                known: *known,
                verified: *verified,
            },
            RaceEvent::NextHop(hop) => RaceEventView::NextHop(
                match hop {
                    Some(name) => Some(name@),
                    None => None,
                },
            ),
            RaceEvent::PathArrived(arrived) => RaceEventView::PathArrived(*arrived),
        }
    }
}

impl View for RaceAction {
    type V = RaceActionView;

    open spec fn view(&self) -> RaceActionView {
        match self {
            RaceAction::ListInterfaces => RaceActionView::ListInterfaces,
            RaceAction::CheckPath => RaceActionView::CheckPath,
            RaceAction::FindNextHop => RaceActionView::FindNextHop,
            RaceAction::RequestAndWait { via, budget, verified } => RaceActionView::RequestAndWait {
                via: texts(via@),
                budget: *budget,
                verified: *verified,
            },
            RaceAction::Finish(result) => RaceActionView::Finish(
                match result {
                    Ok(name) => Ok(name@),
                    Err(e) => Err(*e),
                },
            ),
            RaceAction::Ignore => RaceActionView::Ignore,
        }
    }
}

/// A race for a path to one destination.
#[derive(Debug)]
pub struct PathRace {
    dest: Vec<u8>,
    budget: u64,
    verified: bool,
    candidates: Vec<String>,
    stage: RaceStage,
}

/// The state of a [`PathRace`].
#[verifier::ext_equal]
pub struct PathRaceView {
    pub dest: Seq<u8>,
    pub budget: u64,
    /// Only a path verified in this session counts.
    pub verified: bool,
    /// The usable interfaces, once they are known.
    pub candidates: Seq<Seq<char>>,
    pub stage: RaceStage,
}

impl View for PathRace {
    type V = PathRaceView;

    closed spec fn view(&self) -> PathRaceView {
        PathRaceView {
            dest: self.dest@,
            budget: self.budget,
            verified: self.verified,
            candidates: texts(self.candidates@),
            stage: self.stage,
        }
    }
}

impl PathRaceView {
    /// A race that has not begun.
    pub open spec fn initial(dest: Seq<u8>, budget: u64, verified: bool) -> PathRaceView {
        PathRaceView { dest, budget, verified, candidates: seq![], stage: RaceStage::Interfaces }
    }

    pub open spec fn at(self, stage: RaceStage) -> PathRaceView {
        PathRaceView { stage, ..self }
    }

    /// The race is decided.
    pub open spec fn end(self, result: Result<Seq<char>, SendErr>) -> (
        PathRaceView,
        RaceActionView,
    ) {
        (self.at(RaceStage::Over), RaceActionView::Finish(result))
    }

    /// Ask on every usable interface and wait.
    pub open spec fn ask(self) -> (PathRaceView, RaceActionView) {
        (
            self.at(RaceStage::NewPath),
            RaceActionView::RequestAndWait {
                via: self.candidates,
                budget: self.budget,
                verified: self.verified,
            },
        )
    }

    /// What an event does to the race and what has to be done next.
    pub open spec fn next(self, event: RaceEventView) -> (PathRaceView, RaceActionView) {
        match (self.stage, event) {
            (RaceStage::Interfaces, RaceEventView::Interfaces(list)) => {
                let with = PathRaceView { candidates: usable_names(list), ..self };
                if usable_names(list).len() == 0 {
                    with.end(Err(SendErr::NoUsableInterface))
                } else {
                    (with.at(RaceStage::KnownPath), RaceActionView::CheckPath)
                }
            },
            (RaceStage::KnownPath, RaceEventView::PathKnown { known, verified }) => {
                if known && (verified || !self.verified) {
                    (self.at(RaceStage::KnownHop), RaceActionView::FindNextHop)
                } else {
                    self.ask()
                }
            },
            (RaceStage::KnownHop, RaceEventView::NextHop(hop)) => match hop {
                Some(name) => self.end(Ok(name)),
                None => self.ask(),
            },
            (RaceStage::NewPath, RaceEventView::PathArrived(arrived)) => if arrived {
                (self.at(RaceStage::NewHop), RaceActionView::FindNextHop)
            } else {
                self.end(Err(SendErr::LivenessTimeout))
            },
            (RaceStage::NewHop, RaceEventView::NextHop(hop)) => match hop {
                Some(name) => self.end(Ok(name)),
                None => self.end(Err(SendErr::LivenessTimeout)),
            },
            _ => (self, RaceActionView::Ignore),
        }
    }
}

/// Starts a race for a path to `dest_hash`. A path that is known already wins at once. The
/// liveness cache is not consulted.
pub fn race_path(dest_hash: &[u8], budget: u64) -> (started: (PathRace, RaceAction))
    ensures
        started.0@ == PathRaceView::initial(dest_hash@, budget, false),
        started.1@ == RaceActionView::ListInterfaces,
{
    PathRace::new(dest_hash, budget, false)
}

/// The same as [`race_path`], but only a path that an inbound response or announce has
/// verified in this session counts: a path restored from disk does not.
pub fn race_path_verified_this_session(dest_hash: &[u8], budget: u64) -> (started: (
    PathRace,
    RaceAction,
))
    ensures
        started.0@ == PathRaceView::initial(dest_hash@, budget, true),
        started.1@ == RaceActionView::ListInterfaces,
{
    PathRace::new(dest_hash, budget, true)
}

impl PathRace {
    fn new(dest_hash: &[u8], budget: u64, verified: bool) -> (started: (PathRace, RaceAction))
        ensures
            started.0@ == PathRaceView::initial(dest_hash@, budget, verified),
            started.1@ == RaceActionView::ListInterfaces,
    {
        let race = PathRace {
            dest: slice_to_vec(dest_hash),
            budget,
            verified,
            candidates: Vec::new(),
            stage: RaceStage::Interfaces,
        };
        assert(race@ =~= PathRaceView::initial(dest_hash@, budget, verified));
        (race, RaceAction::ListInterfaces)
    }

    /// The destination raced for.
    pub fn dest(&self) -> (dest: &[u8])
        ensures
            dest@ == self@.dest,
    {
        self.dest.as_slice()
    }

    fn ask(&mut self) -> (action: RaceAction)
        ensures
            (final(self)@, action@) == old(self)@.ask(),
    {
        self.stage = RaceStage::NewPath;
        RaceAction::RequestAndWait {
            via: crate::types::copy_texts(&self.candidates),
            budget: self.budget,
            verified: self.verified,
        }
    }

    /// Takes in what the driver reports and says what it has to do next.
    pub fn step(&mut self, event: RaceEvent) -> (action: RaceAction)
        ensures
            (final(self)@, action@) == old(self)@.next(event@),
    {
        match (self.stage, event) {
            (RaceStage::Interfaces, RaceEvent::Interfaces(list)) => {
                self.candidates = usable_interfaces(&list);
                if self.candidates.len() == 0 {
                    self.stage = RaceStage::Over;
                    RaceAction::Finish(Err(SendErr::NoUsableInterface))
                } else {
                    self.stage = RaceStage::KnownPath;
                    RaceAction::CheckPath
                }
            },
            (RaceStage::KnownPath, RaceEvent::PathKnown { known, verified }) => {
                if known && (verified || !self.verified) {
                    self.stage = RaceStage::KnownHop;
                    RaceAction::FindNextHop
                } else {
                    self.ask()
                }
            },
            (RaceStage::KnownHop, RaceEvent::NextHop(hop)) => match hop {
                Some(name) => {
                    self.stage = RaceStage::Over;
                    RaceAction::Finish(Ok(name))
                },
                None => self.ask(),
            },
            (RaceStage::NewPath, RaceEvent::PathArrived(arrived)) => {
                if arrived {
                    self.stage = RaceStage::NewHop;
                    RaceAction::FindNextHop
                } else {
                    self.stage = RaceStage::Over;
                    RaceAction::Finish(Err(SendErr::LivenessTimeout))
                }
            },
            (RaceStage::NewHop, RaceEvent::NextHop(hop)) => {
                self.stage = RaceStage::Over;
                match hop {
                    Some(name) => RaceAction::Finish(Ok(name)),
                    None => RaceAction::Finish(Err(SendErr::LivenessTimeout)),
                }
            },
            _ => RaceAction::Ignore,
        }
    }
}

} // verus!
