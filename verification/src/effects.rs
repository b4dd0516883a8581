//! What the registry asks its driver to do.
use crate::liveness::{
    race_path, race_path_verified_this_session, PathRace, PathRaceView, RaceAction, RaceActionView,
};
use crate::types::{copy_texts, texts, LIVENESS_BUDGET};
use vstd::prelude::*;

verus! {

/// A status change to report to the host.
#[derive(Debug)]
pub struct StatusChange<L> {
    pub dest: Vec<u8>,
    pub status: u8,
    /// A live link, where one is held for the destination by design.
    pub link: Option<L>,
    /// The first `audience` status callbacks are called, in the order of their registration:
    /// those that were registered when the step that led to this change began.
    pub audience: usize,
}

/// A path race to run.
#[derive(Debug)]
pub struct RaceJob {
    pub dest: Vec<u8>,
    /// The number of the attempt that the race belongs to.
    pub attempt: u64,
    pub app_name: String,
    pub aspects: Vec<String>,
    /// Race with `race_path_verified_this_session`, and hold a link once a path is found.
    pub propagation: bool,
}

/// A persistent link to build and hold.
#[derive(Debug)]
pub struct LinkJob {
    pub dest: Vec<u8>,
    /// The number of the attempt that the link belongs to.
    pub attempt: u64,
    pub app_name: String,
    pub aspects: Vec<String>,
    /// The status callbacks that hear of the link.
    pub audience: usize,
}

/// Something for the driver to do.
#[derive(Debug)]
pub enum Effect<L> {
    /// Install the announce handler, which reports every announce, path responses included.
    InstallAnnounceHandler,
    /// Watch for announces of a destination.
    WatchAnnounce(Vec<u8>),
    /// Call the status callbacks.
    Notify(StatusChange<L>),
    /// Run a path race for `LIVENESS_BUDGET` and report how it ended.
    StartRace(RaceJob),
    /// Build a link and report whether that worked.
    StartPersistentLink(LinkJob),
    /// Refresh the tunnels and send the link request of the link held for a destination.
    InitiateLink(Vec<u8>),
}

/// What a [`StatusChange`] says.
pub struct ChangeView<L> {
    pub dest: Seq<u8>,
    pub status: u8,
    pub link: Option<L>,
    pub audience: nat,
}

/// What a [`RaceJob`] says.
pub struct RaceJobView {
    pub dest: Seq<u8>,
    pub attempt: u64,
    pub app_name: Seq<char>,
    pub aspects: Seq<Seq<char>>,
    pub propagation: bool,
}

/// What a [`LinkJob`] says.
pub struct LinkJobView {
    pub dest: Seq<u8>,
    pub attempt: u64,
    pub app_name: Seq<char>,
    pub aspects: Seq<Seq<char>>,
    pub audience: nat,
}

/// What an [`Effect`] asks for.
pub enum EffectView<L> {
    InstallAnnounceHandler,
    WatchAnnounce(Seq<u8>),
    Notify(ChangeView<L>),
    StartRace(RaceJobView),
    StartPersistentLink(LinkJobView),
    InitiateLink(Seq<u8>),
}

impl<L> View for StatusChange<L> {
    type V = ChangeView<L>;

    open spec fn view(&self) -> ChangeView<L> {
        ChangeView {
            dest: self.dest@,
            status: self.status,
            link: self.link,
            audience: self.audience as nat,
        }
    }
}

impl View for RaceJob {
    type V = RaceJobView;

    open spec fn view(&self) -> RaceJobView {
        RaceJobView {
            dest: self.dest@,
            attempt: self.attempt,
            app_name: self.app_name@,
            aspects: texts(self.aspects@),
            propagation: self.propagation,
        }
    }
}

impl View for LinkJob {
    type V = LinkJobView;

    open spec fn view(&self) -> LinkJobView {
        LinkJobView {
            dest: self.dest@,
            attempt: self.attempt,
            app_name: self.app_name@,
            aspects: texts(self.aspects@),
            audience: self.audience as nat,
        }
    }
}

impl<L> View for Effect<L> {
    type V = EffectView<L>;

    open spec fn view(&self) -> EffectView<L> {
        match self {
            Effect::InstallAnnounceHandler => EffectView::InstallAnnounceHandler,
            Effect::WatchAnnounce(dest) => EffectView::WatchAnnounce(dest@),
            Effect::Notify(change) => EffectView::Notify(change@),
            Effect::StartRace(job) => EffectView::StartRace(job@),
            Effect::StartPersistentLink(job) => EffectView::StartPersistentLink(job@),
            Effect::InitiateLink(dest) => EffectView::InitiateLink(dest@),
        }
    }
}

/// What a list of effects asks for, in order.
pub open spec fn asked<L>(effects: Seq<Effect<L>>) -> Seq<EffectView<L>> {
    effects.map_values(|e: Effect<L>| e@)
}

/// The effect of reporting a change that concerns no live link.
pub open spec fn notice<L>(dest: Seq<u8>, status: u8, audience: nat) -> EffectView<L> {
    EffectView::Notify(ChangeView { dest, status, link: None, audience })
}

/// The effect of reporting a change together with a live link.
pub open spec fn notice_with<L>(dest: Seq<u8>, status: u8, link: L, audience: nat) -> EffectView<L> {
    EffectView::Notify(ChangeView { dest, status, link: Some(link), audience })
}

impl RaceJob {
    /// Starts the race. For a propagation destination only a path verified in this session
    /// counts: the node has to have shown that it can answer before a link request is sent.
    pub fn start(&self) -> (started: (PathRace, RaceAction))
        ensures
            started.0@ == PathRaceView::initial(self@.dest, LIVENESS_BUDGET, self@.propagation),
            started.1@ == RaceActionView::ListInterfaces,
    {
        if self.propagation {
            race_path_verified_this_session(self.dest.as_slice(), LIVENESS_BUDGET)
        } else {
            race_path(self.dest.as_slice(), LIVENESS_BUDGET)
        }
    }
}

/// The steps of building a persistent link.
#[derive(Clone, Copy, Debug, PartialEq, Eq, Structural)]
pub enum BuildStep {
    /// Recall the identity of the destination.
    RecallIdentity,
    /// Build the outbound destination from the job's application name and aspects.
    BuildDestination,
    /// Build the link and start it.
    BuildLink,
    /// The link is built.
    Built,
    /// The link cannot be built.
    GiveUp,
}

impl BuildStep {
    /// The step that follows when this one worked.
    pub open spec fn following(self) -> BuildStep {
        match self {
            BuildStep::RecallIdentity => BuildStep::BuildDestination,
            BuildStep::BuildDestination => BuildStep::BuildLink,
            BuildStep::BuildLink => BuildStep::Built,
            BuildStep::Built => BuildStep::Built,
            BuildStep::GiveUp => BuildStep::GiveUp,
        }
    }

    /// No step is left.
    pub open spec fn is_last(self) -> bool {
        self == BuildStep::Built || self == BuildStep::GiveUp
    }

    /// What comes after a step: the first failure ends the attempt.
    pub fn next(self, worked: bool) -> (step: BuildStep)
        ensures
            step == if worked || self.is_last() {
                self.following()
            } else {
                BuildStep::GiveUp
            },
    {
        match self {
            BuildStep::Built => BuildStep::Built,
            BuildStep::GiveUp => BuildStep::GiveUp,
            _ => if !worked {
                BuildStep::GiveUp
            } else {
                match self {
                    BuildStep::RecallIdentity => BuildStep::BuildDestination,
                    BuildStep::BuildDestination => BuildStep::BuildLink,
                    _ => BuildStep::Built,
                }
            },
        }
    }
}

impl Clone for LinkJob {
    fn clone(&self) -> (copy: Self)
        ensures
            copy@ == self@,
    {
        LinkJob {
            dest: vstd::slice::slice_to_vec(self.dest.as_slice()),
            attempt: self.attempt,
            app_name: self.app_name.clone(),
            aspects: copy_texts(&self.aspects),
            audience: self.audience,
        }
    }
}

} // verus!
