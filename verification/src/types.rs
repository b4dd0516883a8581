//! Status codes, time limits, policies, per-destination specs and errors.
use vstd::prelude::*;
use vstd::slice::slice_to_vec;
use vstd::string::StringExecFns;

verus! {

/// Not registered.
pub const APP_LINK_NONE: u8 = 0x00;

/// A path race is in flight.
pub const APP_LINK_PATH_REQUESTED: u8 = 0x01;

/// A link is held but is not active yet.
pub const APP_LINK_ESTABLISHING: u8 = 0x02;

/// A path is known and still valid, or a held link is active.
pub const APP_LINK_ACTIVE: u8 = 0x03;

/// Registered, with no path and no race.
pub const APP_LINK_DISCONNECTED: u8 = 0x04;

/// How long a send waits, in milliseconds, after a packet went out on one tier before it
/// advances to the next.
pub const DIRECT_STAGGER_WAIT: u64 = 1000;

/// Settling window, in seconds, for a destination that has both an outbound and an inbound
/// link: the one to tear down is the one whose most recent inbound traffic is older than this.
/// It is twice the longest keep-alive interval, so that healthy links are left alone. The
/// registry knows nothing of traffic and leaves both links to the host.
pub const DUAL_LINK_SETTLING_SECS: u64 = 720;

/// Interfaces slower than this many bits per second are LoRa-class and take no part in a
/// path race.
pub const LORA_BITRATE_THRESHOLD: u64 = 50_000;

/// How long, in milliseconds, the winner of a path race counts as fresh. Within this window a
/// send to the same destination needs no race.
pub const LIVENESS_CACHE_TTL: u64 = 2000;

/// Upper bound, in milliseconds, on each network step: a path race, a link establishment,
/// a wait for a delivery proof.
pub const LIVENESS_BUDGET: u64 = 5000;

/// How long, in milliseconds, a send may stay undelivered before propagation is asked for.
pub const PROP_FALLBACK_DELAY: u64 = LIVENESS_BUDGET;

/// Host lifecycle policy: which triggers may start a path race.
///
/// | trigger              | Foreground | Background | Suspended |
/// |----------------------|:----------:|:----------:|:---------:|
/// | `open`               |    yes     |    yes     |    no     |
/// | `announce_received`  |    yes     |    yes     |    no     |
/// | `network_changed`    |    yes     |    no      |    no     |
#[derive(Clone, Copy, Debug, PartialEq, Eq, Structural)]
pub enum LinkPolicy {
    Foreground,
    Background,
    Suspended,
}

impl Default for LinkPolicy {
    fn default() -> (policy: Self)
        ensures
            policy == LinkPolicy::Foreground,
    {
        LinkPolicy::Foreground
    }
}

/// How a destination is opened. Only propagation destinations build a link, whatever the
/// mode.
#[derive(Clone, Copy, Debug, PartialEq, Eq, Structural)]
pub enum LinkMode {
    PersistentLink,
}

impl Default for LinkMode {
    fn default() -> (mode: Self)
        ensures
            mode == LinkMode::PersistentLink,
    {
        LinkMode::PersistentLink
    }
}

/// The two flags of a registration.
#[derive(Clone, Copy, Debug)]
pub struct Flags {
    /// True from the start of an attempt until it resolves, so that concurrent triggers
    /// collapse into one race.
    pub attempt_in_flight: bool,
    /// True once the destination has been ready at least once since it was opened.
    pub ever_established: bool,
    /// The number of the latest attempt under the registration, if there was one. Only that
    /// attempt may touch the two flags.
    pub latest: Option<u64>,
}

impl Flags {
    /// The flags of a registration that nothing has been attempted under yet.
    pub open spec fn unset() -> Flags {
        Flags { attempt_in_flight: false, ever_established: false, latest: None }
    }

    /// What news of `attempt` does to the flags: whether it has found the destination ready, and
    /// whether it is over. News of another attempt than the latest does nothing.
    pub open spec fn settled(self, attempt: u64, ready: bool, over: bool) -> Flags {
        if self.latest == Some(attempt) {
            Flags {
                attempt_in_flight: self.attempt_in_flight && !over,
                ever_established: self.ever_established || ready,
                ..self
            }
        } else {
            self
        }
    }
}

/// Where the registry keeps the flags of a registration: under its destination and its number.
#[derive(Debug)]
pub struct FlagsKey {
    pub dest: Vec<u8>,
    pub number: usize,
}

/// What a destination is registered with.
///
/// Its two flags, `attempt_in_flight` and `ever_established`, are shared by all copies and
/// follow what happens to the registration, also after it was closed or replaced. The methods
/// of these names on the registry say how they stand.
#[derive(Debug)]
pub struct AppLinkSpec {
    pub app_name: String,
    pub aspects: Vec<String>,
    pub mode: LinkMode,
    /// Where the flags are kept. A spec that was never registered has none: its flags are never
    /// set.
    pub flags: Option<FlagsKey>,
}

/// What an [`AppLinkSpec`] holds.
#[verifier::ext_equal]
pub struct AppLinkSpecView {
    pub app_name: Seq<char>,
    pub aspects: Seq<Seq<char>>,
    pub mode: LinkMode,
    pub flags: Option<(Seq<u8>, nat)>,
}

/// A registration in force: what the destination is registered with, and its flags.
#[verifier::ext_equal]
pub struct SpecView {
    pub app_name: Seq<char>,
    pub aspects: Seq<Seq<char>>,
    pub mode: LinkMode,
    pub attempt_in_flight: bool,
    pub ever_established: bool,
    pub latest: Option<u64>,
    /// The number of the registration.
    pub number: nat,
}

/// The texts in a list of strings.
pub open spec fn texts(list: Seq<String>) -> Seq<Seq<char>> {
    list.map_values(|s: String| s@)
}

impl View for FlagsKey {
    type V = (Seq<u8>, nat);

    open spec fn view(&self) -> (Seq<u8>, nat) {
        (self.dest@, self.number as nat)
    }
}

impl View for AppLinkSpec {
    type V = AppLinkSpecView;

    open spec fn view(&self) -> AppLinkSpecView {
        AppLinkSpecView {
            app_name: self.app_name@,
            aspects: texts(self.aspects@),
            mode: self.mode,
            flags: match self.flags {
                Some(key) => Some(key@),
                None => None,
            },
        }
    }
}

impl AppLinkSpecView {
    /// A spec that was never registered.
    pub open spec fn unregistered(
        app_name: Seq<char>,
        aspects: Seq<Seq<char>>,
    ) -> AppLinkSpecView {
        AppLinkSpecView { app_name, aspects, mode: LinkMode::PersistentLink, flags: None }
    }
}

impl SpecView {
    /// A registration that nothing has been attempted under yet.
    pub open spec fn fresh(app_name: Seq<char>, aspects: Seq<Seq<char>>, number: nat) -> SpecView {
        SpecView {
            app_name,
            aspects,
            mode: LinkMode::PersistentLink,
            attempt_in_flight: false,
            ever_established: false,
            latest: None,
            number,
        }
    }

    /// The flags of the registration.
    pub open spec fn flags(self) -> Flags {
        Flags {
            attempt_in_flight: self.attempt_in_flight,
            ever_established: self.ever_established,
            latest: self.latest,
        }
    }

    /// Propagation nodes are the destinations that hold a link of their own.
    pub open spec fn is_propagation(self) -> bool {
        self.aspects.contains("propagation"@)
    }
}

/// A copy of a list of strings.
pub fn copy_texts(list: &Vec<String>) -> (copy: Vec<String>)
    ensures
        texts(copy@) == texts(list@),
{
    let mut copy: Vec<String> = Vec::new();
    let mut i: usize = 0;
    while i < list.len()
        invariant
            i <= list@.len(),
            copy@.len() == i,
            forall|j: int| 0 <= j < i ==> (#[trigger] copy@[j])@ == list@[j]@,
        decreases list@.len() - i,
    {
        copy.push(list[i].clone());
        i = i + 1;
    }
    assert(texts(copy@) =~= texts(list@));
    copy
}

/// True when `text` occurs in `list`.
pub fn has_text(list: &Vec<String>, text: &str) -> (found: bool)
    ensures
        found == texts(list@).contains(text@),
{
    let wanted = text.to_owned();
    let mut i: usize = 0;
    while i < list.len()
        invariant
            i <= list@.len(),
            wanted@ == text@,
            forall|j: int| 0 <= j < i ==> (#[trigger] list@[j])@ != text@,
        decreases list@.len() - i,
    {
        if list[i] == wanted {
            assert(texts(list@)[i as int] == text@);
            return true;
        }
        i = i + 1;
    }
    assert(!texts(list@).contains(text@)) by {
        assert forall|j: int| 0 <= j < list@.len() implies texts(list@)[j] != text@ by {
            assert(list@[j]@ != text@);
        }
    }
    false
}

impl AppLinkSpec {
    /// A spec that is not registered, with flags that are never set.
    pub fn new(app_name: &str, aspects: Vec<String>) -> (spec: Self)
        ensures
            spec@ == AppLinkSpecView::unregistered(app_name@, texts(aspects@)),
    {
        AppLinkSpec {
            app_name: app_name.to_owned(),
            aspects,
            mode: LinkMode::PersistentLink,
            flags: None,
        }
    }

    /// The same as [`AppLinkSpec::new`]: the mode is always `PersistentLink`.
    pub fn with_mode(app_name: &str, aspects: Vec<String>, _mode: LinkMode) -> (spec: Self)
        ensures
            spec@ == AppLinkSpecView::unregistered(app_name@, texts(aspects@)),
    {
        Self::new(app_name, aspects)
    }
}

impl Clone for AppLinkSpec {
    /// A copy, which shares its flags with this spec.
    fn clone(&self) -> (copy: Self)
        ensures
            copy@ == self@,
    {
        let flags = match &self.flags {
            Some(key) => Some(
                FlagsKey { dest: slice_to_vec(key.dest.as_slice()), number: key.number },
            ),
            None => None,
        };
        AppLinkSpec {
            app_name: self.app_name.clone(),
            aspects: copy_texts(&self.aspects),
            mode: self.mode,
            flags,
        }
    }
}

/// Why a path race or a send failed.
#[derive(Debug, PartialEq, Eq)]
pub enum SendErr {
    /// No interface is online and fast enough.
    NoUsableInterface,
    /// The path race ran out of its budget without a winner.
    LivenessTimeout,
    /// Dispatch returned an error.
    Dispatch(String),
}

impl Clone for SendErr {
    fn clone(&self) -> (copy: Self)
        ensures
            copy == *self,
    {
        match self {
            SendErr::NoUsableInterface => SendErr::NoUsableInterface,
            SendErr::LivenessTimeout => SendErr::LivenessTimeout,
            SendErr::Dispatch(cause) => SendErr::Dispatch(cause.clone()),
        }
    }
}

impl SendErr {
    /// The text of the error.
    pub open spec fn text(self) -> Seq<char> {
        match self {
            SendErr::NoUsableInterface => "no usable (online, non-LoRa) interface"@,
            SendErr::LivenessTimeout => "liveness race timed out (>5s)"@,
            SendErr::Dispatch(cause) => "dispatch failed: "@ + cause@,
        }
    }

    /// The error as a message for people.
    pub fn to_string(&self) -> (message: String)
        ensures
            message@ == self.text(),
    {
        match self {
            SendErr::NoUsableInterface => "no usable (online, non-LoRa) interface".to_owned(),
            SendErr::LivenessTimeout => "liveness race timed out (>5s)".to_owned(),
            SendErr::Dispatch(cause) => "dispatch failed: ".to_owned().concat(cause.as_str()),
        }
    }
}

} // verus!
