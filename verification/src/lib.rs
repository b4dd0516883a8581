//! App-link lifecycle management for Reticulum/LXMF applications.
//!
//! The crate decides; a driver acts. It owns
//!
//!   * the destination registry, with its lifecycle policy, its links and its status reports
//!     ([`AppLinks`]);
//!   * the path race, by which a destination is found ready ([`liveness`]);
//!   * the three-tier DIRECT send with its propagation fallback ([`send`]).
//!
//! Each is a state machine over plain values: what the transport knows and what the network
//! answered comes in as an argument, and what has to be done next goes out as a value. The
//! modules whose names end in `_laws`, and [`single_flight`], hold what is proved of every
//! step and every history of these machines.
pub mod dest_map;
pub mod effects;
pub mod history_laws;
pub mod liveness;
pub mod liveness_laws;
pub mod registry;
pub mod registry_laws;
pub mod send;
pub mod send_laws;
pub mod single_flight;
pub mod step_laws;
pub mod types;
pub mod value_laws;

pub use dest_map::DestMap;
pub use effects::{BuildStep, Effect, LinkJob, RaceJob, StatusChange};
pub use registry::{AppLinks, Closed, LinkFacts, PolicyChange, SendEvent, SendStep};
pub use send::{ChainAction, ChainEvent, ChainStage, FireOutcome, LinkOutcome, TierChain};
pub use types::{
    AppLinkSpec, Flags, FlagsKey, LinkMode, LinkPolicy, SendErr, APP_LINK_ACTIVE,
    APP_LINK_DISCONNECTED, APP_LINK_ESTABLISHING, APP_LINK_NONE, APP_LINK_PATH_REQUESTED,
    DIRECT_STAGGER_WAIT, DUAL_LINK_SETTLING_SECS, LIVENESS_BUDGET, LIVENESS_CACHE_TTL,
    LORA_BITRATE_THRESHOLD, PROP_FALLBACK_DELAY,
};
