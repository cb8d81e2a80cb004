//! The Elm Architecture for terminal applications: the verified core.

pub mod active;
pub mod bus;
pub mod event_loop;
pub mod laws;
pub mod sub_id;
pub mod tea;
pub mod terminal;
pub mod work;

pub use active::{rebuild_sub, ActiveSubs};
pub use bus::{Bus, LISTENER_CAPACITY};
pub use event_loop::{Action, Effect, LoopEvent, LoopState, Tick, Warning};
pub use sub_id::{Hasher, SubId, SubIdView};
pub use tea::ViewFn;
pub use terminal::{is_key_event, is_key_press, KeyKind, TermEventKind};
pub use work::{Cmd, Dispatch, OwnedSend, Sub};
