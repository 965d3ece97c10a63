//! A real-time calendar coordination core: time-indexed event stores, named
//! calendars, a single-writer hub that owns calendars, sessions and room
//! membership, and the per-connection session logic around it.
pub mod calendar;
pub mod event;
pub mod hub;
pub mod session;
pub mod settings;
pub mod store;
pub mod text;
pub mod time;

pub use calendar::Calendar;
pub use event::{Event, EventError, EventID, EventRange};
pub use hub::{CalServer, HubError, HubResult, Notice};
pub use session::{ClientMessage, Disconnect, Liveness, Message, Reply, WsCalSession};
pub use settings::{DatabaseSettings, SubscriberName};
pub use store::EventStore;
pub use time::Date;
