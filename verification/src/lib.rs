//! Verified core of a small TCP relay: a bounded history queue, the
//! validation of the relay configuration, the per-instance traffic
//! records and the decisions of the relay loop and of the server start.

pub mod bounded_queue;
pub mod config;
pub mod health_prober;
pub mod relay;
pub mod server;
pub mod text;
pub mod ui;
pub mod validate;
pub mod validate_laws;

pub use bounded_queue::BoundedQueue;
pub use config::{Config, ConfigError, Instance, OperatingMode, SocketAddress};
pub use health_prober::{HealthDataPoint, HealthProber, Timestamp, DATA_RECORD_LENGTH};
pub use relay::{RelayAction, RelayContext, RelayEvent, RelayMeter};
pub use server::{start_outcome, StartOutcome};
pub use validate::validate_config;
pub use ui::{ui_step, UiAction, UiKey};
