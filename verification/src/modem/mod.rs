//! The modem: identification, signal, PDP context, data channel binding,
//! network preferences and temperature, as the daemon reads them from AT
//! responses.
pub mod band;
pub mod bind;
pub mod info;
pub mod lock;
pub mod pdp;
pub mod dial;
pub mod signal;
pub mod temp;
pub mod fields;

pub use band::{bandwidth_text, lte_band_from_code, lte_band_from_earfcn, nr_band_from_arfcn, nr_band_from_code, operator_name};
pub use bind::BindState;
pub use fields::f;
pub use info::ModemInfo;
pub use pdp::{cgact_state, DialOutcome, PdpState, Readiness};
pub use signal::SignalCore;
pub use temp::sensor_name;
