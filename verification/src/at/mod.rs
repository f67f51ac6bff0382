//! The AT channel: command catalogue, response parsing, the IMEI write
//! guard, port identification and the unsolicited-report filter.
pub mod cmd;
pub mod guard;
pub mod parse;
pub mod port;
pub mod session;
pub mod urc;

pub use guard::{block_reason, is_imei_write, IMEI_READ_CMD};
pub use parse::{field, first, first_ipv4, has_error, is_ok, raw_lines, rows, scalar};
pub use port::{identify_at_port, is_candidate_tty, looks_like_fm350, PortCandidate};
pub use session::{fields, imei_block_reason, other_openers, AtStats};
