//! Host side of the data path: what the daemon writes to UCI so that the
//! address the modem obtained becomes a working OpenWrt interface, and how
//! it judges what it reads back.
//!
//! The data plane ends inside the modem: the host only ever sees one USB
//! network card (`rndis_host`, `cdc_ether`, `cdc_ncm`, `qmi_wwan`, `mbim`),
//! never the modem's own `ccmni%d`. IPv4 and IPv6 share one PDP context but
//! their default routes live in different tables.
pub mod shell;
pub mod gateway;
pub mod v6;
pub mod probe;
pub mod heal;
pub mod iface;
