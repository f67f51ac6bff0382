//! The catalogue of AT commands: every literal the daemon sends, and the
//! builders of the commands that take arguments.
//!
//! Read and write forms as verified on the FM350-GL:
//!
//! | command | read | write | note |
//! |---|---|---|---|
//! | `+GTUSBMODE` | `?` | `=40/41` | re-enumerates USB; the AT port vanishes briefly |
//! | `+GTDUALSIM` | `?` | `=<0/1>` | SIM slot |
//! | `+GTACT` | `?` | `=<rat>,...` | needs `CFUN=0` first, `CFUN=1` after |
//! | `+EMMCHLCK` | `?` | `=1,... / =0` | PCI lock, same power cycle |
//! | `+EPRATL` | `?` | `=<n>,<rat...>` | the read form answers `+EPRATL:2,128,4` |
//! | `+GTSENRDTEMP` | no | `=0` | the read form fails with `phone failure` |
//! | `+CGACT` | `?` | `=1/0,<cid>` | the authority on activation |
//! | `+CGCONTRDP` | `=<cid>` | — | still answers stale addresses when inactive |
//! | `+CGPADDR` | `=<cid>` | — | the authority on addresses |
//! | `+EMBIND` | `?` | `=1,"<L2P>",<cid>` | data channel binding per cid |
use crate::config::Config;
use crate::text::{dec_str, join, push_dec, push_str, str_eq, starts_with, chars_of};
use vstd::prelude::*;

verus! {

/// Liveness probe.
pub const AT: &'static str = "AT";

/// Echo off (sent while opening the port).
pub const ATE0: &'static str = "ATE0";

/// Verbose error reports (`+CME ERROR: <num>` in place of a bare `ERROR`).
pub const CMEE_VERBOSE: &'static str = "AT+CMEE=2";

pub const CGMI: &'static str = "AT+CGMI";

pub const CGMM: &'static str = "AT+CGMM";

pub const CGMR: &'static str = "AT+CGMR";

pub const CGSN: &'static str = "AT+CGSN";

pub const CIMI: &'static str = "AT+CIMI";

pub const ICCID: &'static str = "AT+ICCID";

pub const GTUSBMODE_READ: &'static str = "AT+GTUSBMODE?";

pub const GTDUALSIM_READ: &'static str = "AT+GTDUALSIM?";

pub const CSCA_READ: &'static str = "AT+CSCA?";

pub const CSQ: &'static str = "AT+CSQ";

/// Extended signal quality: `<rxlev>,<ber>,<rscp>,<ecno>,<rsrq>,<rsrp>,
/// <ss_rsrq>,<ss_rsrp>,<ss_sinr>` (`AT+CSQ` always reads `99,99` here).
pub const CESQ: &'static str = "AT+CESQ";

pub const CEREG_READ: &'static str = "AT+CEREG?";

pub const CREG_READ: &'static str = "AT+CREG?";

pub const COPS_READ: &'static str = "AT+COPS?";

/// Serving and neighbour cells.
pub const GTCCINFO_READ: &'static str = "AT+GTCCINFO?";

/// Carrier aggregation.
pub const GTCAINFO_READ: &'static str = "AT+GTCAINFO?";

pub const CGDCONT_READ: &'static str = "AT+CGDCONT?";

pub const CGACT_READ: &'static str = "AT+CGACT?";

/// PDU mode for short messages.
pub const CMGF_PDU: &'static str = "AT+CMGF=0";

/// GSM 7-bit character set.
pub const CSCS_GSM: &'static str = "AT+CSCS=\"GSM\"";

/// List every stored message.
pub const CMGL_ALL: &'static str = "AT+CMGL=4";

/// Current message storage.
pub const CPMS_READ: &'static str = "AT+CPMS?";

/// IMEI read (always allowed): `0` reads, `7` is the IMEI item.
pub const EGMREXT_READ_IMEI: &'static str = "AT+EGMREXT=0,7";

/// Binding target: the modem's own kernel (`ccmni`), invisible to the host.
pub const L2P_CCMNI: &'static str = "M-CCMNI";

/// Binding target: USB RNDIS towards the host.
pub const L2P_RNDIS: &'static str = "M-RNDIS";

/// Binding target: USB MBIM towards the host.
pub const L2P_MBIM: &'static str = "M-MBIM";

/// Binding target internal to the modem.
pub const L2P_LHIF: &'static str = "M-LHIF";

pub const EMBIND_READ: &'static str = "AT+EMBIND?";

pub const EMBIND_TEST: &'static str = "AT+EMBIND=?";

pub const GTACT_READ: &'static str = "AT+GTACT?";

pub const EMMCHLCK_READ: &'static str = "AT+EMMCHLCK?";

pub const EPRATL_READ: &'static str = "AT+EPRATL?";

/// Reboot.
pub const REBOOT: &'static str = "AT+CFUN=1,1";

/// All temperature sensors at once (the only form the modem answers).
pub const GTSENRDTEMP_ALL: &'static str = "AT+GTSENRDTEMP=0";

pub const CPIN_READ: &'static str = "AT+CPIN?";

pub const CFUN_READ: &'static str = "AT+CFUN?";

/// 3GPP TS 27.007 `<auth_type>` of a configured authentication name.
pub open spec fn spec_auth_code(auth: Seq<char>) -> u8 {
    if auth == "pap"@ {
        1
    } else if auth == "chap"@ {
        2
    } else if auth == "both"@ {
        3
    } else {
        0
    }
}

/// `<auth_type>`: 0 none, 1 PAP, 2 CHAP, 3 PAP or CHAP; an unknown name
/// counts as none.
pub fn auth_code(auth: &str) -> (c: u8)
    ensures
        c == spec_auth_code(auth@),
{
    if str_eq(auth, "pap") {
        1
    } else if str_eq(auth, "chap") {
        2
    } else if str_eq(auth, "both") {
        3
    } else {
        0
    }
}

/// `lit` followed by the decimal text of `n`.
fn lit_dec(lit: &str, n: u64) -> (r: String)
    ensures
        r@ == lit@ + dec_str(n as nat),
{
    let mut s = String::new();
    push_str(&mut s, lit);
    push_dec(&mut s, n);
    s
}

/// USB mode (40 = RNDIS + AT). Re-enumerates the USB device.
pub fn set_usb_mode(mode: u32) -> (r: String)
    ensures
        r@ == "AT+GTUSBMODE="@ + dec_str(mode as nat),
{
    lit_dec("AT+GTUSBMODE=", mode as u64)
}

/// SIM slot.
pub fn set_sim_slot(slot: u32) -> (r: String)
    ensures
        r@ == "AT+GTDUALSIM="@ + dec_str(slot as nat),
{
    lit_dec("AT+GTDUALSIM=", slot as u64)
}

/// Whether an SMS centre number is international (`+...` or `86...`).
pub open spec fn sms_center_international(n: Seq<char>) -> bool {
    starts_with(n, "+"@) || starts_with(n, "86"@)
}

/// The number as written: `86...` gains a leading `+`.
pub open spec fn sms_center_number(n: Seq<char>) -> Seq<char> {
    if starts_with(n, "+"@) {
        n
    } else if starts_with(n, "86"@) {
        "+"@ + n
    } else {
        n
    }
}

/// `AT+CSCA="<number>",<type>`: type 145 for international numbers, 161
/// otherwise.
pub fn set_sms_center(number: &str) -> (r: String)
    ensures
        r@ == "AT+CSCA=\""@ + sms_center_number(number@) + "\","@ + (if sms_center_international(
            number@,
        ) {
            "145"@
        } else {
            "161"@
        }),
{
    let v = chars_of(number);
    assert(v@.subrange(0, v@.len() as int) == v@);
    let plus = crate::text::range_starts_with_str(&v, 0, v.len(), "+");
    let cc = crate::text::range_starts_with_str(&v, 0, v.len(), "86");
    let mut s = String::new();
    push_str(&mut s, "AT+CSCA=\"");
    if !plus && cc {
        push_str(&mut s, "+");
    }
    push_str(&mut s, number);
    push_str(&mut s, "\",");
    if plus || cc {
        push_str(&mut s, "145");
    } else {
        push_str(&mut s, "161");
    }
    s
}

/// `AT+CGDCONT=<cid>,"<type>","<apn>"`.
pub fn set_apn(cid: u32, pdp_type: &str, apn: &str) -> (r: String)
    ensures
        r@ == "AT+CGDCONT="@ + dec_str(cid as nat) + ",\""@ + pdp_type@ + "\",\""@ + apn@ + "\""@,
{
    let mut s = lit_dec("AT+CGDCONT=", cid as u64);
    push_str(&mut s, ",\"");
    push_str(&mut s, pdp_type);
    push_str(&mut s, "\",\"");
    push_str(&mut s, apn);
    push_str(&mut s, "\"");
    s
}

/// `AT+CGAUTH=<cid>,0` for no authentication (always sent, or the modem
/// keeps the previous credentials), else `AT+CGAUTH=<cid>,<code>,"<user>","<pass>"`.
pub fn set_auth(cid: u32, auth: &str, username: &str, password: &str) -> (r: String)
    ensures
        spec_auth_code(auth@) == 0 ==> r@ == "AT+CGAUTH="@ + dec_str(cid as nat) + ",0"@,
        spec_auth_code(auth@) != 0 ==> r@ == "AT+CGAUTH="@ + dec_str(cid as nat) + ","@ + dec_str(
            spec_auth_code(auth@) as nat,
        ) + ",\""@ + username@ + "\",\""@ + password@ + "\""@,
{
    let code = auth_code(auth);
    let mut s = lit_dec("AT+CGAUTH=", cid as u64);
    if code == 0 {
        push_str(&mut s, ",0");
        return s;
    }
    push_str(&mut s, ",");
    push_dec(&mut s, code as u64);
    push_str(&mut s, ",\"");
    push_str(&mut s, username);
    push_str(&mut s, "\",\"");
    push_str(&mut s, password);
    push_str(&mut s, "\"");
    s
}

/// Activate the context (a repeated activation answers `+CME ERROR: 5847`).
pub fn activate(cid: u32) -> (r: String)
    ensures
        r@ == "AT+CGACT=1,"@ + dec_str(cid as nat),
{
    lit_dec("AT+CGACT=1,", cid as u64)
}

/// Deactivate the context.
pub fn deactivate(cid: u32) -> (r: String)
    ensures
        r@ == "AT+CGACT=0,"@ + dec_str(cid as nat),
{
    lit_dec("AT+CGACT=0,", cid as u64)
}

/// Dynamic context parameters (stale after deactivation: addresses only).
pub fn contrdp(cid: u32) -> (r: String)
    ensures
        r@ == "AT+CGCONTRDP="@ + dec_str(cid as nat),
{
    lit_dec("AT+CGCONTRDP=", cid as u64)
}

/// Context addresses.
pub fn pdp_addr(cid: u32) -> (r: String)
    ensures
        r@ == "AT+CGPADDR="@ + dec_str(cid as nat),
{
    lit_dec("AT+CGPADDR=", cid as u64)
}

/// DNS servers of the context.
pub fn gtdns(cid: u32) -> (r: String)
    ensures
        r@ == "AT+GTDNS="@ + dec_str(cid as nat),
{
    lit_dec("AT+GTDNS=", cid as u64)
}

/// Send a message of `tpdu_len` TPDU bytes.
pub fn cmgs(tpdu_len: usize) -> (r: String)
    ensures
        r@ == "AT+CMGS="@ + dec_str(tpdu_len as nat),
{
    lit_dec("AT+CMGS=", tpdu_len as u64)
}

/// Delete message `index`.
pub fn cmgd(index: i64) -> (r: String)
    ensures
        r@ == "AT+CMGD="@ + crate::text::int_str(index as int),
{
    let mut s = String::new();
    push_str(&mut s, "AT+CMGD=");
    crate::text::push_int(&mut s, index);
    s
}

/// Message storage (the modem knows `SM` only).
pub fn cpms_set(mem: &str) -> (r: String)
    ensures
        r@ == "AT+CPMS=\""@ + mem@ + "\",\""@ + mem@ + "\",\""@ + mem@ + "\""@,
{
    let mut s = String::new();
    push_str(&mut s, "AT+CPMS=\"");
    push_str(&mut s, mem);
    push_str(&mut s, "\",\"");
    push_str(&mut s, mem);
    push_str(&mut s, "\",\"");
    push_str(&mut s, mem);
    push_str(&mut s, "\"");
    s
}

/// IMEI write (irreversible; only the IMEI module sends it).
pub fn egmrext_write_imei(imei: &str) -> (r: String)
    ensures
        r@ == "AT+EGMREXT=1,7,\""@ + imei@ + "\""@,
{
    let mut s = String::new();
    push_str(&mut s, "AT+EGMREXT=1,7,\"");
    push_str(&mut s, imei);
    push_str(&mut s, "\"");
    s
}

/// Bind `cid` to a data channel: `AT+EMBIND=1,"<l2p>",<cid>`.
pub fn bind_l2p(l2p: &str, cid: u32) -> (r: String)
    ensures
        r@ == "AT+EMBIND=1,\""@ + l2p@ + "\","@ + dec_str(cid as nat),
{
    let mut s = String::new();
    push_str(&mut s, "AT+EMBIND=1,\"");
    push_str(&mut s, l2p);
    push_str(&mut s, "\",");
    push_dec(&mut s, cid as u64);
    s
}

/// Unbind: `AT+EMBIND=0,"<l2p>",<cid>`.
pub fn unbind_l2p(l2p: &str, cid: u32) -> (r: String)
    ensures
        r@ == "AT+EMBIND=0,\""@ + l2p@ + "\","@ + dec_str(cid as nat),
{
    let mut s = String::new();
    push_str(&mut s, "AT+EMBIND=0,\"");
    push_str(&mut s, l2p);
    push_str(&mut s, "\",");
    push_dec(&mut s, cid as u64);
    s
}

/// `lit` followed by `param`.
fn lit_str(lit: &str, param: &str) -> (r: String)
    ensures
        r@ == lit@ + param@,
{
    let mut s = String::new();
    push_str(&mut s, lit);
    push_str(&mut s, param);
    s
}

/// RAT selection: `AT+GTACT=<rat>[,...]` (10 is automatic, not 20).
pub fn set_gtact(param: &str) -> (r: String)
    ensures
        r@ == "AT+GTACT="@ + param@,
{
    lit_str("AT+GTACT=", param)
}

/// Cell / PCI lock (`=0` releases it).
pub fn set_emmchclk(param: &str) -> (r: String)
    ensures
        r@ == "AT+EMMCHLCK="@ + param@,
{
    lit_str("AT+EMMCHLCK=", param)
}

/// The views of a slice of string slices.
pub open spec fn str_views(codes: Seq<&str>) -> Seq<Seq<char>> {
    codes.map_values(|c: &str| c@)
}

/// RAT preference order: `AT+EPRATL=<n>,<rat>,...` with its own encoding
/// (2 UMTS, 4 LTE, 128 NR).
pub fn set_eprartl(codes: &[&str]) -> (r: String)
    ensures
        r@ == "AT+EPRATL="@ + dec_str(codes@.len() as nat) + ","@ + join(str_views(codes@), ","@),
{
    let mut s = lit_dec("AT+EPRATL=", codes.len() as u64);
    push_str(&mut s, ",");
    let ghost s0 = s@;
    let mut k: usize = 0;
    while k < codes.len()
        invariant
            k <= codes@.len(),
            s@ == s0 + join(str_views(codes@.take(k as int)), ","@),
        decreases codes.len() - k,
    {
        let ghost before = str_views(codes@.take(k as int));
        let ghost after = str_views(codes@.take(k + 1));
        assert(after.drop_last() == before);
        assert(after.last() == codes@[k as int]@);
        if k > 0 {
            push_str(&mut s, ",");
        }
        push_str(&mut s, codes[k]);
        proof {
            if k == 0 {
                assert(before.len() == 0);
                assert(join(before, ","@) == Seq::<char>::empty());
                assert(after.len() == 1);
            }
        }
        k += 1;
    }
    assert(codes@.take(codes@.len() as int) == codes@);
    s
}

/// Airplane / online mode.
pub fn set_cfun(mode: u32) -> (r: String)
    ensures
        r@ == "AT+CFUN="@ + dec_str(mode as nat),
{
    lit_dec("AT+CFUN=", mode as u64)
}

/// The commands of one dial, in order (for documentation and diagnosis).
pub fn dial_sequence(cfg: &Config) -> (r: Vec<String>)
    ensures
        r@.len() == 8,
        r@[0]@ == "AT+CGDCONT="@ + dec_str(cfg.cid as nat) + ",\""@ + cfg.pdp_type@ + "\",\""@
            + cfg.apn@ + "\""@,
        spec_auth_code(cfg.auth@) == 0 ==> r@[1]@ == "AT+CGAUTH="@ + dec_str(cfg.cid as nat)
            + ",0"@,
        spec_auth_code(cfg.auth@) != 0 ==> r@[1]@ == "AT+CGAUTH="@ + dec_str(cfg.cid as nat) + ","@
            + dec_str(spec_auth_code(cfg.auth@) as nat) + ",\""@ + cfg.username@ + "\",\""@
            + cfg.password@ + "\""@,
        r@[2]@ == CGACT_READ@,
        r@[3]@ == "AT+CGCONTRDP="@ + dec_str(cfg.cid as nat),
        r@[4]@ == "AT+CGPADDR="@ + dec_str(cfg.cid as nat),
        r@[5]@ == "AT+CGACT=1,"@ + dec_str(cfg.cid as nat),
        r@[6]@ == "AT+CGPADDR="@ + dec_str(cfg.cid as nat),
        r@[7]@ == "AT+GTDNS="@ + dec_str(cfg.cid as nat),
{
    let mut r: Vec<String> = Vec::new();
    r.push(set_apn(cfg.cid, cfg.pdp_type.as_str(), cfg.apn.as_str()));
    r.push(set_auth(cfg.cid, cfg.auth.as_str(), cfg.username.as_str(), cfg.password.as_str()));
    r.push(CGACT_READ.to_owned());
    r.push(contrdp(cfg.cid));
    r.push(pdp_addr(cfg.cid));
    r.push(activate(cfg.cid));
    r.push(pdp_addr(cfg.cid));
    r.push(gtdns(cfg.cid));
    r
}

} // verus!
