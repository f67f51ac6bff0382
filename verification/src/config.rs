//! Daemon configuration (the `main` section of `/etc/config/fm350`).
//!
//! The defaults live in one place, [`Config::default`]; [`load`] maps the
//! values `uci` reported for the section onto the fields, falling back to the
//! default of a field whose value is missing, empty or does not parse.
//! Reading `uci` itself is I/O and happens outside the library: the caller
//! hands [`load`] the `(option, value)` pairs it found.
use crate::text::{chars_of, parse_uint, parse_uint_range, str_eq, trim, trim_range, string_of_range};
use crate::modem::pdp::opt_view;
use vstd::prelude::*;

verus! {

/// The daemon configuration.
#[derive(Debug, Clone)]
pub struct Config {
    pub at_port: String,
    pub baudrate: u32,
    pub at_timeout: u64,
    pub apn: String,
    pub username: String,
    pub password: String,
    pub auth: String,
    pub pdp_type: String,
    pub cid: u32,
    pub iface: String,
    pub iface_v6: String,
    pub data_dev: String,
    pub metric: u32,
    pub ipv6: bool,
    /// Kept so that older configurations still read; nothing consumes it.
    pub extendprefix: bool,
    pub auto_dial: bool,
    pub route_guard: bool,
    /// `auto`, `off` or `static`.
    pub gateway_mode: String,
    pub gateway: String,
    pub netmask: String,
    pub data_guard: bool,
    pub data_guard_rounds: u32,
    pub net_guard: bool,
    pub net_guard_rounds: u32,
    /// `ra`, `dhcpv6`, `static` or `off`.
    pub v6_mode: String,
    pub eif_guard: bool,
    pub poll_interval: u64,
    pub v6_poll_interval: u64,
    pub v6_refresh_interval: u64,
    pub api_port: u16,
    pub imei_write: bool,
    pub enabled: bool,
}

/// The default value of every field.
pub open spec fn is_default_config(c: Config) -> bool {
    &&& c.at_port@ == "/dev/ttyUSB1"@
    &&& c.baudrate == 115200
    &&& c.at_timeout == 10
    &&& c.apn@ == "cmiot5g"@
    &&& c.username@ == Seq::<char>::empty()
    &&& c.password@ == Seq::<char>::empty()
    &&& c.auth@ == "none"@
    &&& c.pdp_type@ == "IPV4V6"@
    &&& c.cid == 1
    &&& c.iface@ == "fm350"@
    &&& c.iface_v6@ == "fm350v6"@
    &&& c.data_dev@ == "auto"@
    &&& c.metric == 30
    &&& c.ipv6
    &&& c.extendprefix
    &&& c.auto_dial
    &&& c.route_guard
    &&& c.gateway_mode@ == "auto"@
    &&& c.gateway@ == Seq::<char>::empty()
    &&& c.netmask@ == Seq::<char>::empty()
    &&& c.data_guard
    &&& c.data_guard_rounds == 3
    &&& c.net_guard
    &&& c.net_guard_rounds == 3
    &&& c.v6_mode@ == "dhcpv6"@
    &&& c.eif_guard
    &&& c.poll_interval == 30
    &&& c.v6_poll_interval == 300
    &&& c.v6_refresh_interval == 1800
    &&& c.api_port == 8766
    &&& !c.imei_write
    &&& c.enabled
}

impl Default for Config {
    fn default() -> (c: Config)
        ensures
            is_default_config(c),
    {
        Config {
            at_port: String::from_str("/dev/ttyUSB1"),
            baudrate: 115200,
            at_timeout: 10,
            apn: String::from_str("cmiot5g"),
            username: String::new(),
            password: String::new(),
            auth: String::from_str("none"),
            pdp_type: String::from_str("IPV4V6"),
            cid: 1,
            iface: String::from_str("fm350"),
            iface_v6: String::from_str("fm350v6"),
            data_dev: String::from_str("auto"),
            metric: 30,
            ipv6: true,
            extendprefix: true,
            auto_dial: true,
            route_guard: true,
            gateway_mode: String::from_str("auto"),
            gateway: String::new(),
            netmask: String::new(),
            data_guard: true,
            data_guard_rounds: 3,
            net_guard: true,
            net_guard_rounds: 3,
            v6_mode: String::from_str("dhcpv6"),
            eif_guard: true,
            poll_interval: 30,
            v6_poll_interval: 300,
            v6_refresh_interval: 1800,
            api_port: 8766,
            imei_write: false,
            enabled: true,
        }
    }
}

/// The value `uci` gives for `key`: the first pair with that option, its
/// text trimmed; an empty value counts as missing.
pub open spec fn uci_value(found: Seq<(String, String)>, key: Seq<char>) -> Option<Seq<char>>
    decreases found.len(),
{
    if found.len() == 0 {
        None
    } else if found[0].0@ == key {
        let v = trim(found[0].1@);
        if v.len() == 0 {
            None
        } else {
            Some(v)
        }
    } else {
        uci_value(found.drop_first(), key)
    }
}

/// A text option, or its default.
pub open spec fn opt_str_of(found: Seq<(String, String)>, key: Seq<char>, dflt: Seq<char>) -> Seq<
    char,
> {
    match uci_value(found, key) {
        Some(v) => v,
        None => dflt,
    }
}

/// A numeric option parsed as an unsigned integer up to `max`, or its
/// default when missing or not a number.
pub open spec fn opt_num_of(found: Seq<(String, String)>, key: Seq<char>, dflt: int, max: int) -> int {
    match uci_value(found, key) {
        Some(v) => match parse_uint(v, max) {
            Some(n) => n,
            None => dflt,
        },
        None => dflt,
    }
}

/// A boolean option: `1` is true, any other value false; missing gives the
/// default.
pub open spec fn opt_bool_of(found: Seq<(String, String)>, key: Seq<char>, dflt: bool) -> bool {
    match uci_value(found, key) {
        Some(v) => v == seq!['1'],
        None => dflt,
    }
}

/// The configuration `load` builds from what `uci` reported.
pub open spec fn loaded_from(found: Seq<(String, String)>, c: Config) -> bool {
    &&& c.at_port@ == opt_str_of(found, "at_port"@, "/dev/ttyUSB1"@)
    &&& c.baudrate == opt_num_of(found, "baudrate"@, 115200, u32::MAX as int)
    &&& c.at_timeout == opt_num_of(found, "at_timeout"@, 10, u64::MAX as int)
    &&& c.apn@ == opt_str_of(found, "apn"@, "cmiot5g"@)
    &&& c.username@ == opt_str_of(found, "username"@, Seq::empty())
    &&& c.password@ == opt_str_of(found, "password"@, Seq::empty())
    &&& c.auth@ == opt_str_of(found, "auth"@, "none"@)
    &&& c.pdp_type@ == opt_str_of(found, "pdp_type"@, "IPV4V6"@)
    &&& c.cid == opt_num_of(found, "cid"@, 1, u32::MAX as int)
    &&& c.iface@ == opt_str_of(found, "iface"@, "fm350"@)
    &&& c.iface_v6@ == opt_str_of(found, "iface_v6"@, "fm350v6"@)
    &&& c.data_dev@ == opt_str_of(found, "data_dev"@, "auto"@)
    &&& c.metric == opt_num_of(found, "metric"@, 30, u32::MAX as int)
    &&& c.ipv6 == opt_bool_of(found, "ipv6"@, true)
    &&& c.extendprefix == opt_bool_of(found, "extendprefix"@, true)
    &&& c.auto_dial == opt_bool_of(found, "auto_dial"@, true)
    &&& c.route_guard == opt_bool_of(found, "route_guard"@, true)
    &&& c.gateway_mode@ == opt_str_of(found, "gateway_mode"@, "auto"@)
    &&& c.gateway@ == opt_str_of(found, "gateway"@, Seq::empty())
    &&& c.netmask@ == opt_str_of(found, "netmask"@, Seq::empty())
    &&& c.data_guard == opt_bool_of(found, "data_guard"@, true)
    &&& c.data_guard_rounds == opt_num_of(found, "data_guard_rounds"@, 3, u32::MAX as int)
    &&& c.net_guard == opt_bool_of(found, "net_guard"@, true)
    &&& c.net_guard_rounds == opt_num_of(found, "net_guard_rounds"@, 3, u32::MAX as int)
    &&& c.v6_mode@ == opt_str_of(found, "v6_mode"@, "dhcpv6"@)
    &&& c.eif_guard == opt_bool_of(found, "eif_guard"@, true)
    &&& c.poll_interval == opt_num_of(found, "poll_interval"@, 30, u64::MAX as int)
    &&& c.v6_poll_interval == opt_num_of(found, "v6_poll_interval"@, 300, u64::MAX as int)
    &&& c.v6_refresh_interval == opt_num_of(found, "v6_refresh_interval"@, 1800, u64::MAX as int)
    &&& c.api_port == opt_num_of(found, "api_port"@, 8766, u16::MAX as int)
    &&& c.imei_write == opt_bool_of(found, "imei_write"@, false)
    &&& c.enabled == opt_bool_of(found, "enabled"@, true)
}

/// The value `uci` reported for `key` (see [`uci_value`]).
fn uci_get(found: &Vec<(String, String)>, key: &str) -> (r: Option<String>)
    ensures
        match r {
            Some(v) => uci_value(found@, key@) == Some(v@),
            None => uci_value(found@, key@) is None,
        },
{
    let mut i: usize = 0;
    assert(found@.skip(0) == found@);
    while i < found.len()
        invariant
            i <= found@.len(),
            uci_value(found@, key@) == uci_value(found@.skip(i as int), key@),
        decreases found.len() - i,
    {
        let ghost rest = found@.skip(i as int);
        assert(rest[0] == found@[i as int]);
        if str_eq(found[i].0.as_str(), key) {
            let v = chars_of(found[i].1.as_str());
            assert(v@.subrange(0, v@.len() as int) == v@);
            let (a, b) = trim_range(&v, 0, v.len());
            if a == b {
                return None;
            }
            return Some(string_of_range(&v, a, b));
        }
        assert(rest.drop_first() == found@.skip(i + 1));
        i += 1;
    }
    None
}

fn opt_str(found: &Vec<(String, String)>, key: &str, dflt: &str) -> (r: String)
    ensures
        r@ == opt_str_of(found@, key@, dflt@),
{
    match uci_get(found, key) {
        Some(v) => v,
        None => dflt.to_owned(),
    }
}

fn opt_num(found: &Vec<(String, String)>, key: &str, dflt: u64, max: u64) -> (r: u64)
    requires
        dflt <= max,
    ensures
        r == opt_num_of(found@, key@, dflt as int, max as int),
        r <= max,
{
    match uci_get(found, key) {
        Some(v) => {
            let cs = chars_of(v.as_str());
            assert(cs@.subrange(0, cs@.len() as int) == cs@);
            match parse_uint_range(&cs, 0, cs.len(), max) {
                Some(n) => n,
                None => dflt,
            }
        },
        None => dflt,
    }
}

fn opt_bool(found: &Vec<(String, String)>, key: &str, dflt: bool) -> (r: bool)
    ensures
        r == opt_bool_of(found@, key@, dflt),
{
    match uci_get(found, key) {
        Some(v) => {
            let cs = chars_of(v.as_str());
            let r = cs.len() == 1 && cs[0] == '1';
            assert(r == (cs@ == seq!['1'])) by {
                if cs@.len() == 1 && cs@[0] == '1' {
                    assert(cs@ =~= seq!['1']);
                }
            }
            r
        },
        None => dflt,
    }
}

/// Builds the configuration from the `(option, value)` pairs `uci` reported
/// for the section; each field falls back to its default.
pub fn load(found: &Vec<(String, String)>) -> (c: Config)
    ensures
        loaded_from(found@, c),
{
    proof {
        reveal_strlit("");
    }
    assert(""@ == Seq::<char>::empty());
    let at_port = opt_str(found, "at_port", "/dev/ttyUSB1");
    let baudrate = opt_num(found, "baudrate", 115200, 4294967295) as u32;
    let at_timeout = opt_num(found, "at_timeout", 10, 18446744073709551615);
    let apn = opt_str(found, "apn", "cmiot5g");
    let username = opt_str(found, "username", "");
    let password = opt_str(found, "password", "");
    let auth = opt_str(found, "auth", "none");
    let pdp_type = opt_str(found, "pdp_type", "IPV4V6");
    let cid = opt_num(found, "cid", 1, 4294967295) as u32;
    let iface = opt_str(found, "iface", "fm350");
    let iface_v6 = opt_str(found, "iface_v6", "fm350v6");
    let data_dev = opt_str(found, "data_dev", "auto");
    let metric = opt_num(found, "metric", 30, 4294967295) as u32;
    let ipv6 = opt_bool(found, "ipv6", true);
    let extendprefix = opt_bool(found, "extendprefix", true);
    let auto_dial = opt_bool(found, "auto_dial", true);
    let route_guard = opt_bool(found, "route_guard", true);
    let gateway_mode = opt_str(found, "gateway_mode", "auto");
    let gateway = opt_str(found, "gateway", "");
    let netmask = opt_str(found, "netmask", "");
    let data_guard = opt_bool(found, "data_guard", true);
    let data_guard_rounds = opt_num(found, "data_guard_rounds", 3, 4294967295) as u32;
    let net_guard = opt_bool(found, "net_guard", true);
    let net_guard_rounds = opt_num(found, "net_guard_rounds", 3, 4294967295) as u32;
    let v6_mode = opt_str(found, "v6_mode", "dhcpv6");
    let eif_guard = opt_bool(found, "eif_guard", true);
    let poll_interval = opt_num(found, "poll_interval", 30, 18446744073709551615);
    let v6_poll_interval = opt_num(found, "v6_poll_interval", 300, 18446744073709551615);
    let v6_refresh_interval = opt_num(found, "v6_refresh_interval", 1800, 18446744073709551615);
    let api_port = opt_num(found, "api_port", 8766, 65535) as u16;
    let imei_write = opt_bool(found, "imei_write", false);
    let enabled = opt_bool(found, "enabled", true);
    Config {
        at_port,
        baudrate,
        at_timeout,
        apn,
        username,
        password,
        auth,
        pdp_type,
        cid,
        iface,
        iface_v6,
        data_dev,
        metric,
        ipv6,
        extendprefix,
        auto_dial,
        route_guard,
        gateway_mode,
        gateway,
        netmask,
        data_guard,
        data_guard_rounds,
        net_guard,
        net_guard_rounds,
        v6_mode,
        eif_guard,
        poll_interval,
        v6_poll_interval,
        v6_refresh_interval,
        api_port,
        imei_write,
        enabled,
    }
}

/// How long a cached configuration stays fresh, in milliseconds.
pub const CACHE_TTL_MS: u64 = 2000;

/// The cache the API path reads the configuration through: a configuration
/// and the time (in milliseconds) it was loaded.
pub struct ConfigCache {
    pub entry: Option<(u64, Config)>,
}

impl ConfigCache {
    /// An empty cache.
    pub fn new() -> (c: ConfigCache)
        ensures
            c.entry is None,
    {
        ConfigCache { entry: None }
    }

    /// Keeps `c`, loaded at `now_ms`.
    pub fn store(&mut self, now_ms: u64, c: Config)
        ensures
            final(self).entry == Some((now_ms, c)),
    {
        self.entry = Some((now_ms, c));
    }
}

/// The cached configuration when it was loaded less than [`CACHE_TTL_MS`]
/// ago at `now_ms`; `None` when the caller has to load it afresh (and
/// [`ConfigCache::store`] the result).
pub fn load_cached(cache: &ConfigCache, now_ms: u64) -> (r: Option<Config>)
    ensures
        match cache.entry {
            Some((t, c)) => if t <= now_ms && now_ms - t < CACHE_TTL_MS {
                r == Some(c)
            } else {
                r is None
            },
            None => r is None,
        },
{
    match &cache.entry {
        Some((t, c)) => {
            if *t <= now_ms && now_ms - *t < CACHE_TTL_MS {
                Some(copy_config(c))
            } else {
                None
            }
        },
        None => None,
    }
}

/// Drops the cached configuration, so the next read loads it afresh.
pub fn invalidate_cache(cache: &mut ConfigCache)
    ensures
        final(cache).entry is None,
{
    cache.entry = None;
}

/// A field-by-field copy.
pub fn copy_config(c: &Config) -> (r: Config)
    ensures
        r == *c,
{
    Config {
        at_port: c.at_port.clone(),
        baudrate: c.baudrate,
        at_timeout: c.at_timeout,
        apn: c.apn.clone(),
        username: c.username.clone(),
        password: c.password.clone(),
        auth: c.auth.clone(),
        pdp_type: c.pdp_type.clone(),
        cid: c.cid,
        iface: c.iface.clone(),
        iface_v6: c.iface_v6.clone(),
        data_dev: c.data_dev.clone(),
        metric: c.metric,
        ipv6: c.ipv6,
        extendprefix: c.extendprefix,
        auto_dial: c.auto_dial,
        route_guard: c.route_guard,
        gateway_mode: c.gateway_mode.clone(),
        gateway: c.gateway.clone(),
        netmask: c.netmask.clone(),
        data_guard: c.data_guard,
        data_guard_rounds: c.data_guard_rounds,
        net_guard: c.net_guard,
        net_guard_rounds: c.net_guard_rounds,
        v6_mode: c.v6_mode.clone(),
        eif_guard: c.eif_guard,
        poll_interval: c.poll_interval,
        v6_poll_interval: c.v6_poll_interval,
        v6_refresh_interval: c.v6_refresh_interval,
        api_port: c.api_port,
        imei_write: c.imei_write,
        enabled: c.enabled,
    }
}

// ---------------------------------------------------------------- saving

/// A value of the patch saved into the configuration, as UCI stores it.
#[derive(Debug, Clone)]
pub enum SaveValue {
    Bool(bool),
    /// A string, or a number in its JSON text.
    Text(String),
    /// Anything else (null, array, object): not saved.
    Other,
}

/// The UCI text of a value: `1` / `0` for a boolean; `None` for a value
/// that is not saved.
pub open spec fn save_text(v: SaveValue) -> Option<Seq<char>> {
    match v {
        SaveValue::Bool(b) => Some(if b { "1"@ } else { "0"@ }),
        SaveValue::Text(t) => Some(t@),
        SaveValue::Other => None,
    }
}

/// Saving the patch's members in order: each saved value is set; an
/// `at_port` that is not an absolute path stops the save with an error
/// (what was set before it stays uncommitted).
pub open spec fn spec_save_plan(fs: Seq<(String, SaveValue)>) -> (Seq<(Seq<char>, Seq<char>)>, Option<Seq<char>>)
    decreases fs.len(),
{
    if fs.len() == 0 {
        (seq![], None)
    } else {
        let (k, v) = fs[0];
        match save_text(v) {
            None => spec_save_plan(fs.drop_first()),
            Some(t) => if k@ == "at_port"@ && !(t.len() > 0 && t[0] == '/') {
                (seq![], Some("AT 端口必须是绝对路径（如 /dev/ttyUSB1），当前为『"@ + t + "』"@))
            } else {
                let (rest, e) = spec_save_plan(fs.drop_first());
                (seq![(k@, t)] + rest, e)
            },
        }
    }
}

pub open spec fn pairs_view(v: Seq<(String, String)>) -> Seq<(Seq<char>, Seq<char>)> {
    v.map_values(|p: (String, String)| (p.0@, p.1@))
}

/// The UCI assignments of a patch, and the error that ends it (see
/// [`spec_save_plan`]).
pub fn save_plan(fs: &Vec<(String, SaveValue)>) -> (r: (Vec<(String, String)>, Option<String>))
    ensures
        pairs_view(r.0@) == spec_save_plan(fs@).0,
        opt_view(r.1) == spec_save_plan(fs@).1,
{
    let mut out: Vec<(String, String)> = Vec::new();
    let mut i: usize = 0;
    assert(fs@.skip(0) == fs@);
    while i < fs.len()
        invariant
            i <= fs@.len(),
            pairs_view(out@) + spec_save_plan(fs@.skip(i as int)).0 == spec_save_plan(fs@).0,
            spec_save_plan(fs@.skip(i as int)).1 == spec_save_plan(fs@).1,
        decreases fs.len() - i,
    {
        let ghost rest = fs@.skip(i as int);
        assert(rest[0] == fs@[i as int]);
        assert(rest.drop_first() == fs@.skip(i + 1));
        let k = &fs[i].0;
        let t: Option<String> = match &fs[i].1 {
            SaveValue::Bool(b) => Some(String::from_str(if *b { "1" } else { "0" })),
            SaveValue::Text(x) => Some(x.clone()),
            SaveValue::Other => None,
        };
        match t {
            None => {},
            Some(t) => {
                let tv = chars_of(t.as_str());
                let absolute = tv.len() > 0 && tv[0] == '/';
                if crate::text::str_eq(k.as_str(), "at_port") && !absolute {
                    let mut e = String::new();
                    crate::text::push_str(&mut e, "AT 端口必须是绝对路径（如 /dev/ttyUSB1），当前为『");
                    crate::text::push_str(&mut e, t.as_str());
                    crate::text::push_str(&mut e, "』");
                    proof {
                        assert(Seq::<char>::empty() + "AT 端口必须是绝对路径（如 /dev/ttyUSB1），当前为『"@
                            == "AT 端口必须是绝对路径（如 /dev/ttyUSB1），当前为『"@);
                        assert(pairs_view(out@) + seq![] =~= pairs_view(out@));
                    }
                    return (out, Some(e));
                }
                let ghost prev = out@;
                out.push((k.clone(), t));
                proof {
                    assert(pairs_view(out@) =~= pairs_view(prev).push((k@, t@)));
                    assert(pairs_view(out@) + spec_save_plan(fs@.skip(i + 1)).0 =~= pairs_view(prev) + (seq![(k@, t@)] + spec_save_plan(fs@.skip(i + 1)).0));
                }
            },
        }
        i += 1;
    }
    proof {
        assert(fs@.skip(i as int) =~= Seq::<(String, SaveValue)>::empty());
        assert(pairs_view(out@) + seq![] =~= pairs_view(out@));
    }
    (out, None)
}

} // verus!
