//! The routes: what each API request asks for, with its arguments taken
//! from the body (a JSON object) or, failing that, from the query string.
//! Performing the request is the program's business.
//!
//! No route changes the modem's identity: an IMEI write is refused on the
//! raw AT route (`AT+EGMREXT=1,7,...` cannot be undone).
use crate::api::http::{entries_view, key_index, Query};
use crate::at::guard::{imei_write_of_upper, upper_of};
use crate::config::Config;
use crate::modem::bind::{entries_view as bind_entries, spec_host_bound, spec_verdict, BindState};
use crate::text::{chars_of, parse_int, parse_uint, push_str, split_char, split_range, str_eq, string_of_range, strs, trim};
use vstd::prelude::*;

verus! {

/// One member of the request body, as the routes read it.
#[derive(Debug, Clone)]
pub struct BodyField {
    pub key: String,
    /// The value when it is a string.
    pub text: Option<String>,
    /// The value when it is an integer that fits a `u64`.
    pub uint: Option<u64>,
    /// The value when it is an integer that fits an `i64`.
    pub int: Option<i64>,
    /// The value when it is an array: each element with whether it is a
    /// string, and its text (a string as it is, another value as JSON).
    pub list: Option<Vec<(bool, String)>>,
    /// Whether the value is the boolean `true`.
    pub is_true: bool,
}

/// The request body: the members of a JSON object (none for any other body).
#[derive(Debug, Clone)]
pub struct Body {
    pub fields: Vec<BodyField>,
}

/// The first member named `k`.
pub open spec fn field_of(fs: Seq<BodyField>, k: Seq<char>) -> Option<BodyField>
    decreases fs.len(),
{
    if fs.len() == 0 {
        None
    } else if fs[0].key@ == k {
        Some(fs[0])
    } else {
        field_of(fs.drop_first(), k)
    }
}

/// The value of a query parameter.
pub open spec fn query_value(q: Query, k: Seq<char>) -> Option<Seq<char>> {
    let es = entries_view(q.entries@);
    let i = key_index(es, k);
    if i >= 0 {
        Some(es[i].1)
    } else {
        None
    }
}

/// The body's text for `k`, when it is a non-empty string.
pub open spec fn body_text(b: Body, k: Seq<char>) -> Option<Seq<char>> {
    match field_of(b.fields@, k) {
        Some(f) => match f.text {
            Some(t) => if t@.len() > 0 { Some(t@) } else { None },
            None => None,
        },
        None => None,
    }
}

/// A text argument: the body's non-empty string, else the query's
/// non-empty value; an empty one counts as absent.
pub open spec fn spec_arg_str(b: Body, q: Query, k: Seq<char>) -> Option<Seq<char>> {
    match body_text(b, k) {
        Some(t) => Some(t),
        None => match query_value(q, k) {
            Some(v) => if v.len() > 0 { Some(v) } else { None },
            None => None,
        },
    }
}

/// An unsigned argument: the body's integer, else the query's value parsed.
pub open spec fn spec_arg_u64(b: Body, q: Query, k: Seq<char>) -> Option<u64> {
    match field_of(b.fields@, k) {
        Some(f) if f.uint is Some => f.uint,
        _ => match query_value(q, k) {
            Some(v) => match parse_uint(v, u64::MAX as int) {
                Some(n) => Some(n as u64),
                None => None,
            },
            None => None,
        },
    }
}

/// A signed argument: the body's integer, else the query's value parsed.
pub open spec fn spec_arg_i64(b: Body, q: Query, k: Seq<char>) -> Option<i64> {
    match field_of(b.fields@, k) {
        Some(f) if f.int is Some => f.int,
        _ => match query_value(q, k) {
            Some(v) => match parse_int(v, i64::MIN as int, i64::MAX as int) {
                Some(n) => Some(n as i64),
                None => None,
            },
            None => None,
        },
    }
}

/// The texts of an array's elements.
pub open spec fn list_texts(l: Seq<(bool, String)>) -> Seq<Seq<char>> {
    l.map_values(|e: (bool, String)| e.1@)
}

/// A list argument: the body's array, else the query's value split at
/// commas, else empty.
pub open spec fn spec_arg_list(b: Body, q: Query, k: Seq<char>) -> Seq<Seq<char>> {
    match field_of(b.fields@, k) {
        Some(f) if f.list is Some => list_texts(f.list->0@),
        _ => match query_value(q, k) {
            Some(v) => split_char(v, ','),
            None => seq![],
        },
    }
}

impl Body {
    /// The first member named `k`.
    pub fn field(&self, k: &str) -> (r: Option<&BodyField>)
        ensures
            match r {
                Some(f) => field_of(self.fields@, k@) == Some(*f),
                None => field_of(self.fields@, k@) is None,
            },
    {
        let mut i: usize = 0;
        assert(self.fields@.skip(0) == self.fields@);
        while i < self.fields.len()
            invariant
                i <= self.fields@.len(),
                field_of(self.fields@, k@) == field_of(self.fields@.skip(i as int), k@),
            decreases self.fields.len() - i,
        {
            proof {
                assert(self.fields@.skip(i as int)[0] == self.fields@[i as int]);
                assert(self.fields@.skip(i as int).drop_first() == self.fields@.skip(i + 1));
            }
            if str_eq(self.fields[i].key.as_str(), k) {
                return Some(&self.fields[i]);
            }
            i += 1;
        }
        None
    }
}

fn query_get<'a>(q: &'a Query, k: &str) -> (r: Option<&'a String>)
    ensures
        match r {
            Some(v) => query_value(*q, k@) == Some(v@),
            None => query_value(*q, k@) is None,
        },
{
    q.get(k)
}

/// A text argument (see [`spec_arg_str`]).
pub fn arg_str(b: &Body, q: &Query, k: &str) -> (r: Option<String>)
    ensures
        match r {
            Some(s) => spec_arg_str(*b, *q, k@) == Some(s@),
            None => spec_arg_str(*b, *q, k@) is None,
        },
{
    match b.field(k) {
        Some(f) => match &f.text {
            Some(t) => {
                if !t.as_str().is_empty() {
                    return Some(t.clone());
                }
            },
            None => {},
        },
        None => {},
    }
    match query_get(q, k) {
        Some(v) => {
            if !v.as_str().is_empty() {
                Some(v.clone())
            } else {
                None
            }
        },
        None => None,
    }
}

/// An unsigned argument (see [`spec_arg_u64`]).
pub fn arg_u64(b: &Body, q: &Query, k: &str) -> (r: Option<u64>)
    ensures
        r == spec_arg_u64(*b, *q, k@),
{
    match b.field(k) {
        Some(f) => {
            if f.uint.is_some() {
                return f.uint;
            }
        },
        None => {},
    }
    match query_get(q, k) {
        Some(v) => crate::text::parse_u64(v.as_str()),
        None => None,
    }
}

/// An signed argument (see [`spec_arg_i64`]).
pub fn arg_i64(b: &Body, q: &Query, k: &str) -> (r: Option<i64>)
    ensures
        r == spec_arg_i64(*b, *q, k@),
{
    match b.field(k) {
        Some(f) => {
            if f.int.is_some() {
                return f.int;
            }
        },
        None => {},
    }
    match query_get(q, k) {
        Some(v) => {
            let cs = chars_of(v.as_str());
            assert(cs@.subrange(0, cs@.len() as int) == cs@);
            crate::text::parse_i64_range(&cs, 0, cs.len())
        },
        None => None,
    }
}

/// A list argument (see [`spec_arg_list`]).
pub fn arg_list(b: &Body, q: &Query, k: &str) -> (r: Vec<String>)
    ensures
        strs(r@) == spec_arg_list(*b, *q, k@),
{
    match b.field(k) {
        Some(f) => match &f.list {
            Some(l) => {
                let mut out: Vec<String> = Vec::new();
                let mut i: usize = 0;
                while i < l.len()
                    invariant
                        i <= l@.len(),
                        strs(out@) == list_texts(l@).take(i as int),
                    decreases l.len() - i,
                {
                    let s = l[i].1.clone();
                    assert(list_texts(l@)[i as int] == l@[i as int].1@);
                    let ghost prev = out@;
                    out.push(s);
                    assert(strs(out@) =~= strs(prev).push(s@));
                    assert(list_texts(l@).take(i + 1) =~= list_texts(l@).take(i as int).push(
                        list_texts(l@)[i as int],
                    ));
                    i += 1;
                }
                assert(list_texts(l@).take(l@.len() as int) =~= list_texts(l@));
                return out;
            },
            None => {},
        },
        None => {},
    }
    match query_get(q, k) {
        Some(v) => {
            let cs = chars_of(v.as_str());
            assert(cs@.subrange(0, cs@.len() as int) == cs@);
            let parts = split_range(&cs, 0, cs.len(), ',');
            let ghost whole = split_char(cs@, ',');
            let mut out: Vec<String> = Vec::new();
            let mut i: usize = 0;
            while i < parts.len()
                invariant
                    i <= parts@.len(),
                    parts@.len() == whole.len(),
                    whole == split_char(cs@.subrange(0, cs@.len() as int), ','),
                    forall|j: int|
                        0 <= j < parts@.len() ==> 0 <= (#[trigger] parts@[j]).0 <= parts@[j].1 <= cs@.len()
                            && cs@.subrange(parts@[j].0 as int, parts@[j].1 as int) == whole[j],
                    strs(out@) == whole.take(i as int),
                decreases parts.len() - i,
            {
                let (a, z) = parts[i];
                let s = string_of_range(&cs, a, z);
                assert(s@ == whole[i as int]);
                let ghost prev = out@;
                out.push(s);
                assert(strs(out@) =~= strs(prev).push(s@));
                assert(whole.take(i + 1) =~= whole.take(i as int).push(whole[i as int]));
                i += 1;
            }
            assert(whole.take(whole.len() as int) =~= whole);
            out
        },
        None => Vec::new(),
    }
}

/// What a request asks for, with its arguments.
#[derive(Debug, Clone)]
pub enum ApiRequest {
    Ping,
    ConfigGet,
    /// Save the body's options, then answer with the configuration.
    ConfigSave,
    Ports { probe: bool },
    Status,
    Info,
    Signal,
    Pdp,
    Net,
    Cell,
    Lock,
    /// Dial with this APN and PDP type; `save` when they differ from the
    /// configuration (they are written back first).
    Dial { apn: String, pdp_type: String, save: bool },
    Hangup,
    ImeiRead,
    ImeiWrite { value: String, confirm: bool },
    ImeiBackup,
    /// Pass a command through to the modem.
    At { cmd: String },
    LockBand { args: Vec<String> },
    LockCell { args: Vec<String> },
    RatGet,
    RatSet { order: Vec<String> },
    Sim { slot: u32 },
    Cfun { mode: u32 },
    UsbMode { mode: u32 },
    Reboot,
    SmsList,
    SmsSend { number: String, text: String },
    SmsDelete { index: i64 },
    SmsStorageGet,
    SmsStorageSet { mem: String },
    SmsCenterGet,
    SmsCenterSet { number: String },
    /// Answered with this error and nothing done.
    Refused { error: String },
}

/// The string elements of an array, in order.
pub open spec fn string_items(l: Seq<(bool, String)>) -> Seq<Seq<char>>
    decreases l.len(),
{
    if l.len() == 0 {
        seq![]
    } else {
        let r = string_items(l.drop_last());
        if l.last().0 {
            r.push(l.last().1@)
        } else {
            r
        }
    }
}

/// `unwrap_or_default` of a text argument.
pub open spec fn str_or_empty(o: Option<Seq<char>>) -> Seq<char> {
    match o {
        Some(t) => t,
        None => seq![],
    }
}

/// A numeric argument or its default, cut to 32 bits.
pub open spec fn u32_arg(o: Option<u64>, dflt: u64) -> u32 {
    (match o {
        Some(n) => n,
        None => dflt,
    }) as u32
}

/// The body's `confirm`: `true`, or the string `"1"`.
pub open spec fn spec_confirm(b: Body) -> bool {
    match field_of(b.fields@, "confirm"@) {
        Some(f) => f.is_true || (f.text matches Some(t) && t@ == "1"@),
        None => false,
    }
}

/// The body's `order` array, its strings only.
pub open spec fn spec_order(b: Body) -> Seq<Seq<char>> {
    match field_of(b.fields@, "order"@) {
        Some(f) => match f.list {
            Some(l) => string_items(l@),
            None => seq![],
        },
        None => seq![],
    }
}

/// The APN (or PDP type) of a dial: the body's non-empty string, else the
/// configured one.
pub open spec fn dial_param(b: Body, k: Seq<char>, dflt: Seq<char>) -> Seq<char> {
    match body_text(b, k) {
        Some(t) => t,
        None => dflt,
    }
}

/// The raw AT route: a command is required, and an IMEI write is refused.
pub open spec fn at_request_ok(r: ApiRequest, cmd: Seq<char>) -> bool {
    if trim(cmd).len() == 0 {
        r matches ApiRequest::Refused { error } && error@ == "缺少 cmd"@
    } else if imei_write_of_upper(upper_of(trim(cmd))) {
        r matches ApiRequest::Refused { error } && error@ == "已拒绝执行 `"@ + trim(cmd)
            + "`：IMEI / 串号写入指令被安全策略拦截（只读查询不受影响）"@
    } else {
        r matches ApiRequest::At { cmd: c } && c@ == cmd
    }
}

/// The message routes, and any other path refused as unknown.
pub open spec fn sms_request_ok(r: ApiRequest, post: bool, path: Seq<char>, b: Body, q: Query) -> bool {
    if path == "/api/sms/list"@ {
        r is SmsList
    } else if path == "/api/sms/send"@ {
        let number = str_or_empty(spec_arg_str(b, q, "number"@));
        if number.len() == 0 {
            r matches ApiRequest::Refused { error } && error@ == "缺少收件人号码"@
        } else {
            r matches ApiRequest::SmsSend { number: n, text } && n@ == number && text@ == str_or_empty(
                spec_arg_str(b, q, "text"@),
            )
        }
    } else if path == "/api/sms/delete"@ {
        match spec_arg_i64(b, q, "index"@) {
            Some(i) => r matches ApiRequest::SmsDelete { index } && index == i,
            None => r matches ApiRequest::Refused { error } && error@ == "缺少 index"@,
        }
    } else if path == "/api/sms/storage"@ {
        if post {
            r matches ApiRequest::SmsStorageSet { mem } && mem@ == match spec_arg_str(b, q, "mem"@) {
                Some(m) => m,
                None => "SM"@,
            }
        } else {
            r is SmsStorageGet
        }
    } else if path == "/api/sms/smsc"@ {
        if post {
            r matches ApiRequest::SmsCenterSet { number } && number@ == str_or_empty(
                spec_arg_str(b, q, "number"@),
            )
        } else {
            r is SmsCenterGet
        }
    } else {
        r matches ApiRequest::Refused { error } && error@ == "未知路径: "@ + path
    }
}

/// The request for `path` (`post` for the POST method).
pub open spec fn route_ok(r: ApiRequest, post: bool, path: Seq<char>, cfg: Config, b: Body, q: Query) -> bool {
    if path == "/api/ping"@ {
        r is Ping
    } else if path == "/api/config"@ {
        if post { r is ConfigSave } else { r is ConfigGet }
    } else if path == "/api/ports"@ {
        r matches ApiRequest::Ports { probe } && probe == (post || match query_value(q, "probe"@) {
            Some(v) => v != "0"@,
            None => true,
        })
    } else if path == "/api/status"@ {
        r is Status
    } else if path == "/api/info"@ {
        r is Info
    } else if path == "/api/signal"@ {
        r is Signal
    } else if path == "/api/pdp"@ {
        r is Pdp
    } else if path == "/api/net"@ {
        r is Net
    } else if path == "/api/cell"@ {
        r is Cell
    } else if path == "/api/lock"@ {
        r is Lock
    } else if path == "/api/dial"@ {
        r matches ApiRequest::Dial { apn, pdp_type, save } && apn@ == dial_param(b, "apn"@, cfg.apn@)
            && pdp_type@ == dial_param(b, "pdp_type"@, cfg.pdp_type@) && save == (apn@ != cfg.apn@
            || pdp_type@ != cfg.pdp_type@)
    } else if path == "/api/hangup"@ {
        r is Hangup
    } else if path == "/api/imei"@ {
        if post {
            r matches ApiRequest::ImeiWrite { value, confirm } && value@ == str_or_empty(
                spec_arg_str(b, q, "value"@),
            ) && confirm == spec_confirm(b)
        } else {
            r is ImeiRead
        }
    } else if path == "/api/imei/backup"@ {
        r is ImeiBackup
    } else if path == "/api/at"@ {
        at_request_ok(r, str_or_empty(spec_arg_str(b, q, "cmd"@)))
    } else if path == "/api/lock/band"@ {
        r matches ApiRequest::LockBand { args } && strs(args@) == spec_arg_list(b, q, "args"@)
    } else if path == "/api/lock/cell"@ {
        r matches ApiRequest::LockCell { args } && strs(args@) == spec_arg_list(b, q, "args"@)
    } else if path == "/api/rat"@ {
        if post {
            r matches ApiRequest::RatSet { order } && strs(order@) == spec_order(b)
        } else {
            r is RatGet
        }
    } else if path == "/api/sim"@ {
        r matches ApiRequest::Sim { slot } && slot == u32_arg(spec_arg_u64(b, q, "slot"@), 0)
    } else if path == "/api/cfun"@ {
        r matches ApiRequest::Cfun { mode } && mode == u32_arg(spec_arg_u64(b, q, "mode"@), 1)
    } else if path == "/api/usbmode"@ {
        r matches ApiRequest::UsbMode { mode } && mode == u32_arg(spec_arg_u64(b, q, "mode"@), 40)
    } else if path == "/api/reboot"@ {
        r is Reboot
    } else {
        sms_request_ok(r, post, path, b, q)
    }
}

fn str_arg_or_empty(b: &Body, q: &Query, k: &str) -> (r: String)
    ensures
        r@ == str_or_empty(spec_arg_str(*b, *q, k@)),
{
    match arg_str(b, q, k) {
        Some(s) => s,
        None => String::new(),
    }
}

fn confirm_of(b: &Body) -> (r: bool)
    ensures
        r == spec_confirm(*b),
{
    match b.field("confirm") {
        Some(f) => f.is_true || match &f.text {
            Some(t) => str_eq(t.as_str(), "1"),
            None => false,
        },
        None => false,
    }
}

fn order_of(b: &Body) -> (r: Vec<String>)
    ensures
        strs(r@) == spec_order(*b),
{
    let mut out: Vec<String> = Vec::new();
    match b.field("order") {
        Some(f) => match &f.list {
            Some(l) => {
                let mut i: usize = 0;
                while i < l.len()
                    invariant
                        i <= l@.len(),
                        strs(out@) == string_items(l@.take(i as int)),
                    decreases l.len() - i,
                {
                    assert(l@.take(i + 1).drop_last() =~= l@.take(i as int));
                    if l[i].0 {
                        let s = l[i].1.clone();
                        let ghost prev = out@;
                        out.push(s);
                        assert(strs(out@) =~= strs(prev).push(s@));
                    }
                    i += 1;
                }
                assert(l@.take(l@.len() as int) =~= l@);
            },
            None => {},
        },
        None => {},
    }
    out
}

fn dial_param_of(b: &Body, k: &str, dflt: &String) -> (r: String)
    ensures
        r@ == dial_param(*b, k@, dflt@),
{
    match b.field(k) {
        Some(f) => match &f.text {
            Some(t) => {
                if !t.as_str().is_empty() {
                    return t.clone();
                }
            },
            None => {},
        },
        None => {},
    }
    dflt.clone()
}

fn u32_arg_of(o: Option<u64>, dflt: u64) -> (r: u32)
    ensures
        r == u32_arg(o, dflt),
{
    let n = match o {
        Some(n) => n,
        None => dflt,
    };
    n as u32
}

fn refused(msg: &str) -> (r: ApiRequest)
    ensures
        r matches ApiRequest::Refused { error } && error@ == msg@,
{
    ApiRequest::Refused { error: String::from_str(msg) }
}

/// The request for `path`, with its arguments (see [`route_ok`]).
pub fn route(post: bool, path: &str, cfg: &Config, b: &Body, q: &Query) -> (r: ApiRequest)
    ensures
        route_ok(r, post, path@, *cfg, *b, *q),
{
    if str_eq(path, "/api/ping") {
        ApiRequest::Ping
    } else if str_eq(path, "/api/config") {
        if post { ApiRequest::ConfigSave } else { ApiRequest::ConfigGet }
    } else if str_eq(path, "/api/ports") {
        let probe = post || match query_get(q, "probe") {
            Some(v) => !str_eq(v.as_str(), "0"),
            None => true,
        };
        ApiRequest::Ports { probe }
    } else if str_eq(path, "/api/status") {
        ApiRequest::Status
    } else if str_eq(path, "/api/info") {
        ApiRequest::Info
    } else if str_eq(path, "/api/signal") {
        ApiRequest::Signal
    } else if str_eq(path, "/api/pdp") {
        ApiRequest::Pdp
    } else if str_eq(path, "/api/net") {
        ApiRequest::Net
    } else if str_eq(path, "/api/cell") {
        ApiRequest::Cell
    } else if str_eq(path, "/api/lock") {
        ApiRequest::Lock
    } else if str_eq(path, "/api/dial") {
        let apn = dial_param_of(b, "apn", &cfg.apn);
        let pdp_type = dial_param_of(b, "pdp_type", &cfg.pdp_type);
        let save = !str_eq(apn.as_str(), cfg.apn.as_str()) || !str_eq(pdp_type.as_str(), cfg.pdp_type.as_str());
        ApiRequest::Dial { apn, pdp_type, save }
    } else if str_eq(path, "/api/hangup") {
        ApiRequest::Hangup
    } else if str_eq(path, "/api/imei") {
        if post {
            ApiRequest::ImeiWrite { value: str_arg_or_empty(b, q, "value"), confirm: confirm_of(b) }
        } else {
            ApiRequest::ImeiRead
        }
    } else if str_eq(path, "/api/imei/backup") {
        ApiRequest::ImeiBackup
    } else if str_eq(path, "/api/at") {
        route_at(b, q)
    } else if str_eq(path, "/api/lock/band") {
        ApiRequest::LockBand { args: arg_list(b, q, "args") }
    } else if str_eq(path, "/api/lock/cell") {
        ApiRequest::LockCell { args: arg_list(b, q, "args") }
    } else if str_eq(path, "/api/rat") {
        if post { ApiRequest::RatSet { order: order_of(b) } } else { ApiRequest::RatGet }
    } else if str_eq(path, "/api/sim") {
        ApiRequest::Sim { slot: u32_arg_of(arg_u64(b, q, "slot"), 0) }
    } else if str_eq(path, "/api/cfun") {
        ApiRequest::Cfun { mode: u32_arg_of(arg_u64(b, q, "mode"), 1) }
    } else if str_eq(path, "/api/usbmode") {
        ApiRequest::UsbMode { mode: u32_arg_of(arg_u64(b, q, "mode"), 40) }
    } else if str_eq(path, "/api/reboot") {
        ApiRequest::Reboot
    } else {
        route_sms(post, path, b, q)
    }
}

fn route_at(b: &Body, q: &Query) -> (r: ApiRequest)
    ensures
        at_request_ok(r, str_or_empty(spec_arg_str(*b, *q, "cmd"@))),
{
    let cmd = str_arg_or_empty(b, q, "cmd");
    let t = crate::at::port::trimmed(cmd.as_str());
    if t.as_str().is_empty() {
        refused("缺少 cmd")
    } else if crate::at::guard::is_imei_write(cmd.as_str()) {
        ApiRequest::Refused { error: crate::at::session::imei_block_reason(cmd.as_str()) }
    } else {
        ApiRequest::At { cmd }
    }
}

fn route_sms(post: bool, path: &str, b: &Body, q: &Query) -> (r: ApiRequest)
    ensures
        sms_request_ok(r, post, path@, *b, *q),
{
    if str_eq(path, "/api/sms/list") {
        ApiRequest::SmsList
    } else if str_eq(path, "/api/sms/send") {
        let number = str_arg_or_empty(b, q, "number");
        if number.as_str().is_empty() {
            refused("缺少收件人号码")
        } else {
            ApiRequest::SmsSend { number, text: str_arg_or_empty(b, q, "text") }
        }
    } else if str_eq(path, "/api/sms/delete") {
        match arg_i64(b, q, "index") {
            Some(index) => ApiRequest::SmsDelete { index },
            None => refused("缺少 index"),
        }
    } else if str_eq(path, "/api/sms/storage") {
        if post {
            let mem = match arg_str(b, q, "mem") {
                Some(m) => m,
                None => String::from_str("SM"),
            };
            ApiRequest::SmsStorageSet { mem }
        } else {
            ApiRequest::SmsStorageGet
        }
    } else if str_eq(path, "/api/sms/smsc") {
        if post {
            ApiRequest::SmsCenterSet { number: str_arg_or_empty(b, q, "number") }
        } else {
            ApiRequest::SmsCenterGet
        }
    } else {
        let mut e = String::new();
        push_str(&mut e, "未知路径: ");
        push_str(&mut e, path);
        proof {
            assert(Seq::<char>::empty() + "未知路径: "@ == "未知路径: "@);
        }
        ApiRequest::Refused { error: e }
    }
}

/// The error of a failed dial, with the data channel check appended when
/// the binding read shows no host-side channel (the dial then "succeeds"
/// on the modem while the host never gets an address).
pub fn dial_failure_text(e: &str, bind: Option<&BindState>) -> (r: String)
    ensures
        r@ == match bind {
            Some(st) => if !spec_host_bound(bind_entries(st.entries@)) {
                e@ + "；数据通道体检："@ + spec_verdict(bind_entries(st.entries@))
            } else {
                e@
            },
            None => e@,
        },
{
    let mut msg = String::from_str(e);
    match bind {
        Some(st) => {
            if !st.host_bound() {
                push_str(&mut msg, "；数据通道体检：");
                push_str(&mut msg, st.verdict());
            }
        },
        None => {},
    }
    msg
}

} // verus!
