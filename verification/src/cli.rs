//! The command line's fixed parts: the help text and the read timeout for a
//! command forwarded to the running daemon.
use vstd::prelude::*;

verus! {

/// The help text, listing every subcommand.
pub const USAGE: &'static str = "\
fm350d —— FM350 模组后端守护与命令行工具

用法:
  fm350d daemon                       以守护模式运行（监听 127.0.0.1 的 JSON API）
  fm350d status                       综合状态（信息 + 信号 + PDP + 温度）
  fm350d info                         模组信息（厂商/型号/固件/IMEI/IMSI/ICCID）
  fm350d signal                       信号与注册状态
  fm350d pdp                          PDP 上下文状态
  fm350d net                          网络接口状态
  fm350d ports [--no-probe]           枚举候选 AT 端口与占用状态
  fm350d cell                         邻区与载波聚合信息
  fm350d lock                         当前锁定状态（频段/小区）
  fm350d lock-band <参数...>          锁频段，如 14 / 2 / 20 / 20,6,3,5078
  fm350d lock-cell <参数...>          锁小区，如 1,11,0,627264,280,3 / 0 取消
  fm350d dial                         拨号并配置网络接口
  fm350d hangup                       断开并拆除接口
  fm350d at <命令>                    透传 AT 指令（IMEI 写入类被拦截）
  fm350d sms list                     短信列表
  fm350d sms send <号码> <内容>       发送短信
  fm350d sms delete <序号>            删除短信
  fm350d sms storage [ME|SM]          查询/设置短信存储
  fm350d smsc [号码]                  查询/设置短信中心
  fm350d imei read                    读取 IMEI（只读）
  fm350d imei backup                  备份当前 IMEI 到 /etc/fm350/imei.backup
  fm350d imei write <15位> --confirm  写入/更换 IMEI（需先开启 imei_write）
  fm350d rat [顺序]                   查询/设置制式优先级，如 NR:LTE:WCDMA
  fm350d sim <0|1>                    切换 SIM 卡槽
  fm350d cfun <0|1>                   飞行模式 / 在线模式
  fm350d usbmode <模式>               设置 USB 模式（40 = RNDIS+AT）
  fm350d reboot                       重启模组
  fm350d config                       输出当前配置 JSON
  fm350d set <键> <值>                写入配置项

安全: IMEI 写入属高风险不可逆操作。默认关闭，需先开启 fm350.main.imei_write，
      再显式带 --confirm 才可执行；执行前会自动备份原值。
";

/// The floor of the read timeout, in seconds, for a read command forwarded
/// to the daemon. It stays below the 20 s that rpcd gives a read.
pub const CLI_READ_TIMEOUT: u64 = 15;

/// How long, in milliseconds, to wait for the daemon's API before running a
/// command locally.
pub const DAEMON_CONNECT_TIMEOUT_MS: u64 = 500;

/// The read timeout, in seconds, for a command forwarded to the daemon: a
/// read (`GET`) waits at least [`CLI_READ_TIMEOUT`] and at least the AT
/// timeout; a write waits at least 60 s and at least the AT timeout.
pub fn forward_read_timeout(is_get: bool, at_timeout: u64) -> (r: u64)
    ensures
        is_get ==> r == (if at_timeout > CLI_READ_TIMEOUT { at_timeout } else { CLI_READ_TIMEOUT }),
        !is_get ==> r == (if at_timeout > 60 { at_timeout } else { 60 }),
{
    if is_get {
        if at_timeout > CLI_READ_TIMEOUT {
            at_timeout
        } else {
            CLI_READ_TIMEOUT
        }
    } else if at_timeout > 60 {
        at_timeout
    } else {
        60
    }
}

} // verus!
