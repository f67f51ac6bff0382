use fm350d::modem::dial::{DialFlow, DialStep, ADDR_POLL_ROUNDS};
use fm350d::modem::pdp::Readiness;

#[test]
fn dial_flow_skips_activation_when_already_dialed() {
    let mut f = DialFlow::new();
    assert_eq!(f.begin(true, true), DialStep::Done);
    assert_eq!(f.begin(true, false), DialStep::Activate);
    assert_eq!(f.begin(false, true), DialStep::Activate);
}

#[test]
fn dial_flow_command_failure_fails_the_dial() {
    let mut f = DialFlow::new();
    assert_eq!(f.activated(Err("串口超时".to_string())), DialStep::Fail("串口超时".to_string()));
}

#[test]
fn dial_flow_polls_then_fails_without_address() {
    let mut f = DialFlow::new();
    assert_eq!(f.activated(Ok("OK".to_string())), DialStep::ReadContext);
    for _ in 0..ADDR_POLL_ROUNDS {
        assert_eq!(f.context(false, false), DialStep::PollAgain);
    }
    assert_eq!(
        f.context(false, false),
        DialStep::Fail("PDP 激活后未取得任何地址（IPv4/IPv6）".to_string())
    );
}

#[test]
fn dial_flow_address_ends_the_polling() {
    let mut f = DialFlow::new();
    assert_eq!(f.activated(Ok("OK".to_string())), DialStep::ReadContext);
    assert_eq!(f.context(false, false), DialStep::PollAgain);
    assert_eq!(f.context(true, true), DialStep::Done);
}

#[test]
fn dial_flow_activation_error_with_active_context_succeeds() {
    let mut f = DialFlow::new();
    assert_eq!(f.activated(Ok("+CME ERROR: 5847".to_string())), DialStep::ReadContext);
    for _ in 0..ADDR_POLL_ROUNDS {
        assert_eq!(f.context(true, false), DialStep::PollAgain);
    }
    assert_eq!(f.context(true, false), DialStep::Done);
}

#[test]
fn dial_flow_activation_error_reports_preconditions() {
    let mut f = DialFlow::new();
    assert_eq!(f.activated(Ok("+CME ERROR: 5847\nERROR".to_string())), DialStep::ReadContext);
    for _ in 0..ADDR_POLL_ROUNDS {
        assert_eq!(f.context(false, false), DialStep::PollAgain);
    }
    assert_eq!(f.context(false, false), DialStep::ReadReadiness);
    let rd = Readiness { sim_ready: Some(true), cfun: Some(1), reg_state: Some(1), raw: Vec::new() };
    assert_eq!(
        f.readiness(&rd),
        DialStep::Fail("激活 PDP 失败: +CME ERROR: 5847 ERROR（模组报告重复激活，但上下文中未取到任何地址）".to_string())
    );
}
