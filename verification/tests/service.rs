use java_service_steward::config::Config;
use java_service_steward::loader::{LineOutcome, Loader};
use java_service_steward::service::{
    accepted_controls, check_distinct_dump_codes, check_user_control_code, heap_dump_control_code,
    query_mask, request_response, service_account, service_dependencies, start_type,
    stop_wait_hint, Dependency, ServiceRequest, ServiceState, StartType,
};
use java_service_steward::supervisor::Control;

fn load(text: &str) -> Config {
    let overrides: Vec<String> = Vec::new();
    let mut loader = Loader::new("/synthetic".to_string(), &[], &overrides).expect("loader");
    let lines = loader
        .enter("/synthetic/wrapper.conf", text.as_bytes())
        .expect("decode");
    for (index, line) in lines.iter().enumerate() {
        match loader
            .parse_line("/synthetic/wrapper.conf", index + 1, line, 0)
            .expect("line")
        {
            LineOutcome::Done => {}
            LineOutcome::Include { .. } => panic!("no includes here"),
        }
    }
    loader.leave();
    loader.finish("/synthetic/wrapper.conf".to_string())
}

#[test]
fn start_types_dependencies_and_accounts() {
    assert_eq!(start_type(&load("")).expect("default"), StartType::AutoStart);
    assert_eq!(start_type(&load("wrapper.ntservice.starttype= manual\n")).expect("manual"), StartType::OnDemand);
    assert_eq!(
        start_type(&load("wrapper.ntservice.starttype=boot\n")).expect_err("boot").describe(),
        "invalid configuration: unsupported wrapper.ntservice.starttype: BOOT"
    );
    let config = load("wrapper.ntservice.dependency.1=Tcpip\nwrapper.ntservice.dependency.2= \nwrapper.ntservice.dependency.3=+NetworkProvider\n");
    assert_eq!(
        service_dependencies(&config),
        [Dependency::Service("Tcpip".to_string()), Dependency::Group("NetworkProvider".to_string())]
    );
    let account = service_account(&load("wrapper.ntservice.account=.\\svc\nwrapper.ntservice.password=pw\nwrapper.ntservice.interactive=true\n"));
    assert_eq!(account.name.as_deref(), Some(".\\svc"));
    assert_eq!(account.password.as_deref(), Some("pw"));
    assert!(!account.interactive);
    let account = service_account(&load("wrapper.ntservice.password=pw\nwrapper.ntservice.interactive=true\n"));
    assert_eq!(account.name, None);
    assert_eq!(account.password, None);
    assert!(account.interactive);
}

#[test]
fn control_codes_and_wait_hints() {
    assert_eq!(heap_dump_control_code(&load("")).expect("default"), 254);
    assert_eq!(
        heap_dump_control_code(&load("jss.heapdump.control_code=100\n")).expect_err("low").describe(),
        "invalid configuration: jss.heapdump.control_code must be between 128 and 255"
    );
    assert!(check_distinct_dump_codes(255, 254).is_ok());
    assert!(check_distinct_dump_codes(254, 254).is_err());
    assert_eq!(check_user_control_code(200).expect("valid"), 200);
    assert_eq!(
        check_user_control_code(12).expect_err("invalid").describe(),
        "invalid configuration: the control code must be between 128 and 255: 12"
    );
    assert_eq!(stop_wait_hint(&load("")), Some(40));
    assert_eq!(
        stop_wait_hint(&load("wrapper.request_thread_dump_on_failed_jvm_exit=true\n")),
        Some(45)
    );
    assert_eq!(stop_wait_hint(&load("wrapper.shutdown.timeout=18446744073709551615\n")), None);
}

#[test]
fn status_masks_and_requests() {
    assert_eq!(query_mask(ServiceState::Stopped, false, Some(StartType::OnDemand)), 17);
    assert_eq!(query_mask(ServiceState::Paused, true, Some(StartType::AutoStart)), 79);
    assert_eq!(accepted_controls(ServiceState::StartPending, true), (false, false));
    assert_eq!(accepted_controls(ServiceState::Running, true), (true, true));
    let answer = request_response(ServiceRequest::UserEvent(255), true, 255, 254, 40_000);
    assert_eq!(answer.control, Some(Control::ThreadDump));
    let answer = request_response(ServiceRequest::UserEvent(254), true, 255, 254, 40_000);
    assert_eq!(answer.control, Some(Control::HeapDump));
    let answer = request_response(ServiceRequest::Pause, false, 255, 254, 40_000);
    assert!(!answer.handled);
    let answer = request_response(ServiceRequest::Shutdown, false, 255, 254, 40_000);
    assert_eq!(answer.control, Some(Control::Stop));
    assert_eq!(answer.pending, Some((ServiceState::StopPending, 40_000)));
}
