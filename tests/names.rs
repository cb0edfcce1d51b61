use ebpf_guard::config::{config_path, Api, ApiServerConfig};
use ebpf_guard::control_plane::{CommandDataForm, LogLevel};
use ebpf_guard::protocol::{get_protocol, get_protocol_from_u8, IpProtocol};
use ebpf_guard::tracepoint::command_log_url;

#[test]
fn protocol_names() {
    assert_eq!(IpProtocol::Tcp.name(), "Tcp");
    assert_eq!(IpProtocol::Udp.name(), "Udp");
    assert_eq!(IpProtocol::Icmp.name(), "Icmp");
    assert_eq!(IpProtocol::Undefined.name(), "Undefined");
}

#[test]
fn protocol_numbers() {
    assert_eq!(get_protocol(IpProtocol::Tcp), 6);
    assert_eq!(get_protocol(IpProtocol::Udp), 17);
    assert_eq!(get_protocol(IpProtocol::Icmp), 1);
    assert_eq!(get_protocol(IpProtocol::Undefined), 6);
    assert_eq!(get_protocol_from_u8(6), IpProtocol::Tcp);
    assert_eq!(get_protocol_from_u8(17), IpProtocol::Udp);
    assert_eq!(get_protocol_from_u8(1), IpProtocol::Icmp);
    assert_eq!(get_protocol_from_u8(0), IpProtocol::Undefined);
}

#[test]
fn log_level_names() {
    assert_eq!(LogLevel::Info.name(), "info");
    assert_eq!(LogLevel::Warn.name(), "warn");
    assert_eq!(LogLevel::Debug.name(), "debug");
    assert_eq!(LogLevel::Error.name(), "error");
    assert_eq!(LogLevel::Trace.name(), "trace");
}

#[test]
fn default_config_path() {
    assert_eq!(config_path(None), "Config.toml");
    assert_eq!(config_path(Some("/etc/fw.toml".to_string())), "/etc/fw.toml");
}

#[test]
fn control_plane_urls() {
    let api = Api::new(ApiServerConfig { base_url: "http://127.0.0.1:8080".to_string() });
    assert_eq!(api.firewall_rules_url(3), "http://127.0.0.1:8080/firewall-rule/list/3");
    assert_eq!(api.firewall_rules_url(4), "http://127.0.0.1:8080/firewall-rule/list/4");
    assert_eq!(api.firewall_rules_url(42), "http://127.0.0.1:8080/firewall-rule/list/42");
    assert_eq!(api.firewall_rules_url(255), "http://127.0.0.1:8080/firewall-rule/list/255");
    assert_eq!(api.firewall_rules_url(100), "http://127.0.0.1:8080/firewall-rule/list/100");
    assert_eq!(api.firewall_rules_url(0), "http://127.0.0.1:8080/firewall-rule/list/0");
    assert_eq!(api.firewall_log_url(), "http://127.0.0.1:8080/firewall-log/create");
    assert_eq!(
        command_log_url(&"http://localhost:9000".to_string()),
        "http://localhost:9000/command-execution/log"
    );
}

#[test]
fn execution_needs_a_command() {
    let mut form = CommandDataForm {
        command: String::new(),
        args: "-l".to_string(),
        tgid: 1,
        pid: 1,
        gid: 0,
        uid: 0,
    };
    assert!(!form.is_valid());
    form.command = "/bin/ls".to_string();
    assert!(form.is_valid());
}
