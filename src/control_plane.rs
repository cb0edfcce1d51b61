use vstd::prelude::*;

verus! {

/// Log verbosity of the control-plane server.
#[derive(Clone, Copy, Debug, PartialEq, Eq, Structural)]
pub enum LogLevel {
    Info,
    Warn,
    Debug,
    Error,
    Trace,
}

/// The filter name of a level, as the logger's environment variable takes it.
pub open spec fn level_name(l: LogLevel) -> Seq<char> {
    match l {
        LogLevel::Info => seq!['i', 'n', 'f', 'o'],
        LogLevel::Warn => seq!['w', 'a', 'r', 'n'],
        LogLevel::Debug => seq!['d', 'e', 'b', 'u', 'g'],
        LogLevel::Error => seq!['e', 'r', 'r', 'o', 'r'],
        LogLevel::Trace => seq!['t', 'r', 'a', 'c', 'e'],
    }
}

impl LogLevel {
    /// The level's filter name, as `Display` writes it.
    pub fn name(&self) -> (r: String)
        ensures
            r@ == level_name(*self),
    {
        proof {
            reveal_strlit("info");
            reveal_strlit("warn");
            reveal_strlit("debug");
            reveal_strlit("error");
            reveal_strlit("trace");
        }
        let s = match self {
            LogLevel::Info => "info",
            LogLevel::Warn => "warn",
            LogLevel::Debug => "debug",
            LogLevel::Error => "error",
            LogLevel::Trace => "trace",
        };
        let r = String::from_str(s);
        assert(r@ =~= level_name(*self));
        r
    }
}

/// The `[http_server]` section of the control plane's configuration.
#[derive(Clone, Debug)]
pub struct HttpServerConfig {
    pub port: u16,
    pub host: String,
    pub workers: usize,
    pub log_level: LogLevel,
}

/// The `[database_server]` section of the control plane's configuration.
#[derive(Clone, Debug)]
pub struct DatabaServerConfig {
    pub address: String,
    pub username: String,
    pub password: String,
    pub namespace: String,
    pub database: String,
}

/// The control plane's configuration.
#[derive(Clone, Debug)]
pub struct AppConfig {
    pub http_server: HttpServerConfig,
    pub database_server: DatabaServerConfig,
}

/// Number of stored executions, as the paginated listing reports it.
#[derive(Clone, Copy, Debug)]
pub struct CommandExecutionPaginationTotal {
    pub total: usize,
}

/// How often one command was executed.
#[derive(Clone, Debug)]
pub struct CommandExecutionCountsData {
    pub command: String,
    pub total: u64,
}

/// One execution as the control plane receives it.
#[derive(Clone, Debug)]
pub struct CommandDataForm {
    pub command: String,
    pub args: String,
    pub tgid: u32,
    pub pid: u32,
    pub gid: u32,
    pub uid: u32,
}

impl CommandDataForm {
    /// An execution is stored only with a command.
    pub fn is_valid(&self) -> (r: bool)
        ensures
            r == (self.command@.len() > 0),
    {
        self.command.as_str().unicode_len() > 0
    }
}

/// A page of the execution listing.
#[derive(Clone, Copy, Debug)]
pub struct ExecutedCommandsRequest {
    pub offset: usize,
    pub limit: usize,
}

/// Query of the firewall log listing.
#[derive(Clone, Copy, Debug)]
pub struct GetFirewallLogsFilter {
    pub status: bool,
    pub limit: usize,
}

/// One firewall log as the control plane receives it.
#[derive(Clone, Copy, Debug)]
pub struct FirewallLogForm {
    pub ip: [u8; 4],
    pub protocol: crate::protocol::IpProtocol,
    pub port: Option<u16>,
    pub status: bool,
}

/// One rule as an operator submits it.
#[derive(Clone, Copy, Debug)]
pub struct FirewallRuleForm {
    pub ip: [u8; 4],
    pub protocol: crate::protocol::IpProtocol,
    pub cidr: u16,
    pub layer: u8,
    pub from_port: Option<u16>,
    pub to_port: Option<u16>,
    pub status: bool,
}

} // verus!
