use vstd::prelude::*;

verus! {

/// Configuration file read when none is named.
pub const DEFAULT_CONFIG_PATH: &'static str = "Config.toml";

/// Where the control plane listens, as `scheme://host:port`.
#[derive(Clone, Debug)]
pub struct ApiServerConfig {
    pub base_url: String,
}

/// The `[ebpf]` section of the firewall daemon's configuration.
#[derive(Clone, Debug)]
pub struct EbpfConfig {
    /// Network device the classifier attaches to.
    pub interface: String,
    /// Rule layer the daemon loads.
    pub layer: u8,
    /// Seconds between two reconciler ticks.
    pub fwr_update_duration: u64,
}

/// The firewall daemon's configuration.
#[derive(Clone, Debug)]
pub struct AppConfig {
    pub ebpf: EbpfConfig,
    pub api_server: ApiServerConfig,
}

/// The configuration file to read: the one named, else `Config.toml`.
pub fn config_path(path: Option<String>) -> (r: String)
    ensures
        path matches Some(p) ==> r@ == p@,
        path is None ==> r@ == DEFAULT_CONFIG_PATH@,
{
    match path {
        Some(p) => p,
        None => String::from_str(DEFAULT_CONFIG_PATH),
    }
}

/// Decimal digits of a number, most significant first.
pub open spec fn decimal(n: nat) -> Seq<char>
    decreases n,
{
    if n < 10 {
        seq![digit_char(n)]
    } else {
        decimal(n / 10) + seq![digit_char(n % 10)]
    }
}

/// The character of a decimal digit.
pub open spec fn digit_char(d: nat) -> char {
    if d == 0 {
        '0'
    } else if d == 1 {
        '1'
    } else if d == 2 {
        '2'
    } else if d == 3 {
        '3'
    } else if d == 4 {
        '4'
    } else if d == 5 {
        '5'
    } else if d == 6 {
        '6'
    } else if d == 7 {
        '7'
    } else if d == 8 {
        '8'
    } else {
        '9'
    }
}

fn digit_str(d: u8) -> (r: &'static str)
    requires
        d < 10,
    ensures
        r@ == seq![digit_char(d as nat)],
{
    proof {
        reveal_strlit("0");
        reveal_strlit("1");
        reveal_strlit("2");
        reveal_strlit("3");
        reveal_strlit("4");
        reveal_strlit("5");
        reveal_strlit("6");
        reveal_strlit("7");
        reveal_strlit("8");
        reveal_strlit("9");
    }
    let r = if d == 0 {
        "0"
    } else if d == 1 {
        "1"
    } else if d == 2 {
        "2"
    } else if d == 3 {
        "3"
    } else if d == 4 {
        "4"
    } else if d == 5 {
        "5"
    } else if d == 6 {
        "6"
    } else if d == 7 {
        "7"
    } else if d == 8 {
        "8"
    } else {
        "9"
    };
    assert(r@ =~= seq![digit_char(d as nat)]);
    r
}

/// Appends the decimal digits of `n`.
fn append_decimal(s: &mut String, n: u8)
    ensures
        final(s)@ == old(s)@ + decimal(n as nat),
{
    if n >= 100 {
        s.append(digit_str(n / 100));
    }
    if n >= 10 {
        s.append(digit_str((n / 10) % 10));
    }
    s.append(digit_str(n % 10));
    proof {
        let n = n as nat;
        if n >= 100 {
            assert(decimal(n / 10) == decimal(n / 100) + seq![digit_char((n / 10) % 10)]);
            assert(decimal(n / 100) == seq![digit_char(n / 100)]);
        } else if n >= 10 {
            assert(decimal(n / 10) == seq![digit_char(n / 10)]);
        }
    }
    assert(final(s)@ =~= old(s)@ + decimal(n as nat));
}

/// Path of the endpoint that serves the rules of a layer, before the layer.
pub const FIREWALL_RULE_LIST_PATH: &'static str = "/firewall-rule/list/";

/// Path of the endpoint that takes one firewall log.
pub const FIREWALL_LOG_CREATE_PATH: &'static str = "/firewall-log/create";

/// The firewall daemon's client of the control plane.
#[derive(Clone, Debug)]
pub struct Api {
    base_url: String,
}

impl Api {
    /// The control plane's base URL.
    pub closed spec fn base(&self) -> Seq<char> {
        self.base_url@
    }

    /// A client of the control plane that the configuration names.
    pub fn new(api_server_config: ApiServerConfig) -> (r: Api)
        ensures
            r.base() == api_server_config.base_url@,
    {
        Api { base_url: api_server_config.base_url }
    }

    /// URL that serves the ruleset of `layer`.
    pub fn firewall_rules_url(&self, layer: u8) -> (r: String)
        ensures
            r@ == self.base() + FIREWALL_RULE_LIST_PATH@ + decimal(layer as nat),
    {
        let mut r = self.base_url.clone();
        r.append(FIREWALL_RULE_LIST_PATH);
        append_decimal(&mut r, layer);
        r
    }

    /// URL that takes one firewall log.
    pub fn firewall_log_url(&self) -> (r: String)
        ensures
            r@ == self.base() + FIREWALL_LOG_CREATE_PATH@,
    {
        let mut r = self.base_url.clone();
        r.append(FIREWALL_LOG_CREATE_PATH);
        r
    }
}

} // verus!
