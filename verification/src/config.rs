//! Configuration model: global defaults, per-service overrides and the
//! health check of each service.

use vstd::prelude::*;

verus! {

/// The whole configuration: defaults and the monitored services.
#[derive(Debug)]
pub struct Config {
    pub defaults: Defaults,
    pub services: Vec<Service>,
}

/// Settings that apply to every service that does not override them.
#[derive(Debug, Clone, Copy)]
pub struct Defaults {
    /// Seconds between checks.
    pub check_interval: u64,
    /// Consecutive successes before the address is advertised.
    pub rise: u32,
    /// Consecutive failures before the address is withdrawn.
    pub fall: u32,
    /// What happens to the managed addresses on shutdown.
    pub on_exit: OnExit,
}

/// The built-in defaults: a check every 5 seconds, rise 3, fall 2, and
/// withdrawal of all addresses on exit.
pub open spec fn builtin_defaults() -> Defaults {
    Defaults { check_interval: 5, rise: 3, fall: 2, on_exit: OnExit::Withdraw }
}

impl Default for Defaults {
    fn default() -> (d: Self)
        ensures
            d == builtin_defaults(),
    {
        Defaults {
            check_interval: default_check_interval(),
            rise: default_rise(),
            fall: default_fall(),
            on_exit: OnExit::default(),
        }
    }
}

/// Shutdown behaviour.
#[derive(Debug, Clone, Copy, PartialEq, Eq, Structural)]
pub enum OnExit {
    /// Remove every service address from the loopback interface.
    Withdraw,
    /// Leave the addresses in place.
    Maintain,
}

impl Default for OnExit {
    fn default() -> (e: Self)
        ensures
            e == OnExit::Withdraw,
    {
        OnExit::Withdraw
    }
}

/// One monitored service.
#[derive(Debug)]
pub struct Service {
    pub name: String,
    /// The address advertised while the service is healthy.
    pub ip: String,
    pub check: Check,
    pub check_interval: Option<u64>,
    pub rise: Option<u32>,
    pub fall: Option<u32>,
}

/// `value` when present, else `fallback`.
pub open spec fn or_default<T>(value: Option<T>, fallback: T) -> T {
    match value {
        Some(v) => v,
        None => fallback,
    }
}

impl Service {
    /// Seconds between checks of this service.
    pub fn check_interval(&self, defaults: &Defaults) -> (r: u64)
        ensures
            r == or_default(self.check_interval, defaults.check_interval),
    {
        match self.check_interval {
            Some(v) => v,
            None => defaults.check_interval,
        }
    }

    /// Consecutive successes this service needs before it is advertised.
    pub fn rise(&self, defaults: &Defaults) -> (r: u32)
        ensures
            r == or_default(self.rise, defaults.rise),
    {
        match self.rise {
            Some(v) => v,
            None => defaults.rise,
        }
    }

    /// Consecutive failures after which this service is withdrawn.
    pub fn fall(&self, defaults: &Defaults) -> (r: u32)
        ensures
            r == or_default(self.fall, defaults.fall),
    {
        match self.fall {
            Some(v) => v,
            None => defaults.fall,
        }
    }
}

/// The health check of a service.
#[derive(Debug)]
pub enum Check {
    /// Healthy if a TCP connection is established within the timeout.
    Tcp { host: String, port: u16, timeout: u64 },
    /// Healthy if a GET answers with the expected status code.
    Http { url: String, expect_status: u16, timeout: u64 },
    /// Healthy if every query is answered without error.
    Dns { host: String, port: u16, queries: Vec<DnsQuery>, timeout: u64 },
    /// Healthy if the server's stratum is between 1 and `max_stratum`.
    Ntp { host: String, port: u16, max_stratum: u8, timeout: u64 },
    /// Healthy if the command exits with status 0.
    Exec { command: String, timeout: u64 },
}

/// One DNS query of a DNS check.
#[derive(Debug)]
pub struct DnsQuery {
    pub name: String,
    pub record_type: String,
}

pub fn default_check_interval() -> (r: u64)
    ensures
        r == 5,
{
    5
}

pub fn default_rise() -> (r: u32)
    ensures
        r == 3,
{
    3
}

pub fn default_fall() -> (r: u32)
    ensures
        r == 2,
{
    2
}

/// Probe timeout in seconds.
pub fn default_timeout() -> (r: u64)
    ensures
        r == 3,
{
    3
}

pub fn default_expect_status() -> (r: u16)
    ensures
        r == 200,
{
    200
}

pub fn default_dns_port() -> (r: u16)
    ensures
        r == 53,
{
    53
}

pub fn default_ntp_port() -> (r: u16)
    ensures
        r == 123,
{
    123
}

pub fn default_max_stratum() -> (r: u8)
    ensures
        r == 1,
{
    1
}

pub fn default_record_type() -> (r: String)
    ensures
        r@ == seq!['A'],
{
    proof {
        reveal_strlit("A");
    }
    String::from_str("A")
}

/// The addresses to remove from the loopback interface on shutdown: every
/// service address, in service order, when `on_exit` is `Withdraw`; none
/// when it is `Maintain`.
pub fn exit_withdrawals(config: &Config) -> (ips: Vec<String>)
    ensures
        config.defaults.on_exit == OnExit::Withdraw ==> ips@.len() == config.services@.len()
            && forall|i: int| 0 <= i < ips@.len() ==> #[trigger] ips@[i]@ == config.services@[i].ip@,
        config.defaults.on_exit == OnExit::Maintain ==> ips@.len() == 0,
{
    let mut ips: Vec<String> = Vec::new();
    if config.defaults.on_exit == OnExit::Maintain {
        return ips;
    }
    let n = config.services.len();
    for i in 0..n
        invariant
            n == config.services@.len(),
            ips@.len() == i,
            forall|j: int| 0 <= j < i ==> #[trigger] ips@[j]@ == config.services@[j].ip@,
    {
        ips.push(config.services[i].ip.clone());
    }
    ips
}

} // verus!
