//! The scenario as its file describes it.

use vstd::prelude::*;
use crate::utils::strmap::StringMap;

verus! {

/// A whole scenario: the machines, the options and the connections.
#[derive(Debug)]
pub struct Root {
    pub version: usize,
    pub machines: Vec<Machine>,
    pub options: Option<Vec<String>>,
    pub connections: Vec<Connection>,
}

/// One machine of a scenario. A size that the machine names for a provider
/// stands in `override_config` under the provider's name.
#[derive(Debug)]
pub struct Machine {
    pub name: String,
    pub os_common: String,
    pub hwconfig: Option<HwConfig>,
    pub override_config: Option<StringMap>,
    pub auth: Auth,
    pub remote_access: bool,
    pub config_template: String,
    pub role: String,
}

/// How to log in to a machine.
#[derive(Debug)]
pub struct Auth {
    pub username: String,
    pub password: String,
}

/// The hardware that a machine asks for; what is left out is taken from the
/// default values.
#[derive(Debug)]
pub struct HwConfig {
    pub cpu_freq_mhz: Option<usize>,
    pub cpu_cores: Option<usize>,
    pub ram_gb: Option<usize>,
    pub storage: Vec<Disk>,
}

/// One disk of a machine. The kind is `ssd`, `hdd` or `nvm`; any other word
/// stands for a kind of its own.
#[derive(Debug)]
pub struct Disk {
    pub name: String,
    pub is_os_disk: bool,
    pub capacity_gb: usize,
    pub disk_type: String,
    pub grade: u8,
}

/// A connection between two machines, named by their names. The drop chance
/// is a percentage, kept as the bit pattern of a single-precision number.
#[derive(Debug)]
pub struct Connection {
    pub a: String,
    pub b: String,
    pub speed_mbps: usize,
    pub packet_drop_percent_bits: u32,
    pub latency_us: usize,
}

/// No connections: what a scenario has that names none.
pub fn no_connections() -> (r: Vec<Connection>)
    ensures
        r@.len() == 0,
{
    Vec::new()
}

/// The word that stands for a default value.
#[allow(non_snake_case)]
pub fn DEFAULT() -> (r: String)
    ensures
        r@ == "DEFAULT"@,
{
    "DEFAULT".to_string()
}

} // verus!
