//! The shape of the configuration file.
use vstd::prelude::*;

verus! {

pub struct Bautista {
    pub poll_seconds: u32,
}

pub struct Device {
    pub cheap: Option<RuleCheap>,
    pub control: Option<bool>,
    pub heater: Option<RuleHeater>,
    pub rule: String,
}

pub struct Esios {
    pub token: String,
}

pub struct Meross {
    pub bridge_path: Option<String>,
    pub devices: Vec<String>,
    pub password: String,
    pub user: String,
}

pub struct RuleHeater {
    pub pivot_hour: u32,
    pub hours: u32,
}

pub struct RuleCheap {
    pub consecutive: bool,
    pub hours: u32,
}

pub struct Telegram {
    pub admin_user: i64,
    pub allowed_users: Vec<i64>,
    pub token: String,
}

pub struct Toml {
    pub bautista: Bautista,
    pub esios: Esios,
    pub meross: Meross,
    pub telegram: Telegram,
}

} // verus!
