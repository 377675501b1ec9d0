//! The shape of the status file.
use vstd::prelude::*;

verus! {

pub struct Toml {
    pub telegram: Telegram,
}

pub struct Telegram {
    pub last_update_id: i64,
}

} // verus!
