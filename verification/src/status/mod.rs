//! The assistant's persistent status: what it must remember across restarts.
use vstd::prelude::*;

pub mod types;

verus! {

/// The text of the status file when none was saved yet.
pub const DEFAULT_STATUS_TOML: &'static str = "[telegram]\nlast_update_id = 0\n";

/// The status when the status file is missing or unreadable: no chat update
/// seen yet.
pub fn default_parsed_status_toml() -> (toml: types::Toml)
    ensures
        toml.telegram.last_update_id == 0,
{
    types::Toml { telegram: types::Telegram { last_update_id: 0 } }
}

pub struct Status {
    pub telegram: Telegram,
}

struct Store {
    toml: types::Toml,
}

/// The part of the status that belongs to the chat bot.
pub struct Telegram {
    store: Store,
}

impl Status {
    /// The status read from the status file (`None` when it could not be
    /// read or parsed, which starts from the default status).
    pub fn from_toml(toml: Option<types::Toml>) -> (status: Status)
        ensures
            status.telegram.last_update_id_spec() == match toml {
                Some(t) => t.telegram.last_update_id,
                None => 0,
            },
    {
        let toml = match toml {
            Some(t) => t,
            None => default_parsed_status_toml(),
        };
        Status { telegram: Telegram { store: Store { toml } } }
    }
}

impl Telegram {
    /// The id of the last chat update that was taken.
    pub closed spec fn last_update_id_spec(&self) -> i64 {
        self.store.toml.telegram.last_update_id
    }

    /// The id of the last chat update that was taken.
    pub fn last_update_id(&self) -> (id: i64)
        ensures
            id == self.last_update_id_spec(),
    {
        self.store.toml.telegram.last_update_id
    }

    /// Records `last_update_id` as the id of the last chat update taken; the
    /// caller saves the status file with `to_toml` afterwards.
    pub fn set_last_update_id(&mut self, last_update_id: i64)
        ensures
            final(self).last_update_id_spec() == last_update_id,
    {
        self.store.toml.telegram.last_update_id = last_update_id;
    }

    /// The contents of the status file.
    pub fn to_toml(&self) -> (toml: types::Toml)
        ensures
            toml.telegram.last_update_id == self.last_update_id_spec(),
    {
        types::Toml { telegram: types::Telegram { last_update_id: self.store.toml.telegram.last_update_id } }
    }
}

} // verus!
