//! The smart plugs: the wished state of each device and the commands that
//! bring the plugs to it through the plug bridge.
use crate::config::{Config, Setting};
use crate::str_map::{keys_distinct, keys_of, lemma_map_of_entry, map_of, StrMap};
use crate::text::{starts_with, str_eq};
use vstd::prelude::*;
use vstd::string::*;
use vstd::utf8::encode_utf8;

verus! {

/// The plug bridge answered with an error; it holds the bridge's message.
pub enum DevicesError {
    BridgeError(String),
}

/// The wished state of each configured device: `None` until a rule decides.
pub struct Devices<'a> {
    cfg: &'a Config,
    map: StrMap<Option<bool>>,
}

/// The devices of `entries` that the configuration controls and that have a
/// wished state, with that state, in order.
pub open spec fn pending_switches(cfg: Config, entries: Seq<(String, Option<bool>)>) -> Seq<(Seq<char>, bool)>
    decreases entries.len(),
{
    if entries.len() == 0 {
        Seq::empty()
    } else {
        let rest = pending_switches(cfg, entries.drop_last());
        let (device, on) = entries.last();
        if is_controlled_spec(cfg, device@) && on is Some {
            rest.push((device@, on->0))
        } else {
            rest
        }
    }
}

/// In a list with distinct keys, the map of the list is the map of all but
/// its last entry, with the last entry inserted.
proof fn lemma_map_of_push<V>(s: Seq<(String, V)>)
    requires
        keys_distinct(s),
        s.len() > 0,
    ensures
        map_of(s) == map_of(s.drop_last()).insert(s.last().0@, s.last().1),
{
    let t = s.drop_last();
    let n = s.len() - 1;
    assert(keys_distinct(t));
    lemma_map_of_entry(s, n);
    assert forall|k: Seq<char>| #[trigger] map_of(s).contains_key(k) <==> map_of(t).insert(s.last().0@, s.last().1).contains_key(k) by {
        if map_of(s).contains_key(k) && k != s.last().0@ {
            let j = choose|j: int| 0 <= j < s.len() && s[j].0@ == k;
            assert(t[j].0@ == k);
        }
        if map_of(t).contains_key(k) {
            let j = choose|j: int| 0 <= j < t.len() && t[j].0@ == k;
            assert(s[j].0@ == k);
        }
    }
    assert forall|k: Seq<char>| #[trigger] map_of(s).contains_key(k) implies map_of(s)[k] == map_of(t).insert(s.last().0@, s.last().1)[k] by {
        if k != s.last().0@ {
            let j = choose|j: int| 0 <= j < s.len() && s[j].0@ == k;
            assert(j < n);
            lemma_map_of_entry(s, j);
            lemma_map_of_entry(t, j);
        }
    }
    assert(map_of(s) =~= map_of(t).insert(s.last().0@, s.last().1));
}

/// The switches of a list of wished states with distinct keys: a device is
/// listed with `b` exactly when it is controlled and its wished state is
/// `Some(b)`, every listed device is one of the list, and no device is
/// listed twice.
proof fn lemma_pending_switches(cfg: Config, s: Seq<(String, Option<bool>)>)
    requires
        keys_distinct(s),
    ensures
        forall|d: Seq<char>, b: bool|
            #[trigger] pending_switches(cfg, s).contains((d, b)) <==> map_of(s).contains_key(d)
                && map_of(s)[d] == Some(b) && is_controlled_spec(cfg, d),
        forall|i: int|
            0 <= i < pending_switches(cfg, s).len() ==> #[trigger] map_of(s).contains_key(
                pending_switches(cfg, s)[i].0,
            ),
        forall|i: int, j: int|
            0 <= i < j < pending_switches(cfg, s).len() ==> #[trigger] pending_switches(cfg, s)[i].0
                != #[trigger] pending_switches(cfg, s)[j].0,
    decreases s.len(),
{
    if s.len() > 0 {
        let t = s.drop_last();
        assert(keys_distinct(t));
        lemma_pending_switches(cfg, t);
        lemma_map_of_push(s);
        let rest = pending_switches(cfg, t);
        let (device, on) = s.last();
        let ps = pending_switches(cfg, s);
        assert(!map_of(t).contains_key(device@)) by {
            if map_of(t).contains_key(device@) {
                let j = choose|j: int| 0 <= j < t.len() && t[j].0@ == device@;
                assert(s[j].0@ == s[s.len() - 1].0@);
            }
        }
        if is_controlled_spec(cfg, device@) && on is Some {
            assert(ps == rest.push((device@, on->0)));
            assert forall|d: Seq<char>, b: bool|
                #[trigger] ps.contains((d, b)) <==> map_of(s).contains_key(d) && map_of(s)[d] == Some(b)
                    && is_controlled_spec(cfg, d) by {
                if ps.contains((d, b)) {
                    let i = choose|i: int| 0 <= i < ps.len() && ps[i] == (d, b);
                    if i < rest.len() {
                        assert(rest.contains((d, b)));
                    }
                }
                if map_of(s).contains_key(d) && map_of(s)[d] == Some(b) && is_controlled_spec(cfg, d) {
                    if d == device@ {
                        assert(ps[rest.len() as int] == (d, b));
                    } else {
                        assert(rest.contains((d, b)));
                        let i = choose|i: int| 0 <= i < rest.len() && rest[i] == (d, b);
                        assert(ps[i] == (d, b));
                    }
                }
            }
            assert forall|i: int| 0 <= i < ps.len() implies #[trigger] map_of(s).contains_key(ps[i].0) by {
                if i < rest.len() {
                    assert(map_of(t).contains_key(rest[i].0));
                }
            }
            assert forall|i: int, j: int| 0 <= i < j < ps.len() implies #[trigger] ps[i].0 != #[trigger] ps[j].0 by {
                if j < rest.len() {
                    assert(rest[i].0 != rest[j].0);
                } else {
                    assert(map_of(t).contains_key(rest[i].0));
                }
            }
        } else {
            assert(ps == rest);
            assert forall|d: Seq<char>, b: bool|
                #[trigger] ps.contains((d, b)) <==> map_of(s).contains_key(d) && map_of(s)[d] == Some(b)
                    && is_controlled_spec(cfg, d) by {
                if ps.contains((d, b)) {
                    assert(rest.contains((d, b)));
                    assert(map_of(t).contains_key(d));
                }
            }
            assert forall|i: int| 0 <= i < ps.len() implies #[trigger] map_of(s).contains_key(ps[i].0) by {
                assert(map_of(t).contains_key(rest[i].0));
            }
        }
    }
}

/// The configuration controls `device` (see `Config::is_controlled`).
pub open spec fn is_controlled_spec(cfg: Config, device: Seq<char>) -> bool {
    cfg.rules.map().contains_key(device) && cfg.rules.map()[device].setting("control"@) == Some(
        Setting::Boolean(true),
    )
}

/// The switches to make are the controlled devices that have a wished
/// state, each with that state (on or off), each once: a device is listed
/// with `b` exactly when it is controlled and its wished state is `Some(b)`.
pub proof fn law_pending_are_the_wished_states(devices: Devices, d: Seq<char>, b: bool)
    requires
        keys_distinct(devices.state_entries()),
    ensures
        pending_switches(devices.cfg_spec(), devices.state_entries()).contains((d, b))
            <==> devices.states().contains_key(d) && devices.states()[d] == Some(b)
            && is_controlled_spec(devices.cfg_spec(), d),
        forall|i: int, j: int|
            0 <= i < j < pending_switches(devices.cfg_spec(), devices.state_entries()).len()
                ==> #[trigger] pending_switches(devices.cfg_spec(), devices.state_entries())[i].0
                != #[trigger] pending_switches(devices.cfg_spec(), devices.state_entries())[j].0,
{
    lemma_pending_switches(devices.cfg_spec(), devices.state_entries());
}

/// The text of a bridge command: the command, a space and the device.
pub open spec fn command_text(cmd: Seq<char>, device: Seq<char>) -> Seq<char> {
    cmd + " "@ + device
}

impl<'a> Devices<'a> {
    /// The configuration.
    pub closed spec fn cfg_spec(&self) -> Config {
        *self.cfg
    }

    /// The wished state of each device.
    pub closed spec fn states(&self) -> Map<Seq<char>, Option<bool>> {
        self.map.map()
    }

    /// The wished states, in order.
    pub closed spec fn state_entries(&self) -> Seq<(String, Option<bool>)> {
        self.map.entries()
    }

    /// Every device with a wished state that has a rule says in a boolean
    /// `control` parameter whether it is controlled; without it the switches
    /// cannot be listed.
    pub open spec fn control_known(&self) -> bool {
        forall|d: Seq<char>|
            #[trigger] self.states().contains_key(d) && self.cfg_spec().rules.map().contains_key(d)
                ==> self.cfg_spec().rules.map()[d].setting("control"@) matches Some(Setting::Boolean(_))
    }

    /// Whether `pending` can tell of each device whether it is controlled.
    pub fn is_control_known(&self) -> (known: bool)
        ensures
            known == self.control_known(),
    {
        let ghost src = self.map.entries();
        let _ = self.map.len();
        let mut i: usize = 0;
        while i < self.map.len()
            invariant
                i <= src.len(),
                src == self.map.entries(),
                keys_distinct(src),
                forall|j: int|
                    0 <= j < i && #[trigger] self.cfg.rules.map().contains_key(src[j].0@)
                        ==> self.cfg.rules.map()[src[j].0@].setting("control"@) matches Some(Setting::Boolean(_)),
            decreases src.len() - i,
        {
            proof {
                lemma_map_of_entry(src, i as int);
            }
            match self.cfg.rules.get(self.map.key_at(i).as_str()) {
                Some(rule) => {
                    if !matches!(rule.get("control"), Some(Setting::Boolean(_))) {
                        assert(self.states().contains_key(src[i as int].0@));
                        return false;
                    }
                },
                None => {},
            }
            i = i + 1;
        }
        proof {
            assert forall|d: Seq<char>|
                #[trigger] self.states().contains_key(d) && self.cfg_spec().rules.map().contains_key(d)
                    implies self.cfg_spec().rules.map()[d].setting("control"@) matches Some(Setting::Boolean(_)) by {
                let j = choose|j: int| 0 <= j < src.len() && src[j].0@ == d;
                assert(self.cfg.rules.map().contains_key(src[j].0@));
            }
        }
        true
    }

    /// Every device of the configuration, with no wished state yet.
    pub fn new(cfg: &'a Config) -> (devices: Devices<'a>)
        ensures
            devices.cfg_spec() == *cfg,
            forall|d: Seq<char>|
                #[trigger] devices.states().contains_key(d) <==> exists|i: int|
                    0 <= i < cfg.meross.devices@.len() && cfg.meross.devices@[i]@ == d,
            forall|d: Seq<char>| #[trigger] devices.states().contains_key(d) ==> devices.states()[d] is None,
    {
        let mut map: StrMap<Option<bool>> = StrMap::new();
        let ghost names = cfg.meross.devices@;
        let mut i: usize = 0;
        while i < cfg.meross.devices.len()
            invariant
                i <= names.len(),
                names == cfg.meross.devices@,
                forall|d: Seq<char>|
                    #[trigger] map.map().contains_key(d) <==> exists|j: int| 0 <= j < i && names[j]@ == d,
                forall|d: Seq<char>| #[trigger] map.map().contains_key(d) ==> map.map()[d] is None,
            decreases names.len() - i,
        {
            map.insert(cfg.meross.devices[i].clone(), None);
            i = i + 1;
            assert forall|d: Seq<char>|
                #[trigger] map.map().contains_key(d) <==> exists|j: int| 0 <= j < i && names[j]@ == d by {
                if exists|j: int| 0 <= j < i && names[j]@ == d {
                    let j = choose|j: int| 0 <= j < i && names[j]@ == d;
                    if j < i - 1 {
                        assert(exists|j2: int| 0 <= j2 < i - 1 && names[j2]@ == d);
                    }
                }
            }
        }
        Devices { cfg, map }
    }

    /// Takes the decisions of the rules: a device with a decision gets it as
    /// its wished state, the others keep theirs.
    pub fn update(&mut self, update: &StrMap<Option<bool>>)
        ensures
            final(self).cfg_spec() == old(self).cfg_spec(),
            forall|d: Seq<char>|
                #[trigger] final(self).states().contains_key(d) <==> old(self).states().contains_key(d) || (
                update.map().contains_key(d) && update.map()[d] is Some),
            forall|d: Seq<char>|
                #[trigger] final(self).states().contains_key(d) ==> final(self).states()[d] == if update.map().contains_key(d)
                    && update.map()[d] is Some {
                    update.map()[d]
                } else {
                    old(self).states()[d]
                },
    {
        let ghost src = update.entries();
        let _ = update.len();
        let mut i: usize = 0;
        while i < update.len()
            invariant
                i <= src.len(),
                src == update.entries(),
                keys_distinct(src),
                self.cfg == old(self).cfg,
                forall|d: Seq<char>|
                    #[trigger] self.map.map().contains_key(d) <==> old(self).map.map().contains_key(d) || (
                    exists|j: int| 0 <= j < i && src[j].0@ == d && src[j].1 is Some),
                forall|d: Seq<char>|
                    #[trigger] self.map.map().contains_key(d) ==> self.map.map()[d] == if exists|j: int|
                        0 <= j < i && src[j].0@ == d && src[j].1 is Some {
                        map_of(src)[d]
                    } else {
                        old(self).map.map()[d]
                    },
            decreases src.len() - i,
        {
            proof {
                lemma_map_of_entry(src, i as int);
            }
            match update.value_at(i) {
                Some(on) => {
                    self.map.insert(update.key_at(i).clone(), Some(*on));
                },
                None => {},
            }
            i = i + 1;
            assert forall|d: Seq<char>|
                #[trigger] self.map.map().contains_key(d) <==> old(self).map.map().contains_key(d) || (
                exists|j: int| 0 <= j < i && src[j].0@ == d && src[j].1 is Some) by {
                if exists|j: int| 0 <= j < i && src[j].0@ == d && src[j].1 is Some {
                    let j = choose|j: int| 0 <= j < i && src[j].0@ == d && src[j].1 is Some;
                    if j < i - 1 {
                        assert(exists|j2: int| 0 <= j2 < i - 1 && src[j2].0@ == d && src[j2].1 is Some);
                    }
                }
            }
            assert forall|d: Seq<char>|
                #[trigger] self.map.map().contains_key(d) implies self.map.map()[d] == if exists|j: int|
                    0 <= j < i && src[j].0@ == d && src[j].1 is Some {
                    map_of(src)[d]
                } else {
                    old(self).map.map()[d]
                } by {
                if exists|j: int| 0 <= j < i && src[j].0@ == d && src[j].1 is Some {
                    let j = choose|j: int| 0 <= j < i && src[j].0@ == d && src[j].1 is Some;
                    lemma_map_of_entry(src, j);
                    if j < i - 1 {
                        assert(exists|j2: int| 0 <= j2 < i - 1 && src[j2].0@ == d && src[j2].1 is Some);
                    }
                } else {
                    if d == src[i - 1].0@ {
                        assert(!(src[i - 1].1 is Some));
                    }
                }
            }
        }
        proof {
            assert forall|d: Seq<char>|
                update.map().contains_key(d) && update.map()[d] is Some <==> exists|j: int|
                    0 <= j < src.len() && src[j].0@ == d && src[j].1 is Some by {
                if update.map().contains_key(d) {
                    let j = choose|j: int| 0 <= j < src.len() && src[j].0@ == d;
                    lemma_map_of_entry(src, j);
                }
                if exists|j: int| 0 <= j < src.len() && src[j].0@ == d && src[j].1 is Some {
                    let j = choose|j: int| 0 <= j < src.len() && src[j].0@ == d && src[j].1 is Some;
                    lemma_map_of_entry(src, j);
                }
            }
        }
    }

    /// The switches to make: each controlled device with a wished state,
    /// with that state, in order.
    pub fn pending(&self) -> (switches: Vec<(String, bool)>)
        requires
            self.control_known(),
        ensures
            switches@.map_values(|s: (String, bool)| (s.0@, s.1)) == pending_switches(
                self.cfg_spec(),
                self.state_entries(),
            ),
    {
        let mut switches: Vec<(String, bool)> = Vec::new();
        let ghost src = self.map.entries();
        let _ = self.map.len();
        let mut i: usize = 0;
        while i < self.map.len()
            invariant
                i <= src.len(),
                src == self.map.entries(),
                keys_distinct(src),
                forall|d: Seq<char>|
                    #[trigger] self.states().contains_key(d) && self.cfg.rules.map().contains_key(d)
                        ==> self.cfg.rules.map()[d].setting("control"@) matches Some(Setting::Boolean(_)),
                switches@.map_values(|s: (String, bool)| (s.0@, s.1)) == pending_switches(
                    *self.cfg,
                    src.take(i as int),
                ),
            decreases src.len() - i,
        {
            let device = self.map.key_at(i);
            let on = self.map.value_at(i);
            proof {
                lemma_map_of_entry(src, i as int);
                assert(self.states().contains_key(device@));
            }
            assert(src.take(i + 1).drop_last() =~= src.take(i as int));
            if self.cfg.is_controlled(device.as_str()) {
                if let Some(on) = on {
                    switches.push((device.clone(), *on));
                }
            }
            i = i + 1;
            assert(switches@.map_values(|s: (String, bool)| (s.0@, s.1)) =~= pending_switches(
                *self.cfg,
                src.take(i as int),
            ));
        }
        assert(src.take(i as int) =~= src);
        switches
    }
}

/// The text sent to the bridge: the command, a space and the device.
pub fn command(cmd: &str, device: &str) -> (text: String)
    ensures
        text@ == command_text(cmd@, device@),
{
    let mut text = String::new();
    text.append(cmd);
    text.append(" ");
    text.append(device);
    assert(text@ =~= command_text(cmd@, device@));
    text
}

/// The command that switches a device to `on`, unless the bridge reported
/// (with `status`) that it already is: the device is on when the status is
/// `ON`.
pub fn switch_command(on: bool, status: &str) -> (cmd: Option<&'static str>)
    ensures
        cmd == if on == (status@ == "ON"@) {
            None::<&'static str>
        } else if on {
            Some("TURNON")
        } else {
            Some("TURNOFF")
        },
{
    let is_on = str_eq(status, "ON");
    if on == is_on {
        None
    } else if on {
        Some("TURNON")
    } else {
        Some("TURNOFF")
    }
}

/// The bridge marks the lines of its replies with a leading `>`; other lines
/// are log output and are skipped.
pub fn is_reply_line(line: &str) -> (r: bool)
    ensures
        r == ">"@.is_prefix_of(line@),
{
    starts_with(line, ">")
}

/// What a reply of the bridge says: `> OK VALUE` carries `VALUE`; any other
/// reply is an error whose message starts at its ninth byte (after
/// `> ERROR `).  Such a reply must have a character boundary there.
pub fn parse_reply(reply: &str) -> (r: Result<String, DevicesError>)
    requires
        !"> OK "@.is_prefix_of(reply@) ==> vstd::utf8::is_char_boundary(reply.spec_bytes(), 8),
    ensures
        "> OK "@.is_prefix_of(reply@) ==> (r matches Ok(v) && v@ == reply@.subrange(5, reply@.len() as int)),
        !"> OK "@.is_prefix_of(reply@) ==> (r matches Err(DevicesError::BridgeError(m)) && encode_utf8(m@)
            == reply.spec_bytes().subrange(8, reply.spec_bytes().len() as int)),
{
    if starts_with(reply, "> OK ") {
        proof {
            reveal_strlit("> OK ");
        }
        Ok(reply.substring_char(5, reply.unicode_len()).to_string())
    } else {
        let (_, message) = reply.split_at(8);
        Err(DevicesError::BridgeError(message.to_string()))
    }
}

} // verus!
