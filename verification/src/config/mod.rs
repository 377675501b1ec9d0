//! The assistant's configuration.
use crate::str_map::{keys_distinct, StrMap};
use vstd::prelude::*;

pub mod types;

verus! {

/// The TOML document of the configuration, carried along unread.
#[verifier::external_type_specification]
#[verifier::external_body]
pub struct ExValue(toml::Value);

/// Where the launcher of the plug bridge lives unless the file says otherwise.
pub const DEFAULT_BRIDGE_PATH: &'static str = "/usr/lib/bautista/meross-bridge-launcher";

pub struct Config {
    pub bautista: Bautista,
    pub esios: Esios,
    pub meross: Meross,
    pub rules: StrMap<Rule>,
    pub telegram: Telegram,
    pub toml: toml::Value,
}

pub struct Bautista {
    pub poll_seconds: u32,
}

pub struct Esios {
    pub token: String,
}

pub struct Meross {
    pub bridge_path: String,
    pub devices: Vec<String>,
    pub password: String,
    pub user: String,
}

/// One value of a device's table in the configuration file: the kinds that
/// rules read, and every other kind of TOML value as `Other`.
pub enum Setting {
    Boolean(bool),
    Text(String),
    Integer(i64),
    Other,
}

impl Setting {
    /// A copy of this value.
    pub fn copy(&self) -> (c: Setting)
        ensures
            c == *self,
    {
        match self {
            Setting::Boolean(b) => Setting::Boolean(*b),
            Setting::Text(s) => Setting::Text(s.clone()),
            Setting::Integer(i) => Setting::Integer(*i),
            Setting::Other => Setting::Other,
        }
    }
}

/// A copy of a device's table.
pub fn copy_settings(settings: &StrMap<Setting>) -> (c: StrMap<Setting>)
    ensures
        c.entries() == settings.entries(),
        c.map() == settings.map(),
{
    let mut c: StrMap<Setting> = StrMap::new();
    let mut i: usize = 0;
    let ghost src = settings.entries();
    let _ = settings.len();
    while i < settings.len()
        invariant
            i <= src.len(),
            src == settings.entries(),
            keys_distinct(src),
            c.entries() == src.take(i as int),
        decreases src.len() - i,
    {
        let key = settings.key_at(i).clone();
        let value = settings.value_at(i).copy();
        proof {
            if c.map().contains_key(key@) {
                let j = choose|j: int| 0 <= j < c.entries().len() && c.entries()[j].0@ == key@;
                assert(src[j].0@ == src[i as int].0@);
            }
        }
        c.insert(key, value);
        i = i + 1;
        assert(c.entries() =~= src.take(i as int));
    }
    assert(src.take(src.len() as int) =~= src);
    c
}

/// The configuration of one device: its name and the table that the file
/// holds for it.
pub struct Rule {
    device: String,
    toml: StrMap<Setting>,
}

impl Rule {
    /// A rule for `device` with the given table.
    pub fn new(device: String, toml: StrMap<Setting>) -> (rule: Rule)
        ensures
            rule.device_spec() == device@,
            rule.settings() == toml.map(),
    {
        Rule { device, toml }
    }

    /// The device that the rule configures.
    pub closed spec fn device_spec(&self) -> Seq<char> {
        self.device@
    }

    /// The device's table.
    pub closed spec fn settings(&self) -> Map<Seq<char>, Setting> {
        self.toml.map()
    }

    /// The value of `key` in the device's table, if any.
    pub open spec fn setting(&self, key: Seq<char>) -> Option<Setting> {
        if self.settings().contains_key(key) {
            Some(self.settings()[key])
        } else {
            None
        }
    }

    /// The value of `key` in the device's table, if any.
    pub fn get(&self, key: &str) -> (value: Option<&Setting>)
        ensures
            match value {
                Some(v) => self.setting(key@) == Some(*v),
                None => self.setting(key@) is None,
            },
    {
        self.toml.get(key)
    }

    /// The kind of rule (`"cheap"` or `"heater"`).
    pub fn rule_type(&self) -> (t: String)
        requires
            self.setting("rule"@) matches Some(Setting::Text(_)),
        ensures
            self.setting("rule"@) matches Some(Setting::Text(s)) && t@ == s@,
    {
        self.get_string("rule")
    }

    /// The boolean parameter `key`, which must be present and a boolean: a
    /// configuration without it is refused before this is asked.
    pub fn get_bool(&self, key: &str) -> (b: bool)
        requires
            self.setting(key@) matches Some(Setting::Boolean(_)),
        ensures
            self.setting(key@) == Some(Setting::Boolean(b)),
    {
        match self.toml.get(key) {
            Some(Setting::Boolean(b)) => *b,
            _ => {
                proof {
                    assert(false);
                }
                false
            },
        }
    }

    /// The string parameter `key`, which must be present and a string.
    pub fn get_string(&self, key: &str) -> (s: String)
        requires
            self.setting(key@) matches Some(Setting::Text(_)),
        ensures
            self.setting(key@) matches Some(Setting::Text(t)) && s@ == t@,
    {
        match self.toml.get(key) {
            Some(Setting::Text(s)) => s.clone(),
            _ => {
                proof {
                    assert(false);
                }
                String::new()
            },
        }
    }

    /// The integer parameter `key`, truncated to 32 bits; it must be present
    /// and an integer.
    pub fn get_u32(&self, key: &str) -> (n: u32)
        requires
            self.setting(key@) matches Some(Setting::Integer(_)),
        ensures
            self.setting(key@) matches Some(Setting::Integer(i)) && n == i as u32,
    {
        match self.toml.get(key) {
            Some(Setting::Integer(i)) => *i as u32,
            _ => {
                proof {
                    assert(false);
                }
                0
            },
        }
    }
}

pub struct Telegram {
    pub admin_user: i64,
    pub allowed_users: Vec<i64>,
    pub token: String,
}

/// `cfg` is the configuration of a file whose sections are `toml`, whose
/// `device` section holds the table `tables[d]` of each entry `d`, and whose
/// whole document is `value`.
///
/// A device listed in the `meross` section gets a rule when the `device`
/// section has an entry for it; the bridge path has a default.
pub open spec fn describes(
    cfg: Config,
    toml: types::Toml,
    tables: Map<Seq<char>, Map<Seq<char>, Setting>>,
    value: toml::Value,
) -> bool {
    &&& cfg.bautista.poll_seconds == toml.bautista.poll_seconds
    &&& cfg.esios.token == toml.esios.token
    &&& cfg.meross.bridge_path@ == (match toml.meross.bridge_path {
        Some(p) => p@,
        None => DEFAULT_BRIDGE_PATH@,
    })
    &&& cfg.meross.devices == toml.meross.devices
    &&& cfg.meross.password == toml.meross.password
    &&& cfg.meross.user == toml.meross.user
    &&& cfg.telegram.admin_user == toml.telegram.admin_user
    &&& cfg.telegram.allowed_users == toml.telegram.allowed_users
    &&& cfg.telegram.token == toml.telegram.token
    &&& forall|d: Seq<char>|
        #[trigger] cfg.rules.map().contains_key(d) <==> (exists|i: int|
            0 <= i < toml.meross.devices@.len() && toml.meross.devices@[i]@ == d)
            && tables.contains_key(d)
    &&& forall|d: Seq<char>|
        #[trigger] cfg.rules.map().contains_key(d) ==> cfg.rules.map()[d].device_spec() == d
            && cfg.rules.map()[d].settings() == tables[d]
    &&& cfg.toml == value
}

/// The tables of a map of tables, each as a map.
pub open spec fn table_maps(devices: Map<Seq<char>, StrMap<Setting>>) -> Map<Seq<char>, Map<Seq<char>, Setting>> {
    Map::new(|d: Seq<char>| devices.contains_key(d), |d: Seq<char>| devices[d].map())
}

/// The map that a list of key/value pairs makes when they are inserted in
/// order (a later pair of the same key wins).
pub open spec fn inserted<V>(s: Seq<(Seq<char>, V)>) -> Map<Seq<char>, V>
    decreases s.len(),
{
    if s.len() == 0 {
        Map::empty()
    } else {
        inserted(s.drop_last()).insert(s.last().0, s.last().1)
    }
}

/// A list of parameters, by view.
pub open spec fn params_view(v: Seq<(String, Setting)>) -> Seq<(Seq<char>, Setting)> {
    v.map_values(|p: (String, Setting)| (p.0@, p.1))
}

/// A list of entries of the `device` section, by view.
pub open spec fn section_view(v: Seq<(String, Vec<(String, Setting)>)>) -> Seq<(Seq<char>, Seq<(Seq<char>, Setting)>)> {
    v.map_values(|e: (String, Vec<(String, Setting)>)| (e.0@, params_view(e.1@)))
}

/// The table of each entry of a `device` section, as a map.
pub open spec fn section_tables(section: Seq<(Seq<char>, Seq<(Seq<char>, Setting)>)>) -> Map<Seq<char>, Map<Seq<char>, Setting>>
    decreases section.len(),
{
    if section.len() == 0 {
        Map::empty()
    } else {
        section_tables(section.drop_last()).insert(section.last().0, inserted(section.last().1))
    }
}

/// What `toml` makes of a text: its document, or `None` when the text is not
/// TOML.
pub uninterp spec fn toml_document(text: Seq<char>) -> Option<toml::Value>;

/// The entries of the `device` section of a document, in the order in which
/// `toml` lists them, each with its parameters as the rules read them.
pub uninterp spec fn toml_device_section(doc: toml::Value) -> Seq<(Seq<char>, Seq<(Seq<char>, Setting)>)>;

/// Parses a configuration text with `toml`'s `FromStr` for `toml::Value`
/// (`str::parse`).  The contract only names the result: the same text gives
/// the same document, and `None` when `toml` refuses the text.
#[verifier::external_body]
fn parse_document(text: &str) -> (doc: Option<toml::Value>)
    ensures
        doc == toml_document(text@),
{
    text.parse::<toml::Value>().ok()
}

/// Reads the `device` section of a document with `toml::Value::get` and the
/// iterators of `toml`'s tables, turning each value kind into a `Setting`
/// (booleans, strings and integers as such, any other kind as `Other`); a
/// missing section, or one that is not a table, has no entries, and an entry
/// that is not a table has no parameters.  The contract only names the
/// result.
#[verifier::external_body]
fn device_section(doc: &toml::Value) -> (section: Vec<(String, Vec<(String, Setting)>)>)
    ensures
        section_view(section@) == toml_device_section(*doc),
{
    match doc.get("device") {
        Some(toml::Value::Table(devices)) => devices.iter().map(|(d, c)| (d.clone(), match c {
            toml::Value::Table(params) => params.iter().map(|(k, v)| (k.clone(), match v {
                toml::Value::Boolean(b) => Setting::Boolean(*b),
                toml::Value::String(t) => Setting::Text(t.clone()),
                toml::Value::Integer(i) => Setting::Integer(*i),
                _ => Setting::Other,
            })).collect(),
            _ => Vec::new(),
        })).collect(),
        _ => Vec::new(),
    }
}

/// The table of a list of parameters.
fn table_of(params: &Vec<(String, Setting)>) -> (t: StrMap<Setting>)
    ensures
        t.map() == inserted(params_view(params@)),
{
    let mut t: StrMap<Setting> = StrMap::new();
    let mut i: usize = 0;
    while i < params.len()
        invariant
            i <= params@.len(),
            t.map() == inserted(params_view(params@.take(i as int))),
        decreases params@.len() - i,
    {
        let key = params[i].0.clone();
        let value = params[i].1.copy();
        t.insert(key, value);
        i = i + 1;
        assert(params_view(params@.take(i as int)).drop_last() =~= params_view(params@.take(i - 1)));
    }
    assert(params@.take(i as int) =~= params@);
    t
}

/// The tables of the entries of a `device` section.
fn tables_of(section: &Vec<(String, Vec<(String, Setting)>)>) -> (t: StrMap<StrMap<Setting>>)
    ensures
        table_maps(t.map()) == section_tables(section_view(section@)),
{
    let mut t: StrMap<StrMap<Setting>> = StrMap::new();
    let mut i: usize = 0;
    while i < section.len()
        invariant
            i <= section@.len(),
            table_maps(t.map()) == section_tables(section_view(section@.take(i as int))),
        decreases section@.len() - i,
    {
        let key = section[i].0.clone();
        let table = table_of(&section[i].1);
        let ghost before = t.map();
        t.insert(key, table);
        i = i + 1;
        assert(section_view(section@.take(i as int)).drop_last() =~= section_view(section@.take(i - 1)));
        assert(table_maps(t.map()) =~= table_maps(before).insert(key@, table.map()));
    }
    assert(section@.take(i as int) =~= section@);
    t
}

impl Config {
    /// The configuration described by a parsed configuration file: `toml`
    /// holds its sections, `devices` the table of each entry of its `device`
    /// section, and `value` the whole document, which the configuration
    /// keeps.
    pub fn from_document(toml: types::Toml, devices: &StrMap<StrMap<Setting>>, value: toml::Value) -> (cfg: Config)
        ensures
            describes(cfg, toml, table_maps(devices.map()), value),
    {
        let mut rules: StrMap<Rule> = StrMap::new();
        let mut i: usize = 0;
        let ghost names = toml.meross.devices@;
        while i < toml.meross.devices.len()
            invariant
                i <= names.len(),
                names == toml.meross.devices@,
                forall|d: Seq<char>|
                    #[trigger] rules.map().contains_key(d) <==> (exists|j: int|
                        0 <= j < i && names[j]@ == d) && devices.map().contains_key(d),
                forall|d: Seq<char>|
                    #[trigger] rules.map().contains_key(d) ==> rules.map()[d].device_spec() == d
                        && rules.map()[d].settings() == devices.map()[d].map(),
            decreases names.len() - i,
        {
            let device = &toml.meross.devices[i];
            match devices.get(device.as_str()) {
                Some(table) => {
                    let rule = Rule::new(device.clone(), copy_settings(table));
                    rules.insert(device.clone(), rule);
                },
                None => {},
            }
            i = i + 1;
            assert forall|d: Seq<char>|
                #[trigger] rules.map().contains_key(d) <==> (exists|j: int|
                    0 <= j < i && names[j]@ == d) && devices.map().contains_key(d) by {
                if exists|j: int| 0 <= j < i && names[j]@ == d {
                    let j = choose|j: int| 0 <= j < i && names[j]@ == d;
                    if j < i - 1 {
                        assert(exists|j2: int| 0 <= j2 < i - 1 && names[j2]@ == d);
                    }
                }
            }
        }
        let bridge_path = match toml.meross.bridge_path {
            Some(p) => p,
            None => DEFAULT_BRIDGE_PATH.to_string(),
        };
        Config {
            bautista: Bautista { poll_seconds: toml.bautista.poll_seconds },
            esios: Esios { token: toml.esios.token },
            meross: Meross {
                bridge_path,
                devices: toml.meross.devices,
                password: toml.meross.password,
                user: toml.meross.user,
            },
            rules,
            telegram: Telegram {
                admin_user: toml.telegram.admin_user,
                allowed_users: toml.telegram.allowed_users,
                token: toml.telegram.token,
            },
            toml: value,
        }
    }

    /// The configuration of a configuration file's text, whose sections
    /// were read as `toml`: the document that `toml` makes of the text, with
    /// the tables of its `device` section.  `None` when the text is not TOML.
    pub fn from_text(text: &str, toml: types::Toml) -> (cfg: Option<Config>)
        ensures
            match cfg {
                Some(c) => toml_document(text@) matches Some(doc) && describes(
                    c,
                    toml,
                    section_tables(toml_device_section(doc)),
                    doc,
                ),
                None => toml_document(text@) is None,
            },
    {
        match parse_document(text) {
            Some(doc) => {
                let section = device_section(&doc);
                let tables = tables_of(&section);
                Some(Config::from_document(toml, &tables, doc))
            },
            None => None,
        }
    }

    /// The rule of `device`, if the configuration has one.
    pub fn get_rule(&self, device: &str) -> (rule: Option<&Rule>)
        ensures
            match rule {
                Some(r) => self.rules.map().contains_key(device@) && *r == self.rules.map()[device@],
                None => !self.rules.map().contains_key(device@),
            },
    {
        self.rules.get(device)
    }

    /// Whether the assistant switches `device` itself: its rule says so in
    /// its `control` parameter; a device without a rule is not controlled.
    pub fn is_controlled(&self, device: &str) -> (controlled: bool)
        requires
            self.rules.map().contains_key(device@) ==> self.rules.map()[device@].setting(
                "control"@,
            ) matches Some(Setting::Boolean(_)),
        ensures
            controlled == (self.rules.map().contains_key(device@)
                && self.rules.map()[device@].setting("control"@) == Some(Setting::Boolean(true))),
    {
        match self.rules.get(device) {
            Some(rule) => rule.get_bool("control"),
            None => false,
        }
    }
}

} // verus!
