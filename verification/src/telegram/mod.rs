//! The chat bot: the requests it sends to the Telegram bot API and the
//! messages it takes from the replies.
use crate::config::Config;
use crate::status::Status;
use crate::text::{push_signed_decimal, signed_decimal};
use vstd::prelude::*;
use vstd::string::*;
use vstd::utf8::encode_utf8;

pub mod api;

verus! {

/// A chat message addressed to the bot.
pub struct Message {
    pub user_id: i64,
    pub user_name: String,
    pub text: String,
}

/// Bytes that URL encoding keeps: ASCII letters and digits, `-`, `.`, `_`
/// and `~`.
pub open spec fn is_unreserved(b: u8) -> bool {
    (48 <= b <= 57) || (65 <= b <= 90) || (97 <= b <= 122) || b == 45 || b == 46 || b == 95 || b
        == 126
}

/// An upper-case hexadecimal digit.
pub open spec fn hex_digit(d: int) -> char {
    if d < 10 {
        (48 + d) as char
    } else {
        (55 + d) as char
    }
}

/// URL encoding of bytes: unreserved bytes stay, every other byte becomes
/// `%` and its two upper-case hexadecimal digits.
pub open spec fn percent_encode_bytes(bytes: Seq<u8>) -> Seq<char>
    decreases bytes.len(),
{
    if bytes.len() == 0 {
        Seq::empty()
    } else {
        let b = bytes[0];
        (if is_unreserved(b) {
            seq![b as char]
        } else {
            seq!['%', hex_digit((b / 16) as int), hex_digit((b % 16) as int)]
        }) + percent_encode_bytes(bytes.drop_first())
    }
}

/// URL encoding of a text: of its UTF-8 bytes.
pub open spec fn url_encoded(s: Seq<char>) -> Seq<char> {
    percent_encode_bytes(encode_utf8(s))
}

/// Percent-encodes `s` by calling `urlencoding::encode`, which keeps ASCII
/// letters, digits, `-`, `.`, `_` and `~` and writes every other byte of the
/// UTF-8 encoding as `%XX` in upper-case hexadecimal; the contract states
/// exactly that.
#[verifier::external_body]
fn url_encode(s: &str) -> (encoded: String)
    ensures
        encoded@ == url_encoded(s@),
{
    urlencoding::encode(s).into_owned()
}

/// The query part of a request: `NAME=VALUE&` for each parameter, with the
/// value URL-encoded.
pub open spec fn query_text(params: Seq<(String, String)>) -> Seq<char>
    decreases params.len(),
{
    if params.len() == 0 {
        Seq::empty()
    } else {
        query_text(params.drop_last()) + params.last().0@ + "="@ + url_encoded(params.last().1@)
            + "&"@
    }
}

/// The address of a call of the bot API.
pub open spec fn request_url(token: Seq<char>, method: Seq<char>, params: Seq<(String, String)>) -> Seq<char> {
    "https://api.telegram.org/bot"@ + token + "/"@ + method + "?"@ + query_text(params)
}

/// The chat bot: who may talk to it, its persistent status and its token.
pub struct Bot {
    admin_user: i64,
    allowed_users: Vec<i64>,
    status: Status,
    token: String,
}

impl Bot {
    pub closed spec fn admin_user_spec(&self) -> i64 {
        self.admin_user
    }

    pub closed spec fn allowed_users_spec(&self) -> Seq<i64> {
        self.allowed_users@
    }

    pub closed spec fn token_spec(&self) -> Seq<char> {
        self.token@
    }

    pub closed spec fn status_spec(&self) -> &Status {
        &self.status
    }

    /// A bot with the users and token of the configuration.
    pub fn new(cfg: &Config, status: Status) -> (bot: Bot)
        ensures
            bot.admin_user_spec() == cfg.telegram.admin_user,
            bot.allowed_users_spec() == cfg.telegram.allowed_users@,
            bot.token_spec() == cfg.telegram.token@,
            bot.status_spec() == &status,
    {
        let mut allowed_users: Vec<i64> = Vec::new();
        let mut i: usize = 0;
        while i < cfg.telegram.allowed_users.len()
            invariant
                i <= cfg.telegram.allowed_users@.len(),
                allowed_users@ == cfg.telegram.allowed_users@.take(i as int),
            decreases cfg.telegram.allowed_users@.len() - i,
        {
            allowed_users.push(cfg.telegram.allowed_users[i]);
            i = i + 1;
            assert(allowed_users@ =~= cfg.telegram.allowed_users@.take(i as int));
        }
        assert(cfg.telegram.allowed_users@.take(i as int) =~= cfg.telegram.allowed_users@);
        Bot {
            admin_user: cfg.telegram.admin_user,
            allowed_users,
            status,
            token: cfg.telegram.token.clone(),
        }
    }

    /// The bot's status.
    pub fn status(&self) -> (status: &Status)
        ensures
            status == self.status_spec(),
    {
        &self.status
    }

    /// The administrator, who is told about failures.
    pub fn admin_user(&self) -> (user: i64)
        ensures
            user == self.admin_user_spec(),
    {
        self.admin_user
    }

    /// Whom a broadcast reaches: the administrator, then every allowed user.
    pub fn broadcast_recipients(&self) -> (users: Vec<i64>)
        ensures
            users@ == seq![self.admin_user_spec()] + self.allowed_users_spec(),
    {
        let mut users: Vec<i64> = Vec::new();
        users.push(self.admin_user);
        let mut i: usize = 0;
        while i < self.allowed_users.len()
            invariant
                i <= self.allowed_users@.len(),
                users@ == seq![self.admin_user] + self.allowed_users@.take(i as int),
            decreases self.allowed_users@.len() - i,
        {
            users.push(self.allowed_users[i]);
            i = i + 1;
            assert(users@ =~= seq![self.admin_user] + self.allowed_users@.take(i as int));
        }
        assert(self.allowed_users@.take(i as int) =~= self.allowed_users@);
        users
    }

    /// The address of a call of method `method` with the given parameters.
    pub fn request_url(&self, method: &str, params: &Vec<(String, String)>) -> (url: String)
        ensures
            url@ == request_url(self.token_spec(), method@, params@),
    {
        let mut url = String::new();
        url.append("https://api.telegram.org/bot");
        url.append(self.token.as_str());
        url.append("/");
        url.append(method);
        url.append("?");
        let ghost prefix = url@;
        let mut i: usize = 0;
        while i < params.len()
            invariant
                i <= params@.len(),
                url@ == prefix + query_text(params@.take(i as int)),
            decreases params@.len() - i,
        {
            let (name, value) = &params[i];
            let encoded = url_encode(value.as_str());
            url.append(name.as_str());
            url.append("=");
            url.append(encoded.as_str());
            url.append("&");
            i = i + 1;
            assert(params@.take(i as int).drop_last() =~= params@.take(i - 1));
            assert(url@ =~= prefix + query_text(params@.take(i as int)));
        }
        assert(params@.take(i as int) =~= params@);
        url
    }

    /// The parameters of a request for new messages: the updates after the
    /// last one taken, a long-poll of `timeout_seconds`, messages only.
    pub open spec fn updates_params(&self, timeout_seconds: u32) -> Seq<(Seq<char>, Seq<char>)> {
        seq![
            ("offset"@, signed_decimal(self.status_spec().telegram.last_update_id_spec() + 1)),
            ("timeout"@, signed_decimal(timeout_seconds as int)),
            ("allowed_updates"@, "[\"message\"]"@),
        ]
    }

    /// The address of the request for new messages.
    pub fn updates_url(&self, timeout_seconds: u32) -> (url: String)
        requires
            self.status_spec().telegram.last_update_id_spec() < i64::MAX,
        ensures
            exists|params: Seq<(String, String)>|
                #![trigger request_url(self.token_spec(), "getUpdates"@, params)]
                params.map_values(|p: (String, String)| (p.0@, p.1@)) == self.updates_params(timeout_seconds)
                    && url@ == request_url(self.token_spec(), "getUpdates"@, params),
    {
        let offset = self.status.telegram.last_update_id() + 1;
        let mut params: Vec<(String, String)> = Vec::new();
        params.push(("offset".to_string(), crate::text::signed_decimal_string(offset)));
        params.push(("timeout".to_string(), crate::text::signed_decimal_string(timeout_seconds as i64)));
        params.push(("allowed_updates".to_string(), "[\"message\"]".to_string()));
        let url = self.request_url("getUpdates", &params);
        assert(params@.map_values(|p: (String, String)| (p.0@, p.1@)) =~= self.updates_params(timeout_seconds));
        url
    }

    /// The address of the request that sends `text` to `user_id`.
    pub fn send_message_url(&self, user_id: i64, text: &str) -> (url: String)
        ensures
            exists|params: Seq<(String, String)>|
                #![trigger request_url(self.token_spec(), "sendMessage"@, params)]
                params.map_values(|p: (String, String)| (p.0@, p.1@)) == seq![
                    ("chat_id"@, signed_decimal(user_id as int)),
                    ("text"@, text@),
                ] && url@ == request_url(self.token_spec(), "sendMessage"@, params),
    {
        let mut params: Vec<(String, String)> = Vec::new();
        params.push(("chat_id".to_string(), crate::text::signed_decimal_string(user_id)));
        params.push(("text".to_string(), text.to_string()));
        let url = self.request_url("sendMessage", &params);
        assert(params@.map_values(|p: (String, String)| (p.0@, p.1@)) =~= seq![
            ("chat_id"@, signed_decimal(user_id as int)),
            ("text"@, text@),
        ]);
        url
    }

    /// Records `id` as the id of the last chat update taken (the caller
    /// saves the status afterwards).
    pub fn set_last_update_id(&mut self, id: i64)
        ensures
            final(self).status_spec().telegram.last_update_id_spec() == id,
            final(self).admin_user_spec() == old(self).admin_user_spec(),
            final(self).allowed_users_spec() == old(self).allowed_users_spec(),
            final(self).token_spec() == old(self).token_spec(),
    {
        self.status.telegram.set_last_update_id(id);
    }
}

impl Message {
    /// The message of an update: its sender's id and first name and its text
    /// (empty when it has none).
    pub fn from_update(update: api::Update) -> (msg: Message)
        requires
            update.message matches Some(m) && m.from is Some,
        ensures
            update.message matches Some(m) && m.from matches Some(from) && msg.user_id == from.id
                && msg.user_name == from.first_name && msg.text@ == (match m.text {
                Some(t) => t@,
                None => Seq::<char>::empty(),
            }),
    {
        match update.message {
            Some(m) => match m.from {
                Some(from) => Message {
                    user_id: from.id,
                    user_name: from.first_name,
                    text: match m.text {
                        Some(t) => t,
                        None => String::new(),
                    },
                },
                None => {
                    proof {
                        assert(false);
                    }
                    Message { user_id: 0, user_name: String::new(), text: String::new() }
                },
            },
            None => {
                proof {
                    assert(false);
                }
                Message { user_id: 0, user_name: String::new(), text: String::new() }
            },
        }
    }
}

} // verus!
