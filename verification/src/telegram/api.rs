//! The shapes of the replies of the Telegram bot API.
use vstd::prelude::*;

verus! {

pub struct Update {
    pub update_id: i64,
    pub message: Option<Message>,
}

pub struct Message {
    pub message_id: i64,
    pub from: Option<User>,
    pub date: i32,
    pub chat: Chat,
    pub text: Option<String>,
}

pub struct Chat {
    pub id: i64,
}

pub struct User {
    pub id: i64,
    pub is_bot: bool,
    pub first_name: String,
}

pub struct Reply<T> {
    pub ok: bool,
    pub result: T,
}

} // verus!
