//! `/hola`: the bot greets the user by name.
use crate::rules::Rules;
use crate::telegram::Message;
use crate::text::starts_with;
use vstd::prelude::*;
use vstd::string::*;

verus! {

pub struct HelloCommand {}

/// The greeting of a user.
pub open spec fn greeting(user_name: Seq<char>) -> Seq<char> {
    "Hola "@ + user_name + " 👋"@
}

impl HelloCommand {
    pub fn new() -> (cmd: HelloCommand) {
        HelloCommand {}
    }

    /// The greeting, when the message is the `/hola` command; `None`
    /// otherwise.
    pub fn run(&self, msg: &Message, _rules: &Rules) -> (reply: Option<String>)
        ensures
            reply is Some <==> "/hola"@.is_prefix_of(msg.text@),
            reply matches Some(r) ==> r@ == greeting(msg.user_name@),
    {
        if !starts_with(msg.text.as_str(), "/hola") {
            return None;
        }
        let mut reply = String::new();
        reply.append("Hola ");
        reply.append(msg.user_name.as_str());
        reply.append(" 👋");
        Some(reply)
    }
}

} // verus!
