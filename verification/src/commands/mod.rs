//! The chat commands the bot answers.
use crate::clock::{is_valid_moment, Moment};
use crate::rules::Rules;
use crate::telegram::Message;
use vstd::prelude::*;
use vstd::string::*;

pub mod best_hours;
pub mod hello;
pub mod tides;

pub use best_hours::BestHoursCommand;
pub use hello::HelloCommand;
pub use tides::TidesCommand;

verus! {

/// A command the bot knows.
pub enum Command {
    Hello(HelloCommand),
    BestHours(BestHoursCommand),
    Tides(TidesCommand),
}

/// What the bot does with a message.
pub enum Outcome {
    /// Answer with this text.
    Reply(String),
    /// The command failed; answer with `error_reply`.
    Failed(best_hours::Error),
    /// Answer with the tides: fetch them and answer with
    /// `TidesCommand::report`, or with `error_reply` when the fetch fails.
    FetchTides,
}

/// The commands the bot answers, tried in order.
pub struct Commands {
    cmds: Vec<Command>,
}

/// The answer when a command fails.
pub open spec fn error_text(err: Seq<char>) -> Seq<char> {
    "Ocurrió un error:\n"@ + err
}

/// The answer when a command fails with the error `err`.
pub fn error_reply(err: &str) -> (reply: String)
    ensures
        reply@ == error_text(err@),
{
    let mut reply = String::new();
    reply.append("Ocurrió un error:\n");
    reply.append(err);
    reply
}

/// Whether the command answers the message.
pub open spec fn command_applies(cmd: Command, text: Seq<char>) -> bool {
    match cmd {
        Command::Hello(_) => "/hola"@.is_prefix_of(text),
        Command::BestHours(_) => "/horario"@.is_prefix_of(text),
        Command::Tides(_) => "/mareas"@.is_prefix_of(text),
    }
}

impl Commands {
    /// The commands that the bot answers: the tides.
    pub fn new() -> (cmds: Commands)
        ensures
            cmds.commands().len() == 1,
            cmds.commands()[0] is Tides,
    {
        let mut cmds: Vec<Command> = Vec::new();
        cmds.push(Command::Tides(TidesCommand::new()));
        Commands { cmds }
    }

    /// The commands, in order.
    pub closed spec fn commands(&self) -> Seq<Command> {
        self.cmds@
    }

    /// What to do with a message: the first command that answers it decides;
    /// `None` when no command does.
    pub fn run(&self, msg: &Message, rules: &Rules) -> (outcome: Option<Outcome>)
        ensures
            outcome is None <==> forall|i: int|
                0 <= i < self.commands().len() ==> !command_applies(
                    #[trigger] self.commands()[i],
                    msg.text@,
                ),
            outcome is Some ==> exists|i: int|
                0 <= i < self.commands().len() && command_applies(self.commands()[i], msg.text@)
                    && (forall|j: int|
                    0 <= j < i ==> !command_applies(#[trigger] self.commands()[j], msg.text@))
                    && match self.commands()[i] {
                    Command::Hello(_) => outcome matches Some(Outcome::Reply(r)) && r@
                        == hello::greeting(msg.user_name@),
                    Command::BestHours(_) => exists|m: Moment|
                        #![trigger best_hours::from_hour(msg.text@, m)]
                        is_valid_moment(m) && match outcome {
                            Some(Outcome::Reply(r)) => rules.all_applicable(
                                rules.prices_spec().today_spec(),
                                best_hours::from_hour(msg.text@, m),
                                24,
                            ) && r@ == best_hours::best_hours_reply(
                                best_hours::from_hour(msg.text@, m),
                                best_hours::best_hours_lines(*rules, best_hours::from_hour(msg.text@, m)),
                            ),
                            Some(Outcome::Failed(best_hours::Error::NoHoursLeft)) => !rules.all_applicable(
                                rules.prices_spec().today_spec(),
                                best_hours::from_hour(msg.text@, m),
                                24,
                            ),
                            _ => false,
                        },
                    Command::Tides(_) => outcome matches Some(Outcome::FetchTides),
                },
    {
        let mut i: usize = 0;
        while i < self.cmds.len()
            invariant
                i <= self.cmds@.len(),
                forall|j: int| 0 <= j < i ==> !command_applies(#[trigger] self.cmds@[j], msg.text@),
            decreases self.cmds@.len() - i,
        {
            match &self.cmds[i] {
                Command::Hello(cmd) => {
                    let reply = cmd.run(msg, rules);
                    if let Some(reply) = reply {
                        assert(command_applies(self.commands()[i as int], msg.text@));
                        assert(forall|j: int|
                            0 <= j < i ==> !command_applies(#[trigger] self.commands()[j], msg.text@));
                        return Some(Outcome::Reply(reply));
                    }
                },
                Command::BestHours(cmd) => {
                    match cmd.run(msg, rules) {
                        Err(err) => {
                            assert(command_applies(self.commands()[i as int], msg.text@));
                            return Some(Outcome::Failed(err));
                        },
                        Ok(Some(reply)) => {
                            assert(command_applies(self.commands()[i as int], msg.text@));
                            return Some(Outcome::Reply(reply));
                        },
                        Ok(None) => {},
                    }
                },
                Command::Tides(cmd) => {
                    if cmd.applies(msg) {
                        assert(command_applies(self.commands()[i as int], msg.text@));
                        return Some(Outcome::FetchTides);
                    }
                },
            }
            i = i + 1;
        }
        None
    }
}

} // verus!
