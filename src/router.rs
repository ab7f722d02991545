//! Routing of inbound chat messages: who sent a message and where decides
//! which raffle operation it asks for.

use vstd::prelude::*;
use vstd::string::*;

use crate::command::{
    codes_of, parse_command, secret_of, Command, END_RAFFLE, GIFTCARDS_COUNT,
    PARTICIPANTS_COUNT, START_RAFFLE,
};
use crate::state::{is_open, joined, restarted, RaffleState, RaffleView};
use crate::text::{contains_text, decimal, decimal_text, is_prefix, occurs_in, owned_text, same_text};

verus! {

/// The reply to a start command.
pub const RAFFLE_STARTED: &'static str = "Raffle started";

/// The reply once a drawing is over.
pub const GAVE_OUT_ALL: &'static str = "Horray! We gave out all the gift cards!";

/// The reply to a participant while no raffle is under way.
pub const NO_ONGOING_RAFFLE: &'static str = "Sorry! There's no ongoing raffle at the moment. Watch out for future raffles in our user group!";

/// The reply to a participant whose message lacks the secret code.
pub const INCORRECT_SECRET_CODE: &'static str = "⛔ Incorrect secret code! Please provide the correct code to enter the raffle 🔑";

/// The reply to a participant who has joined.
pub const ENTERED: &'static str = "🎉 Yay! You've been entered into the raffle!";

/// Where a message was sent.
#[derive(Clone, Copy, Debug, PartialEq, Eq, Structural)]
pub enum ChatScope {
    /// A direct chat between one user and the bot.
    Private,
    /// A group, a channel or any other chat.
    Other,
}

/// An inbound message, as the transport hands it over.
pub struct Inbound {
    pub scope: ChatScope,
    pub username: Option<String>,
    pub chat_id: Option<i64>,
    pub text: Option<String>,
}

/// What the bot answers.
#[derive(Clone, Copy, Debug, PartialEq, Eq, Structural)]
pub enum Reply {
    RaffleStarted,
    GaveOutAll,
    Count(usize),
    NoOngoingRaffle,
    IncorrectSecretCode,
    Entered,
}

/// What is to be done about a message.
#[derive(Clone, Copy, Debug, PartialEq, Eq, Structural)]
pub enum Action {
    /// Send `reply` to the chat `chat_id`.
    Reply { chat_id: i64, reply: Reply },
    /// Run the drawing, then tell the chat `chat_id` that it is over.
    Draw { chat_id: i64 },
}

/// Why a message gets no answer.
#[derive(Clone, Copy, Debug, PartialEq, Eq, Structural)]
pub enum RouteError {
    /// The message has no text.
    MissingText,
    /// The message was not sent in a direct chat.
    NotApplicable,
    /// The message names no chat to answer.
    MissingChatId,
    /// The administrator's text is no command.
    UnknownCommand,
}

/// The text of a reply.
pub open spec fn reply_text(r: Reply) -> Seq<char> {
    match r {
        Reply::RaffleStarted => RAFFLE_STARTED@,
        Reply::GaveOutAll => GAVE_OUT_ALL@,
        Reply::Count(n) => decimal(n as nat),
        Reply::NoOngoingRaffle => NO_ONGOING_RAFFLE@,
        Reply::IncorrectSecretCode => INCORRECT_SECRET_CODE@,
        Reply::Entered => ENTERED@,
    }
}

impl Reply {
    /// The text to send.
    pub fn text(&self) -> (r: String)
        ensures
            r@ == reply_text(*self),
    {
        match self {
            Reply::RaffleStarted => owned_text(RAFFLE_STARTED),
            Reply::GaveOutAll => owned_text(GAVE_OUT_ALL),
            Reply::Count(n) => decimal_text(*n),
            Reply::NoOngoingRaffle => owned_text(NO_ONGOING_RAFFLE),
            Reply::IncorrectSecretCode => owned_text(INCORRECT_SECRET_CODE),
            Reply::Entered => owned_text(ENTERED),
        }
    }
}

/// The sender is the administrator: a sender without a username counts as
/// having the empty one.
pub open spec fn from_admin(username: Option<String>, admin: Seq<char>) -> bool {
    match username {
        Some(u) => u@ == admin,
        None => admin.len() == 0,
    }
}

/// What a participant's message with text `t` does to state `v` from chat `id`.
pub open spec fn participant_outcome(v: RaffleView, id: i64, t: Seq<char>) -> (RaffleView, Reply) {
    if !is_open(v) {
        (v, Reply::NoOngoingRaffle)
    } else if v.secret_code is Some && !occurs_in(t, v.secret_code->0) {
        (v, Reply::IncorrectSecretCode)
    } else {
        (joined(v, id), Reply::Entered)
    }
}

/// Handles one inbound message against the raffle state: changes the state as
/// the message asks and says what to answer, or why nothing is answered.
pub fn handle_message(state: &mut RaffleState, msg: &Inbound, admin: &str) -> (r: Result<
    Action,
    RouteError,
>)
    requires
        old(state).wf(),
    ensures
        final(state).wf(),
        msg.text is None ==> (r == Err::<Action, RouteError>(RouteError::MissingText)
            && final(state)@ == old(state)@),
        (msg.text is Some && msg.scope != ChatScope::Private) ==> (r == Err::<Action, RouteError>(
            RouteError::NotApplicable) && final(state)@ == old(state)@),
        (msg.text is Some && msg.scope == ChatScope::Private && msg.chat_id is None) ==> (r
            == Err::<Action, RouteError>(RouteError::MissingChatId) && final(state)@ == old(state)@),
        (msg.text is Some && msg.scope == ChatScope::Private && msg.chat_id is Some) ==> ({
            let t = msg.text->0@;
            let id = msg.chat_id->0;
            if from_admin(msg.username, admin@) {
                if is_prefix(t, START_RAFFLE@) {
                    &&& final(state)@ == restarted(old(state)@, codes_of(t), secret_of(t))
                    &&& r == Ok::<Action, RouteError>(
                        Action::Reply { chat_id: id, reply: Reply::RaffleStarted },
                    )
                } else if t == END_RAFFLE@ {
                    &&& final(state)@ == old(state)@
                    &&& r == Ok::<Action, RouteError>(Action::Draw { chat_id: id })
                } else if t == PARTICIPANTS_COUNT@ {
                    &&& final(state)@ == old(state)@
                    &&& r == Ok::<Action, RouteError>(
                        Action::Reply {
                            chat_id: id,
                            reply: Reply::Count(old(state)@.participants.len() as usize),
                        },
                    )
                } else if t == GIFTCARDS_COUNT@ {
                    &&& final(state)@ == old(state)@
                    &&& r == Ok::<Action, RouteError>(
                        Action::Reply {
                            chat_id: id,
                            reply: Reply::Count(old(state)@.giftcards.len() as usize),
                        },
                    )
                } else {
                    &&& final(state)@ == old(state)@
                    &&& r == Err::<Action, RouteError>(RouteError::UnknownCommand)
                }
            } else {
                let (v, reply) = participant_outcome(old(state)@, id, t);
                &&& final(state)@ == v
                &&& r == Ok::<Action, RouteError>(Action::Reply { chat_id: id, reply })
            }
        }),
{
    let text = match &msg.text {
        Some(t) => t.as_str(),
        None => {
            return Err(RouteError::MissingText);
        },
    };
    if msg.scope != ChatScope::Private {
        return Err(RouteError::NotApplicable);
    }
    let chat_id = match msg.chat_id {
        Some(id) => id,
        None => {
            return Err(RouteError::MissingChatId);
        },
    };
    let is_admin = match &msg.username {
        Some(u) => same_text(u.as_str(), admin),
        None => admin.unicode_len() == 0,
    };
    proof {
        reveal_strlit("#StartRaffle");
        reveal_strlit("#EndRaffle");
        reveal_strlit("#ParticipantsCount");
        reveal_strlit("#GiftcardsCount");
        assert(END_RAFFLE@.len() != PARTICIPANTS_COUNT@.len());
        assert(END_RAFFLE@.len() != GIFTCARDS_COUNT@.len());
        assert(PARTICIPANTS_COUNT@.len() != GIFTCARDS_COUNT@.len());
    }
    if is_admin {
        match parse_command(text) {
            Some(Command::StartRaffle { giftcards, secret_code }) => {
                state.restart(giftcards, secret_code);
                Ok(Action::Reply { chat_id, reply: Reply::RaffleStarted })
            },
            Some(Command::EndRaffle) => Ok(Action::Draw { chat_id }),
            Some(Command::ParticipantsCount) => {
                let n = state.participants_count();
                Ok(Action::Reply { chat_id, reply: Reply::Count(n) })
            },
            Some(Command::GiftcardsCount) => {
                let n = state.giftcards_count();
                Ok(Action::Reply { chat_id, reply: Reply::Count(n) })
            },
            None => Err(RouteError::UnknownCommand),
        }
    } else if !state.is_open() {
        Ok(Action::Reply { chat_id, reply: Reply::NoOngoingRaffle })
    } else {
        match state.secret_code() {
            Some(code) => {
                if !contains_text(text, code.as_str()) {
                    return Ok(Action::Reply { chat_id, reply: Reply::IncorrectSecretCode });
                }
            },
            None => {},
        }
        state.join(chat_id);
        Ok(Action::Reply { chat_id, reply: Reply::Entered })
    }
}

} // verus!
