//! The administrator's commands, read from a message's text.

use vstd::prelude::*;
use vstd::string::*;

use crate::state::opt_text;
use crate::text::{
    is_prefix, is_reward_code, lines_of, reward_code_ok, same_text, split_lines,
    starts_with_text, trim_text, trimmed, texts,
};

verus! {

/// Opens a message that starts a raffle.
pub const START_RAFFLE: &'static str = "#StartRaffle";

/// Opens the line that sets the secret code.
pub const SECRET_CODE: &'static str = "#SecretCode";

/// Ends the raffle with a drawing.
pub const END_RAFFLE: &'static str = "#EndRaffle";

/// Asks how many participants have joined.
pub const PARTICIPANTS_COUNT: &'static str = "#ParticipantsCount";

/// Asks how many reward codes remain.
pub const GIFTCARDS_COUNT: &'static str = "#GiftcardsCount";

/// A command of the administrator.
pub enum Command {
    /// Start a raffle with these reward codes and this secret code.
    StartRaffle { giftcards: Vec<String>, secret_code: Option<String> },
    /// Draw the winners and close the raffle.
    EndRaffle,
    /// Report the number of participants.
    ParticipantsCount,
    /// Report the number of reward codes left.
    GiftcardsCount,
}

/// The secret code that a start message sets: the first line after the opening
/// one, when it begins with the secret-code marker, without that marker and
/// trimmed.
pub open spec fn secret_of(t: Seq<char>) -> Option<Seq<char>> {
    let ls = lines_of(t);
    if ls.len() >= 2 && is_prefix(ls[1], SECRET_CODE@) {
        Some(trimmed(ls[1].subrange(SECRET_CODE@.len() as int, ls[1].len() as int)))
    } else {
        None
    }
}

/// The lines of a start message that may be reward codes: all after the first
/// two (the opening line, and the line kept for a secret code).
pub open spec fn candidates_of(t: Seq<char>) -> Seq<Seq<char>> {
    let ls = lines_of(t);
    if ls.len() >= 2 {
        ls.subrange(2, ls.len() as int)
    } else {
        seq![]
    }
}

/// The reward codes that a start message gives: its candidate lines that are
/// well-formed codes.
pub open spec fn codes_of(t: Seq<char>) -> Set<Seq<char>> {
    Set::new(|l: Seq<char>| candidates_of(t).contains(l) && reward_code_ok(l))
}

/// The well-formed codes among the candidate lines before position `k`.
spec fn codes_before(c: Seq<Seq<char>>, k: int) -> Set<Seq<char>> {
    Set::new(|l: Seq<char>| c.subrange(0, k).contains(l) && reward_code_ok(l))
}

/// Reads the parts of a start message: its reward codes and its secret code.
pub fn parse_start(text: &str) -> (r: (Vec<String>, Option<String>))
    ensures
        texts(r.0@).to_set() == codes_of(text@),
        opt_text(r.1) == secret_of(text@),
{
    let lines = split_lines(text);
    let ghost ls = lines_of(text@);
    let mut secret: Option<String> = None;
    if lines.len() >= 2 {
        assert(texts(lines@)[1] == lines@[1]@);
        let second = lines[1].as_str();
        if starts_with_text(second, SECRET_CODE) {
            let n = second.unicode_len();
            let rest = second.substring_char(SECRET_CODE.unicode_len(), n);
            secret = Some(trim_text(rest));
        }
    }
    let ghost c = candidates_of(text@);
    assert(ls.len() == lines@.len());
    let mut codes: Vec<String> = Vec::new();
    let mut k: usize = 2;
    assert(texts(codes@).to_set() =~= codes_before(c, 0));
    while k < lines.len()
        invariant
            texts(lines@) == ls,
            ls == lines_of(text@),
            c == candidates_of(text@),
            ls.len() == lines@.len(),
            lines@.len() >= 2 ==> c == ls.subrange(2, ls.len() as int),
            2 <= k,
            lines@.len() >= 2 ==> k <= lines@.len(),
            lines@.len() >= 2 ==> texts(codes@).to_set() == codes_before(c, k - 2),
            lines@.len() < 2 ==> codes@.len() == 0,
        decreases lines@.len() - k,
    {
        let line = lines[k].as_str();
        assert(texts(lines@)[k as int] == line@);
        assert(c[k - 2] == line@);
        let ghost before = codes@;
        if is_reward_code(line) {
            codes.push(lines[k].clone());
            assert(texts(codes@) =~= texts(before).push(line@));
            proof {
                texts(before).lemma_push_to_set_commute(line@);
            }
        }
        proof {
            let prev = c.subrange(0, k - 2);
            assert(c.subrange(0, k - 1) =~= prev.push(line@));
            prev.lemma_push_to_set_commute(line@);
            assert forall|l: Seq<char>|
                #![auto]
                codes_before(c, k - 1).contains(l) <==> (codes_before(c, k - 2).contains(l) || (l
                    == line@ && reward_code_ok(l))) by {
                assert(prev.push(line@).to_set().contains(l) == prev.push(line@).contains(l));
                assert(prev.to_set().contains(l) == prev.contains(l));
            }
        }
        assert(texts(codes@).to_set() =~= codes_before(c, k - 1));
        k = k + 1;
    }
    proof {
        if lines@.len() >= 2 {
            assert(c.subrange(0, c.len() as int) =~= c);
            assert(codes_before(c, k - 2) =~= codes_of(text@));
        } else {
            assert(texts(codes@).to_set() =~= codes_of(text@));
        }
    }
    (codes, secret)
}


/// Reads an administrator's command from a message's text; `None` where the
/// text is no command.
pub fn parse_command(text: &str) -> (r: Option<Command>)
    ensures
        match r {
            Some(Command::StartRaffle { giftcards, secret_code }) => {
                &&& is_prefix(text@, START_RAFFLE@)
                &&& texts(giftcards@).to_set() == codes_of(text@)
                &&& opt_text(secret_code) == secret_of(text@)
            },
            Some(Command::EndRaffle) => !is_prefix(text@, START_RAFFLE@) && text@ == END_RAFFLE@,
            Some(Command::ParticipantsCount) => !is_prefix(text@, START_RAFFLE@) && text@
                == PARTICIPANTS_COUNT@,
            Some(Command::GiftcardsCount) => !is_prefix(text@, START_RAFFLE@) && text@
                == GIFTCARDS_COUNT@,
            None => {
                &&& !is_prefix(text@, START_RAFFLE@)
                &&& text@ != END_RAFFLE@
                &&& text@ != PARTICIPANTS_COUNT@
                &&& text@ != GIFTCARDS_COUNT@
            },
        },
{
    if starts_with_text(text, START_RAFFLE) {
        let (giftcards, secret_code) = parse_start(text);
        Some(Command::StartRaffle { giftcards, secret_code })
    } else if same_text(text, END_RAFFLE) {
        Some(Command::EndRaffle)
    } else if same_text(text, PARTICIPANTS_COUNT) {
        Some(Command::ParticipantsCount)
    } else if same_text(text, GIFTCARDS_COUNT) {
        Some(Command::GiftcardsCount)
    } else {
        None
    }
}

} // verus!
