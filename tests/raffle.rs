use raffle_bot::{
    contains_text, handle_message, is_reward_code, parse_command, parse_start, split_lines, text_below,
    Action, ChatScope, Command, Drawing, Inbound, RaffleState, Reply, RouteError,
};

const ADMIN: &str = "boss";

fn admin_msg(text: &str) -> Inbound {
    Inbound {
        scope: ChatScope::Private,
        username: Some(ADMIN.to_string()),
        chat_id: Some(1),
        text: Some(text.to_string()),
    }
}

fn user_msg(chat_id: i64, text: &str) -> Inbound {
    Inbound {
        scope: ChatScope::Private,
        username: Some(format!("user{chat_id}")),
        chat_id: Some(chat_id),
        text: Some(text.to_string()),
    }
}

fn reply_of(r: Result<Action, RouteError>) -> Reply {
    match r {
        Ok(Action::Reply { reply, .. }) => reply,
        other => panic!("unexpected outcome {:?}", other),
    }
}

fn sorted(mut v: Vec<String>) -> Vec<String> {
    v.sort();
    v
}

#[test]
fn reward_code_format() {
    assert!(is_reward_code("ABCDEF"));
    assert!(!is_reward_code("ABC12"));
    assert!(!is_reward_code("abcdef"));
    assert!(is_reward_code("AB12CD34"));
    assert!(!is_reward_code("ABC DEF"));
    assert!(!is_reward_code("ABC-DEF"));
    assert!(!is_reward_code(""));
}

#[test]
fn start_raffle_accepts_only_valid_codes() {
    let mut st = RaffleState::new();
    let r = handle_message(&mut st, &admin_msg("#StartRaffle\n\nABCDEF\nABC12\nabcdef\nZZ99ZZ\n"), ADMIN);
    assert_eq!(r, Ok(Action::Reply { chat_id: 1, reply: Reply::RaffleStarted }));
    assert_eq!(sorted(st.giftcards().clone()), vec!["ABCDEF".to_string(), "ZZ99ZZ".to_string()]);
    assert_eq!(st.secret_code(), &None);
}

#[test]
fn first_line_after_marker_is_never_a_code() {
    let (codes, secret) = parse_start("#StartRaffle\nABCDEF\nGHIJKL");
    assert_eq!(codes, vec!["GHIJKL".to_string()]);
    assert_eq!(secret, None);
}

#[test]
fn secret_code_is_stripped_and_trimmed() {
    let (codes, secret) = parse_start("#StartRaffle\n#SecretCode   GOLD  \nABCDEF");
    assert_eq!(codes, vec!["ABCDEF".to_string()]);
    assert_eq!(secret, Some("GOLD".to_string()));
}

#[test]
fn duplicate_codes_are_kept_once() {
    let mut st = RaffleState::new();
    handle_message(&mut st, &admin_msg("#StartRaffle\n\nABCDEF\nABCDEF\nABCDEF"), ADMIN).unwrap();
    assert_eq!(st.giftcards_count(), 1);
}

#[test]
fn secret_code_gates_entry() {
    let mut st = RaffleState::new();
    handle_message(&mut st, &admin_msg("#StartRaffle\n#SecretCode GOLD\nABCDEF1"), ADMIN).unwrap();
    assert_eq!(st.secret_code(), &Some("GOLD".to_string()));
    let r = handle_message(&mut st, &user_msg(7, "silver"), ADMIN);
    assert_eq!(reply_of(r), Reply::IncorrectSecretCode);
    assert_eq!(st.participants_count(), 0);
    let r = handle_message(&mut st, &user_msg(7, "the code is GOLD"), ADMIN);
    assert_eq!(reply_of(r), Reply::Entered);
    assert_eq!(st.participants(), &vec![7i64]);
}

#[test]
fn repeated_joins_keep_one_entry() {
    let mut st = RaffleState::new();
    handle_message(&mut st, &admin_msg("#StartRaffle\n\nABCDEF"), ADMIN).unwrap();
    for _ in 0..3 {
        assert_eq!(reply_of(handle_message(&mut st, &user_msg(5, "join"), ADMIN)), Reply::Entered);
    }
    handle_message(&mut st, &user_msg(6, "join"), ADMIN).unwrap();
    assert_eq!(st.participants_count(), 2);
    let mut ids = st.participants().clone();
    ids.sort();
    assert_eq!(ids, vec![5, 6]);
}

#[test]
fn new_raffle_replaces_codes_and_secret() {
    let mut st = RaffleState::new();
    handle_message(&mut st, &admin_msg("#StartRaffle\n#SecretCode OLD\nAAAAAA\nBBBBBB"), ADMIN).unwrap();
    handle_message(&mut st, &admin_msg("#StartRaffle\n\nCCCCCC"), ADMIN).unwrap();
    assert_eq!(st.giftcards(), &vec!["CCCCCC".to_string()]);
    assert_eq!(st.secret_code(), &None);
    handle_message(&mut st, &admin_msg("#StartRaffle\n#SecretCode NEW\nDDDDDD"), ADMIN).unwrap();
    assert_eq!(st.giftcards(), &vec!["DDDDDD".to_string()]);
    assert_eq!(st.secret_code(), &Some("NEW".to_string()));
}

#[test]
fn counts_before_any_raffle_are_zero() {
    let mut st = RaffleState::new();
    let r = handle_message(&mut st, &admin_msg("#ParticipantsCount"), ADMIN);
    assert_eq!(reply_of(r), Reply::Count(0));
    let r = handle_message(&mut st, &admin_msg("#GiftcardsCount"), ADMIN);
    assert_eq!(reply_of(r), Reply::Count(0));
    assert_eq!(Reply::Count(0).text(), "0");
}

#[test]
fn count_reply_is_decimal() {
    assert_eq!(Reply::Count(42).text(), "42");
    assert_eq!(Reply::Count(1007).text(), "1007");
    assert_eq!(Reply::RaffleStarted.text(), "Raffle started");
}

#[test]
fn group_message_gets_no_reply() {
    let mut st = RaffleState::new();
    handle_message(&mut st, &admin_msg("#StartRaffle\n\nABCDEF"), ADMIN).unwrap();
    let mut msg = user_msg(9, "join");
    msg.scope = ChatScope::Other;
    assert_eq!(handle_message(&mut st, &msg, ADMIN), Err(RouteError::NotApplicable));
    assert_eq!(st.participants_count(), 0);
}

#[test]
fn message_errors() {
    let mut st = RaffleState::new();
    let mut msg = user_msg(9, "join");
    msg.text = None;
    assert_eq!(handle_message(&mut st, &msg, ADMIN), Err(RouteError::MissingText));
    let mut msg = user_msg(9, "join");
    msg.chat_id = None;
    assert_eq!(handle_message(&mut st, &msg, ADMIN), Err(RouteError::MissingChatId));
    assert_eq!(handle_message(&mut st, &admin_msg("hello"), ADMIN), Err(RouteError::UnknownCommand));
}

#[test]
fn no_ongoing_raffle() {
    let mut st = RaffleState::new();
    let r = handle_message(&mut st, &user_msg(3, "join"), ADMIN);
    assert_eq!(reply_of(r), Reply::NoOngoingRaffle);
    assert_eq!(st.participants_count(), 0);
}

#[test]
fn sender_without_username_is_a_participant() {
    let mut st = RaffleState::new();
    handle_message(&mut st, &admin_msg("#StartRaffle\n\nABCDEF"), ADMIN).unwrap();
    let mut msg = user_msg(4, "#EndRaffle");
    msg.username = None;
    assert_eq!(reply_of(handle_message(&mut st, &msg, ADMIN)), Reply::Entered);
}

#[test]
fn end_raffle_asks_for_a_drawing() {
    let mut st = RaffleState::new();
    assert_eq!(handle_message(&mut st, &admin_msg("#EndRaffle"), ADMIN), Ok(Action::Draw { chat_id: 1 }));
}

#[test]
fn commands_parse() {
    assert!(matches!(parse_command("#EndRaffle"), Some(Command::EndRaffle)));
    assert!(matches!(parse_command("#ParticipantsCount"), Some(Command::ParticipantsCount)));
    assert!(matches!(parse_command("#GiftcardsCount"), Some(Command::GiftcardsCount)));
    assert!(matches!(parse_command("#EndRaffle "), None));
    assert!(matches!(parse_command("#StartRaffle"), Some(Command::StartRaffle { .. })));
}

fn state_with(ids: &[i64], codes: &[&str]) -> RaffleState {
    RaffleState::from_parts(codes.iter().map(|c| c.to_string()).collect(), ids.to_vec(), None)
}

#[test]
fn drawing_three_participants_two_codes() {
    let mut st = state_with(&[10, 20, 30], &["BBBBBB", "AAAAAA"]);
    let mut d = Drawing::with_order(vec![30, 10, 20], &st);
    let mut given = Vec::new();
    while let Some((chat_id, code)) = d.next_step() {
        st.record_delivery(chat_id, &code);
        given.push((chat_id, code));
    }
    assert_eq!(given, vec![(30, "AAAAAA".to_string()), (10, "BBBBBB".to_string())]);
    assert_eq!(st.participants(), &vec![20]);
    st.close();
    assert_eq!(st.participants_count(), 0);
    assert_eq!(st.giftcards_count(), 0);
}

#[test]
fn random_drawing_delivers_to_two_of_three() {
    let st = state_with(&[10, 20, 30], &["BBBBBB", "AAAAAA"]);
    let mut d = Drawing::start(&st);
    let mut ids = Vec::new();
    let mut codes = Vec::new();
    while let Some((chat_id, code)) = d.next_step() {
        ids.push(chat_id);
        codes.push(code);
    }
    assert_eq!(ids.len(), 2);
    assert_ne!(ids[0], ids[1]);
    assert!(ids.iter().all(|i| [10, 20, 30].contains(i)));
    assert_eq!(codes, vec!["AAAAAA".to_string(), "BBBBBB".to_string()]);
}

#[test]
fn shuffle_keeps_every_participant() {
    let st = state_with(&[1, 2, 3, 4, 5, 6, 7, 8], &["AAAAAA"]);
    let mut d = Drawing::with_order(vec![], &st);
    assert!(d.next_step().is_none());
    let mut d = Drawing::start(&st);
    let (first, _) = d.next_step().unwrap();
    assert!((1..=8).contains(&first));
    assert!(d.next_step().is_none());
}

#[test]
fn restart_after_partial_drawing_skips_delivered() {
    let mut st = state_with(&[1, 2, 3], &["AAAAAA", "BBBBBB", "CCCCCC"]);
    let mut d = Drawing::with_order(vec![2, 1, 3], &st);
    let (chat_id, code) = d.next_step().unwrap();
    st.record_delivery(chat_id, &code);
    // the process stops here; the next drawing starts from the saved state
    for _ in 0..20 {
        let mut again = Drawing::start(&st);
        let mut ids = Vec::new();
        while let Some((id, code)) = again.next_step() {
            assert_ne!(code, "AAAAAA");
            ids.push(id);
        }
        assert_eq!(ids.len(), 2);
        assert!(!ids.contains(&2));
    }
}

#[test]
fn from_parts_drops_repeats() {
    let st = state_with(&[1, 1, 2], &["AAAAAA", "AAAAAA"]);
    assert_eq!(st.participants_count(), 2);
    assert_eq!(st.giftcards_count(), 1);
}

#[test]
fn text_helpers() {
    assert!(contains_text("the code is GOLD", "GOLD"));
    assert!(!contains_text("silver", "GOLD"));
    assert!(contains_text("anything", ""));
    assert_eq!(split_lines("a\n\nb\n"), vec!["a".to_string(), "".to_string(), "b".to_string()]);
    assert_eq!(split_lines(""), Vec::<String>::new());
    assert_eq!(split_lines("\n"), vec!["".to_string()]);
    assert!(text_below("AAAAAA", "AAAAAB"));
    assert!(text_below("AAA", "AAAA"));
    assert!(!text_below("B", "AZZZ"));
    assert!(!text_below("SAME", "SAME"));
}

#[test]
fn drawing_order_varies() {
    let st = state_with(&[1, 2, 3, 4, 5, 6, 7, 8], &["AAAAAA"]);
    let firsts: Vec<i64> = (0..60)
        .map(|_| Drawing::start(&st).next_step().unwrap().0)
        .collect();
    assert!(firsts.iter().any(|f| *f != firsts[0]));
}
