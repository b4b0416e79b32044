use uninvited::agents::{
    answer_prompt, ask_prompt, clean_line, earliest_named, parse_uninvited_turn, parse_vote, read_turn,
    try_parse_uninvited_turn, uninvited_turn_prompt, vote_prompt, UninvitedAction,
};
use uninvited::game::{GameConfig, GameMode, GameSession, Role, Turn, HUMAN_ID};
use uninvited::scenarios::Scenario;

#[test]
fn clean_line_strips_noise() {
    assert_eq!(clean_line("  \"Hello there?\"  "), "Hello there?");
    assert_eq!(clean_line("Question: What's up?\nextra"), "What's up?");
    assert_eq!(clean_line("*nods* sure"), "nods* sure".trim_start_matches('*'));
}

#[test]
fn parse_uninvited_turn_detects_guess_and_ask() {
    match parse_uninvited_turn("GUESS: a beach wedding") {
        UninvitedAction::Guess(g) => assert_eq!(g, "a beach wedding"),
        _ => panic!("expected guess"),
    }
    match parse_uninvited_turn("ASK: So how do you know the host?") {
        UninvitedAction::Ask(q) => assert_eq!(q, "So how do you know the host?"),
        _ => panic!("expected ask"),
    }
    // No prefix -> treated as an ask.
    match parse_uninvited_turn("How long have you been here?") {
        UninvitedAction::Ask(q) => assert_eq!(q, "How long have you been here?"),
        _ => panic!("expected ask"),
    }
}

#[test]
fn clean_line_takes_first_nonblank_line_and_later_labels() {
    assert_eq!(clean_line("\n\n   \n  second line  \nthird"), "second line");
    assert_eq!(clean_line("A: 'quoted'"), "quoted");
    assert_eq!(clean_line("Answer: Q: both labels"), "both labels");
    assert_eq!(clean_line("line one\r\nline two"), "line one");
    assert_eq!(clean_line("   "), "");
    assert_eq!(clean_line(""), "");
    // Only a leading label is stripped.
    assert_eq!(clean_line("So, Question: why?"), "So, Question: why?");
}

#[test]
fn parse_uninvited_turn_edge_cases() {
    // The keyword is found in any case, anywhere.
    match parse_uninvited_turn("Hmm. Guess: Rooftop Birthday") {
        UninvitedAction::Guess(g) => assert_eq!(g, "Rooftop Birthday"),
        _ => panic!("expected guess"),
    }
    // An empty guess falls back to asking.
    match parse_uninvited_turn("GUESS:   ") {
        UninvitedAction::Ask(q) => assert_eq!(q, "GUESS:"),
        _ => panic!("expected ask"),
    }
    match parse_uninvited_turn("ASK: where? GUESS: \"\"") {
        UninvitedAction::Ask(q) => assert_eq!(q, "where? GUESS:"),
        _ => panic!("expected ask"),
    }
}

#[test]
fn try_parse_refuses_slices_inside_a_character() {
    // 'İ' lowercases to two characters (three bytes instead of two), so the
    // byte offset found in the lowercased reply falls inside a character of the reply.
    assert!(try_parse_uninvited_turn("İ GUESS:éclair").is_none());
    match try_parse_uninvited_turn("İ GUESS: x") {
        Some(UninvitedAction::Guess(g)) => assert_eq!(g, "x"),
        _ => panic!("expected guess"),
    }
    match try_parse_uninvited_turn("GUESS: a boat party") {
        Some(UninvitedAction::Guess(g)) => assert_eq!(g, "a boat party"),
        _ => panic!("expected guess"),
    }
    match try_parse_uninvited_turn("ask: How?") {
        Some(UninvitedAction::Ask(q)) => assert_eq!(q, "How?"),
        _ => panic!("expected ask"),
    }
}

fn scenario() -> Scenario {
    Scenario {
        id: "x".into(),
        occasion: "a surprise 30th birthday".into(),
        location: "a downtown rooftop".into(),
        aliases: vec!["rooftop birthday".into(), "30th birthday".into()],
        roles: (0..10).map(|i| format!("role {i}")).collect(),
    }
}

fn session(mode: GameMode) -> GameSession {
    GameSession::new(&GameConfig { mode, ai_count: 3 }, scenario(), 2)
}

#[test]
fn parse_vote_takes_the_earliest_name() {
    let s = session(GameMode::Invited);
    let n1 = s.players[1].name.clone();
    let n2 = s.players[2].name.clone();
    let reply = format!("I think {} ... or maybe {}", n2.to_uppercase(), n1);
    assert_eq!(parse_vote(&s, 3, &reply), 2);
    let reply = format!("{} for sure", n1.to_lowercase());
    assert_eq!(parse_vote(&s, 3, &reply), 1);
    // The voter's own name does not count.
    let reply = format!("{} {}", s.players[3].name, n2);
    assert_eq!(parse_vote(&s, 3, &reply), 2);
}

#[test]
fn parse_vote_falls_back_to_another_player() {
    let s = session(GameMode::Invited);
    for _ in 0..20 {
        let id = parse_vote(&s, 2, "nobody in particular");
        assert!(id != 2 && (id as usize) < s.players.len());
    }
}

#[test]
fn prompts_have_the_exact_text() {
    let mut s = session(GameMode::Outsider);
    let asker = s.players[1].clone();
    let (system, user) = ask_prompt(&s, &asker, 0);
    match &asker.role {
        Role::Invited { party_role } => assert_eq!(
            system,
            format!(
                "You are playing a party deduction game. You and the others were all invited to an \
                 upcoming party and are chatting BEFORE it happens — nobody is there yet. The party: the \
                 occasion is {} and the venue is {}. Your role among the guests: \
                 {}. Everyone here was invited and knows \
                 the plan — except ONE impostor who wasn't invited and does NOT know what the party is. \
                 Your goal is to spot the impostor from how people talk. \
                 The party is still in the FUTURE: talk about getting ready and looking forward to it, \
                 never as if you are already there or it already happened. \
                 Do NOT give the party away: never state its name, the occasion, who or what it is for, or \
                 the venue — the impostor is listening and any of those hands them the answer. Drop only \
                 subtle, oblique hints. Keep every reply to ONE short, natural sentence.",
                s.scenario.occasion, s.scenario.location, party_role
            )
        ),
        Role::Uninvited => panic!("the human is the outsider"),
    }
    assert_eq!(
        user,
        "No questions have been asked yet.\n\nIt is your turn to ask. Ask You ONE short, specific \
         question about the upcoming party that a real invited guest could answer but an impostor \
         would fumble — without giving the party away yourself. Reply with ONLY the question."
    );
    s.transcript.push(Turn { asker: 1, target: 0, question: "Q1?".into(), answer: "A1.".into() });
    let human = s.players[HUMAN_ID as usize].clone();
    let (system, user) = uninvited_turn_prompt(&s, &human, 1);
    assert!(system.starts_with("You are playing a party deduction game. Everyone is chatting BEFORE"));
    let name1 = s.players[1].name.clone();
    assert_eq!(
        user,
        format!(
            "Conversation so far:\n- {name1} asked You: Q1?\n  You replied: A1.\n\n\nIt's your turn and \
             you still aren't certain what this party is. Choose ONE:\n\
             - If you are confident you know the party, reply exactly: GUESS: <the party>\n\
             - Otherwise, reply exactly: ASK: <a short, casual question to {name1} that helps you \
             learn the party without exposing yourself>\n\
             Reply with a single line starting with GUESS: or ASK:."
        )
    );
    let (_, user) = answer_prompt(&s, &human, 1, "Where?");
    assert!(user.ends_with(&format!(
        "{name1} just asked you: \"Where?\". You don't actually know this party, so give \
         ONE short, vague but plausible answer that avoids specifics. Never admit you weren't \
         invited."
    )));
    let (_, user) = vote_prompt(&s, &human);
    let others: Vec<String> = s.players[1..].iter().map(|p| p.name.clone()).collect();
    assert!(user.ends_with(&format!(
        "Voting time — to avoid suspicion you must accuse someone. Pick the real guest who \
         seems most suspicious to the others. Reply with ONLY one name from: {}.",
        others.join(", ")
    )));
}

#[test]
fn read_turn_reads_the_keywords_from_the_lowercased_text() {
    match read_turn("GUESS: a beach wedding", "guess: a beach wedding") {
        Some(UninvitedAction::Guess(g)) => assert_eq!(g, "a beach wedding"),
        _ => panic!("expected guess"),
    }
    // The keyword is looked for in the lowercased text, the question cut from the reply.
    match read_turn("XXXX where to?", "ask: where to?") {
        Some(UninvitedAction::Ask(q)) => assert_eq!(q, "where to?"),
        _ => panic!("expected ask"),
    }
    // An empty guess falls through to the whole reply as a question.
    match read_turn("guess:", "guess:") {
        Some(UninvitedAction::Ask(q)) => assert_eq!(q, "guess:"),
        _ => panic!("expected ask"),
    }
    // A cut inside a character is refused.
    assert!(read_turn("\u{e9}\u{e9}\u{e9}", "xask:").is_none());
}

#[test]
fn earliest_named_takes_the_first_name_in_the_lowercased_reply() {
    let s = session(GameMode::Invited);
    let names: Vec<String> = s.players.iter().map(|p| p.name.to_lowercase()).collect();
    let lower = format!("maybe {} or {}", names[2], names[1]);
    assert_eq!(earliest_named(&s, 3, &lower, &names), Some(2));
    assert_eq!(earliest_named(&s, 2, &lower, &names), Some(1));
    assert_eq!(earliest_named(&s, 3, "nobody", &names), None);
}

#[test]
fn a_cleaned_reply_is_one_trimmed_part_of_it() {
    for reply in [
        "  Question: \"Who's bringing cake?\"\nAnswer: me",
        "\n\n   \r\n  *waves*  hello \r\nbye",
        "   \n\t  ",
        "",
        "A: 'fine'",
    ] {
        let r = clean_line(reply);
        assert!(!r.contains('\n'));
        assert_eq!(r, r.trim());
        assert!(reply.contains(r.as_str()));
        if reply.trim().is_empty() {
            assert_eq!(r, "");
        }
    }
}
