use uninvited::agents::{answer_prompt, ask_prompt, uninvited_turn_prompt, vote_prompt};
use uninvited::game::{GameConfig, GameMode, GameSession, Phase, Side, HUMAN_ID};
use uninvited::orchestrator::{
    gen_tokens, pick_first_asker, pick_target, Effect, Event, GameLoop, HumanInput, Request, Stage,
};
use uninvited::scenarios::Scenario;

fn scenario() -> Scenario {
    Scenario {
        id: "x".into(),
        occasion: "a surprise 30th birthday".into(),
        location: "a downtown rooftop".into(),
        aliases: vec!["rooftop birthday".into()],
        roles: (0..10).map(|i| format!("role {i}")).collect(),
    }
}

/// Plays a whole game, answering every request the way `vote_for` and the
/// human's choices say, and returns the final session and the effects seen.
fn play(mode: GameMode, ai: u8, rounds: u8) -> (GameLoop, GameSession, Vec<Effect>) {
    let cfg = GameConfig { mode, ai_count: ai };
    let (mut lp, mut s, mut step) = GameLoop::start(&cfg, scenario(), rounds, false, false);
    let outsider = s.uninvited_id();
    let outsider_name = s.players[outsider as usize].name.clone();
    let mut all = Vec::new();
    for _ in 0..10_000 {
        all.extend(step.effects.drain(..));
        let event = match &step.request {
            Request::Stop => return (lp, s, all),
            Request::Generate { max_tokens, .. } => {
                assert_eq!(*max_tokens, 128);
                let text = match lp.stage {
                    Stage::AwaitTurnReply => "ASK: are you excited?".to_string(),
                    Stage::AwaitAskReply => "Question: what will you bring?".to_string(),
                    Stage::AwaitAnswerReply => "\"Something nice.\"".to_string(),
                    Stage::AwaitVoteReply => format!("I say {outsider_name}"),
                    other => panic!("generation in stage {other:?}"),
                };
                Event::Generated { text, thinking: None }
            }
            Request::WaitForHuman => match lp.stage {
                Stage::AwaitQuestion => Event::Human(HumanInput::Question {
                    target: 1,
                    text: "  So, who else is coming?  ".into(),
                }),
                Stage::AwaitAnswer => Event::Human(HumanInput::Answer { text: "Q: Me!".into() }),
                Stage::AwaitVote => Event::Human(HumanInput::Vote { target: outsider }),
                other => panic!("waiting in stage {other:?}"),
            },
            Request::PollHuman => Event::Nothing,
            Request::Pause => Event::Resumed,
        };
        step = lp.step(&mut s, event);
    }
    panic!("the game did not end");
}

#[test]
fn invited_game_runs_to_a_caught_outsider() {
    let (lp, s, effects) = play(GameMode::Invited, 3, 2);
    assert_eq!(lp.stage, Stage::Finished);
    assert_eq!(s.transcript.len(), 2 * 4, "every player asks once per round");
    assert_eq!(s.phase, Phase::Reveal);
    assert_eq!(s.winner, Some(Side::Invited));
    // Whoever answers asks next.
    for w in s.transcript.windows(2) {
        assert_eq!(w[0].target, w[1].asker);
        // An AI never asks straight back; the human may, and an idle human
        // may be called on by whoever they just questioned.
        if w[1].asker != HUMAN_ID && w[1].target != HUMAN_ID {
            assert_ne!(w[1].target, w[0].asker, "no immediate asking back");
        }
    }
    // The human takes part in at least one of every three turns.
    for w in s.transcript.windows(3) {
        assert!(w.iter().any(|t| t.asker == HUMAN_ID || t.target == HUMAN_ID));
    }
    for t in &s.transcript {
        assert_ne!(t.asker, t.target);
        if t.target == HUMAN_ID {
            assert_eq!(t.answer, "Me!");
        } else {
            assert_eq!(t.answer, "Something nice.");
        }
    }
    assert!(effects.iter().any(|e| matches!(e, Effect::EmitState(v) if v.phase == Phase::Reveal)));
    // Activity lines come from seats of the game, of the five kinds.
    let n = s.players.len() as u8;
    for e in &effects {
        if let Effect::EmitActivity(a) = e {
            assert!(a.player_id < n);
            assert!(a.target_id.map_or(true, |t| t < n));
            assert!(["question", "answer", "vote", "thinking", "guess"].contains(&a.kind));
        }
    }
    // Until the reveal, no snapshot names the outsider.
    for e in &effects {
        if let Effect::EmitState(v) = e {
            if v.phase != Phase::Reveal {
                assert_eq!(v.uninvited_id, None);
                assert!(v.players.iter().all(|p| p.side.is_none()));
            }
        }
    }
}

#[test]
fn bartender_game_keeps_the_human_out_of_the_questioning() {
    let (_, s, _) = play(GameMode::Bartender, 4, 1);
    assert_eq!(s.transcript.len(), 4);
    for t in &s.transcript {
        assert_ne!(t.asker, HUMAN_ID);
        assert_ne!(t.target, HUMAN_ID);
    }
    // Only the human voted.
    assert!(s.players.iter().skip(1).all(|p| p.vote_for.is_none()));
    assert_eq!(s.winner, Some(Side::Invited));
}

#[test]
fn outsider_game_ends_on_votes() {
    let (_, s, _) = play(GameMode::Outsider, 2, 1);
    assert_eq!(s.transcript.len(), 3);
    assert_eq!(s.phase, Phase::Reveal);
    assert!(s.winner.is_some());
}

#[test]
fn a_right_guess_ends_the_game_for_the_outsider() {
    let cfg = GameConfig { mode: GameMode::Outsider, ai_count: 3 };
    let (mut lp, mut s, mut step) = GameLoop::start(&cfg, scenario(), 2, true, false);
    // Drive until the human must act, then guess.
    for _ in 0..1000 {
        match step.request {
            Request::WaitForHuman => break,
            Request::Generate { max_tokens, .. } => {
                assert_eq!(max_tokens, 1024);
                let text = match lp.stage {
                    Stage::AwaitAnswerReply => "fine".to_string(),
                    _ => "what's the dress code?".to_string(),
                };
                step = lp.step(&mut s, Event::Generated { text, thinking: None });
            }
            _ => panic!("unexpected request"),
        }
    }
    step = lp.step(
        &mut s,
        Event::Human(HumanInput::GuessLocation { text: "Rooftop birthday!".into() }),
    );
    assert!(matches!(step.request, Request::Stop));
    assert_eq!(s.winner, Some(Side::Uninvited));
    assert_eq!(s.phase, Phase::Reveal);
    assert!(s.guess.as_ref().unwrap().correct);
    // Exactly one snapshot, of the finished game, is published.
    assert_eq!(step.effects.len(), 1);
    match &step.effects[0] {
        Effect::EmitState(v) => {
            assert_eq!(v.phase, Phase::Reveal);
            assert_eq!(v.winner, Some(Side::Uninvited));
        }
        _ => panic!("expected a snapshot"),
    }
    // Nothing more is published once the game is over.
    let after = lp.step(&mut s, Event::Nothing);
    assert!(matches!(after.request, Request::Stop));
    assert!(after.effects.is_empty());
}

#[test]
fn a_closed_channel_stops_the_game() {
    let cfg = GameConfig { mode: GameMode::Invited, ai_count: 2 };
    let (mut lp, mut s, mut step) = GameLoop::start(&cfg, scenario(), 1, false, false);
    for _ in 0..1000 {
        match step.request {
            Request::WaitForHuman => break,
            Request::Generate { .. } => {
                step = lp.step(&mut s, Event::GenerationFailed);
            }
            Request::PollHuman => step = lp.step(&mut s, Event::Nothing),
            Request::Pause => step = lp.step(&mut s, Event::Resumed),
            Request::Stop => return,
        }
    }
    let step = lp.step(&mut s, Event::Closed);
    assert!(matches!(step.request, Request::Stop));
    assert_eq!(lp.stage, Stage::Finished);
    assert_eq!(s.winner, None);
}

#[test]
fn failed_generations_skip_turns_without_recording_them() {
    let cfg = GameConfig { mode: GameMode::Bartender, ai_count: 2 };
    let (mut lp, mut s, mut step) = GameLoop::start(&cfg, scenario(), 2, false, false);
    let mut polls = 0;
    loop {
        step = match step.request {
            Request::Generate { .. } => lp.step(&mut s, Event::GenerationFailed),
            Request::PollHuman => {
                polls += 1;
                lp.step(&mut s, Event::Nothing)
            }
            Request::WaitForHuman => {
                assert_eq!(lp.stage, Stage::AwaitVote);
                lp.step(&mut s, Event::Human(HumanInput::Vote { target: 1 }))
            }
            Request::Pause => lp.step(&mut s, Event::Resumed),
            Request::Stop => break,
        };
    }
    assert!(s.transcript.is_empty());
    assert_eq!(polls, 2 * 2, "one call-vote check per question");
    assert_eq!(s.phase, Phase::Reveal);
}

#[test]
fn call_vote_opens_the_vote_early() {
    let cfg = GameConfig { mode: GameMode::Bartender, ai_count: 3 };
    let (mut lp, mut s, step) = GameLoop::start(&cfg, scenario(), 3, false, false);
    assert!(matches!(step.request, Request::PollHuman));
    let step = lp.step(&mut s, Event::Human(HumanInput::CallVote));
    assert!(matches!(step.request, Request::WaitForHuman));
    assert_eq!(s.phase, Phase::Voting);
    assert_eq!(lp.stage, Stage::AwaitVote);
}

#[test]
fn targets_and_first_askers_are_other_players() {
    let cfg = GameConfig { mode: GameMode::Bartender, ai_count: 2 };
    let s = GameSession::new(&cfg, scenario(), 1);
    for _ in 0..30 {
        let t = pick_target(&s, 1, Some(2), true);
        // Only player 2 is left besides the asker and the bartender: it is picked.
        assert_eq!(t, 2);
        let t = pick_target(&s, 1, None, false);
        assert!(t == 0 || t == 2);
        let a = pick_first_asker(&s, true);
        assert!(a == 1 || a == 2);
    }
    assert_eq!(gen_tokens(true), 1024);
    assert_eq!(gen_tokens(false), 128);
}

#[test]
fn the_human_is_never_left_out_for_long() {
    for _ in 0..20 {
        let (_, s, _) = play(GameMode::Invited, 8, 2);
        assert_eq!(s.transcript.len(), 2 * 9);
        for w in s.transcript.windows(3) {
            assert!(w.iter().any(|t| t.asker == HUMAN_ID || t.target == HUMAN_ID));
        }
    }
}

#[test]
fn generations_carry_the_prompt_of_their_stage() {
    let cfg = GameConfig { mode: GameMode::Outsider, ai_count: 3 };
    let (mut lp, mut s, mut step) = GameLoop::start(&cfg, scenario(), 1, false, false);
    let mut generations = 0;
    for _ in 0..1000 {
        let event = match &step.request {
            Request::Stop => break,
            Request::Generate { system, user, max_tokens } => {
                generations += 1;
                assert_eq!(*max_tokens, lp.max_tokens);
                let asker = s.players[lp.asker_id as usize].clone();
                let target = s.players[lp.target_id as usize].clone();
                let expected = match lp.stage {
                    Stage::AwaitTurnReply => uninvited_turn_prompt(&s, &asker, lp.target_id),
                    Stage::AwaitAskReply => ask_prompt(&s, &asker, lp.target_id),
                    Stage::AwaitAnswerReply => answer_prompt(&s, &target, lp.asker_id, &lp.question),
                    Stage::AwaitVoteReply => {
                        let voter = lp.ai_voters[lp.voter_index];
                        vote_prompt(&s, &s.players[voter as usize].clone())
                    }
                    other => panic!("generation in stage {other:?}"),
                };
                assert_eq!((system.clone(), user.clone()), expected);
                let text = match lp.stage {
                    Stage::AwaitAnswerReply => "Soon enough.".to_string(),
                    _ => "What are you bringing?".to_string(),
                };
                Event::Generated { text, thinking: None }
            }
            Request::WaitForHuman => match lp.stage {
                Stage::AwaitQuestion => Event::Human(HumanInput::Question {
                    target: 2,
                    text: "Ready for it?".into(),
                }),
                Stage::AwaitAnswer => Event::Human(HumanInput::Answer { text: "Almost.".into() }),
                _ => Event::Human(HumanInput::Vote { target: 1 }),
            },
            Request::PollHuman => Event::Nothing,
            Request::Pause => Event::Resumed,
        };
        step = lp.step(&mut s, event);
    }
    assert!(generations > 0);
    assert_eq!(s.phase, Phase::Reveal);
}

#[test]
fn the_vote_opens_only_after_every_question() {
    let cfg = GameConfig { mode: GameMode::Invited, ai_count: 2 };
    let (lp, s, _) = GameLoop::start(&cfg, scenario(), 0, false, false);
    assert_eq!(lp.total_questions, 0);
    assert_eq!(s.phase, Phase::Voting);
    let (lp, s, _) = GameLoop::start(&cfg, scenario(), 1, false, false);
    assert_eq!(lp.q, 0);
    assert_eq!(lp.total_questions, 3);
    assert_eq!(s.phase, Phase::Questioning);
    let (lp, s, _) = play(GameMode::Invited, 2, 2);
    assert_eq!(lp.q, lp.total_questions);
    assert_eq!(s.transcript.len(), 6);
    // Every AI vote names another existing player.
    for p in s.players.iter().skip(1) {
        let t = p.vote_for.expect("every AI votes");
        assert!(t != p.id && (t as usize) < s.players.len());
    }
}

#[test]
fn every_ai_votes_once_then_the_human_then_the_pause() {
    let cfg = GameConfig { mode: GameMode::Invited, ai_count: 3 };
    let (mut lp, mut s, mut step) = GameLoop::start(&cfg, scenario(), 0, false, false);
    assert_eq!(lp.ai_voters, vec![1, 2, 3]);
    let mut replies = 0;
    for _ in 0..100 {
        let event = match step.request {
            Request::Stop => break,
            Request::Generate { .. } => {
                let before = lp.voter_index;
                replies += 1;
                let e = Event::GenerationFailed;
                step = lp.step(&mut s, e);
                assert_eq!(lp.voter_index, before + 1);
                continue;
            }
            Request::PollHuman => Event::Nothing,
            Request::WaitForHuman => Event::Human(HumanInput::Vote { target: 1 }),
            Request::Pause => Event::Resumed,
        };
        step = lp.step(&mut s, event);
    }
    assert_eq!(replies, 3);
    assert_eq!(lp.stage, Stage::Finished);
    assert_eq!(s.phase, Phase::Reveal);
}
