use uninvited::game::{GameConfig, GameMode, GameSession, Phase, Role, Side, HUMAN_ID};
use uninvited::scenarios::Scenario;

fn scenario() -> Scenario {
    Scenario {
        id: "x".into(),
        occasion: "a surprise 30th birthday".into(),
        location: "a downtown rooftop".into(),
        aliases: vec!["rooftop birthday".into(), "30th birthday".into()],
        roles: (0..10).map(|i| format!("role {i}")).collect(),
    }
}

fn new_game(cfg: &GameConfig) -> GameSession {
    GameSession::new(cfg, scenario(), 2)
}

fn cfg(human_invited: bool, ai: u8) -> GameConfig {
    GameConfig {
        mode: if human_invited {
            GameMode::Invited
        } else {
            GameMode::Outsider
        },
        ai_count: ai,
    }
}

#[test]
fn human_uninvited_means_human_is_the_outsider() {
    let s = new_game(&cfg(false, 4));
    assert_eq!(s.players.len(), 5);
    assert_eq!(s.uninvited_id(), HUMAN_ID);
    assert_eq!(s.player(HUMAN_ID).role.side(), Side::Uninvited);
}

#[test]
fn human_invited_means_one_ai_is_uninvited() {
    let s = new_game(&cfg(true, 4));
    assert_eq!(s.player(HUMAN_ID).role.side(), Side::Invited);
    let outsiders = s
        .players
        .iter()
        .filter(|p| p.role.side() == Side::Uninvited)
        .count();
    assert_eq!(outsiders, 1);
    assert_ne!(s.uninvited_id(), HUMAN_ID);
}

#[test]
fn invited_players_get_unique_roles() {
    let s = new_game(&cfg(true, 6));
    let mut roles: Vec<String> = s
        .players
        .iter()
        .filter_map(|p| match &p.role {
            Role::Invited { party_role } => Some(party_role.clone()),
            Role::Uninvited => None,
        })
        .collect();
    let total = roles.len();
    roles.sort();
    roles.dedup();
    assert_eq!(roles.len(), total, "roles must be unique");
}

#[test]
fn view_hides_secrets_from_uninvited_human() {
    let s = new_game(&cfg(false, 3));
    let v = s.view();
    assert!(v.location.is_none(), "uninvited human must not see the venue");
    assert!(v.occasion.is_none(), "uninvited human must not see the occasion");
    assert!(v.party_role.is_none());
    assert!(v.uninvited_id.is_none(), "outsider id hidden mid-game");
    assert!(v.players.iter().all(|p| p.side.is_none()));
}

#[test]
fn view_shows_location_to_invited_human_but_not_outsider() {
    let s = new_game(&cfg(true, 3));
    let v = s.view();
    assert!(v.location.is_some(), "invited human sees the venue");
    assert!(v.occasion.is_some(), "invited human sees the occasion");
    assert!(v.party_role.is_some());
    assert!(v.uninvited_id.is_none(), "outsider id hidden mid-game");
}

#[test]
fn correct_guess_makes_uninvited_win() {
    let mut s = new_game(&cfg(false, 3));
    // The occasion (not the generic venue) is the guessable identity.
    let party = s.scenario.occasion.clone();
    assert!(s.record_guess(HUMAN_ID, party));
    assert_eq!(s.winner, Some(Side::Uninvited));
    assert_eq!(s.phase, Phase::Reveal);
}

#[test]
fn plurality_on_outsider_makes_invited_win() {
    let mut s = new_game(&cfg(true, 3));
    let outsider = s.uninvited_id();
    for p in &mut s.players {
        p.vote_for = Some(outsider);
    }
    assert_eq!(s.resolve_votes(), Side::Invited);
}

#[test]
fn tie_lets_outsider_survive() {
    let mut s = new_game(&cfg(true, 3)); // 4 players
    let outsider = s.uninvited_id();
    let others = s.other_ids(outsider);
    // Two votes for the outsider, two votes for someone else -> tie.
    s.players[0].vote_for = Some(outsider);
    s.players[1].vote_for = Some(outsider);
    s.players[2].vote_for = Some(others[0]);
    s.players[3].vote_for = Some(others[0]);
    assert_eq!(s.resolve_votes(), Side::Uninvited);
}

fn bartender_cfg(ai: u8) -> GameConfig {
    GameConfig {
        mode: GameMode::Bartender,
        ai_count: ai,
    }
}

#[test]
fn bartender_is_invited_side_with_one_ai_outsider() {
    let s = new_game(&bartender_cfg(4));
    assert!(s.bartender_mode());
    assert!(s.human_invited(), "bartender knows the party");
    assert_eq!(s.player(HUMAN_ID).role.side(), Side::Invited);
    assert_ne!(s.uninvited_id(), HUMAN_ID);
    let outsiders = s
        .players
        .iter()
        .filter(|p| p.role.side() == Side::Uninvited)
        .count();
    assert_eq!(outsiders, 1);
    // The bartender sees the party, just like any invited guest.
    assert!(s.view().occasion.is_some());
}

#[test]
fn bartenders_lone_vote_decides() {
    // Only the human votes in this mode; the single vote is a plurality.
    let mut s = new_game(&bartender_cfg(3));
    let outsider = s.uninvited_id();
    s.players[HUMAN_ID as usize].vote_for = Some(outsider);
    assert_eq!(s.resolve_votes(), Side::Invited, "right call catches the outsider");

    let mut s = new_game(&bartender_cfg(3));
    let innocent = s.other_ids(s.uninvited_id())[0];
    s.players[HUMAN_ID as usize].vote_for = Some(innocent);
    assert_eq!(s.resolve_votes(), Side::Uninvited, "wrong call lets them slip away");
}

#[test]
fn ai_count_is_clamped_and_seats_are_numbered() {
    for (asked, seats) in [(0u8, 3usize), (1, 3), (5, 6), (8, 9), (200, 9)] {
        let s = new_game(&cfg(true, asked));
        assert_eq!(s.players.len(), seats);
        for (i, p) in s.players.iter().enumerate() {
            assert_eq!(p.id as usize, i);
            assert_eq!(p.is_human, i == 0);
            assert!(p.vote_for.is_none());
        }
        assert_eq!(s.players[0].name, "You");
        let mut names: Vec<String> = s.players[1..].iter().map(|p| p.name.clone()).collect();
        names.sort();
        names.dedup();
        assert_eq!(names.len(), seats - 1, "AI names are distinct");
        assert_eq!(s.round, 1);
        assert_eq!(s.phase, Phase::Questioning);
        assert!(s.transcript.is_empty());
    }
}

#[test]
fn roles_run_out_into_a_guest() {
    let sc = Scenario {
        id: "y".into(),
        occasion: "o".into(),
        location: "l".into(),
        aliases: vec![],
        roles: vec!["host".into()],
    };
    let s = GameSession::new(&cfg(false, 3), sc, 2);
    let roles: Vec<String> = s
        .players
        .iter()
        .filter_map(|p| match &p.role {
            Role::Invited { party_role } => Some(party_role.clone()),
            Role::Uninvited => None,
        })
        .collect();
    assert_eq!(roles, vec!["host", "a guest", "a guest"]);
}

#[test]
fn wrong_guess_leaves_the_game_running() {
    let mut s = new_game(&cfg(false, 3));
    assert!(!s.record_guess(HUMAN_ID, "beach wedding".into()));
    assert_eq!(s.winner, None);
    assert_eq!(s.phase, Phase::Questioning);
    let g = s.guess.as_ref().unwrap();
    assert!(!g.correct && g.player == HUMAN_ID && g.guess == "beach wedding");
}

#[test]
fn no_votes_lets_the_outsider_survive() {
    let mut s = new_game(&cfg(true, 3));
    assert_eq!(s.resolve_votes(), Side::Uninvited);
    assert_eq!(s.winner, Some(Side::Uninvited));
    assert_eq!(s.phase, Phase::Reveal);
}

#[test]
fn reveal_view_shows_sides_votes_and_outsider() {
    let mut s = new_game(&cfg(false, 3));
    s.players[1].vote_for = Some(0);
    s.players[2].vote_for = Some(0);
    s.phase = Phase::Voting;
    let v = s.view();
    let votes = v.votes.unwrap();
    assert_eq!(votes.len(), 2);
    assert!(votes.iter().all(|vv| vv.target.is_none()), "AI votes stay masked");
    assert_eq!(s.resolve_votes(), Side::Invited);
    let v = s.view();
    assert_eq!(v.uninvited_id, Some(0));
    assert_eq!(v.winner, Some(Side::Invited));
    assert!(v.location.is_some(), "everyone sees the party at the reveal");
    assert!(v.players.iter().all(|p| p.side.is_some()));
    assert!(v.votes.unwrap().iter().all(|vv| vv.target == Some(0)));
}

#[test]
fn other_ids_skips_one_player() {
    let s = new_game(&cfg(true, 3));
    assert_eq!(s.other_ids(2), vec![0, 1, 3]);
    assert_eq!(s.other_ids(9), vec![0, 1, 2, 3]);
}
