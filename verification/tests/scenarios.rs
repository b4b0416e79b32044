use uninvited::scenarios::{all_parties, draw, normalize, normalize_lowercased, Scenario};

fn scenario() -> Scenario {
    Scenario {
        id: "x".into(),
        occasion: "a surprise 30th birthday".into(),
        location: "a downtown rooftop".into(),
        aliases: vec!["rooftop birthday".into(), "30th birthday".into()],
        roles: vec!["a".into(), "b".into()],
    }
}

#[test]
fn guess_matching_is_lenient_but_not_trivial() {
    let s = scenario();
    assert!(s.guess_matches("rooftop birthday party"));
    assert!(s.guess_matches("a 30th birthday"));
    assert!(s.guess_matches("ROOFTOP BIRTHDAY!"));
    assert!(s.guess_matches("a surprise 30th birthday"), "the occasion wins");
    assert!(!s.guess_matches("beach wedding"));
    assert!(!s.guess_matches("a"));
    // The bare venue is generic/shared, so naming it alone must not win.
    assert!(!s.guess_matches("a downtown rooftop"));
}

#[test]
fn normalize_lowercases_drops_punctuation_and_filler() {
    let n: String = normalize("The  ROOFTOP, Birthday-Party at Noon!");
    assert_eq!(n, "rooftop birthday noon");
    let n: String = normalize("a an the at in on of party");
    assert_eq!(n, "");
}

#[test]
fn short_guesses_never_win() {
    let s = Scenario {
        id: "y".into(),
        occasion: "go".into(),
        location: "x".into(),
        aliases: vec![],
        roles: vec![],
    };
    // "go" normalizes to two bytes: too short to count.
    assert!(!s.guess_matches("go"));
    // A guess contained in a candidate counts too.
    let s = scenario();
    assert!(s.guess_matches("surprise"));
}

fn party_scenario(occasion: &str, location: &str) -> Scenario {
    Scenario {
        id: occasion.into(),
        occasion: occasion.into(),
        location: location.into(),
        aliases: vec![],
        roles: vec![],
    }
}

#[test]
fn all_parties_sorts_by_venue_then_occasion() {
    let deck = vec![
        party_scenario("wedding", "a backyard"),
        party_scenario("zoo trip", "the zoo"),
        party_scenario("barbecue", "a backyard"),
        party_scenario("gala", "a ballroom"),
    ];
    let parties: Vec<(String, String)> =
        all_parties(&deck).into_iter().map(|p| (p.location, p.occasion)).collect();
    assert_eq!(
        parties,
        vec![
            ("a backyard".to_string(), "barbecue".to_string()),
            ("a backyard".to_string(), "wedding".to_string()),
            ("a ballroom".to_string(), "gala".to_string()),
            ("the zoo".to_string(), "zoo trip".to_string()),
        ]
    );
}

#[test]
fn draw_returns_a_deck_scenario() {
    for _ in 0..10 {
        let deck = vec![party_scenario("a", "x"), party_scenario("b", "y"), party_scenario("c", "z")];
        let s = draw(deck);
        assert!(["a", "b", "c"].contains(&s.occasion.as_str()));
    }
}

#[test]
fn normalize_lowercased_works_on_lowercased_text() {
    assert_eq!(normalize_lowercased("the  rooftop, birthday-party at noon!"), "rooftop birthday noon");
    // Uppercase letters are left as they are: the lowercasing is done before.
    assert_eq!(normalize_lowercased("The Rooftop"), "The Rooftop");
    assert_eq!(normalize_lowercased("a an the party"), "");
}

#[test]
fn normalizing_lowercased_text_twice_changes_nothing() {
    for text in ["the  rooftop, birthday-party at noon!", "a an the", "  30th   b-day!! ", ""] {
        let once = normalize_lowercased(text);
        assert_eq!(normalize_lowercased(&once), once);
    }
}

#[test]
fn normalizing_ascii_twice_changes_nothing() {
    for text in ["The ROOFTOP, Birthday-Party at NOON!", "A An THE", "  30th   B-Day!! ", ""] {
        let once = normalize(text);
        assert_eq!(normalize(&once), once);
        assert!(once.chars().all(|c| c.is_ascii_lowercase() || c.is_ascii_digit() || c == ' '));
        assert!(!once.starts_with(' ') && !once.ends_with(' ') && !once.contains("  "));
    }
}
