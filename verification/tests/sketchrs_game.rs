use sketchgames::sketchrs::game::{truncate, GameState, PlayerState, SendableState, State, MAX_NAME_LENGTH};
use sketchgames::sketchrs::packets::{Outgoing, Recipient, Reply};

fn s(x: &str) -> String {
    x.to_string()
}

#[test]
fn truncate_cuts_long_names_by_characters() {
    assert_eq!(truncate("abcdefghijklmnopqrstuvwxyz0123", MAX_NAME_LENGTH), "abcdefghijklmnopqrstuvwx");
    assert_eq!(truncate("bob", MAX_NAME_LENGTH), "bob");
    assert_eq!(truncate("ééééé", 3), "ééé");
    assert_eq!(truncate("", 3), "");
}

#[test]
fn add_drawing_then_slice_gives_back_the_strokes() {
    let mut p = PlayerState::new();
    let mut first = vec![s("a"), s("b")];
    assert_eq!(p.add_drawing(&mut first), 0);
    assert!(first.is_empty());
    let mut more = vec![s("c"), s("d"), s("e")];
    let i = p.add_drawing(&mut more);
    assert_eq!(i, 2);
    assert_eq!(p.slice(i).to_vec(), vec![s("c"), s("d"), s("e")]);
    assert_eq!(p.slice(0).len(), 5);
    assert_eq!(p.slice(9).len(), 0);
    assert_eq!(p.slice(-1).len(), 0);
}

#[test]
fn undo_removes_the_last_strokes() {
    let mut p = PlayerState::new();
    let mut d = vec![s("a"), s("b"), s("c")];
    p.add_drawing(&mut d);
    p.undo(2);
    assert_eq!(p.slice(0).to_vec(), vec![s("a")]);
    p.undo(5);
    assert_eq!(p.slice(0).len(), 0);
    let mut d = vec![s("x"), s("y")];
    p.add_drawing(&mut d);
    p.undo(-1);
    assert_eq!(p.slice(0).len(), 0);
    let mut d = vec![s("x"), s("y")];
    p.add_drawing(&mut d);
    p.undo(0);
    assert_eq!(p.slice(0).len(), 2);
}

#[test]
fn player_restart_keeps_connection_only() {
    let mut p = PlayerState::new();
    p.set_active(true);
    let mut d = vec![s("a")];
    p.add_drawing(&mut d);
    p.add_score(7);
    p.restart();
    assert!(p.is_active());
    assert_eq!(p.score(), 0);
    assert_eq!(p.slice(0).len(), 0);
    assert_eq!(p.guess_count(), 0);
}

#[test]
fn first_login_is_host() {
    let mut g = SendableState::new(120, 50, true);
    assert!(g.get_host().is_none());
    g.set_host("ann");
    g.set_host("bob");
    assert_eq!(g.get_host(), Some(&s("ann")));
    assert_eq!(g.get_state(), GameState::LOBBY);
}

#[test]
fn guess_points_follow_the_clock() {
    let mut g = SendableState::new(120, 50, true);
    // ((120 / 50) + 120 - 0) * 50 / 120 = 6100 / 120 = 50
    assert_eq!(g.guess(&s("ann"), &s("bob")), 50);
    assert_eq!(g.get_player_mut(&s("ann")).score(), 10);
    assert_eq!(g.get_player_mut(&s("bob")).score(), 50);
    // a repeated guess earns nothing
    assert_eq!(g.guess(&s("ann"), &s("bob")), 0);
    assert_eq!(g.get_player_mut(&s("bob")).score(), 50);
    for _ in 0..60 {
        g.tick_running();
    }
    // ((120 / 50) + 120 - 60) * 50 / 120 = 3100 / 120 = 25
    assert_eq!(g.guess(&s("bob"), &s("ann")), 25);
    assert_eq!(g.get_player_mut(&s("bob")).score(), 55);
    for _ in 0..60 {
        g.tick_running();
    }
    assert_eq!(g.guess(&s("cy"), &s("ann")), 0);
}

#[test]
fn guess_points_never_pass_the_maximum() {
    let mut g = SendableState::new(100, 50, true);
    // ((100 / 50) + 100 - 0) * 50 / 100 = 51, capped at 50
    assert_eq!(g.guess(&s("ann"), &s("bob")), 50);
    assert_eq!(g.get_player_mut(&s("ann")).score(), 10);
    assert_eq!(g.get_player_mut(&s("bob")).score(), 50);
    g.tick_running();
    g.tick_running();
    // ((100 / 50) + 100 - 2) * 50 / 100 = 50
    assert_eq!(g.guess(&s("cy"), &s("bob")), 50);
    g.tick_running();
    // ((100 / 50) + 100 - 3) * 50 / 100 = 49 (4950 / 100, rounded down)
    assert_eq!(g.guess(&s("dee"), &s("bob")), 49);
}

#[test]
fn guess_points_with_a_negative_maximum() {
    let mut g = SendableState::new(100, -30, true);
    for _ in 0..10 {
        g.tick_running();
    }
    // (100 / -30) = -3; (-3 + 100 - 10) * -30 = -2610; -2610 / 100 = -26,
    // above the maximum of -30, so the maximum is earned
    assert_eq!(g.guess(&s("ann"), &s("bob")), -30);
    // -30 / 5 = -6
    assert_eq!(g.get_player_mut(&s("ann")).score(), -6);
    assert_eq!(g.get_player_mut(&s("bob")).score(), -30);
}

#[test]
fn guess_fits_sees_a_zero_divisor() {
    let g = SendableState::new(120, 0, true);
    assert!(!g.guess_fits(&s("ann"), &s("bob")));
    let g = SendableState::new(120, 50, true);
    assert!(g.guess_fits(&s("ann"), &s("bob")));
}

#[test]
fn round_is_over_when_everyone_guessed_everyone() {
    let mut g = SendableState::new(120, 50, false);
    g.get_player_mut(&s("ann")).set_active(true);
    g.get_player_mut(&s("bob")).set_active(true);
    assert!(g.counts_fit());
    assert!(!g.is_over());
    g.guess(&s("ann"), &s("bob"));
    assert!(!g.is_over());
    g.guess(&s("bob"), &s("ann"));
    assert!(g.is_over());
}

#[test]
fn round_is_over_after_the_time_limit() {
    let mut g = SendableState::new(2, 50, true);
    g.get_player_mut(&s("ann")).set_active(true);
    g.get_player_mut(&s("bob")).set_active(true);
    g.tick_running();
    g.tick_running();
    assert!(!g.is_over());
    g.tick_running();
    assert!(g.is_over());
    let mut g = SendableState::new(2, 50, false);
    g.get_player_mut(&s("ann")).set_active(true);
    g.get_player_mut(&s("bob")).set_active(true);
    for _ in 0..5 {
        g.tick_running();
    }
    assert!(!g.is_over());
}

#[test]
fn game_restart_resets_clock_and_scores() {
    let mut g = SendableState::new(120, 50, true);
    g.get_player_mut(&s("ann")).set_active(true);
    g.guess(&s("ann"), &s("bob"));
    g.tick_running();
    g.set_state(GameState::RUNNING);
    g.restart();
    assert_eq!(g.get_state(), GameState::LOBBY);
    assert_eq!(g.clock().0, 0);
    assert_eq!(g.get_player_mut(&s("ann")).score(), 0);
    assert!(g.get_player_mut(&s("ann")).is_active());
    assert_eq!(g.get_player_mut(&s("ann")).guess_count(), 0);
    assert_eq!(g.player_count(), 2);
}

fn messages(r: &[Reply]) -> Vec<&Outgoing> {
    r.iter().map(|x| &x.message).collect()
}

#[test]
fn join_refuses_a_connected_name() {
    let mut st = State::new(120, 50, true);
    let name = st.join("ann").unwrap();
    assert_eq!(name, "ann");
    st.activate(&name);
    assert_eq!(st.join("ann"), Err(s("ann")));
    assert_eq!(st.peer_count(), 1);
    st.leave(&name);
    assert_eq!(st.peer_count(), 0);
    assert!(!st.sendable().player_at(0).1.is_active());
    assert_eq!(st.join("ann"), Ok(s("ann")));
    assert_eq!(st.sendable().get_host(), Some(&s("ann")));
}

#[test]
fn guesses_are_matched_ignoring_case_and_small_typos() {
    let st = State::new(120, 50, true);
    assert!(st.guess_is_good("STRAWBERRY", "strawberry"));
    assert!(st.guess_is_good("strawbery", "strawberry"));
    assert!(!st.guess_is_good("aple", "apple"));
    assert!(!st.guess_is_good("banana", "strawberry"));
}

#[test]
fn start_assigns_words_from_the_end_of_the_pool() {
    let mut st = State::new(120, 50, true);
    st.add_words(vec![s("cat"), s("dog"), s("strawberry")]);
    let ann = st.join("ann").unwrap();
    st.activate(&ann);
    let bob = st.join("bob").unwrap();
    st.activate(&bob);
    assert!(st.can_assign_all());
    let r = st.on_start(&ann);
    assert_eq!(st.sendable().get_state(), GameState::RUNNING);
    assert_eq!(r.len(), 3);
    match (&r[0].to, &r[0].message) {
        (Recipient::Peer { name }, Outgoing::Assign { username, assignment }) => {
            assert_eq!(name, "ann");
            assert_eq!(username, "ann");
            assert_eq!(assignment, "strawberry");
        }
        _ => panic!("expected an assignment"),
    }
    match &r[1].message {
        Outgoing::Assign { username, assignment } => {
            assert_eq!(username, "bob");
            assert_eq!(assignment, "dog");
        }
        _ => panic!("expected an assignment"),
    }
    assert!(matches!(r[2].message, Outgoing::FullState {}));
    assert!(matches!(r[2].to, Recipient::All));
    // asking again keeps the word
    let again = st.on_assign(&ann);
    match &again[0].message {
        Outgoing::Assign { assignment, .. } => assert_eq!(assignment, "strawberry"),
        _ => panic!("expected an assignment"),
    }
    // bob guesses ann's word
    assert!(st.guess_ok(&bob, &s("Strawbery")));
    let g = st.on_guess(&bob, s("Strawbery"));
    match &messages(&g)[0] {
        Outgoing::Guessed { guesser, drawer, points } => {
            assert_eq!(guesser, "bob");
            assert_eq!(drawer, "ann");
            assert_eq!(*points, 50);
        }
        _ => panic!("expected a correct guess"),
    }
    let g = st.on_guess(&bob, s("cow"));
    assert!(matches!(messages(&g)[0], Outgoing::Guess { .. }));
}

#[test]
fn a_start_by_someone_else_does_not_run_the_game() {
    let mut st = State::new(120, 50, true);
    st.add_words(vec![s("cat"), s("dog")]);
    let ann = st.join("ann").unwrap();
    let bob = st.join("bob").unwrap();
    st.on_start(&bob);
    assert_eq!(st.sendable().get_state(), GameState::LOBBY);
    st.on_restart(&bob);
    st.on_start(&ann);
    assert_eq!(st.sendable().get_state(), GameState::RUNNING);
}

#[test]
fn an_empty_pool_cannot_serve_a_start() {
    let mut st = State::new(120, 50, true);
    st.join("ann").unwrap();
    assert!(!st.can_assign_all());
    assert!(!st.can_assign_word(&s("ann")));
    st.add_words(vec![s("cat")]);
    assert!(st.can_assign_all());
    st.join("bob").unwrap();
    assert!(!st.can_assign_all());
}

#[test]
fn image_pull_and_undo_replies() {
    let mut st = State::new(120, 50, true);
    let ann = st.join("ann").unwrap();
    let r = st.on_image(&ann, vec![s("l1"), s("l2")]);
    match &r[0].message {
        Outgoing::Image { username, image, i } => {
            assert_eq!(username, "ann");
            assert_eq!(image, &vec![s("l1"), s("l2")]);
            assert_eq!(*i, 0);
        }
        _ => panic!("expected an image"),
    }
    let r = st.on_image(&ann, vec![s("l3")]);
    match &r[0].message {
        Outgoing::Image { image, i, .. } => {
            assert_eq!(image, &vec![s("l3")]);
            assert_eq!(*i, 2);
        }
        _ => panic!("expected an image"),
    }
    let r = st.on_pull(&s("bob"), 1, &ann);
    match (&r[0].to, &r[0].message) {
        (Recipient::Peer { name }, Outgoing::Image { image, .. }) => {
            assert_eq!(name, "bob");
            assert_eq!(image, &vec![s("l2"), s("l3")]);
        }
        _ => panic!("expected an image"),
    }
    let r = st.on_undo(&ann, 1);
    assert!(matches!(&r[0].message, Outgoing::Undo { username } if username == "ann"));
    let r = st.on_pull(&ann, 0, &ann);
    match &r[0].message {
        Outgoing::Image { image, .. } => assert_eq!(image, &vec![s("l1"), s("l2")]),
        _ => panic!("expected an image"),
    }
}

#[test]
fn a_lone_player_ends_the_round_at_once() {
    let mut g = SendableState::new(120, 50, true);
    g.get_player_mut(&s("ann")).set_active(true);
    assert!(g.is_over());
}

#[test]
fn tick_ends_the_round_on_time() {
    let mut st = State::new(1, 50, true);
    st.add_words(vec![s("cat")]);
    let ann = st.join("ann").unwrap();
    st.activate(&ann);
    let bob = st.join("bob").unwrap();
    st.activate(&bob);
    st.add_words(vec![s("dog")]);
    assert!(!st.tick());
    st.on_start(&ann);
    assert!(st.tick_ok());
    assert!(!st.tick());
    assert!(st.tick());
    assert_eq!(st.sendable().get_state(), GameState::POSTGAME);
    assert!(!st.tick());
}

#[test]
fn restart_forgets_assignments() {
    let mut st = State::new(120, 50, true);
    st.add_words(vec![s("cat"), s("dog")]);
    let ann = st.join("ann").unwrap();
    assert_eq!(st.assign_word(&ann), "dog");
    st.on_restart(&ann);
    assert_eq!(st.assign_word(&ann), "cat");
}
