use sketchgames::sketch_bitaib::game::{truncate, GameState, SendableState, State, Word};
use sketchgames::sketch_bitaib::packets::Outgoing;

fn word(w: &str, e: &[f32]) -> Word {
    Word { word: w.to_string(), embedding: e.iter().map(|x| x.to_bits()).collect() }
}

#[test]
fn wordname_hyphenates() {
    let g = SendableState::new("ice cream cone".to_string(), 120, 50, true);
    assert_eq!(g.wordname(), "ice-cream-cone");
}

#[test]
fn bitaib_truncate() {
    assert_eq!(truncate("abcdefghijklmnopqrstuvwxyz", 24), "abcdefghijklmnopqrstuvwx");
}

#[test]
fn add_words_draws_the_last_word() {
    let mut st = State::new(120, 50, true);
    st.add_words(vec![word("apple", &[1.0, 2.0]), word("big cat", &[0.5])]);
    assert_eq!(st.sendable().wordname(), "big-cat");
    assert_eq!(st.embedding(), &vec![0.5f32.to_bits()]);
    let ann = st.join("ann").unwrap();
    st.on_restart(&ann);
    assert_eq!(st.sendable().wordname(), "apple");
    // an empty pool keeps the word
    st.on_restart(&ann);
    assert_eq!(st.sendable().wordname(), "apple");
}

#[test]
fn drawing_path_and_score() {
    let mut st = State::new(120, 50, true);
    st.add_words(vec![word("big cat", &[0.5])]);
    let ann = st.join("ann").unwrap();
    assert_eq!(st.drawing_path(&ann), "frontend/drawings/ann-big-cat.png");
    let r = st.record_score(&ann, 12.5f32.to_bits());
    assert!(matches!(r[0].message, Outgoing::Score { score } if f32::from_bits(score) == 12.5));
    assert!(matches!(r[1].message, Outgoing::FullState {}));
    assert_eq!(f32::from_bits(st.sendable().player_at(0).1.score()), 12.5);
    // a restart zeroes the score
    st.on_restart(&ann);
    assert_eq!(st.sendable().player_at(0).1.score(), 0);
}

#[test]
fn bitaib_round_runs_out_of_time() {
    let mut st = State::new(1, 50, true);
    let ann = st.join("ann").unwrap();
    st.activate(&ann);
    let bob = st.join("bob").unwrap();
    assert!(matches!(st.join("ann"), Err(ref n) if n == "ann"));
    st.on_start(&bob);
    assert_eq!(st.sendable().get_state(), GameState::LOBBY);
    st.on_start(&ann);
    assert_eq!(st.sendable().get_state(), GameState::RUNNING);
    assert!(!st.tick());
    assert!(st.tick());
    assert_eq!(st.sendable().get_state(), GameState::POSTGAME);
    let g = st.on_guess(&bob, "cat".to_string());
    assert!(matches!(&g[0].message, Outgoing::Guess { username, guess } if username == "bob" && guess == "cat"));
    st.leave(&ann);
    assert_eq!(st.peer_count(), 1);
    assert_eq!(st.peer_at(0), "bob");
}
