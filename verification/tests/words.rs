use sketchgames::sketchrs::error::Error;
use sketchgames::sketchrs::games::{first_game, Game};
use sketchgames::sketchrs::words::{lines_of, words_from_text};

#[test]
fn words_file_lines() {
    assert_eq!(lines_of("apple\n\nbanana\ncherry\n"), vec!["apple", "banana", "cherry"]);
    assert_eq!(lines_of("one"), vec!["one"]);
    assert!(lines_of("\n\n").is_empty());
}

#[test]
fn words_keep_the_file_order() {
    let w = words_from_text("Aardvark\napple\n\nbanana\ncherry\nZebra\n");
    assert_eq!(w, vec!["Aardvark", "apple", "banana", "cherry", "Zebra"]);
    assert!(w[0].starts_with('A'));
    assert!(!w[0].contains('\n'));
    assert!(w[w.len() - 1].starts_with('Z'));
}

#[test]
fn error_keeps_its_message() {
    assert_eq!(Error::new("none found").message(), "none found");
}

fn game(id: i64) -> Game {
    Game { id, turn: 0, version: 0, drawer: 0, time: 0, word: String::new(), image: String::new() }
}

#[test]
fn first_game_or_none_found() {
    assert_eq!(first_game(vec![game(4), game(5)]).unwrap().id, 4);
    assert_eq!(first_game(vec![]).unwrap_err().message(), "none found");
}
