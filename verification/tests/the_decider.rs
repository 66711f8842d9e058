use sketchgames::the_decider::{command, pick_devil, reactions, Command, Handler};

#[test]
fn questions_get_polls() {
    assert_eq!(reactions("?? how much"), vec!["⏫", "🔼", "⏸", "🔽", "⏬"]);
    assert_eq!(reactions("?. sure"), vec!["✔", "❌", "🤔"]);
    assert_eq!(reactions("?4 pick"), vec!["🇦", "🇧", "🇨", "🇩"]);
    assert_eq!(reactions("?yes"), vec!["✔", "❌"]);
    assert_eq!(reactions("?"), vec!["✔", "❌"]);
    assert!(reactions("hello?").is_empty());
    assert!(reactions("").is_empty());
}

#[test]
fn commands_are_recognized() {
    assert!(matches!(command("!devil please"), Command::Devil));
    assert!(matches!(command("!nodevil"), Command::NoDevil));
    assert!(matches!(command("!dev"), Command::Nothing));
    assert!(matches!(command("devil"), Command::Nothing));
}

#[test]
fn only_recent_talkers_are_candidates() {
    let mut h = Handler::new();
    h.record("ann".to_string(), 1000, 1);
    h.record("bob".to_string(), 900, 2);
    h.record("cy".to_string(), 700, 3);
    h.record("bob".to_string(), 1010, 4);
    assert!(h.candidates_ok(1100));
    assert_eq!(h.candidates(1100), vec![1, 4]);
    assert_eq!(h.candidates(1120), vec![1, 4]);
    assert_eq!(h.candidates(1121), vec![4]);
    assert!(!h.candidates_ok(i64::MIN));
}

#[test]
fn the_devil_is_a_candidate() {
    assert_eq!(pick_devil(&vec![]), 0);
    let c = vec![5, 9, 11];
    for _ in 0..20 {
        assert!(c.contains(&pick_devil(&c)));
    }
}
