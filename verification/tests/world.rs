use sketchgames::sketchrs::environment::{Environment, EnvironmentEvent};
use sketchgames::sketchrs::player::Player;
use sketchgames::sketchrs::server::Server;

#[test]
fn walk_then_tick_moves_the_player() {
    let mut p = Player::new();
    assert_eq!(p.position(), (0, 0));
    p.tick();
    assert_eq!(p.position(), (0, 0));
    p.walk(3, -4);
    p.tick();
    assert_eq!(p.position(), (3, -4));
    p.tick();
    assert_eq!(p.position(), (3, -4));
}

#[test]
fn queued_walks_are_all_taken() {
    let mut p = Player::new();
    p.walk(1, 1);
    p.walk(2, 2);
    p.walk(1, 1);
    p.tick();
    let first = p.position();
    p.tick();
    let second = p.position();
    assert_ne!(first, second);
    assert!(first == (1, 1) || first == (2, 2));
    assert!(second == (1, 1) || second == (2, 2));
    p.tick();
    assert_eq!(p.position(), second);
}

#[test]
fn server_moves_its_players() {
    let mut s = Server::new();
    s.login();
    s.login();
    assert_eq!(s.player_walk(1, 5, 6), Some(()));
    assert_eq!(s.player_walk(2, 5, 6), None);
    s.env_queue("hello".to_string(), 3);
    s.tick();
}

#[test]
fn environment_takes_events() {
    let mut e = Environment::new();
    e.enqueue(EnvironmentEvent::MESSAGE { text: "hi".to_string() }, 1);
    e.enqueue(EnvironmentEvent::MESSAGE { text: "hi".to_string() }, 2);
    e.tick();
}
