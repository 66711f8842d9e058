use sketchgames::sketch_daily::game::{decode_id, judge_reply, State, Word};
use sketchgames::sketch_daily::packets::Outgoing;

fn word(w: &str) -> Word {
    Word { word: w.to_string(), embedding: vec![1.0f32.to_bits(), 2.0f32.to_bits()] }
}

#[test]
fn todays_word_becomes_current() {
    let mut st = State::new();
    st.add_words(vec![("2024-01-01".to_string(), word("cat")), ("2024-01-02".to_string(), word("dog"))], "2024-01-02");
    assert_eq!(st.word(), "dog");
    assert_eq!(st.embedding(), &vec![1.0f32.to_bits(), 2.0f32.to_bits()]);
    st.tick("2024-01-01");
    assert_eq!(st.word(), "cat");
    st.tick("1999-12-31");
    assert_eq!(st.word(), "cat");
    st.add_words(vec![("2024-01-01".to_string(), word("cow"))], "2024-01-01");
    assert_eq!(st.word(), "cow");
}

#[test]
fn drawings_are_saved_under_the_word() {
    let mut st = State::new();
    st.add_words(vec![("d".to_string(), word("cat"))], "d");
    assert_eq!(st.drawing_path("1234"), "frontend/drawings/cat-1234.png");
}

#[test]
fn judged_ids_decode_back() {
    for id in [0u64, 1, 42, 123456789] {
        let reply = judge_reply(3.5f32.to_bits(), id).unwrap();
        match reply {
            Outgoing::Score { score, id: sqid } => {
                assert_eq!(f32::from_bits(score), 3.5);
                assert!(!sqid.is_empty());
                assert_ne!(sqid, id.to_string());
                assert_eq!(decode_id(&sqid), Some(id));
            }
            _ => panic!("expected a score"),
        }
    }
}

#[test]
fn invalid_sqid_has_no_id() {
    assert_eq!(decode_id(""), None);
    assert_eq!(decode_id("!!!"), None);
}
