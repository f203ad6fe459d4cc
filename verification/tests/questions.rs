use blindtest::deck::{checked_deck_worth, load_deck};
use blindtest::question::{position_of, FULL_POINT, HALF_POINT};
use blindtest::{Answer, Question};

fn text(s: &str) -> String {
    s.to_string()
}

fn single(s: &str) -> Answer {
    Answer::SingleAnswer(text(s))
}

fn group(aliases: &[&str]) -> Answer {
    Answer::MutlipleAnswer(aliases.iter().map(|s| text(s)).collect(), aliases.len())
}

fn question(name: &str, answer: Vec<Answer>) -> Question {
    Question { name: text(name), answer }
}

fn aliases_of(slot: &Answer) -> Vec<String> {
    match slot {
        Answer::SingleAnswer(s) => vec![s.clone()],
        Answer::MutlipleAnswer(v, _) => v.clone(),
    }
}

#[test]
fn points_are_counted_in_halves() {
    assert_eq!(FULL_POINT, 2);
    assert_eq!(HALF_POINT, 1);
}

#[test]
fn single_slot_takes_any_variant_once() {
    for raw in ["believer", "Believer", "  BELIEVER  ", "\tbeLIEver\n"] {
        let mut q = question("song", vec![single("believer")]);
        assert!(q.is_answer(raw));
        assert_eq!(q.get_answer_pos(raw), Some((0, FULL_POINT)));
        let normal = Question::normalize_string(raw);
        assert_eq!(q.consume_match(0, &normal), FULL_POINT);
        assert!(q.answer.is_empty());
        assert!(q.is_solved());
        assert_eq!(q.get_answer_pos(raw), None);
        assert!(!q.is_answer(raw));
    }
}

#[test]
fn group_of_two_gives_half_a_point_each() {
    let mut q = question("song", vec![group(&["believer", "imagine dragons"])]);
    assert_eq!(q.get_answer_pos("Believer"), Some((0, HALF_POINT)));
    assert_eq!(q.consume_match(0, &text("believer")), HALF_POINT);
    assert_eq!(q.answer.len(), 1);
    assert_eq!(aliases_of(&q.answer[0]), vec![text("imagine dragons")]);
    assert_eq!(q.get_answer_pos("believer"), None);
    assert_eq!(q.get_answer_pos("Imagine  Dragons"), Some((0, HALF_POINT)));
    assert_eq!(q.consume_match(0, &text("imagine dragons")), HALF_POINT);
    assert!(q.answer.is_empty());
    assert!(q.is_solved());
}

#[test]
fn group_of_two_in_the_other_order() {
    let mut q = question("song", vec![group(&["believer", "imagine dragons"])]);
    assert_eq!(q.consume_match(0, &text("imagine dragons")), HALF_POINT);
    assert_eq!(aliases_of(&q.answer[0]), vec![text("believer")]);
    assert_eq!(q.consume_match(0, &text("believer")), HALF_POINT);
    assert!(q.is_solved());
}

#[test]
fn group_of_one_is_worth_a_whole_point() {
    let mut q = question("song", vec![group(&["believer"])]);
    assert_eq!(q.get_answer_pos("believer"), Some((0, FULL_POINT)));
    assert_eq!(q.consume_match(0, &text("believer")), FULL_POINT);
    assert!(q.is_solved());
}

#[test]
fn group_of_three_stays_at_half_points() {
    let mut q = question("song", vec![group(&["a", "b", "c"])]);
    assert_eq!(q.checked_worth(), Some(3));
    assert_eq!(q.consume_match(0, &text("a")), HALF_POINT);
    assert_eq!(aliases_of(&q.answer[0]), vec![text("c"), text("b")]);
    assert_eq!(q.consume_match(0, &text("b")), HALF_POINT);
    assert_eq!(q.get_answer_pos("c"), Some((0, HALF_POINT)));
    assert_eq!(q.consume_match(0, &text("c")), HALF_POINT);
    assert!(q.is_solved());
    assert_eq!(q.checked_worth(), Some(0));
}

#[test]
fn first_accepting_slot_wins() {
    let q = question("song", vec![single("x"), group(&["y", "z"]), single("y"), group(&["x"])]);
    assert_eq!(q.get_answer_pos("x"), Some((0, FULL_POINT)));
    assert_eq!(q.get_answer_pos("y"), Some((1, HALF_POINT)));
    assert_eq!(q.get_answer_pos("z"), Some((1, HALF_POINT)));
    assert_eq!(q.get_answer_pos("w"), None);
    assert_eq!(q.find_slot(&text("y")), Some((1, HALF_POINT)));
    assert_eq!(q.find_slot(&text("Y")), None);
}

#[test]
fn removing_a_slot_moves_the_last_into_its_place() {
    let mut q = question("song", vec![single("a"), single("b"), single("c")]);
    assert_eq!(q.consume_match(0, &text("a")), FULL_POINT);
    assert_eq!(q.answer.len(), 2);
    assert_eq!(aliases_of(&q.answer[0]), vec![text("c")]);
    assert_eq!(aliases_of(&q.answer[1]), vec![text("b")]);
}

#[test]
fn an_alias_that_is_not_there_leaves_the_group() {
    let mut q = question("song", vec![group(&["a", "b"])]);
    assert_eq!(q.consume_match(0, &text("zzz")), HALF_POINT);
    assert_eq!(aliases_of(&q.answer[0]), vec![text("a"), text("b")]);
}

#[test]
fn no_slot_means_no_answer() {
    let q = question("empty", vec![]);
    assert!(q.is_solved());
    assert_eq!(q.get_answer_pos("anything"), None);
    assert!(!q.is_answer(""));
}

#[test]
fn position_of_finds_the_first() {
    let texts = vec![text("a"), text("b"), text("a")];
    assert_eq!(position_of(&texts, &text("a")), Some(0));
    assert_eq!(position_of(&texts, &text("b")), Some(1));
    assert_eq!(position_of(&texts, &text("c")), None);
    assert_eq!(position_of(&Vec::new(), &text("a")), None);
}

#[test]
fn slot_accepts_and_points() {
    assert!(single("a").accepts(&text("a")));
    assert!(!single("a").accepts(&text("b")));
    assert!(group(&["a", "b"]).accepts(&text("b")));
    assert!(!group(&["a", "b"]).accepts(&text("c")));
    assert_eq!(single("a").points(), 2);
    assert_eq!(group(&["a"]).points(), 2);
    assert_eq!(group(&["a", "b"]).points(), 1);
    assert_eq!(Answer::MutlipleAnswer(vec![text("a")], 2).points(), 1);
    assert_eq!(Answer::MutlipleAnswer(vec![], 0).points(), 1);
}

#[test]
fn worth_of_slots_and_questions() {
    assert_eq!(single("a").checked_worth(), Some(2));
    assert_eq!(group(&["a"]).checked_worth(), Some(2));
    assert_eq!(group(&["a", "b"]).checked_worth(), Some(2));
    assert_eq!(group(&["a", "b", "c"]).checked_worth(), Some(3));
    assert_eq!(Answer::MutlipleAnswer(vec![], 0).checked_worth(), Some(0));
    let q = question("q", vec![single("a"), group(&["b", "c", "d"]), group(&["e"])]);
    assert_eq!(q.checked_worth(), Some(7));
    let deck = vec![q.clone(), q, question("r", vec![])];
    assert_eq!(checked_deck_worth(&deck), Some(14));
    assert_eq!(checked_deck_worth(&Vec::new()), Some(0));
}

#[test]
fn disclose_lists_every_accepted_text() {
    let q = question("q", vec![single("a"), group(&["b", "c"]), group(&["d"]), group(&[])]);
    assert_eq!(
        q.disclose(),
        vec![vec![text("a")], vec![text("b"), text("c")], vec![text("d")], Vec::<String>::new()]
    );
}

#[test]
fn prepare_normalizes_and_sets_sizes() {
    let raw = Question {
        name: text("Some  Name"),
        answer: vec![
            Answer::SingleAnswer(text("  Believer ")),
            Answer::MutlipleAnswer(vec![text("Imagine   Dragons"), text("BELIEVER")], 0),
            Answer::MutlipleAnswer(vec![text(" Solo ")], 7),
        ],
    };
    let ready = raw.prepare();
    assert_eq!(ready.name, "Some  Name");
    assert_eq!(ready.answer.len(), 3);
    match &ready.answer[0] {
        Answer::SingleAnswer(s) => assert_eq!(s, "believer"),
        _ => panic!("a single text stays a single text"),
    }
    match &ready.answer[1] {
        Answer::MutlipleAnswer(v, size) => {
            assert_eq!(v, &vec![text("imagine dragons"), text("believer")]);
            assert_eq!(*size, 2);
        }
        _ => panic!("a group stays a group"),
    }
    match &ready.answer[2] {
        Answer::MutlipleAnswer(v, size) => {
            assert_eq!(v, &vec![text("solo")]);
            assert_eq!(*size, 1);
        }
        _ => panic!("a group stays a group"),
    }
    assert_eq!(ready.get_answer_pos("solo"), Some((2, 2)));
}

#[test]
fn load_deck_turns_the_order_round() {
    let document = vec![
        question("first", vec![single("A")]),
        question("second", vec![single("B")]),
        question("third", vec![single("C")]),
    ];
    let deck = load_deck(&document);
    let names: Vec<&str> = deck.iter().map(|q| q.name.as_str()).collect();
    assert_eq!(names, vec!["third", "second", "first"]);
    assert_eq!(deck[2].get_answer_pos("a"), Some((0, 2)));
    assert!(load_deck(&Vec::new()).is_empty());
}
