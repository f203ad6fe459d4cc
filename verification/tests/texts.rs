use blindtest::render::{
    render_answer_list, render_decimal, render_found, render_points, render_standing,
};
use blindtest::{Audience, Color, Message, Notification};
use serenity::all::{Mentionable, UserId};

const GREEN: Color = Color { red: 0, green: 255, blue: 0 };
const BLUE: Color = Color { red: 0, green: 0, blue: 255 };
const BLACK: Color = Color { red: 0, green: 0, blue: 0 };

fn text(s: &str) -> String {
    s.to_string()
}

fn to_channels(message: Message) -> Notification {
    Notification { audience: Audience::Channels(vec![1, 2]), message }
}

#[test]
fn numbers_are_written_in_decimal() {
    assert_eq!(render_decimal(0), "0");
    assert_eq!(render_decimal(7), "7");
    assert_eq!(render_decimal(10), "10");
    assert_eq!(render_decimal(1234567890), "1234567890");
    assert_eq!(render_decimal(u64::MAX), "18446744073709551615");
    for n in 0..2000u64 {
        assert_eq!(render_decimal(n), n.to_string());
    }
}

#[test]
fn scores_are_written_in_points() {
    assert_eq!(render_points(0), "0");
    assert_eq!(render_points(1), "0.5");
    assert_eq!(render_points(2), "1");
    assert_eq!(render_points(3), "1.5");
    assert_eq!(render_points(25), "12.5");
    for halves in 0..500u64 {
        assert_eq!(render_points(halves), format!("{}", halves as f64 / 2.0));
    }
}

#[test]
fn answer_list_of_single_texts_and_groups() {
    let answers = vec![
        vec![text("thunder")],
        vec![text("believer"), text("imagine dragons")],
        vec![text("a"), text("b"), text("c"), text("d")],
        vec![],
    ];
    assert_eq!(
        render_answer_list(&text("Song 1"), &answers, 3),
        "Here are the next answers for the question: `Song 1`\n\n\
         -> `thunder`\n\
         ┌ -> `believer`\n\
         └ -> `imagine dragons`\n\
         ┌ -> `a`\n\
         │ -> `b`\n\
         │ -> `c`\n\
         └ -> `d`\n\
         \nThere are 3 remaining questions\n"
    );
}

#[test]
fn answer_list_without_slots() {
    assert_eq!(
        render_answer_list(&text("q"), &Vec::new(), 0),
        "Here are the next answers for the question: `q`\n\n\nThere are 0 remaining questions\n"
    );
}

#[test]
fn found_text_names_the_finder_as_the_chat_does() {
    for user in [1u64, 42, 175928847299117063, u64::MAX] {
        let want = format!(
            "{} found an answer !\nIt was: `{}`\nThey now have {} points !",
            UserId::new(user).mention(),
            "believer",
            1.5
        );
        assert_eq!(render_found(user, &text("believer"), 3), want);
    }
    assert_eq!(
        render_found(42, &text("x"), 2),
        "<@42> found an answer !\nIt was: `x`\nThey now have 1 points !"
    );
}

#[test]
fn standing_lists_the_ranking_in_order() {
    assert_eq!(
        render_standing(&text("red"), 7, &vec![(5, 1), (9, 2), (3, 4)]),
        "Team `red`\ntotal 3.5\n\n1) <@5> => 0.5pts\n\n2) <@9> => 1pts\n\n3) <@3> => 2pts\n\n"
    );
    assert_eq!(render_standing(&text("blue"), 0, &Vec::new()), "Team `blue`\ntotal 0\n\n");
}

#[test]
fn card_of_the_start() {
    let n = to_channels(Message::GameStarting);
    assert!(n.is_showable());
    let card = n.card();
    assert_eq!(card.title, "New game !");
    assert_eq!(card.color, BLACK);
    assert!(card.body.starts_with("We will soon start the blindtest !\nIf you know"));
    assert!(card.body.ends_with("one for the band name\n\nENJOY :D"));
    assert_eq!(card.body.lines().count(), 6);
}

#[test]
fn card_of_an_answer_list() {
    let list = Message::AnswerList {
        question: text("q"),
        answers: vec![vec![text("a")]],
        remaining: 2,
    };
    let body = "Here are the next answers for the question: `q`\n\n-> `a`\n\nThere are 2 remaining questions\n";
    let card = Notification { audience: Audience::Operator, message: list.clone() }.card();
    assert_eq!((card.title.as_str(), card.color, card.body.as_str()), ("Success!", GREEN, body));
    let card = to_channels(list).card();
    assert_eq!(
        (card.title.as_str(), card.color, card.body.as_str()),
        ("Next question !", BLUE, body)
    );
}

#[test]
fn card_of_an_answer_found() {
    let n = to_channels(Message::AnswerFound { finder: 7, answer: text("believer"), team_total: 5 });
    assert!(n.is_showable());
    let card = n.card();
    assert_eq!(card.title, "Answer found !");
    assert_eq!(card.color, GREEN);
    assert_eq!(card.body, "<@7> found an answer !\nIt was: `believer`\nThey now have 2.5 points !");
    let nobody = to_channels(Message::AnswerFound { finder: 0, answer: text("x"), team_total: 0 });
    assert!(!nobody.is_showable());
}

#[test]
fn cards_of_the_end_of_a_question_and_of_the_game() {
    let card = to_channels(Message::AllAnswersFound { finished: false }).card();
    assert_eq!(card.title, "All answer found");
    assert_eq!(card.color, GREEN);
    assert_eq!(card.body, "All anser were found for the current questions !");
    let card = to_channels(Message::AllAnswersFound { finished: true }).card();
    assert_eq!(card.title, "All answer found");
    assert_eq!(card.color, GREEN);
    assert_eq!(card.body, "The game is finished\n Hope you had fun !");
    let card = to_channels(Message::GameFinished).card();
    assert_eq!(card.title, "Game is finished !");
    assert_eq!(card.color, BLUE);
    assert_eq!(card.body, "Hope it was fun!");
}
