use blindtest::{
    Answer, Audience, Data, ErrorKind, GameError, GameState, GuildConfig, Message, Notification,
    Question, Team,
};

const GUILD: u64 = 1;
const ADMIN: u64 = 10;
const RED: u64 = 20;
const BLUE: u64 = 21;
const ALICE: u64 = 100;
const BOB: u64 = 101;
const CAROL: u64 = 102;

fn text(s: &str) -> String {
    s.to_string()
}

fn single(s: &str) -> Answer {
    Answer::SingleAnswer(text(s))
}

fn group(aliases: &[&str]) -> Answer {
    Answer::MutlipleAnswer(aliases.iter().map(|s| text(s)).collect(), 0)
}

fn question(name: &str, answer: Vec<Answer>) -> Question {
    Question { name: text(name), answer }
}

fn two_questions() -> Vec<Question> {
    vec![
        question("first", vec![group(&["Believer", "Imagine Dragons"])]),
        question("second", vec![single("Thunder"), group(&["Solo"])]),
    ]
}

fn started(document: Vec<Question>) -> GuildConfig {
    let mut game = GuildConfig::new(ADMIN, &document).unwrap();
    game.add_team(text("red"), RED).unwrap();
    game.add_team(text("blue"), BLUE).unwrap();
    game.start().unwrap();
    game
}

fn channels_of(n: &Notification) -> Vec<u64> {
    match &n.audience {
        Audience::Channels(c) => c.clone(),
        Audience::Operator => panic!("sent to the operator"),
    }
}

fn sum_of(team: &Team) -> u64 {
    team.leaderboard.values().sum()
}

#[test]
fn one_question_game_from_start_to_end() {
    let mut data = Data::new();
    let document = vec![question("song", vec![single("believer")])];
    assert_eq!(data.create(GUILD, ADMIN, &document), Ok(()));
    assert_eq!(data.add_team(GUILD, text("red"), RED), Ok(()));
    let announced = data.start(GUILD).unwrap();
    assert_eq!(announced.len(), 2);
    assert_eq!(channels_of(&announced[0]), vec![RED, ADMIN]);
    assert!(matches!(announced[0].message, Message::GameStarting));
    assert!(matches!(announced[1].audience, Audience::Operator));
    match &announced[1].message {
        Message::AnswerList { question, answers, remaining } => {
            assert_eq!(question, "song");
            assert_eq!(answers, &vec![vec![text("believer")]]);
            assert_eq!(*remaining, 0);
        }
        _ => panic!("the operator gets the answers"),
    }

    let notices = data.handle_message(GUILD, RED, ALICE, "Believer");
    assert_eq!(notices.len(), 3);
    assert_eq!(channels_of(&notices[0]), vec![RED, ADMIN]);
    match &notices[0].message {
        Message::AnswerFound { finder, answer, team_total } => {
            assert_eq!(*finder, ALICE);
            assert_eq!(answer, "believer");
            assert_eq!(*team_total, 2);
        }
        _ => panic!("the answer is announced first"),
    }
    assert_eq!(channels_of(&notices[1]), vec![RED, ADMIN]);
    assert!(matches!(notices[1].message, Message::AllAnswersFound { finished: true }));
    assert_eq!(channels_of(&notices[2]), vec![ADMIN]);
    assert!(matches!(notices[2].message, Message::GameFinished));

    let game = data.session(GUILD).unwrap();
    assert_eq!(game.state, GameState::Ended);
    assert!(game.questions.is_empty());
    assert_eq!(game.teams[0].total_points, 2);
    assert_eq!(game.teams[0].leaderboard.get(&ALICE), Some(&2));

    assert!(data.handle_message(GUILD, RED, ALICE, "Believer").is_empty());
    assert_eq!(data.delete(GUILD), Ok(()));
    assert!(!data.contains(GUILD));
}

#[test]
fn a_game_of_two_questions() {
    let mut game = started(two_questions());
    assert_eq!(game.current().unwrap().name, "first");
    assert!(!game.is_current_solved());

    let notices = game.handle_message(RED, ALICE, " believer ");
    assert_eq!(notices.len(), 1);
    assert_eq!(channels_of(&notices[0]), vec![RED, BLUE, ADMIN]);
    match &notices[0].message {
        Message::AnswerFound { finder, answer, team_total } => {
            assert_eq!((*finder, answer.as_str(), *team_total), (ALICE, "believer", 1));
        }
        _ => panic!("an answer was found"),
    }
    assert_eq!(game.questions.len(), 2);

    let notices = game.handle_message(BLUE, BOB, "IMAGINE DRAGONS");
    assert_eq!(notices.len(), 3);
    assert!(matches!(notices[1].message, Message::AllAnswersFound { finished: false }));
    assert_eq!(channels_of(&notices[1]), vec![RED, BLUE, ADMIN]);
    assert_eq!(channels_of(&notices[2]), vec![ADMIN]);
    match &notices[2].message {
        Message::AnswerList { question, answers, remaining } => {
            assert_eq!(question, "second");
            assert_eq!(answers, &vec![vec![text("thunder")], vec![text("solo")]]);
            assert_eq!(*remaining, 0);
        }
        _ => panic!("the operator gets the next answers"),
    }
    assert_eq!(game.state, GameState::Started);
    assert_eq!(game.current().unwrap().name, "second");

    let notices = game.handle_message(BLUE, BOB, "solo");
    assert_eq!(notices.len(), 1);
    match &notices[0].message {
        Message::AnswerFound { team_total, .. } => assert_eq!(*team_total, 3),
        _ => panic!("an answer was found"),
    }
    let notices = game.handle_message(RED, CAROL, "Thunder");
    assert_eq!(notices.len(), 3);
    assert!(matches!(notices[2].message, Message::GameFinished));
    assert_eq!(game.state, GameState::Ended);
    assert_eq!(game.teams[0].total_points, 3);
    assert_eq!(game.teams[1].total_points, 3);
    assert_eq!(game.teams[0].leaderboard.get(&ALICE), Some(&1));
    assert_eq!(game.teams[0].leaderboard.get(&CAROL), Some(&2));
    assert_eq!(game.teams[1].leaderboard.get(&BOB), Some(&3));
}

#[test]
fn messages_that_change_nothing() {
    let mut game = GuildConfig::new(ADMIN, &two_questions()).unwrap();
    game.add_team(text("red"), RED).unwrap();
    assert!(game.handle_message(RED, ALICE, "believer").is_empty());
    assert_eq!(game.state, GameState::Configuring);
    assert_eq!(game.teams[0].total_points, 0);

    game.start().unwrap();
    assert!(game.handle_message(BLUE, ALICE, "believer").is_empty());
    assert!(game.handle_message(ADMIN, ALICE, "believer").is_empty());
    assert!(game.handle_message(RED, ALICE, "thunder").is_empty());
    assert!(game.handle_message(RED, ALICE, "").is_empty());
    assert_eq!(game.state, GameState::Started);
    assert_eq!(game.teams[0].total_points, 0);
    assert!(game.teams[0].leaderboard.is_empty());
    assert_eq!(game.questions.len(), 2);
    assert_eq!(game.questions[1].disclose(), vec![vec![text("believer"), text("imagine dragons")]]);

    game.end().unwrap();
    assert!(game.handle_message(RED, ALICE, "believer").is_empty());
    assert_eq!(game.teams[0].total_points, 0);
}

#[test]
fn the_same_answer_scores_once() {
    let mut game = started(two_questions());
    assert_eq!(game.handle_message(RED, ALICE, "believer").len(), 1);
    assert!(game.handle_message(RED, ALICE, "believer").is_empty());
    assert!(game.handle_message(BLUE, BOB, "Believer").is_empty());
    assert_eq!(game.teams[0].total_points, 1);
    assert_eq!(game.teams[1].total_points, 0);
}

#[test]
fn a_started_game_without_a_question_ends() {
    let mut game = GuildConfig {
        teams: vec![Team::new(text("red"), RED)],
        admin_channel: ADMIN,
        state: GameState::Started,
        questions: Vec::new(),
    };
    assert!(game.handle_message(BLUE, ALICE, "x").is_empty());
    assert_eq!(game.state, GameState::Started);
    assert!(game.handle_message(RED, ALICE, "x").is_empty());
    assert_eq!(game.state, GameState::Ended);
    assert!(!game.is_current_solved());
    assert!(game.current().is_none());
    assert!(game.advance().is_none());
}

#[test]
fn totals_are_the_sums_of_the_leaderboards() {
    let mut team = Team::new(text("red"), RED);
    assert_eq!(team.total_points, 0);
    assert_eq!(sum_of(&team), 0);
    for (user, points) in [(ALICE, 2), (BOB, 1), (ALICE, 1), (CAROL, 2), (BOB, 1), (ALICE, 2)] {
        team.credit(user, points);
        assert_eq!(team.total_points, sum_of(&team));
    }
    assert_eq!(team.total_points, 9);
    assert_eq!(team.leaderboard.get(&ALICE), Some(&5));
    assert_eq!(team.leaderboard.get(&BOB), Some(&2));
    assert_eq!(team.leaderboard.get(&CAROL), Some(&2));

    let mut game = started(two_questions());
    for (channel, user, said) in [
        (RED, ALICE, "believer"),
        (RED, BOB, "nothing"),
        (BLUE, CAROL, "imagine dragons"),
        (BLUE, CAROL, "thunder"),
        (RED, ALICE, "solo"),
    ] {
        game.handle_message(channel, user, said);
        for team in &game.teams {
            assert_eq!(team.total_points, sum_of(team));
        }
    }
    assert_eq!(game.teams[0].total_points + game.teams[1].total_points, 6);
}

#[test]
fn ranking_lists_the_lowest_first() {
    let mut team = Team::new(text("red"), RED);
    team.credit(ALICE, 5);
    team.credit(BOB, 1);
    team.credit(CAROL, 3);
    assert_eq!(team.ranked_view(20), vec![(BOB, 1), (CAROL, 3), (ALICE, 5)]);
    assert_eq!(team.ranked_view(3), vec![(BOB, 1), (CAROL, 3), (ALICE, 5)]);
    assert_eq!(team.ranked_view(2), vec![(BOB, 1), (CAROL, 3)]);
    assert_eq!(team.ranked_view(1), vec![(BOB, 1)]);
    assert!(team.ranked_view(0).is_empty());
    assert!(Team::new(text("blue"), BLUE).ranked_view(5).is_empty());
    let mut entries = team.entries();
    entries.sort();
    assert_eq!(entries, vec![(ALICE, 5), (BOB, 1), (CAROL, 3)]);
}

#[test]
fn ranking_with_equal_points_keeps_every_user() {
    let mut team = Team::new(text("red"), RED);
    for user in 0..50u64 {
        team.credit(user, 1 + user % 3);
    }
    let ranking = team.ranked_view(50);
    assert_eq!(ranking.len(), 50);
    for pair in ranking.windows(2) {
        assert!(pair[0].1 <= pair[1].1);
    }
    let mut users: Vec<u64> = ranking.iter().map(|e| e.0).collect();
    users.sort();
    assert_eq!(users, (0..50).collect::<Vec<u64>>());
    let lowest = team.ranked_view(17);
    assert_eq!(lowest.len(), 17);
    assert!(lowest.iter().all(|e| e.1 == 1));
}

#[test]
fn standings_list_the_teams_in_order() {
    let mut game = started(two_questions());
    game.handle_message(BLUE, BOB, "believer");
    let table = game.standings(20);
    assert_eq!(table.len(), 2);
    assert_eq!(table[0], (text("red"), 0, vec![]));
    assert_eq!(table[1], (text("blue"), 1, vec![(BOB, 1)]));

    let mut data = Data::new();
    assert_eq!(data.standings(GUILD, 20), Err(GameError::NoSession));
    data.create(GUILD, ADMIN, &two_questions()).unwrap();
    assert_eq!(data.standings(GUILD, 20), Ok(vec![]));
}

#[test]
fn teams_are_refused_for_a_used_channel_or_name() {
    let mut game = GuildConfig::new(ADMIN, &two_questions()).unwrap();
    assert_eq!(game.add_team(text("red"), RED), Ok(()));
    assert_eq!(game.add_team(text("blue"), RED), Err(GameError::DuplicateChannel));
    assert_eq!(game.add_team(text("red"), RED), Err(GameError::DuplicateChannel));
    assert_eq!(game.add_team(text("red"), BLUE), Err(GameError::DuplicateName));
    assert_eq!(game.check_team(&text("red"), BLUE), Err(GameError::DuplicateName));
    assert_eq!(game.check_team(&text("blue"), BLUE), Ok(()));
    assert_eq!(game.teams.len(), 1);
    assert_eq!(game.add_team(text("blue"), BLUE), Ok(()));
    assert_eq!(game.teams.len(), 2);
    assert_eq!(game.teams[1].name, "blue");
    assert_eq!(game.teams[1].channel, BLUE);
    assert_eq!(game.team_on(BLUE), Some(1));
    assert_eq!(game.team_on(ADMIN), None);
    assert_eq!(game.team_named(&text("red")), Some(0));
    assert_eq!(game.team_named(&text("green")), None);
    assert_eq!(game.broadcast_channels(), vec![RED, BLUE, ADMIN]);
}

#[test]
fn removing_a_team_keeps_the_others() {
    let mut game = GuildConfig::new(ADMIN, &two_questions()).unwrap();
    for (name, channel) in [("a", 1u64), ("b", 2), ("c", 3), ("d", 4)] {
        game.add_team(text(name), channel).unwrap();
    }
    assert_eq!(game.remove_team("zzz"), Err(GameError::NoTeam));
    assert_eq!(game.remove_team("a"), Ok(()));
    let names: Vec<&str> = game.teams.iter().map(|t| t.name.as_str()).collect();
    assert_eq!(names, vec!["d", "b", "c"]);
    assert_eq!(game.remove_team("a"), Err(GameError::NoTeam));
    assert_eq!(game.remove_team("c"), Ok(()));
    let names: Vec<&str> = game.teams.iter().map(|t| t.name.as_str()).collect();
    assert_eq!(names, vec!["d", "b"]);
    assert_eq!(game.team_on(4), Some(0));
    assert_eq!(game.team_on(2), Some(1));
    assert_eq!(game.team_on(1), None);
}

#[test]
fn removing_a_team_while_the_game_runs() {
    let mut game = GuildConfig::new(ADMIN, &two_questions()).unwrap();
    for (name, channel) in [("a", 1u64), ("b", 2), ("c", 3)] {
        game.add_team(text(name), channel).unwrap();
    }
    game.start().unwrap();
    assert_eq!(game.handle_message(3, ALICE, "believer").len(), 1);
    assert_eq!(game.remove_team("a"), Ok(()));
    assert_eq!(game.teams[0].name, "c");
    assert_eq!(game.teams[0].total_points, 1);
    assert!(game.handle_message(1, BOB, "imagine dragons").is_empty());
    let notices = game.handle_message(3, BOB, "imagine dragons");
    assert_eq!(channels_of(&notices[0]), vec![3, 2, ADMIN]);
    assert_eq!(game.teams[0].total_points, 2);
    assert_eq!(game.teams[1].name, "b");
    assert_eq!(game.teams[1].total_points, 0);
    assert_eq!(game.add_team(text("late"), 9), Ok(()));
    assert_eq!(game.handle_message(9, CAROL, "thunder").len(), 1);
}

#[test]
fn start_is_refused_without_teams_or_twice() {
    let mut game = GuildConfig::new(ADMIN, &two_questions()).unwrap();
    assert_eq!(game.start().unwrap_err(), GameError::NoTeams);
    assert_eq!(game.state, GameState::Configuring);
    game.add_team(text("red"), RED).unwrap();
    assert_eq!(game.start().unwrap().len(), 2);
    assert_eq!(game.state, GameState::Started);
    assert_eq!(game.start().unwrap_err(), GameError::InvalidState);
    assert_eq!(game.end(), Ok(()));
    assert_eq!(game.state, GameState::Ended);
    assert_eq!(game.start().unwrap_err(), GameError::InvalidState);
    assert_eq!(game.end(), Err(GameError::AlreadyEnded));
}

#[test]
fn start_tells_the_answers_of_the_current_question() {
    let mut game = GuildConfig::new(ADMIN, &two_questions()).unwrap();
    game.add_team(text("red"), RED).unwrap();
    let notices = game.start().unwrap();
    match &notices[1].message {
        Message::AnswerList { question, answers, remaining } => {
            assert_eq!(question, "first");
            assert_eq!(answers, &vec![vec![text("believer"), text("imagine dragons")]]);
            assert_eq!(*remaining, 1);
        }
        _ => panic!("the operator gets the answers"),
    }
    match game.answer_list() {
        Message::AnswerList { question, remaining, .. } => {
            assert_eq!(question, "first");
            assert_eq!(remaining, 1);
        }
        _ => panic!("an answer list"),
    }
}

#[test]
fn advance_takes_the_current_question() {
    let mut game = GuildConfig::new(ADMIN, &two_questions()).unwrap();
    assert_eq!(game.advance().unwrap().name, "first");
    assert_eq!(game.current().unwrap().name, "second");
    assert_eq!(game.advance().unwrap().name, "second");
    assert!(game.advance().is_none());
}

#[test]
fn an_empty_question_set_is_refused() {
    assert_eq!(GuildConfig::new(ADMIN, &Vec::new()).unwrap_err(), GameError::EmptyQuestionSet);
    let mut data = Data::new();
    assert_eq!(data.create(GUILD, ADMIN, &Vec::new()), Err(GameError::EmptyQuestionSet));
    assert!(!data.contains(GUILD));
}

#[test]
fn a_new_game_is_in_configuration() {
    let game = GuildConfig::new(ADMIN, &two_questions()).unwrap();
    assert_eq!(game.state, GameState::Configuring);
    assert_eq!(game.admin_channel, ADMIN);
    assert!(game.teams.is_empty());
    let names: Vec<&str> = game.questions.iter().map(|q| q.name.as_str()).collect();
    assert_eq!(names, vec!["second", "first"]);
    match &game.questions[1].answer[0] {
        Answer::MutlipleAnswer(aliases, size) => {
            assert_eq!(aliases, &vec![text("believer"), text("imagine dragons")]);
            assert_eq!(*size, 2);
        }
        _ => panic!("a group"),
    }
}

#[test]
fn the_registry_keeps_communities_apart() {
    let mut data = Data::new();
    assert_eq!(data.create(1, ADMIN, &two_questions()), Ok(()));
    assert_eq!(data.create(1, ADMIN, &two_questions()), Err(GameError::AlreadyExists));
    assert_eq!(data.create(1, ADMIN, &Vec::new()), Err(GameError::AlreadyExists));
    assert_eq!(data.create(2, ADMIN + 1, &two_questions()), Ok(()));
    assert_eq!(data.add_team(1, text("red"), RED), Ok(()));
    assert_eq!(data.add_team(2, text("red"), RED), Ok(()));
    data.start(1).unwrap();
    assert_eq!(data.handle_message(1, RED, ALICE, "believer").len(), 1);
    assert!(data.handle_message(2, RED, ALICE, "believer").is_empty());
    assert!(data.handle_message(3, RED, ALICE, "believer").is_empty());
    assert_eq!(data.session(1).unwrap().teams[0].total_points, 1);
    assert_eq!(data.session(2).unwrap().teams[0].total_points, 0);
    assert_eq!(data.session(2).unwrap().state, GameState::Configuring);
    assert!(data.session(3).is_none());
}

#[test]
fn the_registry_refuses_what_has_no_game() {
    let mut data = Data::new();
    assert_eq!(data.start(GUILD).unwrap_err(), GameError::NoSession);
    assert_eq!(data.end(GUILD), Err(GameError::NoSession));
    assert_eq!(data.delete(GUILD), Err(GameError::NoSession));
    assert_eq!(data.add_team(GUILD, text("red"), RED), Err(GameError::NoSession));
    assert_eq!(data.check_team(GUILD, "red", RED), Err(GameError::NoSession));
    assert_eq!(data.remove_team(GUILD, "red"), Err(GameError::NoSession));
}

#[test]
fn the_registry_passes_on_what_the_game_refuses() {
    let mut data = Data::new();
    data.create(GUILD, ADMIN, &two_questions()).unwrap();
    assert_eq!(data.delete(GUILD), Err(GameError::NotEnded));
    assert_eq!(data.start(GUILD).unwrap_err(), GameError::NoTeams);
    assert_eq!(data.check_team(GUILD, "red", RED), Ok(()));
    assert_eq!(data.add_team(GUILD, text("red"), RED), Ok(()));
    assert_eq!(data.check_team(GUILD, "blue", RED), Err(GameError::DuplicateChannel));
    assert_eq!(data.check_team(GUILD, "red", BLUE), Err(GameError::DuplicateName));
    assert_eq!(data.add_team(GUILD, text("blue"), RED), Err(GameError::DuplicateChannel));
    assert_eq!(data.add_team(GUILD, text("red"), BLUE), Err(GameError::DuplicateName));
    assert_eq!(data.remove_team(GUILD, "blue"), Err(GameError::NoTeam));
    assert_eq!(data.remove_team(GUILD, "red"), Ok(()));
    assert_eq!(data.add_team(GUILD, text("red"), RED), Ok(()));
    assert_eq!(data.start(GUILD).unwrap().len(), 2);
    assert_eq!(data.start(GUILD).unwrap_err(), GameError::InvalidState);
    assert_eq!(data.delete(GUILD), Err(GameError::NotEnded));
    assert_eq!(data.end(GUILD), Ok(()));
    assert_eq!(data.end(GUILD), Err(GameError::AlreadyEnded));
    assert!(data.contains(GUILD));
    assert_eq!(data.delete(GUILD), Ok(()));
    assert!(!data.contains(GUILD));
    assert_eq!(data.create(GUILD, ADMIN, &two_questions()), Ok(()));
}

#[test]
fn every_reason_has_its_kind() {
    assert_eq!(GameError::NoSession.kind(), ErrorKind::NotFound);
    assert_eq!(GameError::NoTeam.kind(), ErrorKind::NotFound);
    assert_eq!(GameError::AlreadyExists.kind(), ErrorKind::Conflict);
    assert_eq!(GameError::DuplicateChannel.kind(), ErrorKind::Conflict);
    assert_eq!(GameError::DuplicateName.kind(), ErrorKind::Conflict);
    assert_eq!(GameError::InvalidState.kind(), ErrorKind::InvalidState);
    assert_eq!(GameError::AlreadyEnded.kind(), ErrorKind::InvalidState);
    assert_eq!(GameError::NotEnded.kind(), ErrorKind::InvalidState);
    assert_eq!(GameError::EmptyQuestionSet.kind(), ErrorKind::Precondition);
    assert_eq!(GameError::QuestionSetTooLarge.kind(), ErrorKind::Precondition);
    assert_eq!(GameError::NoTeams.kind(), ErrorKind::Precondition);
}
