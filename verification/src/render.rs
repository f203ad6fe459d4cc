//! The texts that a game shows: numbers, scores, and the list of accepted
//! answers that the operator is given.
use crate::notice::{Audience, Message, MessageModel, Notification, NotificationModel};
use serenity::all::Mentionable;
use vstd::prelude::*;
use vstd::string::StringExecFns;

verus! {

/// The character of a decimal digit.
pub open spec fn digit(d: nat) -> char {
    (('0' as u8) + d) as char
}

/// A number written in decimal digits.
pub open spec fn decimal(n: nat) -> Seq<char>
    decreases n,
{
    if n < 10 {
        seq![digit(n)]
    } else {
        decimal(n / 10).push(digit(n % 10))
    }
}

/// A score, held in halves of a point, written in points: the whole points
/// in decimal digits, then a point and a five where a half is left over.
pub open spec fn points_text(halves: nat) -> Seq<char> {
    if halves % 2 == 1 {
        decimal(halves / 2).push('.').push('5')
    } else {
        decimal(halves / 2)
    }
}

/// The line of one accepted text.
pub open spec fn entry(alias: Seq<char>) -> Seq<char> {
    "-> `"@ + alias + "`\n"@
}

/// The sign before a line of a group: a corner for the first and the last
/// line, a bar for those between them.
pub open spec fn marker(at: int, count: int) -> char {
    if at == 0 {
        '\u{250c}'
    } else if at == count - 1 {
        '\u{2514}'
    } else {
        '\u{2502}'
    }
}

/// The first `upto` lines of a group, each with its sign.
pub open spec fn bracket(aliases: Seq<Seq<char>>, upto: int) -> Seq<char>
    decreases upto,
{
    if upto <= 0 {
        Seq::empty()
    } else {
        bracket(aliases, upto - 1) + seq![marker(upto - 1, aliases.len() as int), ' '] + entry(
            aliases[upto - 1],
        )
    }
}

/// The lines of one slot: a plain line where it accepts one text, and a
/// bracket of lines otherwise.
pub open spec fn slot_text(aliases: Seq<Seq<char>>) -> Seq<char> {
    if aliases.len() == 1 {
        entry(aliases[0])
    } else {
        bracket(aliases, aliases.len() as int)
    }
}

/// The lines of the first `upto` slots.
pub open spec fn slots_text(answers: Seq<Seq<Seq<char>>>, upto: int) -> Seq<char>
    decreases upto,
{
    if upto <= 0 {
        Seq::empty()
    } else {
        slots_text(answers, upto - 1) + slot_text(answers[upto - 1])
    }
}

/// The text that gives the operator the accepted answers of a question: the
/// name of the question, the lines of its slots, and the number of questions
/// that follow.
pub open spec fn answer_list_text(
    question: Seq<char>,
    answers: Seq<Seq<Seq<char>>>,
    remaining: nat,
) -> Seq<char> {
    "Here are the next answers for the question: `"@ + question + "`\n\n"@ + slots_text(
        answers,
        answers.len() as int,
    ) + "\nThere are "@ + decimal(remaining) + " remaining questions\n"@
}

/// Writes a number in decimal digits.
pub fn render_decimal(n: u64) -> (text: String)
    ensures
        text@ == decimal(n as nat),
    decreases n,
{
    if n < 10 {
        let mut text = String::new();
        text.push((('0' as u8) + (n as u8)) as char);
        text
    } else {
        let mut text = render_decimal(n / 10);
        text.push((('0' as u8) + ((n % 10) as u8)) as char);
        text
    }
}

/// Writes a score, held in halves of a point, in points.
pub fn render_points(halves: u64) -> (text: String)
    ensures
        text@ == points_text(halves as nat),
{
    let mut text = render_decimal(halves / 2);
    if halves % 2 == 1 {
        text.push('.');
        text.push('5');
    }
    text
}

/// Appends the line of one accepted text.
fn push_entry(text: &mut String, alias: &String)
    ensures
        final(text)@ == old(text)@ + entry(alias@),
{
    text.append("-> `");
    text.append(alias.as_str());
    text.append("`\n");
    assert(text@ =~= old(text)@ + entry(alias@));
}

/// Appends the lines of one slot.
fn push_slot(text: &mut String, aliases: &Vec<String>)
    ensures
        final(text)@ == old(text)@ + slot_text(aliases.deep_view()),
{
    let ghost model = aliases.deep_view();
    if aliases.len() == 1 {
        push_entry(text, &aliases[0]);
    } else {
        let mut i: usize = 0;
        assert(text@ =~= old(text)@ + bracket(model, 0));
        while i < aliases.len()
            invariant
                i <= aliases.len(),
                model == aliases.deep_view(),
                text@ == old(text)@ + bracket(model, i as int),
            decreases aliases.len() - i,
        {
            let ghost before = text@;
            let sign = if i == 0 {
                '\u{250c}'
            } else if i == aliases.len() - 1 {
                '\u{2514}'
            } else {
                '\u{2502}'
            };
            text.push(sign);
            text.push(' ');
            push_entry(text, &aliases[i]);
            assert(text@ =~= old(text)@ + (bracket(model, i as int) + seq![
                marker(i as int, model.len() as int),
                ' ',
            ] + entry(model[i as int])));
            i += 1;
        }
    }
}

/// Writes the text that gives the operator the accepted answers of a
/// question.
pub fn render_answer_list(question: &String, answers: &Vec<Vec<String>>, remaining: usize) -> (text:
    String)
    ensures
        text@ == answer_list_text(question@, answers.deep_view(), remaining as nat),
{
    let ghost model = answers.deep_view();
    let mut text = String::new();
    text.append("Here are the next answers for the question: `");
    text.append(question.as_str());
    text.append("`\n\n");
    let ghost head = text@;
    assert(head =~= "Here are the next answers for the question: `"@ + question@ + "`\n\n"@);
    let mut i: usize = 0;
    assert(text@ =~= head + slots_text(model, 0));
    while i < answers.len()
        invariant
            i <= answers.len(),
            model == answers.deep_view(),
            text@ == head + slots_text(model, i as int),
        decreases answers.len() - i,
    {
        push_slot(&mut text, &answers[i]);
        assert(text@ =~= head + (slots_text(model, i as int) + slot_text(model[i as int])));
        i += 1;
    }
    text.append("\nThere are ");
    let count = render_decimal(remaining as u64);
    text.append(count.as_str());
    text.append(" remaining questions\n");
    assert(text@ =~= answer_list_text(question@, model, remaining as nat));
    text
}

/// The text that the chat shows as a link to a user: `<@`, the user's
/// number in decimal digits, `>`.
pub open spec fn mention_text(user: nat) -> Seq<char> {
    "<@"@ + decimal(user) + ">"@
}

/// `Mentionable::mention` of serenity, for a user, written out as a text. The
/// user's number must not be zero: serenity has no user of that number. The
/// text is `<@`, the number in decimal digits, `>`.
#[verifier::external_body]
fn user_mention(user: u64) -> (text: String)
    requires
        user != 0,
    ensures
        text@ == mention_text(user as nat),
{
    format!("{}", serenity::all::UserId::new(user).mention())
}

/// A colour, in red, green and blue.
#[derive(Copy, Clone, Debug, PartialEq, Eq, Structural)]
pub struct Color {
    pub red: u8,
    pub green: u8,
    pub blue: u8,
}

/// What is shown for a notification: a title, a colour, and a text.
#[derive(Clone, Debug)]
pub struct Card {
    pub title: String,
    pub color: Color,
    pub body: String,
}

/// A card, as plain data.
pub struct CardModel {
    pub title: Seq<char>,
    pub color: Color,
    pub body: Seq<char>,
}

impl Color {
    /// The colour of what starts.
    pub open spec fn black() -> Color {
        Color { red: 0, green: 0, blue: 0 }
    }

    /// The colour of what went well.
    pub open spec fn green() -> Color {
        Color { red: 0, green: 255, blue: 0 }
    }

    /// The colour of what the operator alone is told.
    pub open spec fn blue() -> Color {
        Color { red: 0, green: 0, blue: 255 }
    }
}

impl View for Card {
    type V = CardModel;

    open spec fn view(&self) -> CardModel {
        CardModel { title: self.title@, color: self.color, body: self.body@ }
    }
}

/// What the players read when the game starts.
pub open spec fn starting_text() -> Seq<char> {
    "We will soon start the blindtest !\nIf you know the name of the song, and the author/band that made it, send a message **in lowercase** here\nOne point will be given for the author/band name and one point for the song name\nBe careful about mistakes in the response, and remember: One message for the song name, and one for the band name\n\nENJOY :D"@
}

/// What the players read when a user found an answer: who found it, what it
/// was, and what the team has now.
pub open spec fn found_text(finder: u64, answer: Seq<char>, team_total: u64) -> Seq<char> {
    mention_text(finder as nat) + " found an answer !\nIt was: `"@ + answer
        + "`\nThey now have "@ + points_text(team_total as nat) + " points !"@
}

/// The head of the standing of a team: its name and its total.
pub open spec fn standing_head(name: Seq<char>, total: u64) -> Seq<char> {
    "Team `"@ + name + "`\ntotal "@ + points_text(total as nat) + "\n\n"@
}

/// The line of a user in the standing of a team: the place, the user, and
/// the user's points.
pub open spec fn standing_line(place: nat, user: u64, points: u64) -> Seq<char> {
    decimal(place) + ") "@ + mention_text(user as nat) + " => "@ + points_text(points as nat)
        + "pts\n\n"@
}

/// The first `upto` lines of the standing of a team.
pub open spec fn standing_lines(ranking: Seq<(u64, u64)>, upto: int) -> Seq<char>
    decreases upto,
{
    if upto <= 0 {
        Seq::empty()
    } else {
        standing_lines(ranking, upto - 1) + standing_line(
            upto as nat,
            ranking[upto - 1].0,
            ranking[upto - 1].1,
        )
    }
}

/// The standing of a team: its name, its total, and a line for each user
/// of the ranking, in the order of the ranking.
pub open spec fn standing_text(name: Seq<char>, total: u64, ranking: Seq<(u64, u64)>) -> Seq<
    char,
> {
    standing_head(name, total) + standing_lines(ranking, ranking.len() as int)
}

impl NotificationModel {
    /// The notification names no user with the number zero.
    pub open spec fn showable(self) -> bool {
        self.message matches MessageModel::AnswerFound { finder, .. } ==> finder != 0
    }

    /// What is shown for the notification.
    pub open spec fn card(self) -> CardModel {
        match self.message {
            MessageModel::GameStarting => CardModel {
                title: "New game !"@,
                color: Color::black(),
                body: starting_text(),
            },
            MessageModel::AnswerList { question, answers, remaining } => CardModel {
                title: if self.audience is Operator {
                    "Success!"@
                } else {
                    "Next question !"@
                },
                color: if self.audience is Operator {
                    Color::green()
                } else {
                    Color::blue()
                },
                body: answer_list_text(question, answers, remaining),
            },
            MessageModel::AnswerFound { finder, answer, team_total } => CardModel {
                title: "Answer found !"@,
                color: Color::green(),
                body: found_text(finder, answer, team_total),
            },
            MessageModel::AllAnswersFound { finished } => CardModel {
                title: "All answer found"@,
                color: Color::green(),
                body: if finished {
                    "The game is finished\n Hope you had fun !"@
                } else {
                    "All anser were found for the current questions !"@
                },
            },
            MessageModel::GameFinished => CardModel {
                title: "Game is finished !"@,
                color: Color::blue(),
                body: "Hope it was fun!"@,
            },
        }
    }
}

/// Writes what the players read when a user found an answer.
pub fn render_found(finder: u64, answer: &String, team_total: u64) -> (text: String)
    requires
        finder != 0,
    ensures
        text@ == found_text(finder, answer@, team_total),
{
    let mut text = user_mention(finder);
    text.append(" found an answer !\nIt was: `");
    text.append(answer.as_str());
    text.append("`\nThey now have ");
    let points = render_points(team_total);
    text.append(points.as_str());
    text.append(" points !");
    assert(text@ =~= found_text(finder, answer@, team_total));
    text
}

/// Writes the standing of a team.
pub fn render_standing(name: &String, total: u64, ranking: &Vec<(u64, u64)>) -> (text: String)
    requires
        forall|i: int| 0 <= i < ranking.len() ==> (#[trigger] ranking[i]).0 != 0,
    ensures
        text@ == standing_text(name@, total, ranking@),
{
    let mut text = String::new();
    text.append("Team `");
    text.append(name.as_str());
    text.append("`\ntotal ");
    let points = render_points(total);
    text.append(points.as_str());
    text.append("\n\n");
    let ghost head = text@;
    assert(head =~= standing_head(name@, total));
    assert(text@ =~= head + standing_lines(ranking@, 0));
    let mut i: usize = 0;
    while i < ranking.len()
        invariant
            i <= ranking.len(),
            forall|i: int| 0 <= i < ranking.len() ==> (#[trigger] ranking[i]).0 != 0,
            text@ == head + standing_lines(ranking@, i as int),
        decreases ranking.len() - i,
    {
        let (user, points) = ranking[i];
        let place = render_decimal((i + 1) as u64);
        text.append(place.as_str());
        text.append(") ");
        let who = user_mention(user);
        text.append(who.as_str());
        text.append(" => ");
        let points = render_points(points);
        text.append(points.as_str());
        text.append("pts\n\n");
        assert(text@ =~= head + (standing_lines(ranking@, i as int) + standing_line(
            (i + 1) as nat,
            ranking[i as int].0,
            ranking[i as int].1,
        )));
        i += 1;
    }
    text
}

impl Notification {
    /// Tells whether the notification names no user with the number zero.
    pub fn is_showable(&self) -> (yes: bool)
        ensures
            yes == self@.showable(),
    {
        match &self.message {
            Message::AnswerFound { finder, .. } => *finder != 0,
            _ => true,
        }
    }

    /// What is shown for the notification.
    pub fn card(&self) -> (card: Card)
        requires
            self@.showable(),
        ensures
            card@ == self@.card(),
    {
        match &self.message {
            Message::GameStarting => Card {
                title: "New game !".to_owned(),
                color: Color { red: 0, green: 0, blue: 0 },
                body: "We will soon start the blindtest !\nIf you know the name of the song, and the author/band that made it, send a message **in lowercase** here\nOne point will be given for the author/band name and one point for the song name\nBe careful about mistakes in the response, and remember: One message for the song name, and one for the band name\n\nENJOY :D".to_owned(),
            },
            Message::AnswerList { question, answers, remaining } => {
                let body = render_answer_list(question, answers, *remaining);
                match &self.audience {
                    Audience::Operator => Card {
                        title: "Success!".to_owned(),
                        color: Color { red: 0, green: 255, blue: 0 },
                        body,
                    },
                    Audience::Channels(_) => Card {
                        title: "Next question !".to_owned(),
                        color: Color { red: 0, green: 0, blue: 255 },
                        body,
                    },
                }
            },
            Message::AnswerFound { finder, answer, team_total } => Card {
                title: "Answer found !".to_owned(),
                color: Color { red: 0, green: 255, blue: 0 },
                body: render_found(*finder, answer, *team_total),
            },
            Message::AllAnswersFound { finished } => Card {
                title: "All answer found".to_owned(),
                color: Color { red: 0, green: 255, blue: 0 },
                body: if *finished {
                    "The game is finished\n Hope you had fun !".to_owned()
                } else {
                    "All anser were found for the current questions !".to_owned()
                },
            },
            Message::GameFinished => Card {
                title: "Game is finished !".to_owned(),
                color: Color { red: 0, green: 0, blue: 255 },
                body: "Hope it was fun!".to_owned(),
            },
        }
    }
}

} // verus!
