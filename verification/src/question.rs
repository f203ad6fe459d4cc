//! Questions and their answer slots.
//!
//! A question holds the slots that are still open. A slot is either one text,
//! or a group of aliases that are found one by one. Points are counted in
//! halves, so that a part of a group can be credited exactly.
use crate::sums::{lemma_sum_swap_removed, lemma_sum_take, lemma_sum_update, sum, swap_removed};
use crate::text::{
    char_is_whitespace, char_lower, is_whitespace, join, lemma_join_grow_last, lemma_join_len,
    lemma_join_new_word, lemma_lower_facts, lemma_words_are_words, lower, lower_text, normalized,
    words,
};
use vstd::prelude::*;

verus! {

/// One whole point, in halves.
pub const FULL_POINT: u64 = 2;

/// Half a point, in halves.
pub const HALF_POINT: u64 = 1;

/// An answer slot of a question.
///
/// `SingleAnswer` holds the one text that fills the slot. `MutlipleAnswer`
/// holds the aliases that are still to be found, and the number of aliases the
/// group had when it was loaded.
#[derive(Clone, Debug)]
pub enum Answer {
    SingleAnswer(String),
    MutlipleAnswer(Vec<String>, usize),
}

/// A question: its name and the slots that are still open.
#[derive(Clone, Debug)]
pub struct Question {
    pub name: String,
    pub answer: Vec<Answer>,
}

/// What an answer slot is, as plain data.
pub enum AnswerModel {
    Single(Seq<char>),
    Group(Seq<Seq<char>>, nat),
}

/// What a question is, as plain data.
pub struct QuestionModel {
    pub name: Seq<char>,
    pub slots: Seq<AnswerModel>,
}

impl View for Answer {
    type V = AnswerModel;

    open spec fn view(&self) -> AnswerModel {
        match *self {
            Answer::SingleAnswer(text) => AnswerModel::Single(text@),
            Answer::MutlipleAnswer(aliases, size) => AnswerModel::Group(
                aliases.deep_view(),
                size as nat,
            ),
        }
    }
}

impl DeepView for Answer {
    type V = AnswerModel;

    open spec fn deep_view(&self) -> AnswerModel {
        self.view()
    }
}

impl View for Question {
    type V = QuestionModel;

    open spec fn view(&self) -> QuestionModel {
        QuestionModel { name: self.name@, slots: self.answer.deep_view() }
    }
}

impl DeepView for Question {
    type V = QuestionModel;

    open spec fn deep_view(&self) -> QuestionModel {
        self.view()
    }
}

impl AnswerModel {
    /// The slot takes `text` as an answer.
    pub open spec fn accepts(self, text: Seq<char>) -> bool {
        match self {
            AnswerModel::Single(own) => own == text,
            AnswerModel::Group(aliases, _) => aliases.contains(text),
        }
    }

    /// The points, in halves, that one answer to the slot is worth: a whole
    /// point for a single text and for a group that was loaded with one
    /// alias, half a point for an alias of any other group.
    pub open spec fn points(self) -> u64 {
        match self {
            AnswerModel::Single(_) => FULL_POINT,
            AnswerModel::Group(_, size) => if size == 1 {
                FULL_POINT
            } else {
                HALF_POINT
            },
        }
    }

    /// The points, in halves, that can still be won from the slot.
    pub open spec fn worth(self) -> nat {
        match self {
            AnswerModel::Single(_) => 2,
            AnswerModel::Group(aliases, size) => if size == 1 {
                2 * aliases.len()
            } else {
                aliases.len()
            },
        }
    }

    /// The texts that the slot accepts.
    pub open spec fn aliases(self) -> Seq<Seq<char>> {
        match self {
            AnswerModel::Single(own) => seq![own],
            AnswerModel::Group(aliases, _) => aliases,
        }
    }

    /// What is left of the slot once `text` was given for it, or `None` where
    /// nothing is left. A single text is used up by any answer. A group loses
    /// the first alias equal to `text`, the last alias taking its place, and
    /// is used up when no alias is left.
    pub open spec fn remainder(self, text: Seq<char>) -> Option<AnswerModel> {
        match self {
            AnswerModel::Single(_) => None,
            AnswerModel::Group(aliases, size) => {
                let rest = match aliases.index_of_first(text) {
                    Some(at) => swap_removed(aliases, at),
                    None => aliases,
                };
                if rest.len() == 0 {
                    None
                } else {
                    Some(AnswerModel::Group(rest, size))
                }
            },
        }
    }

    /// The slot as it stands after loading: every text in normal form, and
    /// the size of a group set to the number of its aliases.
    pub open spec fn prepared(self) -> AnswerModel {
        match self {
            AnswerModel::Single(own) => AnswerModel::Single(normalized(own)),
            AnswerModel::Group(aliases, _) => AnswerModel::Group(
                aliases.map_values(|t: Seq<char>| normalized(t)),
                aliases.len(),
            ),
        }
    }

    /// A group never holds more aliases than it was loaded with.
    pub open spec fn wf(self) -> bool {
        match self {
            AnswerModel::Single(_) => true,
            AnswerModel::Group(aliases, size) => aliases.len() <= size,
        }
    }
}

impl QuestionModel {
    /// For each slot, whether it accepts `text`.
    pub open spec fn acceptance(self, text: Seq<char>) -> Seq<bool> {
        self.slots.map_values(|slot: AnswerModel| slot.accepts(text))
    }

    /// The first slot that accepts `text`, with the points its answer is
    /// worth; `None` where no slot accepts it.
    pub open spec fn matched(self, text: Seq<char>) -> Option<(int, u64)> {
        match self.acceptance(text).index_of_first(true) {
            Some(at) => Some((at, self.slots[at].points())),
            None => None,
        }
    }

    /// The question after `text` was given for the slot at `at`: the slot
    /// holds what is left of it, or is removed, the last slot taking its
    /// place, where nothing is left.
    pub open spec fn after_match(self, at: int, text: Seq<char>) -> QuestionModel {
        QuestionModel {
            name: self.name,
            slots: match self.slots[at].remainder(text) {
                Some(rest) => self.slots.update(at, rest),
                None => swap_removed(self.slots, at),
            },
        }
    }

    /// No slot is open any more.
    pub open spec fn solved(self) -> bool {
        self.slots.len() == 0
    }

    /// For each open slot, the texts it accepts.
    pub open spec fn disclosed(self) -> Seq<Seq<Seq<char>>> {
        self.slots.map_values(|slot: AnswerModel| slot.aliases())
    }

    /// The points, in halves, that can still be won from the question.
    pub open spec fn worth(self) -> nat {
        sum(self.slots.map_values(|slot: AnswerModel| slot.worth()))
    }

    /// The question as it stands after loading.
    pub open spec fn prepared(self) -> QuestionModel {
        QuestionModel {
            name: self.name,
            slots: self.slots.map_values(|slot: AnswerModel| slot.prepared()),
        }
    }

    /// Every slot is well formed.
    pub open spec fn wf(self) -> bool {
        forall|i: int| 0 <= i < self.slots.len() ==> (#[trigger] self.slots[i]).wf()
    }
}

/// An index that holds `needle` and has no `needle` before it is the first
/// index of `needle`.
pub proof fn lemma_first_index<T>(s: Seq<T>, needle: T, at: int)
    requires
        0 <= at < s.len(),
        s[at] == needle,
        forall|j: int| 0 <= j < at ==> s[j] != needle,
    ensures
        s.index_of_first(needle) == Some(at),
        s.contains(needle),
{
    assert(s.contains(needle));
    s.index_of_first_ensures(needle);
}

/// A sequence without `needle` has no first index of it.
pub proof fn lemma_no_index<T>(s: Seq<T>, needle: T)
    requires
        forall|j: int| 0 <= j < s.len() ==> s[j] != needle,
    ensures
        s.index_of_first(needle) is None,
        !s.contains(needle),
{
    s.index_of_first_ensures(needle);
}

/// The index of the first text equal to `text`.
pub fn position_of(texts: &Vec<String>, text: &String) -> (found: Option<usize>)
    ensures
        match found {
            Some(at) => at < texts.len() && texts.deep_view().index_of_first(text@) == Some(
                at as int,
            ),
            None => texts.deep_view().index_of_first(text@) is None,
        },
        found is Some <==> texts.deep_view().contains(text@),
{
    let ghost model = texts.deep_view();
    let mut i: usize = 0;
    while i < texts.len()
        invariant
            i <= texts.len(),
            model == texts.deep_view(),
            forall|j: int| 0 <= j < i ==> model[j] != text@,
        decreases texts.len() - i,
    {
        if texts[i] == *text {
            proof {
                lemma_first_index(model, text@, i as int);
            }
            return Some(i);
        }
        i += 1;
    }
    proof {
        lemma_no_index(model, text@);
    }
    None
}

impl Answer {
    /// Tells whether the slot takes `text` as an answer.
    pub fn accepts(&self, text: &String) -> (yes: bool)
        ensures
            yes == self@.accepts(text@),
    {
        match self {
            Answer::SingleAnswer(own) => *own == *text,
            Answer::MutlipleAnswer(aliases, _) => position_of(aliases, text).is_some(),
        }
    }

    /// The points, in halves, that one answer to the slot is worth.
    pub fn points(&self) -> (points: u64)
        ensures
            points == self@.points(),
    {
        match self {
            Answer::SingleAnswer(_) => FULL_POINT,
            Answer::MutlipleAnswer(_, size) => if *size == 1 {
                FULL_POINT
            } else {
                HALF_POINT
            },
        }
    }
}

impl Question {
    /// The normal form of a text: split at runs of whitespace, joined with
    /// single spaces, ASCII letters lowered.
    pub fn normalize_string(s: &str) -> (normal: String)
        ensures
            normal@ == normalized(s@),
    {
        let mut out = String::new();
        let mut empty = true;
        let mut in_word = false;
        let chars = s.chars();
        for c in it: chars
            invariant
                it.seq() == s@,
                out@ == normalized(s@.take(it.index() as int)),
                empty == (words(s@.take(it.index() as int)).len() == 0),
                in_word == (it.index() > 0 && !is_whitespace(s@[it.index() - 1])),
        {
            let ghost before = s@.take(it.index() as int);
            let ghost now = s@.take(it.index() + 1);
            proof {
                assert(now.drop_last() == before);
                assert(now.last() == c);
                lemma_words_are_words(before);
                lemma_lower_facts(c);
                if it.index() > 0 {
                    assert(before.last() == s@[it.index() - 1]);
                    assert(now[now.len() - 2] == s@[it.index() - 1]);
                }
            }
            if char_is_whitespace(c) {
                in_word = false;
            } else {
                if in_word {
                    proof {
                        lemma_join_grow_last(words(before), c);
                        assert(lower_text(join(words(before)).push(c)) == lower_text(
                            join(words(before)),
                        ).push(lower(c)));
                    }
                } else {
                    proof {
                        lemma_join_new_word(words(before), c);
                        lemma_join_len(words(before));
                        assert(lower_text(join(words(before)).push(' ').push(c)) == lower_text(
                            join(words(before)),
                        ).push(' ').push(lower(c)));
                        assert(lower_text(seq![c]) == Seq::<char>::empty().push(lower(c)));
                    }
                    if !empty {
                        out.push(' ');
                    }
                }
                out.push(char_lower(c));
                empty = false;
                in_word = true;
            }
        }
        proof {
            assert(s@.take(s@.len() as int) == s@);
        }
        out
    }

    /// The first slot that accepts the text `normal`, with the points its
    /// answer is worth.
    pub fn find_slot(&self, normal: &String) -> (found: Option<(usize, u64)>)
        ensures
            match found {
                Some((at, points)) => self@.matched(normal@) == Some((at as int, points)),
                None => self@.matched(normal@) is None,
            },
    {
        let ghost hits = self@.acceptance(normal@);
        let mut i: usize = 0;
        while i < self.answer.len()
            invariant
                i <= self.answer.len(),
                hits == self@.acceptance(normal@),
                forall|j: int| 0 <= j < i ==> hits[j] != true,
            decreases self.answer.len() - i,
        {
            if self.answer[i].accepts(normal) {
                proof {
                    lemma_first_index(hits, true, i as int);
                }
                return Some((i, self.answer[i].points()));
            }
            i += 1;
        }
        proof {
            lemma_no_index(hits, true);
        }
        None
    }

    /// Tells whether some slot accepts the normal form of `s`.
    pub fn is_answer(&self, s: &str) -> (yes: bool)
        ensures
            yes == self@.matched(normalized(s@)).is_some(),
    {
        self.get_answer_pos(s).is_some()
    }

    /// The first slot that accepts the normal form of `s`, with the points
    /// its answer is worth, in halves.
    pub fn get_answer_pos(&self, s: &str) -> (found: Option<(usize, u64)>)
        ensures
            match found {
                Some((at, points)) => self@.matched(normalized(s@)) == Some((at as int, points)),
                None => self@.matched(normalized(s@)) is None,
            },
    {
        let normal = Self::normalize_string(s);
        self.find_slot(&normal)
    }

    /// Tells whether no slot is open any more.
    pub fn is_solved(&self) -> (yes: bool)
        ensures
            yes == self@.solved(),
    {
        self.answer.len() == 0
    }
}

impl Question {
    /// Takes the answer `alias` out of the slot at `at` and returns the
    /// points, in halves, that it is worth. A single text is removed whole. A
    /// group loses the alias, and is removed when it holds no alias any more.
    pub fn consume_match(&mut self, at: usize, alias: &String) -> (points: u64)
        requires
            at < old(self).answer.len(),
        ensures
            final(self)@ == old(self)@.after_match(at as int, alias@),
            points == old(self)@.slots[at as int].points(),
    {
        let points = self.answer[at].points();
        let ghost before = self.answer.deep_view();
        let used_up = match &mut self.answer[at] {
            Answer::SingleAnswer(_) => true,
            Answer::MutlipleAnswer(aliases, _) => {
                match position_of(aliases, alias) {
                    Some(found) => {
                        let ghost texts = aliases.deep_view();
                        aliases.swap_remove(found);
                        assert(aliases.deep_view() =~= swap_removed(texts, found as int));
                    },
                    None => {},
                }
                aliases.len() == 0
            },
        };
        if used_up {
            self.answer.swap_remove(at);
            assert(self.answer.deep_view() =~= swap_removed(before, at as int));
        } else {
            assert(self.answer.deep_view() =~= before.update(
                at as int,
                before[at as int].remainder(alias@)->0,
            ));
        }
        points
    }

    /// For each open slot, the texts it accepts.
    pub fn disclose(&self) -> (texts: Vec<Vec<String>>)
        ensures
            texts.deep_view() == self@.disclosed(),
    {
        let mut texts: Vec<Vec<String>> = Vec::new();
        let mut i: usize = 0;
        while i < self.answer.len()
            invariant
                i <= self.answer.len(),
                texts.len() == i,
                forall|j: int| 0 <= j < i ==> (#[trigger] texts[j]).deep_view() == self@.slots[j].aliases(),
            decreases self.answer.len() - i,
        {
            let mut own: Vec<String> = Vec::new();
            match &self.answer[i] {
                Answer::SingleAnswer(text) => {
                    own.push(text.clone());
                    assert(own.deep_view() == seq![text@]);
                },
                Answer::MutlipleAnswer(aliases, _) => {
                    let mut k: usize = 0;
                    while k < aliases.len()
                        invariant
                            k <= aliases.len(),
                            own.len() == k,
                            forall|j: int| 0 <= j < k ==> (#[trigger] own[j])@ == aliases[j]@,
                        decreases aliases.len() - k,
                    {
                        own.push(aliases[k].clone());
                        k += 1;
                    }
                    assert(own.deep_view() == aliases.deep_view());
                },
            }
            texts.push(own);
            i += 1;
        }
        assert(texts.deep_view() == self@.disclosed());
        texts
    }
}

impl Answer {
    /// The points, in halves, that can still be won from the slot, or `None`
    /// where they do not fit in a `u64`.
    pub fn checked_worth(&self) -> (worth: Option<u64>)
        ensures
            self@.worth() <= u64::MAX ==> worth == Some(self@.worth() as u64),
            self@.worth() > u64::MAX ==> worth is None,
    {
        match self {
            Answer::SingleAnswer(_) => Some(FULL_POINT),
            Answer::MutlipleAnswer(aliases, size) => {
                let count = aliases.len() as u64;
                if *size != 1 {
                    Some(count)
                } else if count <= u64::MAX / 2 {
                    Some(2 * count)
                } else {
                    None
                }
            },
        }
    }

    /// The slot as it stands after loading: every text in normal form, and
    /// the size of a group set to the number of its aliases.
    pub fn prepare(&self) -> (ready: Answer)
        ensures
            ready@ == self@.prepared(),
    {
        match self {
            Answer::SingleAnswer(text) => Answer::SingleAnswer(
                Question::normalize_string(text.as_str()),
            ),
            Answer::MutlipleAnswer(aliases, _) => {
                let mut normal: Vec<String> = Vec::new();
                let mut k: usize = 0;
                while k < aliases.len()
                    invariant
                        k <= aliases.len(),
                        normal.len() == k,
                        forall|j: int| 0 <= j < k ==> (#[trigger] normal[j])@ == normalized(aliases[j]@),
                    decreases aliases.len() - k,
                {
                    normal.push(Question::normalize_string(aliases[k].as_str()));
                    k += 1;
                }
                assert(normal.deep_view() =~= aliases.deep_view().map_values(
                    |t: Seq<char>| normalized(t),
                ));
                Answer::MutlipleAnswer(normal, aliases.len())
            },
        }
    }
}

impl Question {
    /// The points, in halves, that can still be won from the question, or
    /// `None` where they do not fit in a `u64`.
    pub fn checked_worth(&self) -> (worth: Option<u64>)
        ensures
            self@.worth() <= u64::MAX ==> worth == Some(self@.worth() as u64),
            self@.worth() > u64::MAX ==> worth is None,
    {
        let ghost each = self@.slots.map_values(|slot: AnswerModel| slot.worth());
        let mut total: u64 = 0;
        let mut i: usize = 0;
        while i < self.answer.len()
            invariant
                i <= self.answer.len(),
                each == self@.slots.map_values(|slot: AnswerModel| slot.worth()),
                total == sum(each.take(i as int)),
            decreases self.answer.len() - i,
        {
            proof {
                lemma_sum_take(each, i as int);
                lemma_sum_take(each, i + 1);
            }
            match self.answer[i].checked_worth() {
                Some(worth) => {
                    if worth > u64::MAX - total {
                        return None;
                    }
                    total = total + worth;
                },
                None => {
                    return None;
                },
            }
            i += 1;
        }
        proof {
            lemma_sum_take(each, i as int);
        }
        Some(total)
    }

    /// The question as it stands after loading: every accepted text in
    /// normal form, and the size of each group set to the number of its
    /// aliases.
    pub fn prepare(&self) -> (ready: Question)
        ensures
            ready@ == self@.prepared(),
    {
        let mut slots: Vec<Answer> = Vec::new();
        let mut i: usize = 0;
        while i < self.answer.len()
            invariant
                i <= self.answer.len(),
                slots.len() == i,
                forall|j: int| 0 <= j < i ==> (#[trigger] slots[j])@ == self@.slots[j].prepared(),
            decreases self.answer.len() - i,
        {
            slots.push(self.answer[i].prepare());
            i += 1;
        }
        assert(slots.deep_view() =~= self@.prepared().slots);
        Question { name: self.name.clone(), answer: slots }
    }
}

/// An answer that a slot accepts takes exactly its points from what the
/// question is still worth.
pub proof fn lemma_match_takes_points(q: QuestionModel, at: int, text: Seq<char>)
    requires
        0 <= at < q.slots.len(),
        q.slots[at].accepts(text),
    ensures
        q.after_match(at, text).worth() + q.slots[at].points() == q.worth(),
{
    let each = q.slots.map_values(|slot: AnswerModel| slot.worth());
    let after = q.after_match(at, text);
    let after_each = after.slots.map_values(|slot: AnswerModel| slot.worth());
    match q.slots[at] {
        AnswerModel::Single(_) => {},
        AnswerModel::Group(aliases, size) => {
            aliases.index_of_first_ensures(text);
        },
    }
    match q.slots[at].remainder(text) {
        Some(rest) => {
            assert(after_each =~= each.update(at, rest.worth()));
            lemma_sum_update(each, at, rest.worth());
        },
        None => {
            assert(after_each =~= swap_removed(each, at));
            lemma_sum_swap_removed(each, at);
        },
    }
}

/// A well-formed question stays well formed when an answer is taken out.
pub proof fn lemma_match_keeps_wf(q: QuestionModel, at: int, text: Seq<char>)
    requires
        0 <= at < q.slots.len(),
        q.wf(),
    ensures
        q.after_match(at, text).wf(),
{
    let after = q.after_match(at, text);
    assert(q.slots[at].wf());
    match q.slots[at] {
        AnswerModel::Single(_) => {},
        AnswerModel::Group(aliases, size) => {
            aliases.index_of_first_ensures(text);
        },
    }
    assert forall|i: int| 0 <= i < after.slots.len() implies (#[trigger] after.slots[i]).wf() by {
        assert(q.slots[i].wf());
        assert(q.slots.last().wf());
    }
}

/// A question is well formed after loading.
pub proof fn lemma_prepared_wf(q: QuestionModel)
    ensures
        q.prepared().wf(),
        q.prepared().slots.len() == q.slots.len(),
{
}

/// A single text, answered with any text that has its normal form, is
/// matched for a whole point and leaves the question; and where no other slot
/// accepts that text, the question accepts it no more.
pub proof fn lemma_single_answered(q: QuestionModel, at: int, own: Seq<char>, raw: Seq<char>)
    requires
        0 <= at < q.slots.len(),
        q.slots[at] == AnswerModel::Single(normalized(own)),
        normalized(raw) == normalized(own),
        forall|j: int| 0 <= j < at ==> !(#[trigger] q.slots[j]).accepts(normalized(raw)),
    ensures
        q.matched(normalized(raw)) == Some((at, FULL_POINT)),
        q.after_match(at, normalized(raw)).slots == swap_removed(q.slots, at),
        q.after_match(at, normalized(raw)).slots.len() == q.slots.len() - 1,
        (forall|j: int|
            0 <= j < q.slots.len() && j != at ==> !(#[trigger] q.slots[j]).accepts(normalized(raw)))
            ==> q.after_match(at, normalized(raw)).matched(normalized(raw)) is None,
{
    let text = normalized(raw);
    let hits = q.acceptance(text);
    assert forall|j: int| 0 <= j < at implies hits[j] != true by {
        assert(!q.slots[j].accepts(text));
    }
    lemma_first_index(hits, true, at);
    let after = q.after_match(at, text);
    if forall|j: int|
        0 <= j < q.slots.len() && j != at ==> !(#[trigger] q.slots[j]).accepts(text) {
        let left = after.acceptance(text);
        assert forall|j: int| 0 <= j < left.len() implies left[j] != true by {
            let from = if j == at {
                q.slots.len() - 1
            } else {
                j
            };
            assert(after.slots[j] == q.slots[from]);
            assert(!q.slots[from].accepts(text));
        }
        lemma_no_index(left, true);
    }
}

/// A group of two aliases gives half a point for each: the first alias found
/// leaves the other alone in the group, the second uses the group up, in
/// either order; and the group is worth one point in all.
pub proof fn lemma_group_of_two(a: Seq<char>, b: Seq<char>)
    requires
        a != b,
    ensures
        ({
            let both = AnswerModel::Group(seq![a, b], 2);
            let only_a = AnswerModel::Group(seq![a], 2);
            let only_b = AnswerModel::Group(seq![b], 2);
            &&& both.accepts(a) && both.accepts(b)
            &&& both.points() == HALF_POINT
            &&& both.worth() == FULL_POINT
            &&& both.remainder(a) == Some(only_b)
            &&& both.remainder(b) == Some(only_a)
            &&& only_a.accepts(a) && !only_a.accepts(b)
            &&& only_b.accepts(b) && !only_b.accepts(a)
            &&& only_a.points() == HALF_POINT && only_b.points() == HALF_POINT
            &&& only_a.remainder(a) is None
            &&& only_b.remainder(b) is None
        }),
{
    let pair = seq![a, b];
    assert(pair[0] == a && pair[1] == b);
    lemma_first_index(pair, a, 0);
    lemma_first_index(pair, b, 1);
    assert(swap_removed(pair, 0) =~= seq![b]);
    assert(swap_removed(pair, 1) =~= seq![a]);
    assert(seq![a][0] == a);
    assert(seq![b][0] == b);
    lemma_first_index(seq![a], a, 0);
    lemma_first_index(seq![b], b, 0);
}

/// A group that was loaded with one alias behaves as a single text: it
/// accepts that text alone, gives a whole point for it, and is used up by it.
pub proof fn lemma_group_of_one(a: Seq<char>)
    ensures
        ({
            let group = AnswerModel::Group(seq![a], 1);
            let single = AnswerModel::Single(a);
            &&& forall|text: Seq<char>| group.accepts(text) == single.accepts(text)
            &&& group.points() == FULL_POINT && single.points() == FULL_POINT
            &&& group.worth() == single.worth()
            &&& group.aliases() == single.aliases()
            &&& group.remainder(a) is None && single.remainder(a) is None
        }),
{
    let one = seq![a];
    assert(one[0] == a);
    lemma_first_index(one, a, 0);
    assert forall|text: Seq<char>| AnswerModel::Group(one, 1).accepts(text) == (a == text) by {
        if one.contains(text) {
            let i = choose|i: int| 0 <= i < one.len() && one[i] == text;
        }
    }
}

/// What a well-formed group can still give never exceeds half a point for
/// each alias it was loaded with, or one point where it was loaded with one.
pub proof fn lemma_group_worth_bound(slot: AnswerModel)
    requires
        slot.wf(),
    ensures
        slot matches AnswerModel::Group(_, size) ==> slot.worth() <= (if size == 1 {
            FULL_POINT as int
        } else {
            size * HALF_POINT
        }),
{
}

/// An answer scores once: where a text stands in one slot of a question
/// only, and once in that slot, the question accepts it no more after it was
/// taken out.
pub proof fn lemma_answer_scores_once(q: QuestionModel, at: int, text: Seq<char>)
    requires
        0 <= at < q.slots.len(),
        q.slots[at].accepts(text),
        forall|j: int| 0 <= j < q.slots.len() && j != at ==> !(#[trigger] q.slots[j]).accepts(text),
        q.slots[at] matches AnswerModel::Group(aliases, _) ==> forall|i: int, j: int|
            0 <= i < j < aliases.len() ==> !(aliases[i] == text && aliases[j] == text),
    ensures
        q.matched(text) == Some((at, q.slots[at].points())),
        q.after_match(at, text).matched(text) is None,
{
    let hits = q.acceptance(text);
    assert forall|j: int| 0 <= j < at implies hits[j] != true by {
        assert(!q.slots[j].accepts(text));
    }
    lemma_first_index(hits, true, at);
    let after = q.after_match(at, text);
    let left = after.acceptance(text);
    assert forall|j: int| 0 <= j < left.len() implies left[j] != true by {
        match q.slots[at].remainder(text) {
            Some(rest) => {
                if j == at {
                    let aliases = q.slots[at]->Group_0;
                    aliases.index_of_first_ensures(text);
                    let found = aliases.index_of_first(text)->0;
                    let kept = swap_removed(aliases, found);
                    if kept.contains(text) {
                        let i = choose|i: int| 0 <= i < kept.len() && kept[i] == text;
                        let from = if i == found {
                            aliases.len() - 1
                        } else {
                            i
                        };
                        assert(kept[i] == aliases[from]);
                        assert(from != found);
                        if from < found {
                            assert(!(aliases[from] == text && aliases[found] == text));
                        } else {
                            assert(!(aliases[found] == text && aliases[from] == text));
                        }
                    }
                } else {
                    assert(!q.slots[j].accepts(text));
                }
            },
            None => {
                let from = if j == at {
                    q.slots.len() - 1
                } else {
                    j
                };
                assert(after.slots[j] == q.slots[from]);
                assert(!q.slots[from].accepts(text));
            },
        }
    }
    lemma_no_index(left, true);
}

} // verus!
