//! Normal form of answer texts.
//!
//! Answers are compared after normalisation: the text is cut into words at
//! runs of whitespace, the words are joined again with single spaces, and the
//! ASCII letters are lowered. The model works on `Seq<char>`; the executable
//! function reads a `&str` once and builds the normal form as it goes.
use vstd::prelude::*;

verus! {

/// `String::push` of the standard library: the character is appended at the end
/// of the string and nothing else changes.
pub assume_specification[ String::push ](s: &mut String, ch: char)
    ensures
        final(s)@ == old(s)@.push(ch),
;

/// The characters that Unicode counts as white space.
pub open spec fn is_whitespace(c: char) -> bool {
    ||| c == ' '
    ||| ('\u{9}' <= c && c <= '\u{d}')
    ||| c == '\u{85}'
    ||| c == '\u{a0}'
    ||| c == '\u{1680}'
    ||| ('\u{2000}' <= c && c <= '\u{200a}')
    ||| c == '\u{2028}'
    ||| c == '\u{2029}'
    ||| c == '\u{202f}'
    ||| c == '\u{205f}'
    ||| c == '\u{3000}'
}

/// The ASCII lower-case form of a character: `A` to `Z` become `a` to `z`,
/// every other character stays.
pub open spec fn lower(c: char) -> char {
    if 'A' <= c && c <= 'Z' {
        ((c as u8) + 32) as char
    } else {
        c
    }
}

/// A text with every character lowered.
pub open spec fn lower_text(s: Seq<char>) -> Seq<char> {
    s.map_values(|c: char| lower(c))
}

/// The words of a text: its maximal runs of characters that are not whitespace,
/// in order.
pub open spec fn words(s: Seq<char>) -> Seq<Seq<char>>
    decreases s.len(),
{
    if s.len() == 0 {
        Seq::empty()
    } else if is_whitespace(s.last()) {
        words(s.drop_last())
    } else if s.len() > 1 && !is_whitespace(s[s.len() - 2]) {
        let before = words(s.drop_last());
        before.drop_last().push(before.last().push(s.last()))
    } else {
        words(s.drop_last()).push(seq![s.last()])
    }
}

/// The words written one after the other with one space between neighbours.
pub open spec fn join(w: Seq<Seq<char>>) -> Seq<char>
    decreases w.len(),
{
    if w.len() == 0 {
        Seq::empty()
    } else if w.len() == 1 {
        w[0]
    } else {
        join(w.drop_last()) + seq![' '] + w.last()
    }
}

/// The normal form of a text: its words, joined by single spaces, in lower case.
pub open spec fn normalized(s: Seq<char>) -> Seq<char> {
    lower_text(join(words(s)))
}

/// A text made of whitespace only.
pub open spec fn is_blank(s: Seq<char>) -> bool {
    forall|i: int| 0 <= i < s.len() ==> is_whitespace(#[trigger] s[i])
}

/// A word: not empty, and without whitespace.
pub open spec fn is_word(s: Seq<char>) -> bool {
    s.len() > 0 && forall|i: int| 0 <= i < s.len() ==> !is_whitespace(#[trigger] s[i])
}

/// Every element is a word.
pub open spec fn all_words(w: Seq<Seq<char>>) -> bool {
    forall|i: int| 0 <= i < w.len() ==> is_word(#[trigger] w[i])
}

/// Two texts that differ at most in the case of their ASCII letters.
pub open spec fn same_up_to_case(s: Seq<char>, t: Seq<char>) -> bool {
    s.len() == t.len() && forall|i: int| 0 <= i < s.len() ==> lower(#[trigger] s[i]) == lower(t[i])
}

/// Tells whether a character is whitespace.
pub fn char_is_whitespace(c: char) -> (b: bool)
    ensures
        b == is_whitespace(c),
{
    c == ' ' || ('\u{9}' <= c && c <= '\u{d}') || c == '\u{85}' || c == '\u{a0}' || c == '\u{1680}'
        || ('\u{2000}' <= c && c <= '\u{200a}') || c == '\u{2028}' || c == '\u{2029}' || c
        == '\u{202f}' || c == '\u{205f}' || c == '\u{3000}'
}

/// Lowers one character.
pub fn char_lower(c: char) -> (r: char)
    ensures
        r == lower(c),
{
    if 'A' <= c && c <= 'Z' {
        ((c as u8) + 32) as char
    } else {
        c
    }
}

/// Lowering leaves whitespace whitespace and the rest not, and lowering twice
/// is lowering once.
pub proof fn lemma_lower_facts(c: char)
    ensures
        is_whitespace(lower(c)) == is_whitespace(c),
        lower(lower(c)) == lower(c),
        lower(' ') == ' ',
{
}

/// The words of a text are words.
pub proof fn lemma_words_are_words(s: Seq<char>)
    ensures
        all_words(words(s)),
        s.len() > 0 && !is_whitespace(s.last()) ==> words(s).len() > 0,
    decreases s.len(),
{
    if s.len() > 0 {
        lemma_words_are_words(s.drop_last());
    }
}

/// Joined words are empty only if there is no word.
pub proof fn lemma_join_len(w: Seq<Seq<char>>)
    requires
        all_words(w),
    ensures
        w.len() > 0 ==> join(w).len() > 0,
        w.len() == 0 ==> join(w).len() == 0,
    decreases w.len(),
{
    if w.len() > 1 {
        assert(is_word(w.last()));
    } else if w.len() == 1 {
        assert(is_word(w[0]));
    }
}

/// Appending a character to the last word appends it to the joined text.
pub proof fn lemma_join_grow_last(w: Seq<Seq<char>>, c: char)
    requires
        w.len() > 0,
    ensures
        join(w.drop_last().push(w.last().push(c))) == join(w).push(c),
{
    let grown = w.drop_last().push(w.last().push(c));
    assert(grown.drop_last() == w.drop_last());
    if w.len() == 1 {
        assert(join(grown) == w[0].push(c));
    } else {
        assert(join(grown) == join(w.drop_last()) + seq![' '] + w.last().push(c));
        assert(join(w.drop_last()) + seq![' '] + w.last().push(c) == (join(w.drop_last()) + seq![
            ' ',
        ] + w.last()).push(c));
    }
}

/// Appending a new one-letter word appends a space and the letter, or the
/// letter alone where it is the first word.
pub proof fn lemma_join_new_word(w: Seq<Seq<char>>, c: char)
    ensures
        join(w.push(seq![c])) == if w.len() == 0 {
            seq![c]
        } else {
            join(w).push(' ').push(c)
        },
{
    let more = w.push(seq![c]);
    assert(more.drop_last() == w);
    if w.len() > 0 {
        assert(join(w) + seq![' '] + seq![c] == join(w).push(' ').push(c));
    }
}

/// Every word in lower case.
pub open spec fn lower_words(w: Seq<Seq<char>>) -> Seq<Seq<char>> {
    w.map_values(|x: Seq<char>| lower_text(x))
}

/// A word is its own only word.
pub proof fn lemma_words_of_word(x: Seq<char>)
    requires
        is_word(x),
    ensures
        words(x) == seq![x],
    decreases x.len(),
{
    if x.len() == 1 {
        assert(words(x.drop_last()) == Seq::<Seq<char>>::empty());
        assert(seq![x.last()] == x);
        assert(words(x) == Seq::<Seq<char>>::empty().push(x));
    } else {
        let head = x.drop_last();
        assert(is_word(head)) by {
            assert forall|i: int| 0 <= i < head.len() implies !is_whitespace(
                #[trigger] head[i],
            ) by {
                assert(head[i] == x[i]);
            }
        }
        lemma_words_of_word(head);
        assert(!is_whitespace(x[x.len() - 2]));
        assert(seq![head].drop_last().push(head.push(x.last())) == seq![x]) by {
            assert(head.push(x.last()) == x);
        }
    }
}

/// A word that follows whitespace, or stands at the start, is a word of its
/// own.
pub proof fn lemma_words_append_word(p: Seq<char>, y: Seq<char>)
    requires
        p.len() == 0 || is_whitespace(p.last()),
        is_word(y),
    ensures
        words(p + y) == words(p).push(y),
    decreases y.len(),
{
    let whole = p + y;
    assert(whole.drop_last() == p + y.drop_last());
    assert(whole.last() == y.last());
    if y.len() == 1 {
        assert(p + y.drop_last() == p);
        assert(seq![y.last()] == y);
        if p.len() > 0 {
            assert(whole[whole.len() - 2] == p.last());
        }
    } else {
        let head = y.drop_last();
        assert(is_word(head)) by {
            assert forall|i: int| 0 <= i < head.len() implies !is_whitespace(
                #[trigger] head[i],
            ) by {
                assert(head[i] == y[i]);
            }
        }
        lemma_words_append_word(p, head);
        assert(whole[whole.len() - 2] == y[y.len() - 2]);
        assert(words(p).push(head).drop_last() == words(p));
        assert(head.push(y.last()) == y);
    }
}

/// Cutting joined words gives the words back.
pub proof fn lemma_words_of_join(w: Seq<Seq<char>>)
    requires
        all_words(w),
    ensures
        words(join(w)) == w,
    decreases w.len(),
{
    if w.len() == 0 {
        assert(w == Seq::<Seq<char>>::empty());
    } else if w.len() == 1 {
        assert(is_word(w[0]));
        lemma_words_of_word(w[0]);
        assert(seq![w[0]] == w);
    } else {
        let front = w.drop_last();
        assert(all_words(front)) by {
            assert forall|i: int| 0 <= i < front.len() implies is_word(#[trigger] front[i]) by {
                assert(front[i] == w[i]);
            }
        }
        lemma_words_of_join(front);
        let p = join(front) + seq![' '];
        assert(p.drop_last() == join(front));
        assert(words(p) == front);
        assert(is_word(w.last()));
        lemma_words_append_word(p, w.last());
        assert(front.push(w.last()) == w);
    }
}

/// Lowering a text lowers its words and moves no boundary between them.
pub proof fn lemma_words_lower(s: Seq<char>)
    ensures
        words(lower_text(s)) == lower_words(words(s)),
    decreases s.len(),
{
    let t = lower_text(s);
    if s.len() == 0 {
        assert(words(t) == lower_words(words(s)));
    } else {
        let ws = words(s.drop_last());
        lemma_words_lower(s.drop_last());
        lemma_words_are_words(s.drop_last());
        assert(t.drop_last() == lower_text(s.drop_last()));
        lemma_lower_facts(s.last());
        if is_whitespace(s.last()) {
        } else if s.len() > 1 && !is_whitespace(s[s.len() - 2]) {
            lemma_lower_facts(s[s.len() - 2]);
            assert(s.drop_last().last() == s[s.len() - 2]);
            assert(ws.len() > 0);
            assert(lower_words(ws).drop_last().push(lower_words(ws).last().push(t.last()))
                == lower_words(ws.drop_last().push(ws.last().push(s.last())))) by {
                assert(lower_text(ws.last()).push(lower(s.last())) == lower_text(
                    ws.last().push(s.last()),
                ));
            }
        } else {
            if s.len() > 1 {
                lemma_lower_facts(s[s.len() - 2]);
            }
            assert(lower_words(ws).push(seq![t.last()]) == lower_words(ws.push(seq![s.last()])))
                by {
                assert(seq![lower(s.last())] == lower_text(seq![s.last()]));
            }
        }
    }
}

/// Lowering joined words is joining the lowered words.
pub proof fn lemma_join_lower(w: Seq<Seq<char>>)
    ensures
        lower_text(join(w)) == join(lower_words(w)),
    decreases w.len(),
{
    let lw = lower_words(w);
    if w.len() == 0 {
        assert(lower_text(join(w)) == Seq::<char>::empty());
    } else if w.len() == 1 {
    } else {
        lemma_join_lower(w.drop_last());
        assert(lw.drop_last() == lower_words(w.drop_last()));
        assert(lower_text(join(w.drop_last()) + seq![' '] + w.last()) == lower_text(
            join(w.drop_last()),
        ) + seq![' '] + lower_text(w.last()));
    }
}

/// A run of whitespace parts a text: the words of the whole are the words
/// before the run, then the words after it.
pub proof fn lemma_words_around_gap(a: Seq<char>, g: Seq<char>, b: Seq<char>)
    requires
        is_blank(g),
        g.len() > 0 || a.len() == 0 || b.len() == 0,
    ensures
        words(a + g + b) == words(a) + words(b),
    decreases b.len(), g.len(),
{
    let whole = a + g + b;
    if b.len() == 0 {
        assert(whole == a + g);
        assert(words(b) == Seq::<Seq<char>>::empty());
        assert(words(a) + words(b) == words(a));
        if g.len() > 0 {
            assert((a + g).drop_last() == a + g.drop_last());
            assert(is_whitespace(g[g.len() - 1]));
            assert(is_blank(g.drop_last())) by {
                assert forall|i: int| 0 <= i < g.drop_last().len() implies is_whitespace(
                    #[trigger] g.drop_last()[i],
                ) by {
                    assert(g.drop_last()[i] == g[i]);
                }
            }
            lemma_words_around_gap(a, g.drop_last(), b);
            assert(a + g.drop_last() + b == a + g.drop_last());
        } else {
            assert(a + g == a);
        }
    } else {
        let head = b.drop_last();
        assert(whole.drop_last() == a + g + head);
        assert(whole.last() == b.last());
        lemma_words_around_gap(a, g, head);
        lemma_words_are_words(head);
        if is_whitespace(b.last()) {
        } else if b.len() > 1 && !is_whitespace(b[b.len() - 2]) {
            assert(whole[whole.len() - 2] == b[b.len() - 2]);
            assert(head.last() == b[b.len() - 2]);
            let wa = words(a);
            let wh = words(head);
            assert(wh.len() > 0);
            assert((wa + wh).drop_last() == wa + wh.drop_last());
            assert((wa + wh.drop_last()).push(wh.last().push(b.last())) == wa
                + wh.drop_last().push(wh.last().push(b.last())));
        } else {
            if b.len() > 1 {
                assert(whole[whole.len() - 2] == b[b.len() - 2]);
            } else if g.len() > 0 {
                assert(whole[whole.len() - 2] == g.last());
            } else {
                assert(a.len() == 0);
                assert(whole.len() == 1);
            }
            assert((words(a) + words(head)).push(seq![b.last()]) == words(a) + words(head).push(
                seq![b.last()],
            ));
        }
    }
}

/// Normalising a normal form changes nothing.
pub proof fn lemma_normalized_idempotent(s: Seq<char>)
    ensures
        normalized(normalized(s)) == normalized(s),
{
    let w = lower_words(words(s));
    lemma_join_lower(words(s));
    lemma_words_are_words(s);
    assert(all_words(w)) by {
        assert forall|i: int| 0 <= i < w.len() implies is_word(#[trigger] w[i]) by {
            let x = words(s)[i];
            assert(is_word(x));
            assert forall|j: int| 0 <= j < w[i].len() implies !is_whitespace(
                #[trigger] w[i][j],
            ) by {
                lemma_lower_facts(x[j]);
            }
        }
    }
    lemma_words_of_join(w);
    lemma_join_lower(w);
    assert(lower_words(w) == w) by {
        assert forall|i: int| 0 <= i < w.len() implies lower_words(w)[i] == w[i] by {
            assert forall|j: int| 0 <= j < w[i].len() implies lower_text(w[i])[j] == w[i][j] by {
                lemma_lower_facts(words(s)[i][j]);
            }
            assert(lower_text(w[i]) =~= w[i]);
        }
    }
}

/// The normal form does not depend on how much whitespace parts two pieces of
/// a text, nor on which whitespace characters do.
pub proof fn lemma_normalized_ignores_spacing(
    a: Seq<char>,
    g1: Seq<char>,
    g2: Seq<char>,
    b: Seq<char>,
)
    requires
        is_blank(g1),
        is_blank(g2),
        g1.len() > 0,
        g2.len() > 0,
    ensures
        normalized(a + g1 + b) == normalized(a + g2 + b),
{
    lemma_words_around_gap(a, g1, b);
    lemma_words_around_gap(a, g2, b);
}

/// The normal form does not depend on whitespace before or after a text.
pub proof fn lemma_normalized_ignores_margins(g1: Seq<char>, s: Seq<char>, g2: Seq<char>)
    requires
        is_blank(g1),
        is_blank(g2),
    ensures
        normalized(g1 + s + g2) == normalized(s),
{
    let none = Seq::<char>::empty();
    lemma_words_around_gap(none, g1, s);
    lemma_words_around_gap(g1 + s, g2, none);
    assert(none + g1 + s == g1 + s);
    assert(g1 + s + g2 + none == g1 + s + g2);
    assert(words(none) == Seq::<Seq<char>>::empty());
    assert(words(none) + words(s) == words(s));
    assert(words(g1 + s) + words(none) == words(g1 + s));
}

/// The normal form does not depend on the case of ASCII letters.
pub proof fn lemma_normalized_ignores_case(s: Seq<char>, t: Seq<char>)
    requires
        same_up_to_case(s, t),
    ensures
        normalized(s) == normalized(t),
{
    lemma_join_lower(words(s));
    lemma_join_lower(words(t));
    lemma_words_lower(s);
    lemma_words_lower(t);
    assert(lower_text(s) == lower_text(t));
}

} // verus!
