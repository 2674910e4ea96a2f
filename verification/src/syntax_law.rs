//! Laws about the shape of a command line: how its words are separated, and
//! the optional `SET` in front of a pin command.

use vstd::prelude::*;

use crate::ascii::{
    is_keyword, is_whitespace, lemma_word_end_bounds, word_end, words, words_from,
};
use crate::command::{command_from_words, lemma_command_words_distinct};
use crate::text::text;

verus! {

/// A word: at least one byte, none of them whitespace.
pub open spec fn is_word(w: Seq<u8>) -> bool {
    &&& w.len() > 0
    &&& forall|i: int| 0 <= i < w.len() ==> !is_whitespace(#[trigger] w[i])
}

/// Words written out with one space between each two.
pub open spec fn join_words(ws: Seq<Seq<u8>>) -> Seq<u8>
    decreases ws.len(),
{
    if ws.len() == 0 {
        Seq::empty()
    } else if ws.len() == 1 {
        ws[0]
    } else {
        ws[0] + seq![32u8] + join_words(ws.drop_first())
    }
}

proof fn lemma_words_from_are_words(s: Seq<u8>, i: int)
    requires
        0 <= i <= s.len(),
    ensures
        forall|k: int| 0 <= k < words_from(s, i).len() ==> is_word(#[trigger] words_from(s, i)[k]),
    decreases s.len() - i,
{
    if i < s.len() {
        if is_whitespace(s[i]) {
            lemma_words_from_are_words(s, i + 1);
            assert(words_from(s, i) == words_from(s, i + 1));
        } else {
            let e = word_end(s, i);
            lemma_word_end_bounds(s, i);
            lemma_words_from_are_words(s, e);
            let ws = words_from(s, i);
            assert(ws == seq![s.subrange(i, e)] + words_from(s, e));
            assert forall|k: int| 0 <= k < ws.len() implies is_word(#[trigger] ws[k]) by {
                if k == 0 {
                    let w = s.subrange(i, e);
                    assert forall|j: int| 0 <= j < w.len() implies !is_whitespace(#[trigger] w[j]) by {
                        assert(w[j] == s[i + j]);
                    }
                } else {
                    assert(ws[k] == words_from(s, e)[k - 1]);
                }
            }
        }
    }
}

proof fn lemma_word_end_shift(p: Seq<u8>, t: Seq<u8>, i: int)
    requires
        0 <= i <= t.len(),
    ensures
        word_end(p + t, p.len() + i) == p.len() + word_end(t, i),
    decreases t.len() - i,
{
    if i < t.len() {
        assert((p + t)[p.len() + i] == t[i]);
        lemma_word_end_shift(p, t, i + 1);
    }
}

proof fn lemma_words_from_shift(p: Seq<u8>, t: Seq<u8>, i: int)
    requires
        0 <= i <= t.len(),
    ensures
        words_from(p + t, p.len() + i) == words_from(t, i),
    decreases t.len() - i,
{
    let s = p + t;
    if i < t.len() {
        assert(s[p.len() + i] == t[i]);
        if is_whitespace(t[i]) {
            lemma_words_from_shift(p, t, i + 1);
        } else {
            let e = word_end(t, i);
            lemma_word_end_bounds(t, i);
            lemma_word_end_shift(p, t, i);
            lemma_words_from_shift(p, t, e);
            assert(s.subrange(p.len() + i, p.len() + e) =~= t.subrange(i, e));
        }
    }
}

proof fn lemma_word_end_in_word(s: Seq<u8>, w: Seq<u8>, j: int)
    requires
        is_word(w),
        0 <= j <= w.len(),
        w.len() <= s.len(),
        s.take(w.len() as int) == w,
        w.len() == s.len() || is_whitespace(s[w.len() as int]),
    ensures
        word_end(s, j) == w.len(),
    decreases w.len() - j,
{
    if j < w.len() {
        assert(s[j] == w[j]);
        lemma_word_end_in_word(s, w, j + 1);
    }
}

proof fn lemma_word_then(w: Seq<u8>, rest: Seq<u8>)
    requires
        is_word(w),
        rest.len() == 0 || is_whitespace(rest[0]),
    ensures
        words_from(w + rest, 0) == seq![w] + words_from(w + rest, w.len() as int),
{
    let s = w + rest;
    assert(s.take(w.len() as int) =~= w);
    if rest.len() > 0 {
        assert(s[w.len() as int] == rest[0]);
    }
    lemma_word_end_in_word(s, w, 0);
    assert(s[0] == w[0]);
    assert(s.subrange(0, w.len() as int) =~= w);
}

/// Writing words out with single spaces and splitting the result gives the words back.
pub proof fn lemma_words_of_join(ws: Seq<Seq<u8>>)
    requires
        forall|k: int| 0 <= k < ws.len() ==> is_word(#[trigger] ws[k]),
    ensures
        words(join_words(ws)) == ws,
    decreases ws.len(),
{
    if ws.len() == 0 {
        assert(words(join_words(ws)) =~= ws);
    } else if ws.len() == 1 {
        let w = ws[0];
        assert(is_word(w));
        lemma_word_then(w, Seq::empty());
        assert(w + Seq::<u8>::empty() =~= w);
        assert(words(join_words(ws)) =~= ws);
    } else {
        let w = ws[0];
        assert(is_word(w));
        let tail = ws.drop_first();
        assert forall|k: int| 0 <= k < tail.len() implies is_word(#[trigger] tail[k]) by {
            assert(tail[k] == ws[k + 1]);
        }
        lemma_words_of_join(tail);
        let j = join_words(tail);
        let rest = seq![32u8] + j;
        let s = w + rest;
        assert(join_words(ws) =~= s);
        lemma_word_then(w, rest);
        assert(s[w.len() as int] == 32u8);
        assert(words_from(s, w.len() as int) == words_from(s, (w.len() + 1) as int));
        let p = w + seq![32u8];
        assert(s =~= p + j);
        lemma_words_from_shift(p, j, 0);
        assert(words(join_words(ws)) =~= ws);
    }
}

/// Runs of ASCII whitespace between, before and after the words of a line do
/// not matter: the line written with single spaces has the same words and
/// parses to the same command.
pub proof fn law_whitespace_runs_do_not_matter(line: Seq<u8>)
    ensures
        words(join_words(words(line))) == words(line),
        command_from_words(words(join_words(words(line)))) == command_from_words(words(line)),
{
    lemma_words_from_are_words(line, 0);
    lemma_words_of_join(words(line));
}

/// `SET <pin> <state>` parses as `<pin> <state>` when the pin word is none
/// of the command words `HELP`, `STATUS`, `ALL`, `SET`.
pub proof fn law_set_prefix_is_optional(pin: Seq<u8>, state: Seq<u8>)
    requires
        is_word(pin),
        is_word(state),
        !is_keyword(pin, "HELP"),
        !is_keyword(pin, "STATUS"),
        !is_keyword(pin, "ALL"),
        !is_keyword(pin, "SET"),
    ensures
        command_from_words(words(join_words(seq![text("SET"), pin, state]))) == command_from_words(
            words(join_words(seq![pin, state])),
        ),
{
    broadcast use vstd::string::is_ascii_spec_bytes;

    reveal_strlit("SET");
    assert(vstd::string::is_ascii("SET"));
    let set = text("SET");
    assert(set =~= seq![83u8, 69u8, 84u8]);
    assert(is_word(set));
    let with_set = seq![set, pin, state];
    let without = seq![pin, state];
    assert forall|k: int| 0 <= k < with_set.len() implies is_word(#[trigger] with_set[k]) by {}
    assert forall|k: int| 0 <= k < without.len() implies is_word(#[trigger] without[k]) by {}
    lemma_words_of_join(with_set);
    lemma_words_of_join(without);
    assert(is_keyword(set, "SET"));
    lemma_command_words_distinct(set);
    assert(command_from_words(with_set) == crate::command::set_one(pin, state));
    assert(command_from_words(without) == crate::command::set_one(pin, state));
}

} // verus!
