//! Properties of the scanners, stated over the models that their contracts use.
use crate::item::{declare_spelling, module_spelling, word_item, LexItem};
use crate::scan::{
    decimal_value, digit_run, is_digit, is_word_char, lemma_run_len_at_most_len, lemma_run_len_ends_at,
    number_item, word_run,
};
use vstd::prelude::*;

verus! {

/// A word followed by end of input or by any character that cannot continue
/// it is consumed exactly, no more and no less, and yields `Declare` or
/// `Module` where it spells that keyword exactly, and `Other` otherwise.
pub proof fn lemma_word_consumed_exactly(s: Seq<char>, tail: Seq<char>)
    requires
        forall|i: int| 0 <= i < s.len() ==> is_word_char(#[trigger] s[i]),
        tail.len() == 0 || !is_word_char(tail[0]),
    ensures
        word_run(s + tail) == s,
        (s + tail).skip(word_run(s + tail).len() as int) == tail,
        word_item(word_run(s + tail)) == (if s == declare_spelling() {
            LexItem::Declare
        } else if s == module_spelling() {
            LexItem::Module
        } else {
            LexItem::Other
        }),
{
    let t = s + tail;
    assert forall|i: int| 0 <= i < s.len() implies is_word_char(#[trigger] t[i]) by {
        assert(t[i] == s[i]);
    }
    if tail.len() > 0 {
        assert(t[s.len() as int] == tail[0]);
    }
    lemma_run_len_ends_at(t, |c: char| is_word_char(c), s.len() as int);
    assert(t.take(s.len() as int) =~= s);
    assert(t.skip(s.len() as int) =~= tail);
}

/// A run of decimal digits followed by end of input or by a non-digit is
/// consumed exactly and read as its base-10 value, wherever that value fits
/// in an `i64`.
pub proof fn lemma_digits_consumed_exactly(d: Seq<char>, tail: Seq<char>)
    requires
        forall|i: int| 0 <= i < d.len() ==> is_digit(#[trigger] d[i]),
        tail.len() == 0 || !is_digit(tail[0]),
        decimal_value(d) <= i64::MAX,
    ensures
        digit_run(d + tail) == d,
        (d + tail).skip(digit_run(d + tail).len() as int) == tail,
        number_item(digit_run(d + tail)) == LexItem::Number(decimal_value(d) as i64),
{
    let t = d + tail;
    assert forall|i: int| 0 <= i < d.len() implies is_digit(#[trigger] t[i]) by {
        assert(t[i] == d[i]);
    }
    if tail.len() > 0 {
        assert(t[d.len() as int] == tail[0]);
    }
    lemma_run_len_ends_at(t, |c: char| is_digit(c), d.len() as int);
    assert(t.take(d.len() as int) =~= d);
    assert(t.skip(d.len() as int) =~= tail);
}

/// Each scanner's outcome, the item and the input left behind, is a function
/// of the input that remains at the cursor: two cursors with the same
/// characters ahead of them scan alike.
pub proof fn lemma_scans_depend_on_remaining_input(a: Seq<char>, b: Seq<char>)
    requires
        a == b,
    ensures
        word_item(word_run(a)) == word_item(word_run(b)),
        a.skip(word_run(a).len() as int) == b.skip(word_run(b).len() as int),
        number_item(digit_run(a)) == number_item(digit_run(b)),
        a.skip(digit_run(a).len() as int) == b.skip(digit_run(b).len() as int),
{
}

/// Neither scanner consumes past the end of its input: what it consumes and
/// what it leaves make up the input again. At end of input it consumes
/// nothing, and yields `Other` or `Number(0)`.
pub proof fn lemma_scans_stay_within_input(s: Seq<char>)
    ensures
        word_run(s) + s.skip(word_run(s).len() as int) == s,
        digit_run(s) + s.skip(digit_run(s).len() as int) == s,
        s.len() == 0 ==> word_run(s).len() == 0 && word_item(word_run(s)) == LexItem::Other,
        s.len() == 0 ==> digit_run(s).len() == 0 && number_item(digit_run(s)) == LexItem::Number(0),
{
    lemma_run_len_at_most_len(s, |c: char| is_word_char(c));
    lemma_run_len_at_most_len(s, |c: char| is_digit(c));
    assert(word_run(s) + s.skip(word_run(s).len() as int) =~= s);
    assert(digit_run(s) + s.skip(digit_run(s).len() as int) =~= s);
    if s.len() == 0 {
        assert(word_run(s) =~= Seq::<char>::empty());
        assert(Seq::<char>::empty() != declare_spelling()) by {
            assert(declare_spelling().len() == 7);
        }
        assert(Seq::<char>::empty() != module_spelling()) by {
            assert(module_spelling().len() == 6);
        }
        assert(digit_run(s) =~= Seq::<char>::empty());
    }
}

} // verus!
