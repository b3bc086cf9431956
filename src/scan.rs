use crate::cursor::CharSource;
use crate::item::{lookup_keyword, word_item, LexItem};
use vstd::prelude::*;

verus! {

/// Whether a character is alphabetic or numeric by Unicode's tables, as
/// `char::is_alphanumeric` decides it.
pub uninterp spec fn alphanumeric(c: char) -> bool;

/// Relies on `char::is_alphanumeric`, whose answer depends on the character
/// alone.
#[verifier::external_body]
fn is_alphanumeric(c: char) -> (r: bool)
    ensures
        r == alphanumeric(c),
{
    c.is_alphanumeric()
}

/// A character that belongs to a word: alphanumeric, or an underscore.
pub open spec fn is_word_char(c: char) -> bool {
    alphanumeric(c) || c == '_'
}

/// An ASCII decimal digit.
pub open spec fn is_digit(c: char) -> bool {
    '0' <= c && c <= '9'
}

/// The value of an ASCII decimal digit.
pub open spec fn digit_value(c: char) -> int {
    c as int - '0' as int
}

/// The length of the longest prefix of `s` whose characters all satisfy `class`.
pub open spec fn run_len(s: Seq<char>, class: spec_fn(char) -> bool) -> nat
    decreases s.len(),
{
    if s.len() > 0 && class(s[0]) {
        1 + run_len(s.drop_first(), class)
    } else {
        0
    }
}

/// The word at the start of `s`: its longest prefix of word characters.
pub open spec fn word_run(s: Seq<char>) -> Seq<char> {
    s.take(run_len(s, |c: char| is_word_char(c)) as int)
}

/// The digits at the start of `s`: its longest prefix of ASCII decimal digits.
pub open spec fn digit_run(s: Seq<char>) -> Seq<char> {
    s.take(run_len(s, |c: char| is_digit(c)) as int)
}

/// The base-10 value of a sequence of digits, most significant first.
pub open spec fn decimal_value(d: Seq<char>) -> nat
    decreases d.len(),
{
    if d.len() == 0 {
        0
    } else {
        (decimal_value(d.drop_last()) * 10 + digit_value(d.last())) as nat
    }
}

/// The item for a run of digits: its value, where it fits in an `i64`.
pub open spec fn number_item(d: Seq<char>) -> LexItem {
    if decimal_value(d) <= i64::MAX {
        LexItem::Number(decimal_value(d) as i64)
    } else {
        LexItem::Overflow
    }
}

/// Where a prefix of `s` of length `k` holds only characters of `class`, and is
/// followed by the end of `s` or by a character outside `class`, it is the
/// longest such prefix.
pub proof fn lemma_run_len_ends_at(s: Seq<char>, class: spec_fn(char) -> bool, k: int)
    requires
        0 <= k <= s.len(),
        forall|i: int| 0 <= i < k ==> class(#[trigger] s[i]),
        k == s.len() || !class(s[k]),
    ensures
        run_len(s, class) == k,
    decreases k,
{
    if k > 0 {
        let t = s.drop_first();
        assert forall|i: int| 0 <= i < k - 1 implies class(#[trigger] t[i]) by {
            assert(t[i] == s[i + 1]);
        }
        if k < s.len() {
            assert(t[k - 1] == s[k]);
        }
        lemma_run_len_ends_at(t, class, k - 1);
    }
}

/// A run is never longer than the sequence it is taken from.
pub proof fn lemma_run_len_at_most_len(s: Seq<char>, class: spec_fn(char) -> bool)
    ensures
        run_len(s, class) <= s.len(),
    decreases s.len(),
{
    if s.len() > 0 {
        lemma_run_len_at_most_len(s.drop_first(), class);
    }
}

/// Scans a word: consumes the longest run of alphanumeric characters and
/// underscores at the cursor, stops at the first other character or at end of
/// input, and returns the keyword that the run spells, or `Other`.
pub fn get_word<S: CharSource>(iter: &mut S) -> (item: LexItem)
    ensures
        item == word_item(word_run(old(iter).remaining())),
        final(iter).remaining() == old(iter).remaining().skip(
            word_run(old(iter).remaining()).len() as int,
        ),
{
    let ghost start = iter.remaining();
    let mut word: Vec<char> = Vec::new();
    loop
        invariant
            word@.len() <= start.len(),
            word@ == start.take(word@.len() as int),
            iter.remaining() == start.skip(word@.len() as int),
            forall|i: int| 0 <= i < word@.len() ==> is_word_char(#[trigger] start[i]),
        ensures
            word@ == start.take(word@.len() as int),
            iter.remaining() == start.skip(word@.len() as int),
            forall|i: int| 0 <= i < word@.len() ==> is_word_char(#[trigger] start[i]),
            word@.len() == start.len() || !is_word_char(start[word@.len() as int]),
        decreases start.len() - word@.len(),
    {
        match iter.peek() {
            Some(c) => {
                if is_alphanumeric(c) || c == '_' {
                    word.push(c);
                    iter.advance();
                    assert(word@ =~= start.take(word@.len() as int));
                    assert(iter.remaining() =~= start.skip(word@.len() as int));
                } else {
                    break;
                }
            },
            None => {
                break;
            },
        }
    }
    proof {
        lemma_run_len_ends_at(start, |c: char| is_word_char(c), word@.len() as int);
    }
    lookup_keyword(&word)
}

/// Scans a decimal literal: consumes the longest run of ASCII digits at the
/// cursor, stops at the first other character or at end of input, and returns
/// the run's base-10 value (`Number(0)` for an empty run), or `Overflow` where
/// the value does not fit in an `i64`. Every digit of the run is consumed in
/// either case.
pub fn get_number<S: CharSource>(iter: &mut S) -> (item: LexItem)
    ensures
        item == number_item(digit_run(old(iter).remaining())),
        final(iter).remaining() == old(iter).remaining().skip(
            digit_run(old(iter).remaining()).len() as int,
        ),
{
    let ghost start = iter.remaining();
    let ghost mut n: int = 0;
    let mut value: i64 = 0;
    let mut overflow = false;
    loop
        invariant
            0 <= n <= start.len(),
            iter.remaining() == start.skip(n),
            forall|i: int| 0 <= i < n ==> is_digit(#[trigger] start[i]),
            !overflow ==> value == decimal_value(start.take(n)),
            overflow ==> decimal_value(start.take(n)) > i64::MAX,
        ensures
            0 <= n <= start.len(),
            iter.remaining() == start.skip(n),
            forall|i: int| 0 <= i < n ==> is_digit(#[trigger] start[i]),
            !overflow ==> value == decimal_value(start.take(n)),
            overflow ==> decimal_value(start.take(n)) > i64::MAX,
            n == start.len() || !is_digit(start[n]),
        decreases start.len() - n,
    {
        match iter.peek() {
            Some(c) => {
                if '0' <= c && c <= '9' {
                    let digit = (c as u32 - '0' as u32) as i64;
                    proof {
                        assert(start.take(n + 1).drop_last() =~= start.take(n));
                        assert(start.take(n + 1).last() == c);
                    }
                    if !overflow {
                        match value.checked_mul(10) {
                            Some(v) => match v.checked_add(digit) {
                                Some(w) => {
                                    value = w;
                                },
                                None => {
                                    overflow = true;
                                },
                            },
                            None => {
                                overflow = true;
                            },
                        }
                    }
                    iter.advance();
                    proof {
                        n = n + 1;
                        assert(iter.remaining() =~= start.skip(n));
                    }
                } else {
                    break;
                }
            },
            None => {
                break;
            },
        }
    }
    proof {
        lemma_run_len_ends_at(start, |c: char| is_digit(c), n);
        assert(start.take(n) =~= digit_run(start));
    }
    if overflow {
        LexItem::Overflow
    } else {
        LexItem::Number(value)
    }
}

} // verus!
