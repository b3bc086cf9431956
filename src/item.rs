use vstd::prelude::*;

verus! {

/// One lexical item, as produced by a single scanner call.
#[derive(PartialEq, Eq, Structural, Clone, Copy, Debug)]
pub enum LexItem {
    /// The keyword `declare`.
    Declare,
    /// The keyword `module`.
    Module,
    /// Any word that is not a keyword, the empty word included.
    Other,
    /// A decimal literal and its value.
    Number(i64),
    /// A decimal literal whose value does not fit in an `i64`.
    Overflow,
}

/// How the keyword `declare` is spelled.
pub open spec fn declare_spelling() -> Seq<char> {
    seq!['d', 'e', 'c', 'l', 'a', 'r', 'e']
}

/// How the keyword `module` is spelled.
pub open spec fn module_spelling() -> Seq<char> {
    seq!['m', 'o', 'd', 'u', 'l', 'e']
}

/// The item that a scanned word stands for: a keyword on an exact,
/// case-sensitive match, `Other` for every other word.
pub open spec fn word_item(word: Seq<char>) -> LexItem {
    if word == declare_spelling() {
        LexItem::Declare
    } else if word == module_spelling() {
        LexItem::Module
    } else {
        LexItem::Other
    }
}

/// The keyword table: each keyword's spelling beside the item it yields.
/// A new keyword is one more entry here (and one more case of `word_item`).
fn keywords() -> (table: [(&'static str, LexItem); 2])
    ensures
        table@.len() == 2,
        table@[0].0@ == declare_spelling(),
        table@[1].0@ == module_spelling(),
        forall|j: int| 0 <= j < table@.len() ==> #[trigger] table@[j].1 == word_item(table@[j].0@),
{
    proof {
        reveal_strlit("declare");
        reveal_strlit("module");
    }
    let table = [("declare", LexItem::Declare), ("module", LexItem::Module)];
    assert(table@[0].0@ =~= declare_spelling());
    assert(table@[1].0@ =~= module_spelling());
    table
}

/// Whether `word` holds exactly the characters of `spelling`.
fn spelled_as(word: &Vec<char>, spelling: &str) -> (same: bool)
    ensures
        same == (word@ == spelling@),
{
    let n = spelling.unicode_len();
    if word.len() != n {
        return false;
    }
    let mut i: usize = 0;
    while i < n
        invariant
            n == spelling@.len(),
            word@.len() == n,
            i <= n,
            forall|j: int| 0 <= j < i ==> word@[j] == spelling@[j],
        decreases n - i,
    {
        if word[i] != spelling.get_char(i) {
            return false;
        }
        i = i + 1;
    }
    assert(word@ =~= spelling@);
    true
}

/// Looks `word` up in the keyword table: the keyword it spells, or `Other`.
pub fn lookup_keyword(word: &Vec<char>) -> (item: LexItem)
    ensures
        item == word_item(word@),
{
    let table = keywords();
    let mut i: usize = 0;
    while i < table.len()
        invariant
            i <= table@.len(),
            table@.len() == 2,
            table@[0].0@ == declare_spelling(),
            table@[1].0@ == module_spelling(),
            forall|j: int|
                0 <= j < table@.len() ==> #[trigger] table@[j].1 == word_item(table@[j].0@),
            forall|j: int| 0 <= j < i ==> word@ != #[trigger] table@[j].0@,
        decreases table@.len() - i,
    {
        let (spelling, item) = table[i];
        if spelled_as(word, spelling) {
            return item;
        }
        i = i + 1;
    }
    LexItem::Other
}

} // verus!
