//! Character classes and the splitting of text into words.

use vstd::prelude::*;
use vstd::string::StrSliceExecFns;

verus! {

/// The control characters: U+0000 to U+001F and U+007F to U+009F.
pub open spec fn control(c: char) -> bool {
    let code = c as u32;
    code <= 0x1F || (0x7F <= code && code <= 0x9F)
}

/// The characters that separate words: the Unicode white space.
pub open spec fn whitespace(c: char) -> bool {
    let code = c as u32;
    (0x09 <= code && code <= 0x0D) || code == 0x20 || code == 0x85 || code == 0xA0 || code
        == 0x1680 || (0x2000 <= code && code <= 0x200A) || code == 0x2028 || code == 0x2029 || code
        == 0x202F || code == 0x205F || code == 0x3000
}

/// Tells whether `c` is a control character.
pub fn is_control(c: char) -> (yes: bool)
    ensures
        yes == control(c),
{
    let code: u32 = c as u32;
    code <= 0x1F || (0x7F <= code && code <= 0x9F)
}

/// Tells whether `c` separates words.
pub fn is_whitespace(c: char) -> (yes: bool)
    ensures
        yes == whitespace(c),
{
    let code: u32 = c as u32;
    (0x09 <= code && code <= 0x0D) || code == 0x20 || code == 0x85 || code == 0xA0 || code
        == 0x1680 || (0x2000 <= code && code <= 0x200A) || code == 0x2028 || code == 0x2029 || code
        == 0x202F || code == 0x205F || code == 0x3000
}

/// The words of `text` from position `at` on, where `open` is the start of
/// the word that position `at` continues, if it continues one. A word is a
/// longest run of characters that are not white space.
pub open spec fn words_from(text: Seq<char>, at: int, open: Option<int>) -> Seq<Seq<char>>
    decreases text.len() - at,
{
    if at < 0 || at >= text.len() {
        match open {
            Some(start) => seq![text.subrange(start, text.len() as int)],
            None => seq![],
        }
    } else if whitespace(text[at]) {
        match open {
            Some(start) => seq![text.subrange(start, at)] + words_from(text, at + 1, None),
            None => words_from(text, at + 1, None),
        }
    } else {
        match open {
            Some(start) => words_from(text, at + 1, open),
            None => words_from(text, at + 1, Some(at)),
        }
    }
}

/// The words of `text`, in order.
pub open spec fn words_of(text: Seq<char>) -> Seq<Seq<char>> {
    words_from(text, 0, None)
}

/// The character sequences of a list of string slices.
pub open spec fn texts(words: Seq<&str>) -> Seq<Seq<char>> {
    Seq::new(words.len(), |i: int| words[i]@)
}

/// No word of a text is empty and no word holds white space.
pub proof fn lemma_words_have_no_white_space(text: Seq<char>, k: int)
    requires
        0 <= k < words_of(text).len(),
    ensures
        words_of(text)[k].len() > 0,
        forall|j: int|
            0 <= j < words_of(text)[k].len() ==> !whitespace(#[trigger] words_of(text)[k][j]),
{
    lemma_words_are_solid(text, 0, None, k);
}

proof fn lemma_words_are_solid(text: Seq<char>, at: int, open: Option<int>, k: int)
    requires
        0 <= at <= text.len(),
        open matches Some(start) ==> 0 <= start < at && forall|j: int|
            start <= j < at ==> !whitespace(text[j]),
        0 <= k < words_from(text, at, open).len(),
    ensures
        words_from(text, at, open)[k].len() > 0,
        forall|j: int|
            0 <= j < words_from(text, at, open)[k].len() ==> !whitespace(
                #[trigger] words_from(text, at, open)[k][j],
            ),
    decreases text.len() - at,
{
    if at >= text.len() {
    } else if whitespace(text[at]) {
        match open {
            Some(start) => {
                if k > 0 {
                    lemma_words_are_solid(text, at + 1, None, k - 1);
                }
            },
            None => {
                lemma_words_are_solid(text, at + 1, None, k);
            },
        }
    } else {
        match open {
            Some(start) => {
                lemma_words_are_solid(text, at + 1, open, k);
            },
            None => {
                lemma_words_are_solid(text, at + 1, Some(at), k);
            },
        }
    }
}

/// Splits `text` into its words.
pub fn split_words<'a>(text: &'a str) -> (words: Vec<&'a str>)
    ensures
        texts(words@) == words_of(text@),
{
    let n: usize = text.unicode_len();
    let mut words: Vec<&'a str> = Vec::new();
    let mut open: Option<usize> = None;
    let mut at: usize = 0;
    assert(texts(words@) =~= Seq::<Seq<char>>::empty());
    for c in iter: text.chars()
        invariant
            n == text@.len(),
            iter.seq() == text@,
            at == iter.index(),
            at <= n,
            open matches Some(start) ==> start < at,
            texts(words@) + words_from(
                text@,
                at as int,
                match open {
                    Some(start) => Some(start as int),
                    None => None,
                },
            ) == words_of(text@),
    {
        let ghost done = texts(words@);
        if is_whitespace(c) {
            match open {
                Some(start) => {
                    let word: &'a str = text.substring_char(start, at);
                    words.push(word);
                    open = None;
                    assert(texts(words@) =~= done + seq![text@.subrange(start as int, at as int)]);
                    assert(done + (seq![text@.subrange(start as int, at as int)] + words_from(
                        text@,
                        at + 1,
                        None,
                    )) =~= done + seq![text@.subrange(start as int, at as int)] + words_from(
                        text@,
                        at + 1,
                        None,
                    ));
                },
                None => {},
            }
        } else if open.is_none() {
            open = Some(at);
        }
        at += 1;
    }
    match open {
        Some(start) => {
            let ghost done = texts(words@);
            let word: &'a str = text.substring_char(start, n);
            words.push(word);
            assert(texts(words@) =~= done + seq![text@.subrange(start as int, n as int)]);
        },
        None => {
            assert(texts(words@) + Seq::<Seq<char>>::empty() =~= texts(words@));
        },
    }
    words
}

} // verus!
