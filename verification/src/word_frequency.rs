//! Word frequencies: a text is cut into words at every character that is
//! neither a letter nor a digit, the words are counted, and the counts are
//! listed from the most frequent word down.

use crate::word_order::{
    lemma_ranks_asymmetric, lemma_ranks_total, rank, same_word, spec_is_ranked,
    spec_ranks_before, WordCount,
};
use vstd::prelude::*;
use vstd::slice::slice_to_vec;

verus! {

/// Whether `c` is a letter or a digit in the sense of Unicode, as
/// `char::is_alphanumeric` tells it.
pub uninterp spec fn spec_is_alphanumeric(c: char) -> bool;

/// The lower-case form of `word`, as `str::to_lowercase` gives it. It may
/// differ from the word in length.
pub uninterp spec fn spec_lowercase(word: Seq<char>) -> Seq<char>;

/// Asks `char::is_alphanumeric`.
///
/// Trusted: the answer depends on the character alone.
#[verifier::external_body]
fn is_alphanumeric(c: char) -> (yes: bool)
    ensures
        yes == spec_is_alphanumeric(c),
{
    c.is_alphanumeric()
}

/// Gathers the characters into a `String`, calls `str::to_lowercase` on
/// it, and hands the characters of the result back.
///
/// Trusted: the result depends on the characters alone.
#[verifier::external_body]
fn lowercase(word: &[char]) -> (lower: Vec<char>)
    ensures
        lower@ == spec_lowercase(word@),
{
    word.iter().collect::<String>().to_lowercase().chars().collect()
}

/// The words of a list, each as a sequence of characters.
pub open spec fn spec_word_views(words: Seq<Vec<char>>) -> Seq<Seq<char>> {
    Seq::new(words.len(), |i: int| words[i]@)
}

/// For each character of `text`, whether it belongs to a word.
pub open spec fn spec_word_mask(text: Seq<char>) -> Seq<bool> {
    Seq::new(text.len(), |i: int| spec_is_alphanumeric(text[i]))
}

/// Reading `text` from the left: the words that have ended, and the word
/// that the end of `text` stands in, empty if it stands in none. A word is
/// a longest run of characters that `mask` marks.
pub open spec fn spec_scan(text: Seq<char>, mask: Seq<bool>) -> (Seq<Seq<char>>, Seq<char>)
    recommends
        text.len() == mask.len(),
    decreases text.len(),
{
    if text.len() == 0 {
        (Seq::empty(), Seq::empty())
    } else {
        let (finished, run) = spec_scan(text.drop_last(), mask.drop_last());
        if mask.last() {
            (finished, run.push(text.last()))
        } else if run.len() > 0 {
            (finished.push(run), Seq::empty())
        } else {
            (finished, run)
        }
    }
}

/// The words of `text`, in order: its longest runs of marked characters.
pub open spec fn spec_split(text: Seq<char>, mask: Seq<bool>) -> Seq<Seq<char>>
    recommends
        text.len() == mask.len(),
{
    let (finished, run) = spec_scan(text, mask);
    if run.len() > 0 {
        finished.push(run)
    } else {
        finished
    }
}

/// In a left-to-right reading no word that has ended is empty, and the
/// end of the text stands in a word exactly when its last character is
/// marked.
pub proof fn lemma_scan_gathers_marked(text: Seq<char>, mask: Seq<bool>)
    requires
        text.len() == mask.len(),
    ensures
        forall|i: int|
            0 <= i < spec_scan(text, mask).0.len() ==> (#[trigger] spec_scan(text, mask).0[i]).len()
                > 0,
        mask.len() > 0 && !mask.last() ==> spec_scan(text, mask).1.len() == 0,
        mask.len() > 0 && mask.last() ==> spec_scan(text, mask).1.len() > 0,
    decreases text.len(),
{
    if text.len() > 0 {
        lemma_scan_gathers_marked(text.drop_last(), mask.drop_last());
        let (finished, run) = spec_scan(text.drop_last(), mask.drop_last());
        let after = spec_scan(text, mask).0;
        assert forall|i: int| 0 <= i < after.len() implies (#[trigger] after[i]).len() > 0 by {
            if i < finished.len() {
                assert(after[i] == finished[i]);
            }
        }
    }
}

/// Every word of a text holds at least one character.
pub proof fn lemma_words_are_not_empty(text: Seq<char>, mask: Seq<bool>)
    requires
        text.len() == mask.len(),
    ensures
        forall|i: int|
            0 <= i < spec_split(text, mask).len() ==> (#[trigger] spec_split(text, mask)[i]).len()
                > 0,
{
    lemma_scan_gathers_marked(text, mask);
}

/// A text without a marked character has no words, and a text of marked
/// characters only is one word, unless it is empty.
pub proof fn lemma_split_of_uniform_text(text: Seq<char>, mask: Seq<bool>)
    requires
        text.len() == mask.len(),
    ensures
        (forall|i: int| 0 <= i < mask.len() ==> !mask[i]) ==> spec_split(text, mask)
            == Seq::<Seq<char>>::empty(),
        (forall|i: int| 0 <= i < mask.len() ==> mask[i]) ==> spec_scan(text, mask) == (
            Seq::<Seq<char>>::empty(),
            text,
        ),
    decreases text.len(),
{
    if text.len() > 0 {
        lemma_split_of_uniform_text(text.drop_last(), mask.drop_last());
        if forall|i: int| 0 <= i < mask.len() ==> mask[i] {
            assert forall|i: int| 0 <= i < mask.drop_last().len() implies mask.drop_last()[i] by {
                assert(mask[i]);
            }
        }
        if forall|i: int| 0 <= i < mask.len() ==> !mask[i] {
            assert forall|i: int| 0 <= i < mask.drop_last().len() implies !mask.drop_last()[i] by {
                assert(!mask[i]);
            }
        }
    }
}

/// The words, each in lower case if case is to be ignored.
pub open spec fn spec_fold_case(words: Seq<Seq<char>>, ignore_case: bool) -> Seq<Seq<char>> {
    if ignore_case {
        Seq::new(words.len(), |i: int| spec_lowercase(words[i]))
    } else {
        words
    }
}

/// The number of bytes that a character takes in UTF-8.
pub open spec fn spec_char_len(c: char) -> nat {
    if (c as u32) < 0x80 {
        1
    } else if (c as u32) < 0x800 {
        2
    } else if (c as u32) < 0x1_0000 {
        3
    } else {
        4
    }
}

/// The number of bytes that a word takes in UTF-8.
pub open spec fn spec_utf8_len(word: Seq<char>) -> nat
    decreases word.len(),
{
    if word.len() == 0 {
        0
    } else {
        spec_utf8_len(word.drop_last()) + spec_char_len(word.last())
    }
}

/// The words of at least `min_length` bytes, in order.
pub open spec fn spec_long_words(words: Seq<Seq<char>>, min_length: nat) -> Seq<Seq<char>>
    decreases words.len(),
{
    if words.len() == 0 {
        words
    } else {
        let front = spec_long_words(words.drop_last(), min_length);
        if spec_utf8_len(words.last()) >= min_length {
            front.push(words.last())
        } else {
            front
        }
    }
}

/// The number of times `word` stands in `words`.
pub open spec fn spec_occurrences(words: Seq<Seq<char>>, word: Seq<char>) -> nat
    decreases words.len(),
{
    if words.len() == 0 {
        0
    } else {
        spec_occurrences(words.drop_last(), word) + if words.last() == word {
            1nat
        } else {
            0nat
        }
    }
}

/// Marks the characters of `text` that belong to words.
pub fn classify(text: &[char]) -> (mask: Vec<bool>)
    ensures
        mask@ == spec_word_mask(text@),
{
    let mut mask: Vec<bool> = Vec::with_capacity(text.len());
    let mut i: usize = 0;
    while i < text.len()
        invariant
            i <= text@.len(),
            mask@.len() == i,
            forall|j: int| 0 <= j < i ==> mask@[j] == spec_is_alphanumeric(text@[j]),
        decreases text@.len() - i,
    {
        mask.push(is_alphanumeric(text[i]));
        i += 1;
    }
    mask
}

/// Cuts `text` into words: the longest runs of characters that `mask`
/// marks, in order.
///
/// Returns `None` exactly when `mask` is not as long as `text`.
pub fn split_words(text: &[char], mask: &[bool]) -> (words: Option<Vec<Vec<char>>>)
    ensures
        words is Some <==> text@.len() == mask@.len(),
        words matches Some(list) ==> spec_word_views(list@) == spec_split(text@, mask@),
{
    if text.len() != mask.len() {
        return None;
    }
    let mut finished: Vec<Vec<char>> = Vec::new();
    let mut run: Vec<char> = Vec::new();
    let mut i: usize = 0;
    while i < text.len()
        invariant
            text@.len() == mask@.len(),
            i <= text@.len(),
            (spec_word_views(finished@), run@) == spec_scan(
                text@.take(i as int),
                mask@.take(i as int),
            ),
        decreases text@.len() - i,
    {
        proof {
            assert(text@.take(i + 1).drop_last() =~= text@.take(i as int));
            assert(mask@.take(i + 1).drop_last() =~= mask@.take(i as int));
        }
        if mask[i] {
            run.push(text[i]);
        } else if run.len() > 0 {
            finished.push(run);
            run = Vec::new();
        }
        i += 1;
    }
    proof {
        assert(text@.take(i as int) =~= text@);
        assert(mask@.take(i as int) =~= mask@);
    }
    if run.len() > 0 {
        finished.push(run);
    }
    Some(finished)
}

/// Puts each word into lower case if case is to be ignored, and leaves the
/// words as they are otherwise.
pub fn fold_case(words: Vec<Vec<char>>, ignore_case: bool) -> (folded: Vec<Vec<char>>)
    ensures
        spec_word_views(folded@) == spec_fold_case(spec_word_views(words@), ignore_case),
{
    if !ignore_case {
        return words;
    }
    let mut folded: Vec<Vec<char>> = Vec::with_capacity(words.len());
    let mut i: usize = 0;
    while i < words.len()
        invariant
            i <= words@.len(),
            folded@.len() == i,
            forall|j: int| 0 <= j < i ==> (#[trigger] folded@[j])@ == spec_lowercase(words@[j]@),
        decreases words@.len() - i,
    {
        folded.push(lowercase(words[i].as_slice()));
        i += 1;
    }
    folded
}

/// The number of bytes that a character takes in UTF-8.
pub fn char_len(c: char) -> (len: usize)
    ensures
        len == spec_char_len(c),
{
    let code = c as u32;
    if code < 0x80 {
        1
    } else if code < 0x800 {
        2
    } else if code < 0x1_0000 {
        3
    } else {
        4
    }
}

/// Whether a word takes at least `min_length` bytes in UTF-8.
pub fn is_long_enough(word: &[char], min_length: usize) -> (long: bool)
    ensures
        long == (spec_utf8_len(word@) >= min_length),
{
    let mut len: usize = 0;
    let mut i: usize = 0;
    while i < word.len()
        invariant
            i <= word@.len(),
            len == spec_utf8_len(word@.take(i as int)),
            len < min_length || i == 0,
        decreases word@.len() - i,
    {
        proof {
            assert(word@.take(i + 1).drop_last() =~= word@.take(i as int));
            lemma_utf8_len_grows(word@, i + 1);
        }
        let step = char_len(word[i]);
        if len >= min_length || step >= min_length - len {
            return true;
        }
        len = len + step;
        i += 1;
    }
    assert(word@.take(i as int) =~= word@);
    len >= min_length
}

/// A word is at least as long as each of its beginnings.
pub proof fn lemma_utf8_len_grows(word: Seq<char>, k: int)
    requires
        0 <= k <= word.len(),
    ensures
        spec_utf8_len(word.take(k)) <= spec_utf8_len(word),
    decreases word.len(),
{
    if k == word.len() {
        assert(word.take(k) =~= word);
    } else {
        lemma_utf8_len_grows(word.drop_last(), k);
        assert(word.drop_last().take(k) =~= word.take(k));
    }
}

/// Keeps the words of at least `min_length` bytes, in order.
pub fn keep_long_words(words: &Vec<Vec<char>>, min_length: usize) -> (kept: Vec<Vec<char>>)
    ensures
        spec_word_views(kept@) == spec_long_words(spec_word_views(words@), min_length as nat),
{
    let mut kept: Vec<Vec<char>> = Vec::new();
    let mut i: usize = 0;
    while i < words.len()
        invariant
            i <= words@.len(),
            spec_word_views(kept@) == spec_long_words(
                spec_word_views(words@).take(i as int),
                min_length as nat,
            ),
        decreases words@.len() - i,
    {
        proof {
            assert(spec_word_views(words@).take(i + 1).drop_last() =~= spec_word_views(
                words@,
            ).take(i as int));
        }
        if is_long_enough(words[i].as_slice(), min_length) {
            kept.push(slice_to_vec(words[i].as_slice()));
        }
        i += 1;
    }
    assert(spec_word_views(words@).take(i as int) =~= spec_word_views(words@));
    kept
}

/// Whether `entries` counts `words`: it names each word that occurs once,
/// with the number of times it occurs, and names no other.
pub open spec fn spec_is_tally(entries: Seq<WordCount>, words: Seq<Seq<char>>) -> bool {
    &&& forall|i: int, j: int|
        0 <= i < j < entries.len() ==> (#[trigger] entries[i]).word@ != (#[trigger] entries[j]).word@
    &&& forall|i: int|
        0 <= i < entries.len() ==> (#[trigger] entries[i]).count == spec_occurrences(
            words,
            entries[i].word@,
        ) && entries[i].count > 0
    &&& forall|word: Seq<char>| #[trigger]
        spec_occurrences(words, word) > 0 ==> exists|i: int|
            0 <= i < entries.len() && (#[trigger] entries[i]).word@ == word
}

/// Whether `entries` is the list of frequencies of `words`: a tally in
/// listing order, the more frequent word first and, among words equally
/// frequent, the smaller word first.
pub open spec fn spec_is_ranking(entries: Seq<WordCount>, words: Seq<Seq<char>>) -> bool {
    &&& spec_is_tally(entries, words)
    &&& forall|i: int, j: int|
        0 <= i < j < entries.len() ==> spec_ranks_before(
            #[trigger] entries[i],
            #[trigger] entries[j],
        )
}

/// A word occurs at most as often as there are words.
pub proof fn lemma_occurrences_bounded(words: Seq<Seq<char>>, word: Seq<char>)
    ensures
        spec_occurrences(words, word) <= words.len(),
    decreases words.len(),
{
    if words.len() > 0 {
        lemma_occurrences_bounded(words.drop_last(), word);
    }
}

/// The position of `word` among the entries, if it is there.
fn find_word(entries: &Vec<WordCount>, word: &[char]) -> (found: Option<usize>)
    ensures
        match found {
            Some(i) => i < entries@.len() && entries@[i as int].word@ == word@,
            None => forall|i: int| 0 <= i < entries@.len() ==> (#[trigger] entries@[i]).word@ != word@,
        },
{
    let mut i: usize = 0;
    while i < entries.len()
        invariant
            i <= entries@.len(),
            forall|j: int| 0 <= j < i ==> (#[trigger] entries@[j]).word@ != word@,
        decreases entries@.len() - i,
    {
        if same_word(entries[i].word.as_slice(), word) {
            return Some(i);
        }
        i += 1;
    }
    None
}

/// Counts the words: one entry for each word that occurs, with the number
/// of times it occurs.
pub fn tally(words: &Vec<Vec<char>>) -> (entries: Vec<WordCount>)
    ensures
        spec_is_tally(entries@, spec_word_views(words@)),
{
    let ghost all = spec_word_views(words@);
    let mut entries: Vec<WordCount> = Vec::new();
    let mut k: usize = 0;
    while k < words.len()
        invariant
            k <= words@.len(),
            all == spec_word_views(words@),
            spec_is_tally(entries@, all.take(k as int)),
        decreases words@.len() - k,
    {
        let ghost seen = all.take(k as int);
        let ghost next = all.take(k + 1);
        let ghost before = entries@;
        let word = words[k].as_slice();
        proof {
            assert(next.drop_last() =~= seen);
            assert(next.last() == word@);
        }
        match find_word(&entries, word) {
            Some(i) => {
                let old_entry = entries.remove(i);
                proof {
                    lemma_occurrences_bounded(seen, word@);
                }
                let entry = WordCount { word: old_entry.word, count: old_entry.count + 1 };
                entries.insert(i, entry);
                proof {
                    assert(entries@ =~= before.update(i as int, entry));
                    assert forall|word: Seq<char>| #[trigger]
                        spec_occurrences(next, word) > 0 implies exists|j: int|
                        0 <= j < entries@.len() && (#[trigger] entries@[j]).word@ == word by {
                        if spec_occurrences(seen, word) > 0 {
                            let j = choose|j: int|
                                0 <= j < before.len() && (#[trigger] before[j]).word@ == word;
                            assert(entries@[j].word@ == word);
                        } else {
                            assert(entries@[i as int].word@ == word);
                        }
                    }
                }
            },
            None => {
                let entry = WordCount { word: slice_to_vec(word), count: 1 };
                entries.push(entry);
                proof {
                    assert(spec_occurrences(seen, word@) == 0) by {
                        if spec_occurrences(seen, word@) > 0 {
                            let j = choose|j: int|
                                0 <= j < before.len() && (#[trigger] before[j]).word@ == word@;
                        }
                    }
                    assert forall|word: Seq<char>| #[trigger]
                        spec_occurrences(next, word) > 0 implies exists|j: int|
                        0 <= j < entries@.len() && (#[trigger] entries@[j]).word@ == word by {
                        if spec_occurrences(seen, word) > 0 {
                            let j = choose|j: int|
                                0 <= j < before.len() && (#[trigger] before[j]).word@ == word;
                            assert(entries@[j].word@ == word);
                        } else {
                            assert(entries@[before.len() as int].word@ == word);
                        }
                    }
                }
            },
        }
        k += 1;
    }
    assert(all.take(k as int) =~= all);
    entries
}

/// A tally put into listing order is the list of frequencies.
proof fn lemma_ranked_tally_is_ranking(
    tallied: Seq<WordCount>,
    ranked: Seq<WordCount>,
    words: Seq<Seq<char>>,
)
    requires
        spec_is_tally(tallied, words),
        ranked.to_multiset() == tallied.to_multiset(),
        spec_is_ranked(ranked),
    ensures
        spec_is_ranking(ranked, words),
{
    tallied.to_multiset_ensures();
    ranked.to_multiset_ensures();
    assert(tallied.no_duplicates()) by {
        assert forall|i: int, j: int|
            0 <= i < tallied.len() && 0 <= j < tallied.len() && i != j implies tallied[i]
            != tallied[j] by {
            if i < j {
                assert(tallied[i].word@ != tallied[j].word@);
            } else {
                assert(tallied[j].word@ != tallied[i].word@);
            }
        }
    }
    tallied.lemma_multiset_has_no_duplicates();
    ranked.lemma_multiset_has_no_duplicates_conv();
    assert forall|i: int| 0 <= i < ranked.len() implies tallied.contains(#[trigger] ranked[i]) by {
        assert(ranked.contains(ranked[i]));
        assert(ranked.to_multiset().count(ranked[i]) > 0);
        assert(tallied.to_multiset().count(ranked[i]) > 0);
    }
    assert forall|i: int, j: int| 0 <= i < j < ranked.len() implies (#[trigger] ranked[i]).word@ != (
    #[trigger] ranked[j]).word@ by {
        assert(tallied.contains(ranked[i]));
        assert(tallied.contains(ranked[j]));
        let p = choose|p: int| 0 <= p < tallied.len() && tallied[p] == ranked[i];
        let q = choose|q: int| 0 <= q < tallied.len() && tallied[q] == ranked[j];
        assert(ranked[i] != ranked[j]);
        if p < q {
            assert(tallied[p].word@ != tallied[q].word@);
        } else if q < p {
            assert(tallied[q].word@ != tallied[p].word@);
        }
    }
    assert forall|i: int| 0 <= i < ranked.len() implies (#[trigger] ranked[i]).count
        == spec_occurrences(words, ranked[i].word@) && ranked[i].count > 0 by {
        assert(tallied.contains(ranked[i]));
        let p = choose|p: int| 0 <= p < tallied.len() && tallied[p] == ranked[i];
        assert(tallied[p].count > 0);
    }
    assert forall|word: Seq<char>| #[trigger] spec_occurrences(words, word) > 0 implies exists|
        i: int,
    | 0 <= i < ranked.len() && (#[trigger] ranked[i]).word@ == word by {
        let p = choose|p: int| 0 <= p < tallied.len() && (#[trigger] tallied[p]).word@ == word;
        assert(tallied.contains(tallied[p]));
        assert(tallied.to_multiset().count(tallied[p]) > 0);
        assert(ranked.to_multiset().count(tallied[p]) > 0);
        assert(ranked.contains(tallied[p]));
        let i = choose|i: int| 0 <= i < ranked.len() && ranked[i] == tallied[p];
        assert(ranked[i].word@ == word);
    }
    assert forall|i: int, j: int| 0 <= i < j < ranked.len() implies spec_ranks_before(
        #[trigger] ranked[i],
        #[trigger] ranked[j],
    ) by {
        if !spec_ranks_before(ranked[i], ranked[j]) {
            lemma_ranks_total(ranked[i], ranked[j]);
        }
    }
}

/// Two lists of frequencies of the same words agree up to position `n`.
proof fn lemma_rankings_agree_to(
    a: Seq<WordCount>,
    b: Seq<WordCount>,
    words: Seq<Seq<char>>,
    n: int,
)
    requires
        spec_is_ranking(a, words),
        spec_is_ranking(b, words),
        0 <= n <= a.len(),
    ensures
        n <= b.len(),
        forall|i: int|
            0 <= i < n ==> (#[trigger] a[i]).word@ == b[i].word@ && a[i].count == b[i].count,
    decreases n,
{
    if n > 0 {
        let m = n - 1;
        lemma_rankings_agree_to(a, b, words, m);
        let word = a[m].word@;
        assert(spec_occurrences(words, word) > 0);
        let j = choose|j: int| 0 <= j < b.len() && (#[trigger] b[j]).word@ == word;
        if j < m {
            assert(a[j].word@ == b[j].word@);
            assert(a[j].word@ != a[m].word@);
        }
        if j > m {
            let other = b[m].word@;
            assert(spec_occurrences(words, other) > 0);
            let k = choose|k: int| 0 <= k < a.len() && (#[trigger] a[k].word@) == other;
            if k < m {
                assert(a[k].word@ == b[k].word@);
                assert(b[k].word@ != b[m].word@);
            }
            if k == m {
                assert(b[m].word@ != b[j].word@);
            }
            assert(spec_ranks_before(a[m], a[k]));
            assert(spec_ranks_before(b[m], b[j]));
            assert(spec_ranks_before(b[j], b[m]));
            lemma_ranks_asymmetric(b[m], b[j]);
        }
        assert(j == m);
    }
}

/// The list of frequencies of given words is unique: two such lists name
/// the same words with the same counts in the same order.
pub proof fn lemma_ranking_unique(a: Seq<WordCount>, b: Seq<WordCount>, words: Seq<Seq<char>>)
    requires
        spec_is_ranking(a, words),
        spec_is_ranking(b, words),
    ensures
        a.len() == b.len(),
        forall|i: int|
            0 <= i < a.len() ==> (#[trigger] a[i]).word@ == b[i].word@ && a[i].count == b[i].count,
{
    lemma_rankings_agree_to(a, b, words, a.len() as int);
    lemma_rankings_agree_to(b, a, words, b.len() as int);
}

/// Counts the words and lists the counts: the most frequent word first,
/// and words equally frequent in the order of their code points.
pub fn count_words(words: &Vec<Vec<char>>) -> (ranking: Vec<WordCount>)
    ensures
        spec_is_ranking(ranking@, spec_word_views(words@)),
{
    let entries = tally(words);
    let ghost tallied = entries@;
    let ranking = rank(entries);
    proof {
        lemma_ranked_tally_is_ranking(tallied, ranking@, spec_word_views(words@));
    }
    ranking
}

/// The first `top` entries of a list, or all of them where there are
/// fewer.
pub open spec fn spec_top(entries: Seq<WordCount>, top: nat) -> Seq<WordCount> {
    entries.take(
        if top <= entries.len() {
            top as int
        } else {
            entries.len() as int
        },
    )
}

/// Cuts a list down to its first `top` entries.
pub fn take_top(entries: Vec<WordCount>, top: usize) -> (listed: Vec<WordCount>)
    ensures
        listed@ == spec_top(entries@, top as nat),
{
    let mut listed = entries;
    listed.truncate(top);
    listed
}

/// The words of `text` that are counted: its words, in lower case if case
/// is to be ignored, of at least `min_length` bytes.
pub open spec fn spec_counted_words(text: Seq<char>, min_length: nat, ignore_case: bool) -> Seq<
    Seq<char>,
> {
    spec_long_words(
        spec_fold_case(spec_split(text, spec_word_mask(text)), ignore_case),
        min_length,
    )
}

/// Counts the words of `text` and lists the `top` most frequent.
///
/// The words are the longest runs of letters and digits. With
/// `ignore_case` they are counted in lower case. Words of fewer than
/// `min_length` bytes in UTF-8 are left out.
pub fn word_frequencies(text: &[char], top: usize, min_length: usize, ignore_case: bool) -> (listed:
    Vec<WordCount>)
    ensures
        exists|full: Seq<WordCount>|
            spec_is_ranking(full, spec_counted_words(text@, min_length as nat, ignore_case))
                && listed@ == #[trigger] spec_top(full, top as nat),
{
    let mask = classify(text);
    let words = match split_words(text, mask.as_slice()) {
        Some(words) => words,
        None => Vec::new(),
    };
    let folded = fold_case(words, ignore_case);
    let kept = keep_long_words(&folded, min_length);
    let ranking = count_words(&kept);
    take_top(ranking, top)
}

} // verus!
