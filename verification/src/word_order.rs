//! The order in which counted words are listed: the more frequent word
//! first and, among words equally frequent, the one that comes first in
//! the dictionary of code points.

use vstd::prelude::*;

verus! {

/// A word and the number of times it was met.
#[derive(Debug, PartialEq, Eq)]
pub struct WordCount {
    pub word: Vec<char>,
    pub count: usize,
}

/// Whether `a` and `b` agree before position `k` and `a` is the smaller
/// there: `a` ends at `k` while `b` goes on, or `a` has the smaller code
/// point.
pub open spec fn spec_precedes_at(a: Seq<char>, b: Seq<char>, k: int) -> bool {
    &&& 0 <= k <= a.len()
    &&& k <= b.len()
    &&& forall|i: int| 0 <= i < k ==> a[i] == b[i]
    &&& if k == a.len() {
        k < b.len()
    } else {
        k < b.len() && a[k] < b[k]
    }
}

/// Whether `a` comes strictly before `b` when words are compared code
/// point by code point, a proper prefix before its extensions. This is the
/// order of the words' UTF-8 bytes as well.
pub open spec fn spec_word_precedes(a: Seq<char>, b: Seq<char>) -> bool {
    exists|k: int| spec_precedes_at(a, b, k)
}

/// Whether entry `a` is listed before entry `b`: by falling count, then by
/// rising word.
pub open spec fn spec_ranks_before(a: WordCount, b: WordCount) -> bool {
    a.count > b.count || (a.count == b.count && spec_word_precedes(a.word@, b.word@))
}

/// No word comes before itself, and of two words at most one comes before
/// the other.
pub proof fn lemma_precedes_asymmetric(a: Seq<char>, b: Seq<char>)
    ensures
        !(spec_word_precedes(a, b) && spec_word_precedes(b, a)),
        !spec_word_precedes(a, a),
{
    if spec_word_precedes(a, b) && spec_word_precedes(b, a) {
        let k = choose|k: int| spec_precedes_at(a, b, k);
        let m = choose|m: int| spec_precedes_at(b, a, m);
        assert(k == m);
    }
}

/// The order of words is transitive.
pub proof fn lemma_precedes_transitive(a: Seq<char>, b: Seq<char>, c: Seq<char>)
    requires
        spec_word_precedes(a, b),
        spec_word_precedes(b, c),
    ensures
        spec_word_precedes(a, c),
{
    let k = choose|k: int| spec_precedes_at(a, b, k);
    let m = choose|m: int| spec_precedes_at(b, c, m);
    let n = if k <= m {
        k
    } else {
        m
    };
    assert(spec_precedes_at(a, c, n));
}

/// Two words that agree up to `from` and are not equal differ in order: one
/// of them comes before the other.
proof fn lemma_precedes_total_from(a: Seq<char>, b: Seq<char>, from: int)
    requires
        0 <= from <= a.len(),
        from <= b.len(),
        forall|i: int| 0 <= i < from ==> a[i] == b[i],
        a != b,
    ensures
        spec_word_precedes(a, b) || spec_word_precedes(b, a),
    decreases a.len() - from,
{
    if from == a.len() {
        if from == b.len() {
            assert(a =~= b);
        } else {
            assert(spec_precedes_at(a, b, from));
        }
    } else if from == b.len() {
        assert(spec_precedes_at(b, a, from));
    } else if a[from] == b[from] {
        lemma_precedes_total_from(a, b, from + 1);
    } else if a[from] < b[from] {
        assert(spec_precedes_at(a, b, from));
    } else {
        assert(spec_precedes_at(b, a, from));
    }
}

/// The order of words is total: of two different words, one comes before
/// the other.
pub proof fn lemma_precedes_total(a: Seq<char>, b: Seq<char>)
    requires
        a != b,
    ensures
        spec_word_precedes(a, b) || spec_word_precedes(b, a),
{
    lemma_precedes_total_from(a, b, 0);
}

/// Of two entries at most one is listed before the other.
pub proof fn lemma_ranks_asymmetric(a: WordCount, b: WordCount)
    ensures
        !(spec_ranks_before(a, b) && spec_ranks_before(b, a)),
{
    lemma_precedes_asymmetric(a.word@, b.word@);
}

/// The listing order is transitive.
pub proof fn lemma_ranks_transitive(a: WordCount, b: WordCount, c: WordCount)
    requires
        spec_ranks_before(a, b),
        spec_ranks_before(b, c),
    ensures
        spec_ranks_before(a, c),
{
    if a.count == b.count && b.count == c.count {
        lemma_precedes_transitive(a.word@, b.word@, c.word@);
    }
}

/// Entries that neither is listed before the other hold the same word and
/// the same count.
pub proof fn lemma_ranks_total(a: WordCount, b: WordCount)
    requires
        !spec_ranks_before(a, b),
        !spec_ranks_before(b, a),
    ensures
        a.count == b.count,
        a.word@ == b.word@,
{
    if a.word@ != b.word@ {
        lemma_precedes_total(a.word@, b.word@);
    }
}

/// Whether two words are the same, character for character.
pub fn same_word(a: &[char], b: &[char]) -> (same: bool)
    ensures
        same == (a@ == b@),
{
    if a.len() != b.len() {
        return false;
    }
    let mut i: usize = 0;
    while i < a.len()
        invariant
            a@.len() == b@.len(),
            i <= a@.len(),
            forall|j: int| 0 <= j < i ==> a@[j] == b@[j],
        decreases a@.len() - i,
    {
        if a[i] != b[i] {
            return false;
        }
        i += 1;
    }
    assert(a@ =~= b@);
    true
}

/// Whether `a` comes strictly before `b` in the order of words.
pub fn word_precedes(a: &[char], b: &[char]) -> (before: bool)
    ensures
        before == spec_word_precedes(a@, b@),
{
    let mut i: usize = 0;
    while i < a.len() && i < b.len()
        invariant
            i <= a@.len(),
            i <= b@.len(),
            forall|j: int| 0 <= j < i ==> a@[j] == b@[j],
        decreases a@.len() - i,
    {
        if a[i] != b[i] {
            let before = a[i] < b[i];
            proof {
                if before {
                    assert(spec_precedes_at(a@, b@, i as int));
                }
            }
            return before;
        }
        i += 1;
    }
    let before = a.len() < b.len();
    proof {
        if before {
            assert(spec_precedes_at(a@, b@, i as int));
        }
    }
    before
}

/// Whether entry `a` is listed before entry `b`.
pub fn ranks_before(a: &WordCount, b: &WordCount) -> (before: bool)
    ensures
        before == spec_ranks_before(*a, *b),
{
    a.count > b.count || (a.count == b.count && word_precedes(a.word.as_slice(), b.word.as_slice()))
}

/// Whether the entries stand in listing order: none stands behind an entry
/// that it should be listed before.
pub open spec fn spec_is_ranked(entries: Seq<WordCount>) -> bool {
    forall|i: int, j: int|
        0 <= i < j < entries.len() ==> !spec_ranks_before(
            #[trigger] entries[j],
            #[trigger] entries[i],
        )
}

/// An empty sequence holds nothing.
proof fn lemma_empty_holds_nothing(entries: Seq<WordCount>)
    requires
        entries.len() == 0,
    ensures
        entries.to_multiset() == vstd::multiset::Multiset::<WordCount>::empty(),
{
    entries.to_multiset_ensures();
    assert forall|entry: WordCount| entries.to_multiset().count(entry) == 0 by {}
}

/// Inserting an entry adds it to what a sequence holds, wherever it goes.
proof fn lemma_insert_holds_one_more(entries: Seq<WordCount>, at: int, entry: WordCount)
    requires
        0 <= at <= entries.len(),
    ensures
        entries.insert(at, entry).to_multiset() == entries.to_multiset().insert(entry),
{
    let longer = entries.insert(at, entry);
    assert(longer.remove(at) =~= entries);
    assert(longer[at] == entry);
    longer.to_multiset_ensures();
}

/// An entry put before the first entry that it is listed before keeps a
/// ranked sequence ranked.
proof fn lemma_insert_keeps_ranked(entries: Seq<WordCount>, at: int, entry: WordCount)
    requires
        spec_is_ranked(entries),
        0 <= at <= entries.len(),
        forall|i: int| 0 <= i < at ==> !spec_ranks_before(entry, #[trigger] entries[i]),
        at < entries.len() ==> spec_ranks_before(entry, entries[at]),
    ensures
        spec_is_ranked(entries.insert(at, entry)),
{
    let longer = entries.insert(at, entry);
    assert forall|i: int, j: int| 0 <= i < j < longer.len() implies !spec_ranks_before(
        #[trigger] longer[j],
        #[trigger] longer[i],
    ) by {
        if i == at {
            lemma_ranks_asymmetric(entry, entries[at]);
            if spec_ranks_before(entries[j - 1], entry) {
                lemma_ranks_transitive(entries[j - 1], entry, entries[at]);
            }
        }
    }
}

/// Puts entries into listing order: by falling count, and by rising word
/// among entries of one count. The result holds exactly the entries given.
pub fn rank(entries: Vec<WordCount>) -> (ranking: Vec<WordCount>)
    ensures
        ranking@.to_multiset() == entries@.to_multiset(),
        spec_is_ranked(ranking@),
{
    let mut rest = entries;
    let mut ranking: Vec<WordCount> = Vec::with_capacity(rest.len());
    proof {
        lemma_empty_holds_nothing(ranking@);
    }
    while rest.len() > 0
        invariant
            ranking@.to_multiset().add(rest@.to_multiset()) == entries@.to_multiset(),
            spec_is_ranked(ranking@),
        decreases rest@.len(),
    {
        let ghost rest_before = rest@;
        let entry = match rest.pop() {
            Some(entry) => entry,
            None => {
                return ranking;
            },
        };
        let mut at: usize = 0;
        while at < ranking.len() && !ranks_before(&entry, &ranking[at])
            invariant
                at <= ranking@.len(),
                forall|i: int| 0 <= i < at ==> !spec_ranks_before(entry, #[trigger] ranking@[i]),
            decreases ranking@.len() - at,
        {
            at += 1;
        }
        proof {
            lemma_insert_keeps_ranked(ranking@, at as int, entry);
            lemma_insert_holds_one_more(ranking@, at as int, entry);
            assert(rest_before =~= rest@.push(entry));
            vstd::seq_lib::to_multiset_build(rest@, entry);
        }
        ranking.insert(at, entry);
    }
    proof {
        lemma_empty_holds_nothing(rest@);
    }
    ranking
}

} // verus!
