use std::collections::BTreeMap;
use vstd::prelude::*;

use crate::guesser::Guesser;
use crate::text::{byte_length, utf8_len};

verus! {

broadcast use vstd::std_specs::btree::group_btree_axioms, vstd::laws_cmp::group_laws_cmp;

/// The length of a word as `str::len` counts it: the bytes of its UTF-8 encoding.
pub open spec fn byte_len(w: String) -> nat {
    utf8_len(w@)
}

/// The largest byte length among `ws` (0 for no words).
pub open spec fn max_byte_len(ws: Seq<String>) -> nat
    decreases ws.len(),
{
    if ws.len() == 0 {
        0
    } else {
        let m = max_byte_len(ws.drop_last());
        if byte_len(ws.last()) > m {
            byte_len(ws.last())
        } else {
            m
        }
    }
}

/// The words of `ws` whose byte length is `n`, in their order in `ws`.
pub open spec fn of_len(ws: Seq<String>, n: nat) -> Seq<String> {
    ws.filter(has_len(n))
}

/// The test that `of_len` applies to each word.
pub open spec fn has_len(n: nat) -> spec_fn(String) -> bool {
    |w: String| byte_len(w) == n
}

/// The words of `ws` whose byte length is below `bound`, ordered by length, words of
/// equal length keeping their order in `ws`: what a stable sort by length gives.
pub open spec fn len_sorted(ws: Seq<String>, bound: nat) -> Seq<String>
    decreases bound,
{
    if bound == 0 {
        Seq::empty()
    } else {
        len_sorted(ws, (bound - 1) as nat) + of_len(ws, (bound - 1) as nat)
    }
}

/// `ws` is ordered by byte length.
pub open spec fn sorted_by_len(ws: Seq<String>) -> bool {
    forall|i: int, j: int| 0 <= i <= j < ws.len() ==> byte_len(ws[i]) <= byte_len(ws[j])
}

/// `(start, end)` delimits, in `ws`, the words whose byte length is `n`: the words before
/// `start` are shorter, those before `end` are not longer, and the others are longer.
pub open spec fn is_len_range(ws: Seq<String>, n: nat, start: int, end: int) -> bool {
    &&& 0 <= start <= end <= ws.len()
    &&& forall|k: int|
        0 <= k < ws.len() ==> (k < start <==> byte_len(#[trigger] ws[k]) < n) && (k < end
            <==> byte_len(ws[k]) <= n)
}

/// Some word of `ws` is at least `n` bytes long.
pub open spec fn reaches_len(ws: Seq<String>, n: nat) -> bool {
    exists|k: int| 0 <= k < ws.len() && byte_len(#[trigger] ws[k]) >= n
}

pub proof fn lemma_max_byte_len(ws: Seq<String>)
    ensures
        forall|k: int| 0 <= k < ws.len() ==> byte_len(#[trigger] ws[k]) <= max_byte_len(ws),
        ws.len() > 0 ==> reaches_len(ws, max_byte_len(ws)),
    decreases ws.len(),
{
    if ws.len() > 0 {
        let init = ws.drop_last();
        lemma_max_byte_len(init);
        assert forall|k: int| 0 <= k < ws.len() implies byte_len(#[trigger] ws[k]) <= max_byte_len(
            ws,
        ) by {
            if k < ws.len() - 1 {
                assert(ws[k] == init[k]);
            }
        }
        if byte_len(ws.last()) > max_byte_len(init) {
            assert(byte_len(ws[ws.len() - 1]) >= max_byte_len(ws));
        } else if init.len() > 0 {
            let k = choose|k: int| 0 <= k < init.len() && byte_len(#[trigger] init[k]) >= max_byte_len(init);
            assert(ws[k] == init[k]);
        } else {
            assert(byte_len(ws[0]) >= max_byte_len(ws));
        }
    }
}

/// In a sequence ordered by length, the range that `is_len_range` describes holds exactly
/// the words of that length.
pub proof fn lemma_len_range_is_of_len(ws: Seq<String>, n: nat, start: int, end: int)
    requires
        is_len_range(ws, n, start, end),
    ensures
        ws.subrange(start, end) == of_len(ws, n),
    decreases ws.len(),
{
    reveal_with_fuel(Seq::filter, 1);
    if ws.len() == 0 {
        assert(ws.subrange(start, end) =~= Seq::<String>::empty());
    } else {
        let len = ws.len() as int;
        let init = ws.drop_last();
        let s2 = if start < len - 1 { start } else { len - 1 };
        let e2 = if end < len - 1 { end } else { len - 1 };
        assert forall|k: int| 0 <= k < init.len() implies (k < s2 <==> byte_len(#[trigger] init[k])
            < n) && (k < e2 <==> byte_len(init[k]) <= n) by {
            assert(init[k] == ws[k]);
        }
        lemma_len_range_is_of_len(init, n, s2, e2);
        assert(ws.drop_last() == init);
        let last = ws[len - 1];
        if byte_len(last) == n {
            assert(ws.subrange(start, end) =~= init.subrange(s2, e2).push(last));
        } else {
            assert(ws.subrange(start, end) =~= init.subrange(s2, e2));
        }
    }
}

/// Adding a word to the list adds it to its length's place in the sorted words, when its
/// length is below the bound.
proof fn lemma_len_sorted_push(ws: Seq<String>, x: String, bound: nat)
    ensures
        len_sorted(ws.push(x), bound).to_multiset() == if byte_len(x) < bound {
            len_sorted(ws, bound).to_multiset().insert(x)
        } else {
            len_sorted(ws, bound).to_multiset()
        },
    decreases bound,
{
    broadcast use vstd::seq_lib::group_to_multiset_ensures, vstd::seq_lib::lemma_multiset_commutative,
        vstd::multiset::group_multiset_axioms;

    if bound == 0 {
        assert(len_sorted(ws.push(x), bound).to_multiset() =~= len_sorted(ws, bound).to_multiset());
    } else {
        let n = (bound - 1) as nat;
        lemma_len_sorted_push(ws, x, n);
        reveal_with_fuel(Seq::filter, 1);
        assert(ws.push(x).drop_last() =~= ws);
        let a = len_sorted(ws, n);
        let a2 = len_sorted(ws.push(x), n);
        let b = of_len(ws, n);
        let b2 = of_len(ws.push(x), n);
        if byte_len(x) == n {
            assert(b2 == b.push(x));
        } else {
            assert(b2 == b);
        }
        assert((a2 + b2).to_multiset() =~= a2.to_multiset().add(b2.to_multiset()));
        assert((a + b).to_multiset() =~= a.to_multiset().add(b.to_multiset()));
    }
}

/// Sorting by length loses and adds no word: with a bound above every length, the sorted
/// words are a permutation of the words.
pub proof fn lemma_len_sorted_permutes(ws: Seq<String>, bound: nat)
    requires
        forall|k: int| 0 <= k < ws.len() ==> byte_len(#[trigger] ws[k]) < bound,
    ensures
        len_sorted(ws, bound).to_multiset() == ws.to_multiset(),
    decreases ws.len(),
{
    broadcast use vstd::seq_lib::group_to_multiset_ensures;

    if ws.len() == 0 {
        lemma_len_sorted_empty(ws, bound);
        assert(len_sorted(ws, bound).to_multiset() =~= ws.to_multiset());
    } else {
        let init = ws.drop_last();
        assert forall|k: int| 0 <= k < init.len() implies byte_len(#[trigger] init[k]) < bound by {
            assert(init[k] == ws[k]);
        }
        lemma_len_sorted_permutes(init, bound);
        assert(init.push(ws.last()) =~= ws);
        lemma_len_sorted_push(init, ws.last(), bound);
    }
}

proof fn lemma_len_sorted_empty(ws: Seq<String>, bound: nat)
    requires
        ws.len() == 0,
    ensures
        len_sorted(ws, bound).len() == 0,
    decreases bound,
{
    reveal_with_fuel(Seq::filter, 1);
    if bound > 0 {
        lemma_len_sorted_empty(ws, (bound - 1) as nat);
    }
}

/// The number of words of `ws` shorter than `n` bytes.
pub open spec fn count_shorter(ws: Seq<String>, n: nat) -> nat {
    ws.filter(shorter_than(n)).len()
}

/// The test that `count_shorter` applies to each word.
pub open spec fn shorter_than(n: nat) -> spec_fn(String) -> bool {
    |w: String| byte_len(w) < n
}

/// In a sequence whose first `s` words are exactly its words shorter than `n`, `s` counts
/// them.
proof fn lemma_prefix_counts_shorter(ws: Seq<String>, n: nat, s: int)
    requires
        0 <= s <= ws.len(),
        forall|k: int| 0 <= k < ws.len() ==> (k < s <==> byte_len(#[trigger] ws[k]) < n),
    ensures
        s == count_shorter(ws, n),
    decreases ws.len(),
{
    reveal_with_fuel(Seq::filter, 1);
    if ws.len() > 0 {
        let len = ws.len() as int;
        let init = ws.drop_last();
        let s2 = if s < len - 1 { s } else { len - 1 };
        assert forall|k: int| 0 <= k < init.len() implies (k < s2 <==> byte_len(#[trigger] init[k]) < n) by {
            assert(init[k] == ws[k]);
        }
        lemma_prefix_counts_shorter(init, n, s2);
    }
}

/// Adding a word to the list adds one to the count of words shorter than `n` in the sorted
/// words, when it is shorter than both `n` and the bound.
proof fn lemma_len_sorted_push_count(ws: Seq<String>, x: String, bound: nat, n: nat)
    ensures
        count_shorter(len_sorted(ws.push(x), bound), n) == count_shorter(len_sorted(ws, bound), n)
            + if byte_len(x) < bound && byte_len(x) < n {
            1nat
        } else {
            0nat
        },
    decreases bound,
{
    broadcast use Seq::filter_distributes_over_add;

    reveal_with_fuel(Seq::filter, 1);
    if bound > 0 {
        let m = (bound - 1) as nat;
        lemma_len_sorted_push_count(ws, x, m, n);
        assert(ws.push(x).drop_last() =~= ws);
        let b = of_len(ws, m);
        let b2 = of_len(ws.push(x), m);
        if byte_len(x) == m {
            assert(b2 == b.push(x));
            assert(b.push(x).drop_last() =~= b);
        } else {
            assert(b2 == b);
        }
    }
}

/// Sorting by length keeps the count of words shorter than any length.
pub proof fn lemma_len_sorted_counts(ws: Seq<String>, bound: nat, n: nat)
    requires
        forall|k: int| 0 <= k < ws.len() ==> byte_len(#[trigger] ws[k]) < bound,
    ensures
        count_shorter(len_sorted(ws, bound), n) == count_shorter(ws, n),
    decreases ws.len(),
{
    reveal_with_fuel(Seq::filter, 1);
    if ws.len() == 0 {
        lemma_len_sorted_empty(ws, bound);
        assert(len_sorted(ws, bound) =~= ws);
    } else {
        let init = ws.drop_last();
        assert forall|k: int| 0 <= k < init.len() implies byte_len(#[trigger] init[k]) < bound by {
            assert(init[k] == ws[k]);
        }
        lemma_len_sorted_counts(init, bound, n);
        assert(init.push(ws.last()) =~= ws);
        lemma_len_sorted_push_count(init, ws.last(), bound, n);
    }
}

proof fn lemma_of_len_of_len(ws: Seq<String>, m: nat, n: nat)
    ensures
        of_len(of_len(ws, m), n) == if m == n {
            of_len(ws, n)
        } else {
            Seq::<String>::empty()
        },
    decreases ws.len(),
{
    reveal_with_fuel(Seq::filter, 1);
    if ws.len() > 0 {
        lemma_of_len_of_len(ws.drop_last(), m, n);
        if byte_len(ws.last()) == m {
            assert(of_len(ws, m).drop_last() =~= of_len(ws.drop_last(), m));
        }
    } else {
        assert(of_len(ws, m) =~= ws);
    }
}

proof fn lemma_no_word_of_len(ws: Seq<String>, n: nat)
    requires
        forall|k: int| 0 <= k < ws.len() ==> byte_len(#[trigger] ws[k]) != n,
    ensures
        of_len(ws, n) == Seq::<String>::empty(),
    decreases ws.len(),
{
    reveal_with_fuel(Seq::filter, 1);
    if ws.len() > 0 {
        let init = ws.drop_last();
        assert forall|k: int| 0 <= k < init.len() implies byte_len(#[trigger] init[k]) != n by {
            assert(init[k] == ws[k]);
        }
        lemma_no_word_of_len(init, n);
        assert(byte_len(ws[ws.len() - 1]) != n);
    } else {
        assert(of_len(ws, n) =~= Seq::<String>::empty());
    }
}

/// Sorting by length keeps the words of each length in their order: taking the words of
/// one length from the sorted words gives the same words, in the same order, as taking
/// them from the unsorted ones.
pub proof fn lemma_len_sorted_stable(ws: Seq<String>, bound: nat, n: nat)
    requires
        n < bound,
    ensures
        of_len(len_sorted(ws, bound), n) == of_len(ws, n),
    decreases bound,
{
    broadcast use Seq::filter_distributes_over_add;

    let m = (bound - 1) as nat;
    lemma_of_len_of_len(ws, m, n);
    if n < m {
        lemma_len_sorted_stable(ws, m, n);
        assert(of_len(len_sorted(ws, bound), n) =~= of_len(ws, n) + Seq::<String>::empty());
    } else {
        lemma_len_sorted_short(ws, m, n);
        assert(of_len(len_sorted(ws, bound), n) =~= Seq::<String>::empty() + of_len(ws, n));
    }
}

/// The sorted words below `bound` hold no word of a length at or above it.
proof fn lemma_len_sorted_short(ws: Seq<String>, bound: nat, n: nat)
    requires
        n >= bound,
    ensures
        of_len(len_sorted(ws, bound), n) == Seq::<String>::empty(),
    decreases bound,
{
    broadcast use Seq::filter_distributes_over_add;

    reveal_with_fuel(Seq::filter, 1);
    if bound > 0 {
        let m = (bound - 1) as nat;
        lemma_len_sorted_short(ws, m, n);
        lemma_of_len_of_len(ws, m, n);
        assert(of_len(len_sorted(ws, bound), n) =~= Seq::<String>::empty() + Seq::<String>::empty());
    }
}

/// A dictionary of words, ordered by length, with the range of each length.
pub struct Dict {
    len_index: BTreeMap<usize, (usize, usize)>,
    pub inner: Vec<String>,
}

impl Dict {
    /// The words of the dictionary, in their order in `inner`.
    pub closed spec fn words(&self) -> Seq<String> {
        self.inner@
    }

    /// The words are ordered by length and the index gives, for each length up to the
    /// longest word, the range of the words of that length.
    pub closed spec fn wf(&self) -> bool {
        &&& self.inner@.len() > 0
        &&& sorted_by_len(self.inner@)
        &&& forall|n: usize| #[trigger]
            self.len_index@.contains_key(n) <==> n <= byte_len(self.inner@.last())
        &&& forall|n: usize| #[trigger]
            self.len_index@.contains_key(n) ==> is_len_range(
                self.inner@,
                n as nat,
                self.len_index@[n].0 as int,
                self.len_index@[n].1 as int,
            )
    }

    /// Builds the dictionary from its words: they are sorted by length (words of equal
    /// length keep their order) and indexed by length.
    pub fn from_words(words: Vec<String>) -> (d: Dict)
        requires
            words@.len() > 0,
        ensures
            d.wf(),
            d.words() == len_sorted(words@, max_byte_len(words@) + 1),
            d.words().to_multiset() == words@.to_multiset(),
            sorted_by_len(d.words()),
            forall|n: nat| #[trigger] of_len(d.words(), n) == of_len(words@, n),
            forall|n: nat| #[trigger]
                reaches_len(d.words(), n) <==> n <= max_byte_len(words@),
            forall|n: nat| #[trigger]
                count_shorter(d.words(), n) == count_shorter(words@, n),
    {
        let n = words.len();
        let mut max_len: usize = 0;
        for i in 0..n
            invariant
                n == words@.len(),
                max_len == max_byte_len(words@.take(i as int)),
        {
            proof {
                assert(words@.take(i + 1).drop_last() =~= words@.take(i as int));
            }
            let l = byte_length(words[i].as_str());
            if l > max_len {
                max_len = l;
            }
        }
        assert(words@.take(n as int) =~= words@);
        proof {
            lemma_max_byte_len(words@);
            lemma_len_sorted_permutes(words@, (max_len + 1) as nat);
        }
        let mut inner: Vec<String> = Vec::new();
        let mut len_index: BTreeMap<usize, (usize, usize)> = BTreeMap::new();
        let mut l: usize = 0;
        loop
            invariant_except_break
                inner@ == len_sorted(words@, l as nat),
                sorted_by_len(inner@),
                forall|k: int| 0 <= k < inner@.len() ==> byte_len(#[trigger] inner@[k]) < l,
                forall|m: usize| #[trigger] len_index@.contains_key(m) <==> m < l,
                forall|m: usize| #[trigger]
                    len_index@.contains_key(m) ==> is_len_range(
                        inner@,
                        m as nat,
                        len_index@[m].0 as int,
                        len_index@[m].1 as int,
                    ),
            invariant
                n == words@.len(),
                max_len == max_byte_len(words@),
                l <= max_len,
                forall|k: int| 0 <= k < words@.len() ==> byte_len(#[trigger] words@[k]) <= max_len,
                reaches_len(words@, max_len as nat),
            ensures
                inner@ == len_sorted(words@, (max_len + 1) as nat),
                sorted_by_len(inner@),
                inner@.len() > 0,
                byte_len(inner@.last()) == max_len,
                forall|m: usize| #[trigger] len_index@.contains_key(m) <==> m <= max_len,
                forall|m: usize| #[trigger]
                    len_index@.contains_key(m) ==> is_len_range(
                        inner@,
                        m as nat,
                        len_index@[m].0 as int,
                        len_index@[m].1 as int,
                    ),
            decreases max_len - l,
        {
            let start = inner.len();
            let ghost before = inner@;
            for i in 0..n
                invariant
                    n == words@.len(),
                    inner@ == before + of_len(words@.take(i as int), l as nat),
                    start == before.len(),
            {
                proof {
                    reveal_with_fuel(Seq::filter, 1);
                    assert(words@.take(i + 1).drop_last() =~= words@.take(i as int));
                }
                if byte_length(words[i].as_str()) == l {
                    inner.push(words[i].clone());
                }
            }
            assert(words@.take(n as int) =~= words@);
            let end = inner.len();
            let ghost added = of_len(words@, l as nat);
            proof {
                assert forall|k: int| 0 <= k < added.len() implies byte_len(#[trigger] added[k])
                    == l by {
                    words@.lemma_filter_pred(has_len(l as nat), k);
                }
                assert forall|k: int| 0 <= k < inner@.len() implies byte_len(#[trigger] inner@[k])
                    <= l by {
                    if k >= before.len() {
                        assert(inner@[k] == added[k - before.len()]);
                    }
                }
                assert forall|i: int, j: int| 0 <= i <= j < inner@.len() implies byte_len(
                    inner@[i],
                ) <= byte_len(inner@[j]) by {
                    if j >= before.len() {
                        assert(inner@[j] == added[j - before.len()]);
                    }
                    if i >= before.len() {
                        assert(inner@[i] == added[i - before.len()]);
                    }
                }
                assert forall|k: int| 0 <= k < inner@.len() implies (k < start <==> byte_len(
                    #[trigger] inner@[k],
                ) < l) && (k < end <==> byte_len(inner@[k]) <= l) by {
                    if k >= before.len() {
                        assert(inner@[k] == added[k - before.len()]);
                    } else {
                        assert(inner@[k] == before[k]);
                    }
                }
                assert forall|m: usize| #[trigger]
                    len_index@.contains_key(m) implies is_len_range(
                    inner@,
                    m as nat,
                    len_index@[m].0 as int,
                    len_index@[m].1 as int,
                ) by {
                    let s = len_index@[m].0 as int;
                    let e = len_index@[m].1 as int;
                    assert(is_len_range(before, m as nat, s, e));
                    assert forall|k: int| 0 <= k < inner@.len() implies (k < s <==> byte_len(
                        #[trigger] inner@[k],
                    ) < m) && (k < e <==> byte_len(inner@[k]) <= m) by {
                        if k >= before.len() {
                            assert(inner@[k] == added[k - before.len()]);
                        } else {
                            assert(inner@[k] == before[k]);
                        }
                    }
                }
                assert(inner@ == len_sorted(words@, (l + 1) as nat));
            }
            len_index.insert(l, (start, end));
            if l == max_len {
                proof {
                    let k = choose|k: int|
                        0 <= k < words@.len() && byte_len(#[trigger] words@[k]) >= max_len;
                    words@.lemma_filter_contains(has_len(max_len as nat), k);
                    let j = choose|j: int| 0 <= j < added.len() && added[j] == words@[k];
                    assert(inner@[before.len() + j] == words@[k]);
                    assert(byte_len(inner@.last()) == max_len);
                }
                break;
            }
            l = l + 1;
        }
        proof {
            assert forall|n: nat| #[trigger] of_len(inner@, n) == of_len(words@, n) by {
                if n <= max_len {
                    lemma_len_sorted_stable(words@, (max_len + 1) as nat, n);
                } else {
                    lemma_len_sorted_short(words@, (max_len + 1) as nat, n);
                    assert forall|k: int| 0 <= k < words@.len() implies !has_len(n)(#[trigger] words@[k]) by {}
                    lemma_no_word_of_len(words@, n);
                }
            }
            assert forall|n: nat| #[trigger] count_shorter(inner@, n) == count_shorter(words@, n) by {
                lemma_len_sorted_counts(words@, (max_len + 1) as nat, n);
            }
            assert forall|n: nat| #[trigger] reaches_len(inner@, n) <==> n <= max_byte_len(words@) by {
                if reaches_len(inner@, n) {
                    let k = choose|k: int| 0 <= k < inner@.len() && byte_len(#[trigger] inner@[k]) >= n;
                    assert(byte_len(inner@[k]) <= byte_len(inner@[inner@.len() - 1]));
                }
                if n <= max_byte_len(words@) {
                    assert(byte_len(inner@[inner@.len() - 1]) >= n);
                }
            }
        }
        Dict { len_index, inner }
    }

    /// A guesser that works on this dictionary, with no history.
    pub fn guess(&self) -> (g: Guesser<'_>)
        ensures
            g.dict() == *self,
            g.history() == Seq::<char>::empty(),
            g.last_input() == Option::<Seq<char>>::None,
            g.candidates() == Option::<Seq<String>>::None,
    {
        Guesser::new(self)
    }

    /// Whether some word is at least `len` bytes long.
    pub fn reaches(&self, len: usize) -> (b: bool)
        ensures
            b == reaches_len(self.words(), len as nat),
    {
        for k in 0..self.inner.len()
            invariant
                forall|j: int| 0 <= j < k ==> byte_len(#[trigger] self.inner@[j]) < len,
        {
            if byte_length(self.inner[k].as_str()) >= len {
                return true;
            }
        }
        false
    }

    /// A copy of the words of byte length `len`, in dictionary order.
    pub fn words_of_len(&self, len: usize) -> (v: Vec<String>)
        requires
            self.wf(),
            reaches_len(self.words(), len as nat),
        ensures
            v@ == of_len(self.words(), len as nat),
    {
        let (start, end) = self.get_len_index(len);
        let mut v: Vec<String> = Vec::new();
        for k in start..end
            invariant
                is_len_range(self.inner@, len as nat, start as int, end as int),
                v@ == self.inner@.subrange(start as int, k as int),
        {
            v.push(self.inner[k].clone());
            proof {
                assert(v@ =~= self.inner@.subrange(start as int, k + 1));
            }
        }
        v
    }

    /// The range, in `inner`, of the words of byte length `len`.
    pub fn get_len_index(&self, len: usize) -> (r: (usize, usize))
        requires
            self.wf(),
            reaches_len(self.words(), len as nat),
        ensures
            is_len_range(self.words(), len as nat, r.0 as int, r.1 as int),
            r.0 == count_shorter(self.words(), len as nat),
            r.1 == count_shorter(self.words(), (len + 1) as nat),
            self.words().subrange(r.0 as int, r.1 as int) == of_len(self.words(), len as nat),
    {
        proof {
            let k = choose|k: int| 0 <= k < self.inner@.len() && byte_len(#[trigger] self.inner@[k]) >= len;
            assert(byte_len(self.inner@[k]) <= byte_len(self.inner@[self.inner@.len() - 1]));
            assert(self.len_index@.contains_key(len));
        }
        match self.len_index.get(&len) {
            Some(r) => {
                proof {
                    lemma_len_range_is_of_len(self.inner@, len as nat, r.0 as int, r.1 as int);
                    lemma_prefix_counts_shorter(self.inner@, len as nat, r.0 as int);
                    assert forall|k: int| 0 <= k < self.inner@.len() implies (k < r.1 <==> byte_len(
                        #[trigger] self.inner@[k],
                    ) < len + 1) by {}
                    lemma_prefix_counts_shorter(self.inner@, (len + 1) as nat, r.1 as int);
                }
                *r
            },
            None => {
                proof {
                    assert(false);
                }
                (0, 0)
            },
        }
    }
}

} // verus!
