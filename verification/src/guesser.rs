use vstd::prelude::*;

use std::collections::BTreeMap;

use crate::dict::{byte_len, has_len, of_len, reaches_len, Dict};
use crate::text::{
    byte_length, char_code, chars_of, contains_char, lemma_char_code_injective, occurrences,
    utf8_len,
};

verus! {

broadcast use vstd::std_specs::btree::group_btree_axioms, vstd::laws_cmp::group_laws_cmp,
    vstd::utf8::char_u32_cast;

/// The byte that marks a hidden letter in a pattern.
pub const HIDDEN_BYTE: u8 = 42;

/// The char that marks a hidden letter in a pattern.
pub const HIDDEN: char = '*';

/// The stand-in for "no wrong letter to rule out".
pub const NO_LETTER: char = '0';

/// Each char of `s` with its position.
pub open spec fn positions(s: Seq<char>) -> Seq<(usize, char)> {
    Seq::new(s.len(), |i: int| (i as usize, s[i]))
}

/// The letter at byte `i` of the previous pattern was hidden (always so with no previous
/// pattern).
pub open spec fn hidden_before(last: Option<Seq<char>>, i: usize) -> bool {
    match last {
        Some(l) => vstd::utf8::encode_utf8(l)[i as int] == HIDDEN_BYTE,
        None => true,
    }
}

/// The letters that `input` shows and the previous pattern hid, with their positions.
pub open spec fn new_letters(input: Seq<char>, last: Option<Seq<char>>) -> Seq<(usize, char)> {
    positions(input).filter(is_new_letter(last))
}

/// A position whose letter is shown now and was hidden before.
pub open spec fn is_new_letter(last: Option<Seq<char>>) -> spec_fn((usize, char)) -> bool {
    |p: (usize, char)| p.1 != HIDDEN && hidden_before(last, p.0)
}

/// Looking a shown letter up in the previous pattern stays within it and on char
/// boundaries: the one-byte piece of the previous pattern at that position is a string
/// slice, and slicing elsewhere panics.
pub open spec fn lookups_ok(input: Seq<char>, last: Option<Seq<char>>) -> bool {
    match last {
        Some(l) => forall|i: int|
            0 <= i < input.len() && #[trigger] input[i] != HIDDEN ==> {
                let b = vstd::utf8::encode_utf8(l);
                &&& i + 1 <= b.len()
                &&& vstd::utf8::is_char_boundary(b, i)
                &&& vstd::utf8::is_char_boundary(b, i + 1)
            },
        None => true,
    }
}

/// The letter to rule out when the last guess revealed nothing: the last guess, if there
/// was one and `shown` is empty.
pub open spec fn wrong_letter(history: Seq<char>, shown: Seq<(usize, char)>) -> char {
    if history.len() > 0 && shown.len() == 0 {
        history.last()
    } else {
        NO_LETTER
    }
}

/// The byte at position `p.0` of `w` is the char `p.1` cut to a byte.
pub open spec fn shows(w: Seq<char>, p: (usize, char)) -> bool {
    vstd::utf8::encode_utf8(w)[p.0 as int] == (p.1 as u8)
}

/// `w` fits the pattern: it has every shown letter, or, where nothing new is shown, it
/// lacks the wrong letter.
pub open spec fn fits(w: Seq<char>, shown: Seq<(usize, char)>, wrong: char) -> bool {
    if shown.len() == 0 {
        !w.contains(wrong)
    } else {
        forall|j: int| 0 <= j < shown.len() ==> shows(w, #[trigger] shown[j])
    }
}

/// Checking the shown letters against `w` in order, up to the first mismatch, stays within
/// `w`.
pub open spec fn scan_ok(w: Seq<char>, shown: Seq<(usize, char)>) -> bool {
    forall|j: int|
        0 <= j < shown.len() && (forall|k: int| 0 <= k < j ==> shows(w, #[trigger] shown[k]))
            ==> (#[trigger] shown[j]).0 < utf8_len(w)
}

/// The words of `ws` that fit the pattern.
pub open spec fn fitting(ws: Seq<String>, shown: Seq<(usize, char)>, wrong: char) -> Seq<String> {
    ws.filter(fits_pattern(shown, wrong))
}

/// The test that `fitting` applies to each word.
pub open spec fn fits_pattern(shown: Seq<(usize, char)>, wrong: char) -> spec_fn(String) -> bool {
    |w: String| fits(w@, shown, wrong)
}

/// The number of times that `c` occurs in the words of `ws`.
pub open spec fn tally(ws: Seq<String>, c: char) -> nat
    decreases ws.len(),
{
    if ws.len() == 0 {
        0
    } else {
        tally(ws.drop_last(), c) + occurrences(ws.last()@, c)
    }
}

/// `c` is the best next guess among `ws`: not guessed yet, occurring, and no letter not
/// guessed yet occurs more often, nor as often while coming before `c`.
pub open spec fn is_best_letter(ws: Seq<String>, history: Seq<char>, c: char) -> bool {
    &&& !history.contains(c)
    &&& tally(ws, c) > 0
    &&& forall|d: char|
        !history.contains(d) ==> tally(ws, d) < tally(ws, c) || (tally(ws, d) == tally(ws, c)
            && char_code(c) <= char_code(d))
}

/// No letter that has not been guessed occurs in `ws`.
pub open spec fn exhausted(ws: Seq<String>, history: Seq<char>) -> bool {
    forall|d: char| !history.contains(d) ==> tally(ws, d) == 0
}

pub proof fn lemma_occurrences_prefix(s: Seq<char>, c: char, j: int)
    requires
        0 <= j <= s.len(),
    ensures
        occurrences(s.take(j), c) <= occurrences(s, c),
    decreases s.len(),
{
    if j < s.len() {
        assert(s.take(j) =~= s.drop_last().take(j));
        lemma_occurrences_prefix(s.drop_last(), c, j);
    } else {
        assert(s.take(j) =~= s);
    }
}

pub proof fn lemma_tally_prefix(ws: Seq<String>, c: char, i: int)
    requires
        0 <= i <= ws.len(),
    ensures
        tally(ws.take(i), c) <= tally(ws, c),
    decreases ws.len(),
{
    if i < ws.len() {
        assert(ws.take(i) =~= ws.drop_last().take(i));
        lemma_tally_prefix(ws.drop_last(), c, i);
    } else {
        assert(ws.take(i) =~= ws);
    }
}

pub proof fn lemma_occurrences_positive(s: Seq<char>, l: int)
    requires
        0 <= l < s.len(),
    ensures
        occurrences(s, s[l]) > 0,
    decreases s.len(),
{
    if l < s.len() - 1 {
        lemma_occurrences_positive(s.drop_last(), l);
    }
}

pub proof fn lemma_occurrences_witness(s: Seq<char>, c: char)
    requires
        occurrences(s, c) > 0,
    ensures
        exists|l: int| 0 <= l < s.len() && s[l] == c,
    decreases s.len(),
{
    if s.last() != c {
        lemma_occurrences_witness(s.drop_last(), c);
        let l = choose|l: int| 0 <= l < s.drop_last().len() && s.drop_last()[l] == c;
        assert(s[l] == c);
    } else {
        assert(s[s.len() - 1] == c);
    }
}

/// A letter at some position of some word has a positive tally.
pub proof fn lemma_tally_positive(ws: Seq<String>, k: int, l: int)
    requires
        0 <= k < ws.len(),
        0 <= l < ws[k]@.len(),
    ensures
        tally(ws, ws[k]@[l]) > 0,
    decreases ws.len(),
{
    if k < ws.len() - 1 {
        lemma_tally_positive(ws.drop_last(), k, l);
    } else {
        lemma_occurrences_positive(ws[k]@, l);
    }
}

/// A letter with a positive tally stands at some position of some word.
pub proof fn lemma_tally_witness(ws: Seq<String>, c: char)
    requires
        tally(ws, c) > 0,
    ensures
        exists|k: int, l: int| 0 <= k < ws.len() && 0 <= l < ws[k]@.len() && ws[k]@[l] == c,
    decreases ws.len(),
{
    if occurrences(ws.last()@, c) > 0 {
        lemma_occurrences_witness(ws.last()@, c);
        let l = choose|l: int| 0 <= l < ws.last()@.len() && ws.last()@[l] == c;
        assert(ws[ws.len() - 1]@[l] == c);
    } else {
        lemma_tally_witness(ws.drop_last(), c);
        let (k, l) = choose|k: int, l: int|
            0 <= k < ws.drop_last().len() && 0 <= l < ws.drop_last()[k]@.len()
                && ws.drop_last()[k]@[l] == c;
        assert(ws[k] == ws.drop_last()[k]);
    }
}

/// The best letter is unique: the count, then the char order, decide between letters.
pub proof fn lemma_best_letter_unique(ws: Seq<String>, history: Seq<char>, c: char, d: char)
    requires
        is_best_letter(ws, history, c),
        is_best_letter(ws, history, d),
    ensures
        c == d,
{
    if c != d {
        lemma_char_code_injective(c, d);
    }
}

/// The letter guessed has not been guessed before and stands in one of the candidates.
pub proof fn lemma_best_letter_in_candidate(ws: Seq<String>, history: Seq<char>, c: char)
    requires
        is_best_letter(ws, history, c),
    ensures
        !history.contains(c),
        exists|k: int| 0 <= k < ws.len() && (#[trigger] ws[k])@.contains(c),
{
    lemma_tally_witness(ws, c);
    let (k, l) = choose|k: int, l: int| 0 <= k < ws.len() && 0 <= l < ws[k]@.len() && ws[k]@[l] == c;
    assert(ws[k]@.contains(c));
}

/// Narrowing keeps only candidates, each fitting the pattern, and every candidate that
/// fits.
pub proof fn lemma_fitting_is_exact(ws: Seq<String>, shown: Seq<(usize, char)>, wrong: char)
    ensures
        forall|k: int|
            0 <= k < fitting(ws, shown, wrong).len() ==> ws.contains(
                #[trigger] fitting(ws, shown, wrong)[k],
            ) && fits(fitting(ws, shown, wrong)[k]@, shown, wrong),
        forall|k: int|
            0 <= k < ws.len() && fits((#[trigger] ws[k])@, shown, wrong) ==> fitting(
                ws,
                shown,
                wrong,
            ).contains(ws[k]),
        fitting(ws, shown, wrong).len() <= ws.len(),
    decreases ws.len(),
{
    reveal_with_fuel(Seq::filter, 1);
    if ws.len() > 0 {
        let init = ws.drop_last();
        lemma_fitting_is_exact(init, shown, wrong);
        let f = fitting(ws, shown, wrong);
        let fi = fitting(init, shown, wrong);
        assert forall|k: int| 0 <= k < f.len() implies ws.contains(#[trigger] f[k]) && fits(
            f[k]@,
            shown,
            wrong,
        ) by {
            if k < fi.len() {
                assert(f[k] == fi[k]);
                let j = choose|j: int| 0 <= j < init.len() && init[j] == fi[k];
                assert(ws[j] == init[j]);
            } else {
                assert(f[k] == ws[ws.len() - 1]);
            }
        }
        assert forall|k: int| 0 <= k < ws.len() && fits((#[trigger] ws[k])@, shown, wrong) implies f.contains(
            ws[k],
        ) by {
            if k < ws.len() - 1 {
                assert(init[k] == ws[k]);
                let j = choose|j: int| 0 <= j < fi.len() && fi[j] == init[k];
                assert(f[j] == fi[j]);
            } else {
                assert(f[f.len() - 1] == ws[k]);
            }
        }
    }
}

/// All the chars of the words of `ws`, word after word.
pub open spec fn all_chars(ws: Seq<String>) -> Seq<char> {
    ws.map_values(|w: String| w@).flatten()
}

/// The test for the char `c`.
pub open spec fn is_char(c: char) -> spec_fn(char) -> bool {
    |x: char| x == c
}

/// How many of the chars of the words of `ws` are `c`.
pub open spec fn char_count(ws: Seq<String>, c: char) -> nat {
    all_chars(ws).filter(is_char(c)).len()
}

proof fn lemma_occurrences_count(s: Seq<char>, c: char)
    ensures
        occurrences(s, c) == s.filter(is_char(c)).len(),
    decreases s.len(),
{
    reveal_with_fuel(Seq::filter, 1);
    if s.len() > 0 {
        lemma_occurrences_count(s.drop_last(), c);
    }
}

proof fn lemma_tally_counts(ws: Seq<String>, c: char)
    ensures
        tally(ws, c) == char_count(ws, c),
    decreases ws.len(),
{
    broadcast use Seq::filter_distributes_over_add;

    if ws.len() == 0 {
        assert(ws.map_values(|w: String| w@) =~= Seq::<Seq<char>>::empty());
        reveal_with_fuel(Seq::filter, 1);
    } else {
        let init = ws.drop_last();
        lemma_tally_counts(init, c);
        lemma_occurrences_count(ws.last()@, c);
        assert(ws.map_values(|w: String| w@) =~= init.map_values(|w: String| w@).push(ws.last()@));
        init.map_values(|w: String| w@).lemma_flatten_push(ws.last()@);
        assert(all_chars(ws) =~= all_chars(init) + ws.last()@);
    }
}

/// The letter guessed is not in the history, occurs among the candidates' chars, and no
/// letter outside the history occurs there more often, nor as often with a smaller code.
pub proof fn lemma_best_letter_by_count(ws: Seq<String>, history: Seq<char>, c: char)
    requires
        is_best_letter(ws, history, c),
    ensures
        !history.contains(c),
        char_count(ws, c) > 0,
        forall|d: char|
            !history.contains(d) ==> #[trigger] char_count(ws, d) < char_count(ws, c) || (char_count(
                ws,
                d,
            ) == char_count(ws, c) && (c as u32) <= (d as u32)),
{
    lemma_tally_counts(ws, c);
    assert forall|d: char| !history.contains(d) implies #[trigger] char_count(ws, d) < char_count(
        ws,
        c,
    ) || (char_count(ws, d) == char_count(ws, c) && (c as u32) <= (d as u32)) by {
        lemma_tally_counts(ws, d);
    }
}

/// When no letter is guessed, every char of the candidates is in the history.
pub proof fn lemma_exhausted_by_count(ws: Seq<String>, history: Seq<char>)
    requires
        exhausted(ws, history),
    ensures
        forall|d: char| !history.contains(d) ==> #[trigger] char_count(ws, d) == 0,
{
    assert forall|d: char| !history.contains(d) implies #[trigger] char_count(ws, d) == 0 by {
        lemma_tally_counts(ws, d);
    }
}

/// The pattern `input` shows a letter at position `i` that the previous pattern `last` hid:
/// a char other than `*`, where `last` (if there is one) has the byte of `*`.
pub open spec fn newly_shown(input: Seq<char>, last: Option<Seq<char>>, i: int) -> bool {
    &&& 0 <= i < input.len()
    &&& input[i] != '*'
    &&& match last {
        Some(l) => vstd::utf8::encode_utf8(l)[i] == 42u8,
        None => true,
    }
}

/// The new letters are exactly the positions that `input` newly shows, each with its char.
proof fn lemma_new_letters_exact(input: Seq<char>, last: Option<Seq<char>>)
    requires
        input.len() <= usize::MAX,
    ensures
        forall|j: int|
            0 <= j < new_letters(input, last).len() ==> newly_shown(
                input,
                last,
                (#[trigger] new_letters(input, last)[j]).0 as int,
            ) && new_letters(input, last)[j].1 == input[new_letters(input, last)[j].0 as int],
        forall|i: int|
            #![trigger input[i]]
            newly_shown(input, last, i) ==> new_letters(input, last).contains((i as usize, input[i])),
{
    let ps = positions(input);
    let p = is_new_letter(last);
    let nl = new_letters(input, last);
    assert forall|j: int| 0 <= j < nl.len() implies newly_shown(input, last, (#[trigger] nl[j]).0 as int)
        && nl[j].1 == input[nl[j].0 as int] by {
        ps.lemma_filter_pred(p, j);
        assert(nl.contains(nl[j]));
        ps.lemma_filter_contains_rev(p, nl[j]);
        let k = choose|k: int| 0 <= k < ps.len() && ps[k] == nl[j];
        assert(ps[k] == (k as usize, input[k]));
    }
    assert forall|i: int| #![trigger input[i]] newly_shown(input, last, i) implies nl.contains(
        (i as usize, input[i]),
    ) by {
        assert(ps[i] == (i as usize, input[i]));
        ps.lemma_filter_contains(p, i);
    }
}

/// The letters that the pattern `chars` shows and `last` hid, with their positions.
fn shown_letters(chars: &Vec<char>, last: &Option<String>) -> (shown: Vec<(usize, char)>)
    requires
        lookups_ok(chars@, opt_view(*last)),
    ensures
        shown@ == new_letters(chars@, opt_view(*last)),
{
    let ghost pred = is_new_letter(opt_view(*last));
    let mut shown: Vec<(usize, char)> = Vec::new();
    let n = chars.len();
    for i in 0..n
        invariant
            n == chars@.len(),
            lookups_ok(chars@, opt_view(*last)),
            pred == is_new_letter(opt_view(*last)),
            shown@ == positions(chars@).take(i as int).filter(pred),
    {
        let ghost pre = positions(chars@).take(i as int);
        let ghost next = positions(chars@).take(i + 1);
        proof {
            reveal_with_fuel(Seq::filter, 1);
            assert(next.drop_last() =~= pre);
            assert(next.last() == positions(chars@)[i as int]);
        }
        let c = chars[i];
        assert(positions(chars@)[i as int] == (i, c));
        if c != HIDDEN {
            let hidden = match last {
                Some(l) => {
                    let b = l.as_str().as_bytes();
                    proof {
                        assert(chars@[i as int] != HIDDEN);
                        assert(b@ == vstd::utf8::encode_utf8(l@));
                    }
                    b[i] == HIDDEN_BYTE
                },
                None => true,
            };
            assert(hidden == hidden_before(opt_view(*last), i));
            if hidden {
                shown.push((i, c));
                assert(pred(next.last()));
                assert(next.filter(pred) == pre.filter(pred).push(next.last()));
            } else {
                assert(!pred(next.last()));
                assert(next.filter(pred) == pre.filter(pred));
            }
        } else {
            assert(!pred(next.last()));
            assert(next.filter(pred) == pre.filter(pred));
        }
    }
    proof {
        assert(positions(chars@).take(n as int) =~= positions(chars@));
    }
    shown
}

/// The view of an optional string.
pub open spec fn opt_view(s: Option<String>) -> Option<Seq<char>> {
    match s {
        Some(s) => Some(s@),
        None => None,
    }
}

/// Whether the byte at `i` of `b` starts a char (or `i` is the end), for the UTF-8 encoding
/// `b` of some chars.
fn on_boundary(b: &[u8], i: usize, Ghost(cs): Ghost<Seq<char>>) -> (r: bool)
    requires
        b@ == vstd::utf8::encode_utf8(cs),
        i <= b@.len(),
    ensures
        r == vstd::utf8::is_char_boundary(b@, i as int),
{
    broadcast use vstd::utf8::encode_utf8_valid_utf8, vstd::utf8::is_char_boundary_start_end_of_seq,
        vstd::utf8::is_char_boundary_iff_not_is_continuation_byte;

    proof {
        vstd::utf8::encode_utf8_valid_utf8(cs);
        vstd::utf8::is_char_boundary_start_end_of_seq(b@);
    }
    if i == b.len() {
        true
    } else {
        proof {
            vstd::utf8::is_char_boundary_iff_not_is_continuation_byte(b@, i as int);
        }
        !(0x80 <= b[i] && b[i] <= 0xbf)
    }
}

/// Whether the previous pattern can be looked up at each letter that the pattern `chars`
/// shows (see `lookups_ok`).
fn lookups_fit(chars: &Vec<char>, last: &Option<String>) -> (r: bool)
    ensures
        r == lookups_ok(chars@, opt_view(*last)),
{
    match last {
        None => true,
        Some(l) => {
            let b = l.as_str().as_bytes();
            assert(b@ == vstd::utf8::encode_utf8(l@));
            assert(opt_view(*last) == Some(l@));
            for i in 0..chars.len()
                invariant
                    opt_view(*last) == Some(l@),
                    b@ == vstd::utf8::encode_utf8(l@),
                    forall|j: int|
                        0 <= j < i && #[trigger] chars@[j] != HIDDEN ==> {
                            &&& j + 1 <= b@.len()
                            &&& vstd::utf8::is_char_boundary(b@, j)
                            &&& vstd::utf8::is_char_boundary(b@, j + 1)
                        },
            {
                if chars[i] != HIDDEN {
                    assert(chars@[i as int] != HIDDEN);
                    if i >= b.len() {
                        assert(!(i + 1 <= vstd::utf8::encode_utf8(l@).len()));
                        return false;
                    }
                    if !on_boundary(b, i, Ghost(l@)) || !on_boundary(b, i + 1, Ghost(l@)) {
                        assert(!(vstd::utf8::is_char_boundary(vstd::utf8::encode_utf8(l@), i as int)
                            && vstd::utf8::is_char_boundary(vstd::utf8::encode_utf8(l@), i + 1)));
                        return false;
                    }
                }
            }
            true
        },
    }
}

/// Whether checking the shown letters against `w` in order, up to the first mismatch,
/// stays within `w` (see `scan_ok`).
fn scan_fits(w: &String, shown: &Vec<(usize, char)>) -> (r: bool)
    ensures
        r == scan_ok(w@, shown@),
{
    let bytes = w.as_str().as_bytes();
    for j in 0..shown.len()
        invariant
            bytes@ == vstd::utf8::encode_utf8(w@),
            forall|k: int| 0 <= k < j ==> shows(w@, #[trigger] shown@[k]),
            forall|k: int|
                0 <= k < j && (forall|m: int| 0 <= m < k ==> shows(w@, #[trigger] shown@[m]))
                    ==> (#[trigger] shown@[k]).0 < utf8_len(w@),
    {
        let (idx, c) = shown[j];
        if idx >= bytes.len() {
            return false;
        }
        if bytes[idx] != c as u8 {
            proof {
                assert forall|k: int|
                    0 <= k < shown@.len() && (forall|m: int| 0 <= m < k ==> shows(w@, #[trigger] shown@[m]))
                        implies (#[trigger] shown@[k]).0 < utf8_len(w@) by {
                    if k > j {
                        assert(!shows(w@, shown@[j as int]));
                    }
                }
            }
            return true;
        }
    }
    true
}

/// Whether `w` fits the pattern; the shown letters are checked in order up to the first
/// mismatch.
fn word_fits(w: &String, shown: &Vec<(usize, char)>, wrong: char) -> (b: bool)
    requires
        scan_ok(w@, shown@),
    ensures
        b == fits(w@, shown@, wrong),
{
    if shown.len() == 0 {
        let cs = chars_of(w.as_str());
        !contains_char(&cs, wrong)
    } else {
        let bytes = w.as_str().as_bytes();
        for j in 0..shown.len()
            invariant
                scan_ok(w@, shown@),
                bytes@ == vstd::utf8::encode_utf8(w@),
                forall|k: int| 0 <= k < j ==> shows(w@, #[trigger] shown@[k]),
        {
            let (idx, c) = shown[j];
            proof {
                assert(shown@[j as int].0 < utf8_len(w@));
            }
            if bytes[idx] != c as u8 {
                return false;
            }
        }
        true
    }
}

/// `counts` holds, under the code of each letter not in `history`, the number of times it
/// occurs in `ws`, when that is not zero.
pub open spec fn counts_letters(
    counts: Map<u32, usize>,
    ws: Seq<String>,
    history: Seq<char>,
) -> bool {
    forall|c: char|
        !history.contains(c) ==> (#[trigger] counts.contains_key(char_code(c)) <==> tally(ws, c) > 0)
            && (counts.contains_key(char_code(c)) ==> counts[char_code(c)] == tally(ws, c))
}

/// Counts how often each letter that is not in `history` occurs in the words of `ws`.
fn count_letters(ws: &Vec<String>, history: &Vec<char>) -> (counts: BTreeMap<u32, usize>)
    requires
        forall|c: char| !history@.contains(c) ==> #[trigger] tally(ws@, c) <= usize::MAX,
    ensures
        counts_letters(counts@, ws@, history@),
{
    let mut counts: BTreeMap<u32, usize> = BTreeMap::new();
    let n = ws.len();
    for i in 0..n
        invariant
            n == ws@.len(),
            forall|c: char| !history@.contains(c) ==> #[trigger] tally(ws@, c) <= usize::MAX,
            counts_letters(counts@, ws@.take(i as int), history@),
    {
        let cs = chars_of(ws[i].as_str());
        let ghost done = ws@.take(i as int);
        for j in 0..cs.len()
            invariant
                n == ws@.len(),
                i < n,
                done == ws@.take(i as int),
                cs@ == ws@[i as int]@,
                forall|c: char| !history@.contains(c) ==> #[trigger] tally(ws@, c) <= usize::MAX,
                forall|c: char|
                    !history@.contains(c) ==> (#[trigger] counts@.contains_key(char_code(c)) <==> tally(
                        done,
                        c,
                    ) + occurrences(cs@.take(j as int), c) > 0) && (counts@.contains_key(char_code(c))
                        ==> counts@[char_code(c)] == tally(done, c) + occurrences(
                        cs@.take(j as int),
                        c,
                    )),
        {
            let c = cs[j];
            proof {
                assert(cs@.take(j + 1).drop_last() =~= cs@.take(j as int));
            }
            if !contains_char(history, c) {
                let key = c as u32;
                let ghost before = counts@;
                let ghost t = tally(done, c) + occurrences(cs@.take(j as int), c);
                assert(!history@.contains(c));
                assert(counts@.contains_key(char_code(c)) <==> t > 0);
                assert(before.contains_key(char_code(c)) <==> t > 0);
                assert(before.contains_key(char_code(c)) ==> before[char_code(c)] == t);
                let cur: usize = match counts.get(&key) {
                    Some(v) => *v,
                    None => 0,
                };
                assert(cur == t);
                proof {
                    lemma_occurrences_prefix(cs@, c, j + 1);
                    lemma_tally_prefix(ws@, c, i + 1);
                    assert(ws@.take(i + 1).drop_last() =~= done);
                    assert(tally(ws@.take(i + 1), c) == tally(done, c) + occurrences(cs@, c));
                }
                counts.insert(key, cur + 1);
                proof {
                    assert forall|d: char| !history@.contains(d) implies (#[trigger] counts@.contains_key(char_code(d)) <==> tally(
                        done, d) + occurrences(cs@.take(j + 1), d) > 0) && (counts@.contains_key(char_code(d))
                        ==> counts@[char_code(d)] == tally(done, d) + occurrences(cs@.take(j + 1), d)) by {
                        assert(before.contains_key(char_code(d)) <==> tally(done, d) + occurrences(cs@.take(j as int), d) > 0);
                        if d != c {
                            lemma_char_code_injective(c, d);
                        }
                    }
                }
            } else {
                proof {
                    assert forall|d: char| !history@.contains(d) implies (#[trigger] counts@.contains_key(char_code(d)) <==> tally(
                        done, d) + occurrences(cs@.take(j + 1), d) > 0) && (counts@.contains_key(char_code(d))
                        ==> counts@[char_code(d)] == tally(done, d) + occurrences(cs@.take(j + 1), d)) by {
                        assert(d != c);
                    }
                }
            }
        }
        proof {
            assert(cs@.take(cs@.len() as int) =~= cs@);
            assert(ws@.take(i + 1).drop_last() =~= done);
        }
    }
    proof {
        assert(ws@.take(n as int) =~= ws@);
    }
    counts
}

/// A letter of `ws` that is not in `history` is "dominated" by the best letter so far.
pub open spec fn dominated(ws: Seq<String>, history: Seq<char>, best: Option<(char, usize)>, d: char) -> bool {
    history.contains(d) || match best {
        Some((b, bc)) => tally(ws, d) < bc || (tally(ws, d) == bc && char_code(b) <= char_code(d)),
        None => false,
    }
}

/// Picks the letter not in `history` that occurs most often in `ws`, the first in char
/// order among equals.
fn pick_letter(ws: &Vec<String>, history: &Vec<char>, counts: &BTreeMap<u32, usize>) -> (r:
    Option<char>)
    requires
        counts_letters(counts@, ws@, history@),
    ensures
        match r {
            Some(c) => is_best_letter(ws@, history@, c),
            None => exhausted(ws@, history@),
        },
{
    let mut best: Option<(char, usize)> = None;
    let n = ws.len();
    for i in 0..n
        invariant
            n == ws@.len(),
            counts_letters(counts@, ws@, history@),
            best matches Some((b, bc)) ==> !history@.contains(b) && bc == tally(ws@, b) && bc > 0,
            forall|k: int, l: int|
                0 <= k < i && 0 <= l < ws@[k]@.len() ==> dominated(ws@, history@, best, #[trigger] ws@[k]@[l]),
    {
        let cs = chars_of(ws[i].as_str());
        for j in 0..cs.len()
            invariant
                n == ws@.len(),
                i < n,
                cs@ == ws@[i as int]@,
                counts_letters(counts@, ws@, history@),
                best matches Some((b, bc)) ==> !history@.contains(b) && bc == tally(ws@, b) && bc > 0,
                forall|k: int, l: int|
                    0 <= k < i && 0 <= l < ws@[k]@.len() ==> dominated(ws@, history@, best, #[trigger] ws@[k]@[l]),
                forall|l: int| 0 <= l < j ==> dominated(ws@, history@, best, #[trigger] cs@[l]),
        {
            let c = cs[j];
            if !contains_char(history, c) {
                proof {
                    lemma_tally_positive(ws@, i as int, j as int);
                }
                let key = c as u32;
                assert(key == char_code(c));
                assert(counts@.contains_key(char_code(c)));
                let cnt: usize = match counts.get(&key) {
                    Some(v) => *v,
                    None => 0,
                };
                assert(cnt == tally(ws@, c));
                let replace = match best {
                    None => true,
                    Some((b, bc)) => {
                        let bkey = b as u32;
                        assert(bkey == char_code(b));
                        cnt > bc || (cnt == bc && key < bkey)
                    },
                };
                if replace {
                    best = Some((c, cnt));
                }
            }
        }
        proof {
            assert forall|k: int, l: int|
                0 <= k < i + 1 && 0 <= l < ws@[k]@.len() implies dominated(ws@, history@, best, #[trigger] ws@[k]@[l]) by {
                if k == i {
                    assert(ws@[k]@[l] == cs@[l]);
                }
            }
        }
    }
    proof {
        assert forall|d: char| !history@.contains(d) && tally(ws@, d) > 0 implies dominated(ws@, history@, best, d) by {
            lemma_tally_witness(ws@, d);
            let (k, l) = choose|k: int, l: int|
                0 <= k < ws@.len() && 0 <= l < ws@[k]@.len() && ws@[k]@[l] == d;
            assert(dominated(ws@, history@, best, ws@[k]@[l]));
        }
    }
    match best {
        Some((b, _)) => Some(b),
        None => None,
    }
}

/// Guesses the letters of one hidden word of a hangman game from the word list of a
/// dictionary, narrowing the candidate words down at each call.
pub struct Guesser<'a> {
    history: Vec<char>,
    last_input: Option<String>,
    slice: Option<Vec<String>>,
    dict: &'a Dict,
}

impl<'a> Guesser<'a> {
    /// The dictionary that the guesser draws its candidates from.
    pub closed spec fn dict(&self) -> Dict {
        *self.dict
    }

    /// The letters guessed so far, oldest first.
    pub closed spec fn history(&self) -> Seq<char> {
        self.history@
    }

    /// The pattern that the previous call was given, if any.
    pub closed spec fn last_input(&self) -> Option<Seq<char>> {
        opt_view(self.last_input)
    }

    /// The words still possible, once the first pattern has been seen.
    pub closed spec fn candidates(&self) -> Option<Seq<String>> {
        match self.slice {
            Some(v) => Some(v@),
            None => None,
        }
    }

    /// The words that a call with the pattern `input` starts from: the remaining
    /// candidates, or, on the first call, the words of the pattern's length.
    pub open spec fn pool(&self, input: Seq<char>) -> Seq<String> {
        match self.candidates() {
            Some(c) => c,
            None => of_len(self.dict().words(), utf8_len(input)),
        }
    }

    /// The letters that the pattern `input` newly shows.
    pub open spec fn shown(&self, input: Seq<char>) -> Seq<(usize, char)> {
        new_letters(input, self.last_input())
    }

    /// The letter that a call with the pattern `input` rules out.
    pub open spec fn wrong(&self, input: Seq<char>) -> char {
        wrong_letter(self.history(), self.shown(input))
    }

    /// The candidates that remain after a call with the pattern `input`.
    pub open spec fn narrowed(&self, input: Seq<char>) -> Seq<String> {
        fitting(self.pool(input), self.shown(input), self.wrong(input))
    }

    /// On the first call the pool holds exactly the dictionary's words of the pattern's
    /// byte length, in dictionary order.
    pub proof fn lemma_first_pool(&self, input: Seq<char>)
        requires
            self.candidates() is None,
        ensures
            forall|k: int|
                0 <= k < self.pool(input).len() ==> byte_len(#[trigger] self.pool(input)[k])
                    == utf8_len(input) && self.dict().words().contains(self.pool(input)[k]),
            forall|k: int|
                0 <= k < self.dict().words().len() && byte_len(
                    #[trigger] self.dict().words()[k],
                ) == utf8_len(input) ==> self.pool(input).contains(self.dict().words()[k]),
    {
        let ws = self.dict().words();
        let p = has_len(utf8_len(input));
        let pool = self.pool(input);
        assert forall|k: int| 0 <= k < pool.len() implies byte_len(#[trigger] pool[k]) == utf8_len(
            input,
        ) && ws.contains(pool[k]) by {
            ws.lemma_filter_pred(p, k);
            assert(pool.contains(pool[k]));
            ws.lemma_filter_contains_rev(p, pool[k]);
        }
        assert forall|k: int|
            0 <= k < ws.len() && byte_len(#[trigger] ws[k]) == utf8_len(input) implies pool.contains(
            ws[k],
        ) by {
            ws.lemma_filter_contains(p, k);
        }
    }

    /// What `guess` needs of the pattern: on the first call the dictionary has a word as
    /// long as the pattern; the previous pattern can be looked up at each shown letter; and
    /// checking a shown letter stays within the word checked.
    pub open spec fn input_fits(&self, input: Seq<char>) -> bool {
        &&& self.candidates() is None ==> reaches_len(self.dict().words(), utf8_len(input))
        &&& lookups_ok(input, self.last_input())
        &&& forall|k: int|
            0 <= k < self.pool(input).len() ==> scan_ok(
                #[trigger] self.pool(input)[k]@,
                self.shown(input),
            )
    }

    /// The inputs on which `guess` is defined: on the first call the dictionary is well
    /// formed; the pattern fits (`input_fits`); and no count of a letter passes
    /// `usize::MAX`.
    pub open spec fn can_guess(&self, input: Seq<char>) -> bool {
        &&& self.candidates() is None ==> self.dict().wf()
        &&& self.input_fits(input)
        &&& forall|c: char|
            !self.history().contains(c) ==> #[trigger] tally(self.narrowed(input), c)
                <= usize::MAX
    }

    /// Takes the current pattern of the hidden word (`*` for a hidden letter), narrows the
    /// candidate words to those that fit it and returns the letter not guessed yet that
    /// occurs most often in them (the first in char order among equals), which joins the
    /// history; `None` when no such letter is left.
    pub fn guess(&mut self, input: &str) -> (r: Option<char>)
        requires
            old(self).can_guess(input@),
        ensures
            final(self).dict() == old(self).dict(),
            final(self).last_input() == Some(input@),
            final(self).candidates() == Some(old(self).narrowed(input@)),
            match r {
                Some(c) => {
                    &&& is_best_letter(old(self).narrowed(input@), old(self).history(), c)
                    &&& final(self).history() == old(self).history().push(c)
                },
                None => {
                    &&& exhausted(old(self).narrowed(input@), old(self).history())
                    &&& final(self).history() == old(self).history()
                },
            },
    {
        let ghost pool = self.pool(input@);
        if self.slice.is_none() {
            let slice = self.dict.words_of_len(byte_length(input));
            self.slice = Some(slice);
        }
        assert(self.slice is Some && self.slice->0@ == pool);
        let chars = chars_of(input);
        let shown = shown_letters(&chars, &self.last_input);
        let wrong = if self.history.len() > 0 && shown.len() == 0 {
            self.history[self.history.len() - 1]
        } else {
            NO_LETTER
        };
        self.last_input = Some(input.to_owned());
        let pool_vec = match self.slice.take() {
            Some(v) => v,
            None => Vec::new(),
        };
        let ghost keep = fits_pattern(shown@, wrong);
        let mut kept: Vec<String> = Vec::new();
        for k in 0..pool_vec.len()
            invariant
                pool_vec@ == pool,
                keep == fits_pattern(shown@, wrong),
                forall|i: int| 0 <= i < pool.len() ==> scan_ok(#[trigger] pool[i]@, shown@),
                kept@ == pool.take(k as int).filter(keep),
        {
            proof {
                reveal_with_fuel(Seq::filter, 1);
                assert(pool.take(k + 1).drop_last() =~= pool.take(k as int));
                assert(pool.take(k + 1).last() == pool[k as int]);
            }
            if word_fits(&pool_vec[k], &shown, wrong) {
                kept.push(pool_vec[k].clone());
            }
        }
        proof {
            assert(pool.take(pool.len() as int) =~= pool);
        }
        assert(shown@ == old(self).shown(input@));
        assert(wrong == old(self).wrong(input@));
        assert(kept@ == old(self).narrowed(input@));
        assert(self.history@ == old(self).history());
        let counts = count_letters(&kept, &self.history);
        let r = pick_letter(&kept, &self.history, &counts);
        self.slice = Some(kept);
        match r {
            Some(c) => {
                self.history.push(c);
            },
            None => {},
        }
        r
    }

    /// When the pattern newly shows at least one letter, the candidates left are the pool's
    /// words that have, at every newly shown position, the shown letter (as a byte); every
    /// such word of the pool stays, and no other.
    pub proof fn lemma_narrowed_shows_every_new_letter(&self, input: Seq<char>)
        requires
            input.len() <= usize::MAX,
            exists|i: int| newly_shown(input, self.last_input(), i),
        ensures
            forall|k: int, i: int|
                0 <= k < self.narrowed(input).len() && newly_shown(input, self.last_input(), i)
                    ==> vstd::utf8::encode_utf8((#[trigger] self.narrowed(input)[k])@)[i] == (
                #[trigger] input[i]) as u8,
            forall|k: int|
                0 <= k < self.pool(input).len() && (forall|i: int|
                    newly_shown(input, self.last_input(), i) ==> vstd::utf8::encode_utf8(
                        (#[trigger] self.pool(input)[k])@,
                    )[i] == (#[trigger] input[i]) as u8) ==> self.narrowed(input).contains(
                    self.pool(input)[k],
                ),
            forall|k: int|
                0 <= k < self.narrowed(input).len() ==> self.pool(input).contains(
                    #[trigger] self.narrowed(input)[k],
                ),
    {
        let last = self.last_input();
        let shown = self.shown(input);
        let wrong = self.wrong(input);
        let pool = self.pool(input);
        let nar = self.narrowed(input);
        lemma_new_letters_exact(input, last);
        lemma_fitting_is_exact(pool, shown, wrong);
        let i0 = choose|i: int| newly_shown(input, last, i);
        assert(shown.contains((i0 as usize, input[i0])));
        assert(shown.len() > 0);
        assert forall|k: int, i: int|
            0 <= k < nar.len() && newly_shown(input, last, i) implies vstd::utf8::encode_utf8(
            (#[trigger] nar[k])@,
        )[i] == (#[trigger] input[i]) as u8 by {
            assert(fits(nar[k]@, shown, wrong));
            assert(shown.contains((i as usize, input[i])));
            let j = choose|j: int| 0 <= j < shown.len() && shown[j] == (i as usize, input[i]);
            assert(shows(nar[k]@, shown[j]));
        }
        assert forall|k: int|
            0 <= k < pool.len() && (forall|i: int|
                newly_shown(input, last, i) ==> vstd::utf8::encode_utf8((#[trigger] pool[k])@)[i]
                    == (#[trigger] input[i]) as u8) implies nar.contains(pool[k]) by {
            assert forall|j: int| 0 <= j < shown.len() implies shows(pool[k]@, #[trigger] shown[j]) by {
                let i = shown[j].0 as int;
                assert(newly_shown(input, last, i));
                assert(vstd::utf8::encode_utf8(pool[k]@)[i] == input[i] as u8);
            }
            assert(fits(pool[k]@, shown, wrong));
        }
    }

    /// When the pattern newly shows no letter, the candidates left are the pool's words that
    /// lack the last letter guessed (or `0` with no guess yet) at every position; every such
    /// word of the pool stays, and no other.
    pub proof fn lemma_narrowed_rules_out_wrong_letter(&self, input: Seq<char>)
        requires
            input.len() <= usize::MAX,
            forall|i: int| !newly_shown(input, self.last_input(), i),
        ensures
            ({
                let x = if self.history().len() > 0 {
                    self.history()[self.history().len() - 1]
                } else {
                    '0'
                };
                &&& forall|k: int, i: int|
                    0 <= k < self.narrowed(input).len() && 0 <= i < self.narrowed(input)[k]@.len()
                        ==> #[trigger] self.narrowed(input)[k]@[i] != x
                &&& forall|k: int|
                    0 <= k < self.pool(input).len() && (forall|i: int|
                        0 <= i < (#[trigger] self.pool(input)[k])@.len() ==> self.pool(input)[k]@[i]
                            != x) ==> self.narrowed(input).contains(self.pool(input)[k])
            }),
            forall|k: int|
                0 <= k < self.narrowed(input).len() ==> self.pool(input).contains(
                    #[trigger] self.narrowed(input)[k],
                ),
    {
        let last = self.last_input();
        let shown = self.shown(input);
        let wrong = self.wrong(input);
        let pool = self.pool(input);
        let nar = self.narrowed(input);
        lemma_new_letters_exact(input, last);
        lemma_fitting_is_exact(pool, shown, wrong);
        if shown.len() > 0 {
            assert(newly_shown(input, last, shown[0].0 as int));
        }
        assert(shown.len() == 0);
        let x = if self.history().len() > 0 {
            self.history()[self.history().len() - 1]
        } else {
            '0'
        };
        assert(wrong == x);
        assert forall|k: int, i: int|
            0 <= k < nar.len() && 0 <= i < nar[k]@.len() implies #[trigger] nar[k]@[i] != x by {
            assert(fits(nar[k]@, shown, wrong));
            assert(!nar[k]@.contains(x));
        }
        assert forall|k: int|
            0 <= k < pool.len() && (forall|i: int|
                0 <= i < (#[trigger] pool[k])@.len() ==> pool[k]@[i] != x) implies nar.contains(
            pool[k],
        ) by {
            assert(!pool[k]@.contains(x));
            assert(fits(pool[k]@, shown, wrong));
        }
    }

    /// Whether `guess` can take the pattern `input` (see `input_fits`).
    pub fn accepts(&self, input: &str) -> (b: bool)
        requires
            self.candidates() is None ==> self.dict().wf(),
        ensures
            b == self.input_fits(input@),
    {
        let n = byte_length(input);
        if self.slice.is_none() && !self.dict.reaches(n) {
            assert(self.candidates() is None);
            assert(!reaches_len(self.dict().words(), utf8_len(input@)));
            return false;
        }
        let chars = chars_of(input);
        if !lookups_fit(&chars, &self.last_input) {
            return false;
        }
        let shown = shown_letters(&chars, &self.last_input);
        let ghost pool = self.pool(input@);
        let owned: Vec<String>;
        let words: &Vec<String> = match &self.slice {
            Some(v) => v,
            None => {
                owned = self.dict.words_of_len(n);
                &owned
            },
        };
        assert(words@ == pool);
        for k in 0..words.len()
            invariant
                words@ == pool,
                pool == self.pool(input@),
                shown@ == self.shown(input@),
                forall|j: int| 0 <= j < k ==> scan_ok(#[trigger] pool[j]@, shown@),
        {
            if !scan_fits(&words[k], &shown) {
                assert(!scan_ok(self.pool(input@)[k as int]@, self.shown(input@)));
                return false;
            }
        }
        true
    }

    pub(crate) fn new(dict: &'a Dict) -> (g: Guesser<'a>)
        ensures
            g.dict() == *dict,
            g.history() == Seq::<char>::empty(),
            g.last_input() == Option::<Seq<char>>::None,
            g.candidates() == Option::<Seq<String>>::None,
    {
        Guesser { history: Vec::new(), last_input: None, slice: None, dict }
    }

    /// Replaces the guess history.
    pub fn set_history(&mut self, history: Vec<char>)
        ensures
            final(self).history() == history@,
            final(self).last_input() == old(self).last_input(),
            final(self).candidates() == old(self).candidates(),
            final(self).dict() == old(self).dict(),
    {
        self.history = history;
    }

    /// Sets the pattern that counts as the previous one.
    pub fn set_last_input(&mut self, linput: String)
        ensures
            final(self).last_input() == Some(linput@),
            final(self).history() == old(self).history(),
            final(self).candidates() == old(self).candidates(),
            final(self).dict() == old(self).dict(),
    {
        self.last_input = Some(linput);
    }
}

} // verus!
