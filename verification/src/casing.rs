//! Turkish-aware case folding and camel-case segmentation.
//!
//! Folding first maps the two Turkish capitals that standard lowercasing gets
//! wrong — dotted 'İ' to 'i' and dotless-producing 'I' to 'ı' — and then
//! applies the Unicode lowercase mapping. Camel-case splitting cuts a word
//! before every uppercase character after the first, recording each segment's
//! starting character offset in the original word.

use vstd::prelude::*;

verus! {

use vstd::string::StringExecFns;
use vstd::string::StrSliceExecFns;
use crate::outside::lower_of;
use crate::outside::is_upper;
use crate::outside::is_white;
use crate::outside::lowercase;
use crate::outside::char_to_string;
use crate::outside::char_is_uppercase;
use crate::outside::char_is_whitespace;

/// The Turkish pre-folding of one character.
pub open spec fn tr_char(c: char) -> char {
    if c == 'İ' {
        'i'
    } else if c == 'I' {
        'ı'
    } else {
        c
    }
}

/// Turkish-aware lowercase folding: Turkish pre-folding of each character,
/// then the Unicode lowercase mapping.
pub open spec fn spec_fold(s: Seq<char>) -> Seq<char> {
    lower_of(s.map_values(|c: char| tr_char(c)))
}

pub fn fold_case(s: &str) -> (r: String)
    ensures
        r@ == spec_fold(s@),
{
    let n = s.unicode_len();
    let mut replaced = String::new();
    let mut i: usize = 0;
    while i < n
        invariant
            i <= n,
            n == s@.len(),
            replaced@ == s@.subrange(0, i as int).map_values(|c: char| tr_char(c)),
        decreases n - i,
    {
        let c = s.get_char(i);
        let c2 = if c == 'İ' {
            'i'
        } else if c == 'I' {
            'ı'
        } else {
            c
        };
        let cs = char_to_string(c2);
        replaced.append(cs.as_str());
        i = i + 1;
        proof {
            assert(s@.subrange(0, i as int).map_values(|ch: char| tr_char(ch)) =~= s@.subrange(
                0,
                i - 1,
            ).map_values(|ch: char| tr_char(ch)) + seq![tr_char(s@[i - 1])]);
        }
    }
    proof {
        assert(s@.subrange(0, n as int) =~= s@);
    }
    lowercase(replaced.as_str())
}

/// The position of the first uppercase character at or after `i`, if any.
pub open spec fn first_upper_from(w: Seq<char>, i: nat) -> Option<nat>
    decreases w.len() - i,
{
    if i >= w.len() {
        None
    } else if is_upper(w[i as int]) {
        Some(i)
    } else {
        first_upper_from(w, i + 1)
    }
}

pub proof fn lemma_first_upper_from(w: Seq<char>, i: nat)
    ensures
        match first_upper_from(w, i) {
            Some(j) => i <= j < w.len() && is_upper(w[j as int]) && forall|k: int|
                i <= k < j ==> !is_upper(w[k]),
            None => forall|k: int| i <= k < w.len() ==> !is_upper(w[k]),
        },
    decreases w.len() - i,
{
    if i < w.len() && !is_upper(w[i as int]) {
        lemma_first_upper_from(w, i + 1);
    }
}

/// The camel-case segments of `w` from `start` on: each is the folded text
/// between consecutive uppercase boundaries, with its starting offset.
pub open spec fn camel_from(w: Seq<char>, start: nat) -> Seq<(Seq<char>, nat)>
    decreases w.len() - start,
    when start < w.len()
    via camel_from_decreases
{
    match first_upper_from(w, start + 1) {
        None => seq![(spec_fold(w.subrange(start as int, w.len() as int)), start)],
        Some(j) => seq![(spec_fold(w.subrange(start as int, j as int)), start)] + camel_from(
            w,
            j,
        ),
    }
}

#[via_fn]
proof fn camel_from_decreases(w: Seq<char>, start: nat) {
    lemma_first_upper_from(w, start + 1);
}

/// All camel-case segments of a word, in order.
pub open spec fn spec_camel_split(w: Seq<char>) -> Seq<(Seq<char>, nat)> {
    if w.len() == 0 {
        Seq::empty()
    } else {
        camel_from(w, 0)
    }
}

/// Every segment's offset indexes a character of the word.
pub proof fn lemma_camel_offsets(w: Seq<char>, start: nat)
    requires
        start < w.len(),
    ensures
        forall|p: int|
            0 <= p < camel_from(w, start).len() ==> #[trigger] camel_from(w, start)[p].1
                < w.len(),
    decreases w.len() - start,
{
    lemma_first_upper_from(w, start + 1);
    match first_upper_from(w, start + 1) {
        None => {},
        Some(j) => {
            lemma_camel_offsets(w, j);
            assert forall|p: int| 0 <= p < camel_from(w, start).len() implies #[trigger] camel_from(
                w,
                start,
            )[p].1 < w.len() by {
                if p >= 1 {
                    assert(camel_from(w, start)[p] == camel_from(w, j)[p - 1]);
                }
            }
        },
    }
}

/// The view of a list of owned segments.
pub open spec fn seg_views(s: Seq<(String, usize)>) -> Seq<(Seq<char>, nat)> {
    s.map_values(|p: (String, usize)| (p.0@, p.1 as nat))
}

pub fn camel_split(word: &str) -> (r: Vec<(String, usize)>)
    ensures
        seg_views(r@) == spec_camel_split(word@),
{
    let n = word.unicode_len();
    let mut parts: Vec<(String, usize)> = Vec::new();
    if n == 0 {
        proof {
            assert(seg_views(parts@) =~= spec_camel_split(word@));
        }
        return parts;
    }
    proof {
        assert(seg_views(parts@) + camel_from(word@, 0) =~= camel_from(word@, 0));
    }
    let mut start: usize = 0;
    let mut i: usize = 1;
    while i < n
        invariant
            1 <= i <= n,
            start < i,
            n == word@.len(),
            forall|k: int| start + 1 <= k < i ==> !is_upper(word@[k]),
            spec_camel_split(word@) == seg_views(parts@) + camel_from(word@, start as nat),
        decreases n - i,
    {
        let c = word.get_char(i);
        if char_is_uppercase(c) {
            let ghost before = parts@;
            let seg = fold_case(word.substring_char(start, i));
            parts.push((seg, start));
            proof {
                lemma_first_upper_eq(word@, (start + 1) as nat, i as int);
                assert(seg_views(parts@) =~= seg_views(before) + seq![
                    (spec_fold(word@.subrange(start as int, i as int)), start as nat),
                ]);
                assert(spec_camel_split(word@) =~= seg_views(parts@) + camel_from(
                    word@,
                    i as nat,
                ));
            }
            start = i;
        }
        i = i + 1;
    }
    let ghost before = parts@;
    let seg = fold_case(word.substring_char(start, n));
    parts.push((seg, start));
    proof {
        lemma_first_upper_none(word@, (start + 1) as nat, n as int);
        assert(camel_from(word@, start as nat) == seq![
            (spec_fold(word@.subrange(start as int, n as int)), start as nat),
        ]);
        assert(seg_views(parts@) =~= seg_views(before) + seq![
            (spec_fold(word@.subrange(start as int, n as int)), start as nat),
        ]);
        assert(seg_views(parts@) =~= spec_camel_split(word@));
    }
    parts
}

/// If the characters strictly between `i - 1` and `j` are not uppercase and
/// `w[j]` is, then `j` is the first uppercase position at or after `i`.
pub proof fn lemma_first_upper_eq(w: Seq<char>, i: nat, j: int)
    requires
        i <= j < w.len(),
        is_upper(w[j]),
        forall|k: int| i <= k < j ==> !is_upper(w[k]),
    ensures
        first_upper_from(w, i) == Some(j as nat),
    decreases j - i,
{
    if i < j {
        lemma_first_upper_eq(w, i + 1, j);
    }
}

/// If no character in `[i, end)` is uppercase and `end` is the word's length,
/// there is no uppercase position at or after `i`.
pub proof fn lemma_first_upper_none(w: Seq<char>, i: nat, end: int)
    requires
        end == w.len(),
        forall|k: int| i <= k < end ==> !is_upper(w[k]),
    ensures
        first_upper_from(w, i) is None,
    decreases w.len() - i,
{
    if i < w.len() {
        lemma_first_upper_none(w, i + 1, end);
    }
}

/// Whether the word holds any non-whitespace character; only such words are
/// tokenized.
pub open spec fn has_visible(w: Seq<char>) -> bool {
    exists|k: int| 0 <= k < w.len() && !is_white(w[k])
}

pub fn word_has_visible(w: &str) -> (r: bool)
    ensures
        r == has_visible(w@),
{
    let n = w.unicode_len();
    let mut i: usize = 0;
    while i < n
        invariant
            i <= n,
            n == w@.len(),
            forall|k: int| 0 <= k < i ==> is_white(w@[k]),
        decreases n - i,
    {
        let c = w.get_char(i);
        if !char_is_whitespace(c) {
            return true;
        }
        i = i + 1;
    }
    false
}

} // verus!
