//! The mathematical model of a vocabulary table.
//!
//! A table is held as a list of (token text, id) entries; its meaning is the
//! finite map built by inserting the entries in order, so that a later entry
//! for the same key overrides an earlier one. Lookup, maximum key length and
//! the deduplicating merge used for the combined vocabulary are all specified
//! against that map.

use vstd::prelude::*;

verus! {

use vstd::string::StringExecFns;
use vstd::string::StrSliceExecFns;

/// The map denoted by an entry list: entries are inserted in order, so a
/// later entry for the same key wins.
pub open spec fn map_of(entries: Seq<(String, u32)>) -> Map<Seq<char>, u32>
    decreases entries.len(),
{
    if entries.len() == 0 {
        Map::empty()
    } else {
        map_of(entries.drop_last()).insert(entries.last().0@, entries.last().1)
    }
}

/// Map lookup as an `Option`.
pub open spec fn map_get(m: Map<Seq<char>, u32>, k: Seq<char>) -> Option<u32> {
    if m.contains_key(k) {
        Some(m[k])
    } else {
        None
    }
}

/// Lookup over the entry list itself, scanning from the last entry backwards,
/// which matches the later-entry-wins reading of `map_of`.
pub open spec fn seq_get(entries: Seq<(String, u32)>, k: Seq<char>) -> Option<u32>
    decreases entries.len(),
{
    if entries.len() == 0 {
        None
    } else if entries.last().0@ == k {
        Some(entries.last().1)
    } else {
        seq_get(entries.drop_last(), k)
    }
}

/// No two entries share a key.
pub open spec fn distinct_keys(entries: Seq<(String, u32)>) -> bool {
    forall|i: int, j: int|
        0 <= i < j < entries.len() ==> entries[i].0@ != entries[j].0@
}

/// The maximum key length, in characters, over the entries; 0 if there are
/// none.
pub open spec fn max_key_len(entries: Seq<(String, u32)>) -> nat
    decreases entries.len(),
{
    if entries.len() == 0 {
        0
    } else {
        let rest = max_key_len(entries.drop_last());
        let l = entries.last().0@.len();
        if l > rest {
            l
        } else {
            rest
        }
    }
}

/// What it means for `n` to be the maximum key length of the mapping `m`:
/// every key fits in `n` characters, and unless `n` is 0 some key attains it.
pub open spec fn is_max_key_len(m: Map<Seq<char>, u32>, n: nat) -> bool {
    &&& forall|k: Seq<char>| m.contains_key(k) ==> k.len() <= n
    &&& (n == 0 || exists|k: Seq<char>| m.contains_key(k) && k.len() == n)
}

/// No entry's key is longer than the entry list's maximum key length.
pub proof fn lemma_max_key_len_bounds(entries: Seq<(String, u32)>)
    ensures
        forall|i: int| 0 <= i < entries.len() ==> (#[trigger] entries[i]).0@.len()
            <= max_key_len(entries),
    decreases entries.len(),
{
    if entries.len() > 0 {
        lemma_max_key_len_bounds(entries.drop_last());
        assert forall|i: int| 0 <= i < entries.len() implies (#[trigger] entries[i]).0@.len()
            <= max_key_len(entries) by {
            if i < entries.len() - 1 {
                assert(entries.drop_last()[i] == entries[i]);
            }
        }
    }
}

/// Unless it is 0, the maximum key length is attained by some entry.
pub proof fn lemma_max_key_len_witness(entries: Seq<(String, u32)>)
    ensures
        max_key_len(entries) == 0 || exists|i: int|
            0 <= i < entries.len() && (#[trigger] entries[i]).0@.len() == max_key_len(entries),
    decreases entries.len(),
{
    if entries.len() > 0 {
        lemma_max_key_len_witness(entries.drop_last());
        let n = max_key_len(entries);
        if entries.last().0@.len() == n {
            assert(entries[entries.len() - 1].0@.len() == n);
        } else if n != 0 {
            let i = choose|i: int|
                0 <= i < entries.drop_last().len() && (#[trigger] entries.drop_last()[i]).0@.len()
                    == max_key_len(entries.drop_last());
            assert(entries[i].0@.len() == n);
        }
    }
}

/// The entry list's maximum key length is the maximum key length of its map.
pub proof fn lemma_max_key_len_of_map(entries: Seq<(String, u32)>)
    ensures
        is_max_key_len(map_of(entries), max_key_len(entries)),
{
    lemma_max_key_len_bounds(entries);
    lemma_max_key_len_witness(entries);
    let n = max_key_len(entries);
    assert forall|k: Seq<char>| map_of(entries).contains_key(k) implies k.len() <= n by {
        lemma_map_of_contains(entries, k);
        let i = choose|i: int| 0 <= i < entries.len() && entries[i].0@ == k;
        assert(entries[i].0@.len() <= n);
    }
    if n != 0 {
        let i = choose|i: int|
            0 <= i < entries.len() && (#[trigger] entries[i]).0@.len() == n;
        lemma_map_of_contains(entries, entries[i].0@);
        assert(map_of(entries).contains_key(entries[i].0@) && entries[i].0@.len() == n);
    }
}

pub proof fn lemma_seq_get_is_map_get(entries: Seq<(String, u32)>, k: Seq<char>)
    ensures
        seq_get(entries, k) == map_get(map_of(entries), k),
    decreases entries.len(),
{
    if entries.len() > 0 {
        lemma_seq_get_is_map_get(entries.drop_last(), k);
    }
}

/// A key is in the map exactly when some entry carries it.
pub proof fn lemma_map_of_contains(entries: Seq<(String, u32)>, k: Seq<char>)
    ensures
        map_of(entries).contains_key(k) <==> exists|i: int|
            0 <= i < entries.len() && entries[i].0@ == k,
    decreases entries.len(),
{
    if entries.len() > 0 {
        lemma_map_of_contains(entries.drop_last(), k);
        if map_of(entries).contains_key(k) {
            if entries.last().0@ == k {
                assert(entries[entries.len() - 1].0@ == k);
            } else {
                let i = choose|i: int|
                    0 <= i < entries.drop_last().len() && entries.drop_last()[i].0@ == k;
                assert(entries[i].0@ == k);
            }
        }
        if exists|i: int| 0 <= i < entries.len() && entries[i].0@ == k {
            let i = choose|i: int| 0 <= i < entries.len() && entries[i].0@ == k;
            if i < entries.len() - 1 {
                assert(entries.drop_last()[i].0@ == k);
            }
        }
    }
}

pub proof fn lemma_map_of_finite(entries: Seq<(String, u32)>)
    ensures
        map_of(entries).dom().finite(),
    decreases entries.len(),
{
    if entries.len() > 0 {
        lemma_map_of_finite(entries.drop_last());
    }
}

/// With distinct keys the map has exactly one key per entry.
pub proof fn lemma_map_of_card(entries: Seq<(String, u32)>)
    requires
        distinct_keys(entries),
    ensures
        map_of(entries).dom().finite(),
        map_of(entries).dom().len() == entries.len(),
    decreases entries.len(),
{
    lemma_map_of_finite(entries);
    if entries.len() > 0 {
        assert(distinct_keys(entries.drop_last())) by {
            assert(forall|i: int, j: int|
                0 <= i < j < entries.drop_last().len() ==> entries.drop_last()[i].0@
                    != entries.drop_last()[j].0@);
        }
        lemma_map_of_card(entries.drop_last());
        let k = entries.last().0@;
        assert(!map_of(entries.drop_last()).contains_key(k)) by {
            lemma_map_of_contains(entries.drop_last(), k);
            assert(forall|i: int|
                0 <= i < entries.len() - 1 ==> entries[i].0@ != k);
            assert(forall|i: int|
                0 <= i < entries.drop_last().len() ==> entries.drop_last()[i].0@ != k);
        }
        assert(map_of(entries).dom() =~= map_of(entries.drop_last()).dom().insert(k));
        vstd::set::axiom_set_insert_len(map_of(entries.drop_last()).dom(), k);
    }
}

/// Appending entry lists layers their maps, the appended entries taking
/// precedence.
pub proof fn lemma_map_of_concat(a: Seq<(String, u32)>, b: Seq<(String, u32)>)
    ensures
        map_of(a + b) == map_of(a).union_prefer_right(map_of(b)),
    decreases b.len(),
{
    if b.len() == 0 {
        assert(a + b =~= a);
        assert(map_of(a).union_prefer_right(Map::empty()) =~= map_of(a));
    } else {
        lemma_map_of_concat(a, b.drop_last());
        assert((a + b).drop_last() =~= a + b.drop_last());
        assert((a + b).last() == b.last());
        assert(map_of(a).union_prefer_right(map_of(b)) =~= map_of(a).union_prefer_right(
            map_of(b.drop_last()),
        ).insert(b.last().0@, b.last().1));
    }
}

/// Prepending one entry only matters if no later entry carries its key.
pub proof fn lemma_map_of_cons(e: (String, u32), t: Seq<(String, u32)>)
    ensures
        map_of(seq![e] + t) == if map_of(t).contains_key(e.0@) {
            map_of(t)
        } else {
            map_of(t).insert(e.0@, e.1)
        },
    decreases t.len(),
{
    if t.len() == 0 {
        assert((seq![e] + t).len() == 1);
        assert((seq![e] + t).last() == e);
        assert((seq![e] + t).drop_last() =~= Seq::<(String, u32)>::empty());
        assert(map_of(seq![e] + t) == map_of(Seq::<(String, u32)>::empty()).insert(
            e.0@,
            e.1,
        ));
        assert(!map_of(t).contains_key(e.0@));
    } else {
        lemma_map_of_cons(e, t.drop_last());
        assert((seq![e] + t).drop_last() =~= seq![e] + t.drop_last());
        assert((seq![e] + t).last() == t.last());
        if map_of(t).contains_key(e.0@) {
            if map_of(t.drop_last()).contains_key(e.0@) {
                assert(map_of(seq![e] + t) =~= map_of(t));
            } else {
                // e's key is only in t through its last entry
                assert(t.last().0@ == e.0@);
                assert(map_of(seq![e] + t) =~= map_of(t));
            }
        } else {
            assert(!map_of(t.drop_last()).contains_key(e.0@));
            assert(map_of(t).contains_key(t.last().0@));
            assert(t.last().0@ != e.0@);
            assert(map_of(seq![e] + t) == map_of(seq![e] + t.drop_last()).insert(
                t.last().0@,
                t.last().1,
            ));
            assert(map_of(seq![e] + t.drop_last()) == map_of(t.drop_last()).insert(
                e.0@,
                e.1,
            ));
            assert(map_of(seq![e] + t) =~= map_of(t).insert(e.0@, e.1));
        }
    }
}

/// Backward scan through the entries; the result agrees with the table's map.
pub fn table_get(entries: &Vec<(String, u32)>, key: &str) -> (r: Option<u32>)
    ensures
        r == map_get(map_of(entries@), key@),
{
    let key_string = String::from_str(key);
    proof {
        lemma_seq_get_is_map_get(entries@, key@);
        assert(entries@.subrange(0, entries@.len() as int) =~= entries@);
    }
    let mut i: usize = entries.len();
    while i > 0
        invariant
            i <= entries.len(),
            key_string@ == key@,
            seq_get(entries@.subrange(0, i as int), key@) == seq_get(entries@, key@),
        decreases i,
    {
        i = i - 1;
        proof {
            assert(entries@.subrange(0, i + 1).drop_last() =~= entries@.subrange(0, i as int));
            assert(entries@.subrange(0, i + 1).last() == entries@[i as int]);
        }
        if entries[i].0 == key_string {
            proof {
                lemma_seq_get_is_map_get(entries@, key@);
                assert(seq_get(entries@.subrange(0, i + 1), key@) == Some(
                    entries@[i as int].1,
                ));
            }
            return Some(entries[i].1);
        }
    }
    proof {
        assert(entries@.subrange(0, 0) =~= Seq::<(String, u32)>::empty());
    }
    None
}

/// The maximum key length, in characters, over a table's entries.
pub fn max_key_chars(entries: &Vec<(String, u32)>) -> (r: usize)
    ensures
        r as nat == max_key_len(entries@),
{
    let mut best: usize = 0;
    let mut i: usize = 0;
    while i < entries.len()
        invariant
            i <= entries.len(),
            best as nat == max_key_len(entries@.subrange(0, i as int)),
        decreases entries.len() - i,
    {
        let l = entries[i].0.as_str().unicode_len();
        if l > best {
            best = l;
        }
        i = i + 1;
        proof {
            assert(entries@.subrange(0, i as int).drop_last() =~= entries@.subrange(
                0,
                i - 1,
            ));
            assert(entries@.subrange(0, i as int).last() == entries@[i - 1]);
        }
    }
    proof {
        assert(entries@.subrange(0, entries@.len() as int) =~= entries@);
    }
    best
}

} // verus!
