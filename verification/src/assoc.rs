//! Association lists keyed by `String`, the small read-mostly maps the
//! runtime keeps (documents, users, sessions, registries). Their mathematical
//! model is a `Map` from key characters to values; later entries win, and the
//! mutating operations keep keys unique.
use vstd::map::*;
use vstd::prelude::*;

verus! {

/// The map an association list denotes; a later entry shadows an earlier one.
pub open spec fn assoc_map<V>(s: Seq<(String, V)>) -> Map<Seq<char>, V>
    decreases s.len(),
{
    if s.len() == 0 {
        Map::empty()
    } else {
        assoc_map(s.drop_last()).insert(s.last().0@, s.last().1)
    }
}

/// Keys are pairwise distinct.
pub open spec fn assoc_unique<V>(s: Seq<(String, V)>) -> bool {
    forall|i: int, j: int| 0 <= i < j < s.len() ==> (#[trigger] s[i]).0@ != (#[trigger] s[j]).0@
}

proof fn lemma_assoc_map_last<V>(s: Seq<(String, V)>, i: int)
    requires
        0 <= i < s.len(),
        forall|j: int| i < j < s.len() ==> (#[trigger] s[j]).0@ != s[i].0@,
    ensures
        assoc_map(s).contains_key(s[i].0@),
        assoc_map(s)[s[i].0@] == s[i].1,
    decreases s.len(),
{
    if i == s.len() - 1 {
    } else {
        assert forall|j: int| i < j < s.drop_last().len() implies (#[trigger] s.drop_last()[j]).0@
            != s.drop_last()[i].0@ by {
            assert(s.drop_last()[j] == s[j]);
        }
        lemma_assoc_map_last(s.drop_last(), i);
        assert(s.drop_last()[i] == s[i]);
        assert(s.last().0@ != s[i].0@);
    }
}

proof fn lemma_assoc_map_no_key<V>(s: Seq<(String, V)>, k: Seq<char>)
    requires
        forall|j: int| 0 <= j < s.len() ==> (#[trigger] s[j]).0@ != k,
    ensures
        !assoc_map(s).contains_key(k),
    decreases s.len(),
{
    if s.len() > 0 {
        assert forall|j: int| 0 <= j < s.drop_last().len() implies (#[trigger] s.drop_last()[
        j]).0@ != k by {
            assert(s.drop_last()[j] == s[j]);
        }
        lemma_assoc_map_no_key(s.drop_last(), k);
    }
}

proof fn lemma_assoc_map_remove_at<V>(s: Seq<(String, V)>, i: int)
    requires
        0 <= i < s.len(),
        forall|j: int| i < j < s.len() ==> (#[trigger] s[j]).0@ != s[i].0@,
    ensures
        assoc_map(s.remove(i)).remove(s[i].0@) == assoc_map(s).remove(s[i].0@),
    decreases s.len(),
{
    let k = s[i].0@;
    if i == s.len() - 1 {
        assert(s.remove(i) =~= s.drop_last());
        assert(assoc_map(s) == assoc_map(s.drop_last()).insert(k, s.last().1));
        assert(assoc_map(s.drop_last()).remove(k) =~= assoc_map(s.drop_last()).insert(
            k,
            s.last().1,
        ).remove(k));
    } else {
        assert forall|j: int| i < j < s.drop_last().len() implies (#[trigger] s.drop_last()[
        j]).0@ != s.drop_last()[i].0@ by {
            assert(s.drop_last()[j] == s[j]);
            assert(s.drop_last()[i] == s[i]);
        }
        lemma_assoc_map_remove_at(s.drop_last(), i);
        assert(s.drop_last()[i] == s[i]);
        assert(s.last().0@ != k);
        assert(s.remove(i).drop_last() =~= s.drop_last().remove(i));
        assert(s.remove(i).last() == s.last());
        assert(assoc_map(s.remove(i)) == assoc_map(s.drop_last().remove(i)).insert(
            s.last().0@,
            s.last().1,
        ));
        assert(assoc_map(s.remove(i)).remove(k) =~= assoc_map(s.drop_last().remove(i)).remove(
            k,
        ).insert(s.last().0@, s.last().1));
        assert(assoc_map(s).remove(k) =~= assoc_map(s.drop_last()).remove(k).insert(
            s.last().0@,
            s.last().1,
        ));
    }
}

/// The value under `key`, if any; the model's lookup.
#[verifier::loop_isolation(false)]
pub fn assoc_get<'a, V>(entries: &'a Vec<(String, V)>, key: &String) -> (r: Option<&'a V>)
    ensures
        match r {
            Some(v) => assoc_map(entries@).contains_key(key@) && assoc_map(entries@)[key@] == *v,
            None => !assoc_map(entries@).contains_key(key@),
        },
        r is Some <==> assoc_map(entries@).contains_key(key@),
{
    let mut i: usize = entries.len();
    while i > 0
        invariant
            i <= entries@.len(),
            forall|j: int| i <= j < entries@.len() ==> (#[trigger] entries@[j]).0@ != key@,
        decreases i,
    {
        i = i - 1;
        if entries[i].0 == *key {
            proof {
                lemma_assoc_map_last(entries@, i as int);
            }
            return Some(&entries[i].1);
        }
    }
    proof {
        lemma_assoc_map_no_key(entries@, key@);
    }
    None
}

/// Removes every entry under `key`; the model's `remove`.
#[verifier::loop_isolation(false)]
pub fn assoc_remove<V>(entries: &mut Vec<(String, V)>, key: &String)
    ensures
        assoc_map(final(entries)@) == assoc_map(old(entries)@).remove(key@),
        forall|j: int|
            0 <= j < final(entries)@.len() ==> (#[trigger] final(entries)@[j]).0@ != key@,
        assoc_unique(old(entries)@) ==> {
            &&& assoc_unique(final(entries)@)
            &&& final(entries)@.len() == old(entries)@.len() - (if assoc_map(
                old(entries)@,
            ).contains_key(key@) {
                1int
            } else {
                0int
            })
        },
{
    let ghost orig = entries@;
    let mut removed_count: usize = 0;
    let mut i: usize = entries.len();
    while i > 0
        invariant
            i <= entries@.len(),
            removed_count <= orig.len(),
            entries@.len() == orig.len() - removed_count,
            forall|j: int| i <= j < entries@.len() ==> (#[trigger] entries@[j]).0@ != key@,
            assoc_map(entries@).remove(key@) == assoc_map(orig).remove(key@),
            assoc_map(entries@).contains_key(key@) ==> assoc_map(orig).contains_key(key@),
            assoc_unique(orig) ==> assoc_unique(entries@),
            assoc_unique(orig) && removed_count > 0 ==> removed_count == 1 && assoc_map(
                orig,
            ).contains_key(key@),
            assoc_unique(orig) && removed_count > 0 ==> forall|j: int|
                0 <= j < entries@.len() ==> (#[trigger] entries@[j]).0@ != key@,
            assoc_unique(orig) && removed_count == 0 ==> entries@ == orig,
        decreases i,
    {
        i = i - 1;
        if entries[i].0 == *key {
            let ghost pre = entries@;
            proof {
                lemma_assoc_map_last(pre, i as int);
                lemma_assoc_map_remove_at(pre, i as int);
                lemma_assoc_map_last_exists(pre, i as int);
            }
            entries.remove(i);
            removed_count = removed_count + 1;
            proof {
                assert(entries@ =~= pre.remove(i as int));
                assert forall|j: int|
                    i <= j < entries@.len() implies (#[trigger] entries@[j]).0@ != key@ by {
                    assert(entries@[j] == pre[j + 1]);
                }
                if assoc_unique(orig) {
                    assert forall|a: int, b: int|
                        0 <= a < b < entries@.len() implies (#[trigger] entries@[a]).0@ != (
                    #[trigger] entries@[b]).0@ by {
                        let pa = if a < i as int {
                            a
                        } else {
                            a + 1
                        };
                        let pb = if b < i as int {
                            b
                        } else {
                            b + 1
                        };
                        assert(entries@[a] == pre[pa]);
                        assert(entries@[b] == pre[pb]);
                    }
                    assert forall|j: int|
                        0 <= j < entries@.len() implies (#[trigger] entries@[j]).0@ != key@ by {
                        let pj = if j < i as int {
                            j
                        } else {
                            j + 1
                        };
                        assert(entries@[j] == pre[pj]);
                    }
                    lemma_assoc_map_no_key(entries@, key@);
                }
            }
        }
    }
    proof {
        lemma_assoc_map_no_key(entries@, key@);
        assert(assoc_map(entries@) =~= assoc_map(entries@).remove(key@));
        if assoc_unique(orig) && !assoc_map(orig).contains_key(key@) {
            assert(entries@ == orig);
        }
        if assoc_unique(orig) && assoc_map(orig).contains_key(key@) {
            if removed_count == 0 {
                assert(entries@ == orig);
                assert(!assoc_map(entries@).contains_key(key@));
                assert(false);
            }
        }
    }
}

/// Binds `key` to `value`, replacing any earlier binding; the model's
/// `insert`.
pub fn assoc_put<V>(entries: &mut Vec<(String, V)>, key: String, value: V)
    ensures
        assoc_map(final(entries)@) == assoc_map(old(entries)@).insert(key@, value),
        assoc_unique(old(entries)@) ==> {
            &&& assoc_unique(final(entries)@)
            &&& final(entries)@.len() == old(entries)@.len() + (if assoc_map(
                old(entries)@,
            ).contains_key(key@) {
                0int
            } else {
                1int
            })
        },
{
    let ghost orig = entries@;
    assoc_remove(entries, &key);
    let ghost mid = entries@;
    entries.push((key, value));
    proof {
        assert(entries@.drop_last() =~= mid);
        assert(assoc_map(entries@) == assoc_map(mid).insert(
            entries@.last().0@,
            entries@.last().1,
        ));
        assert(assoc_map(entries@) =~= assoc_map(orig).insert(entries@.last().0@, value));
        if assoc_unique(orig) {
            assert forall|a: int, b: int|
                0 <= a < b < entries@.len() implies (#[trigger] entries@[a]).0@ != (
            #[trigger] entries@[b]).0@ by {
                if b == entries@.len() - 1 {
                    assert(entries@[a] == mid[a]);
                } else {
                    assert(entries@[a] == mid[a]);
                    assert(entries@[b] == mid[b]);
                }
            }
        }
    }
}

proof fn lemma_assoc_map_last_exists<V>(s: Seq<(String, V)>, j: int)
    requires
        0 <= j < s.len(),
    ensures
        assoc_map(s).contains_key(s[j].0@),
    decreases s.len(),
{
    if j == s.len() - 1 {
    } else {
        lemma_assoc_map_last_exists(s.drop_last(), j);
        assert(s.drop_last()[j] == s[j]);
    }
}

} // verus!
