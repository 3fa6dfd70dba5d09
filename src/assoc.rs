use vstd::prelude::*;

verus! {

/// Whether some entry of `s` has the key `k`.
pub open spec fn has_key<T>(s: Seq<(String, T)>, k: Seq<char>) -> bool {
    exists|i: int| 0 <= i < s.len() && s[i].0@ == k
}

/// No two entries of `s` share a key.
pub open spec fn keys_unique<T>(s: Seq<(String, T)>) -> bool {
    forall|i: int, j: int| 0 <= i < j < s.len() ==> s[i].0@ != s[j].0@
}

/// The entries of `s` after `k` is bound to `v`: in place where `k` has an
/// entry, else at the end.
pub open spec fn bound<T>(s: Seq<(String, T)>, k: String, v: T) -> Seq<(String, T)> {
    if has_key(s, k@) {
        let i = choose|i: int| 0 <= i < s.len() && s[i].0@ == k@;
        s.update(i, (k, v))
    } else {
        s.push((k, v))
    }
}

/// The value bound to `k`, if any; meaningful where keys are unique.
pub open spec fn lookup<T>(s: Seq<(String, T)>, k: Seq<char>) -> Option<T> {
    if has_key(s, k) {
        Some(s[choose|i: int| 0 <= i < s.len() && s[i].0@ == k].1)
    } else {
        None
    }
}

/// With unique keys, the entry found at `i` is the one bound to its key.
pub proof fn lemma_lookup_at<T>(s: Seq<(String, T)>, k: Seq<char>, i: int)
    requires
        keys_unique(s),
        0 <= i < s.len(),
        s[i].0@ == k,
    ensures
        lookup(s, k) == Some(s[i].1),
{
    let c = choose|c: int| 0 <= c < s.len() && s[c].0@ == k;
    assert(c == i) by {
        if c < i {
            assert(s[c].0@ != s[i].0@);
        } else if c > i {
            assert(s[i].0@ != s[c].0@);
        }
    }
}

/// Where `after` keeps each entry of `before` whose key is not `k`, and its
/// other entries have key `k`, every other key keeps its binding.
pub proof fn lemma_lookup_frame<T>(before: Seq<(String, T)>, after: Seq<(String, T)>, k: Seq<char>)
    requires
        keys_unique(before),
        keys_unique(after),
        before.len() <= after.len(),
        forall|j: int| 0 <= j < before.len() && before[j].0@ != k ==> after[j] == before[j],
        forall|j: int| 0 <= j < before.len() && before[j].0@ == k ==> after[j].0@ == k,
        forall|j: int| before.len() <= j < after.len() ==> after[j].0@ == k,
    ensures
        forall|k2: Seq<char>| k2 != k ==> lookup(after, k2) == lookup(before, k2),
{
    assert forall|k2: Seq<char>| k2 != k implies lookup(after, k2) == lookup(before, k2) by {
        if has_key(before, k2) {
            let c = choose|c: int| 0 <= c < before.len() && before[c].0@ == k2;
            lemma_lookup_at(before, k2, c);
            lemma_lookup_at(after, k2, c);
        } else if has_key(after, k2) {
            let c = choose|c: int| 0 <= c < after.len() && after[c].0@ == k2;
            if c < before.len() {
                if before[c].0@ != k {
                    assert(after[c] == before[c]);
                }
            }
        }
    }
}

/// The position of the entry with key `k`.
pub fn find_key<T>(s: &Vec<(String, T)>, k: &String) -> (r: Option<usize>)
    ensures
        r matches Some(i) ==> i < s@.len() && s@[i as int].0@ == k@ && forall|j: int|
            0 <= j < i ==> s@[j].0@ != k@,
        r is None <==> !has_key(s@, k@),
{
    let mut i: usize = 0;
    while i < s.len()
        invariant
            i <= s@.len(),
            forall|j: int| 0 <= j < i ==> s@[j].0@ != k@,
        decreases s@.len() - i,
    {
        if s[i].0 == *k {
            return Some(i);
        }
        i = i + 1;
    }
    None
}

/// Binds `k` to `v`, replacing the value of an existing entry with that key.
pub fn bind<T>(s: &mut Vec<(String, T)>, k: String, v: T)
    requires
        keys_unique(old(s)@),
    ensures
        final(s)@ == bound(old(s)@, k, v),
        keys_unique(final(s)@),
        has_key(final(s)@, k@),
        lookup(final(s)@, k@) == Some(v),
        forall|k2: Seq<char>| k2 != k@ ==> lookup(final(s)@, k2) == lookup(old(s)@, k2),
{
    match find_key(s, &k) {
        Some(i) => {
            let ghost old_s = s@;
            proof {
                let c = choose|c: int| 0 <= c < old_s.len() && old_s[c].0@ == k@;
                assert(c == i) by {
                    if c < i {
                    } else if c > i {
                        assert(old_s[i as int].0@ != old_s[c].0@);
                    }
                }
            }
            s.remove(i);
            s.insert(i, (k, v));
            assert(s@ =~= old_s.update(i as int, (k, v)));
            assert(s@[i as int].0@ == k@);
            assert(keys_unique(s@));
            proof {
                lemma_lookup_at(s@, k@, i as int);
                lemma_lookup_frame(old_s, s@, k@);
            }
        },
        None => {
            let ghost old_s = s@;
            let ghost kv = k@;
            s.push((k, v));
            assert(s@[old_s.len() as int].0@ == kv);
            assert(keys_unique(s@));
            proof {
                lemma_lookup_at(s@, kv, old_s.len() as int);
                lemma_lookup_frame(old_s, s@, kv);
            }
        },
    }
}

} // verus!
