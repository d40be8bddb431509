//! Removal of excluded stream names, by exact and case-sensitive match.
use vstd::prelude::*;

use crate::decode::strings_view;

verus! {

/// The names of `names` that `excluded` does not hold, in their order.
pub open spec fn kept_streams(names: Seq<Seq<char>>, excluded: Seq<Seq<char>>) -> Seq<Seq<char>>
    decreases names.len(),
{
    if names.len() == 0 {
        Seq::<Seq<char>>::empty()
    } else {
        let rest = kept_streams(names.drop_last(), excluded);
        if excluded.contains(names.last()) {
            rest
        } else {
            rest.push(names.last())
        }
    }
}

/// Whether `name` is one of `excluded`.
pub fn is_excluded(name: &String, excluded: &Vec<String>) -> (r: bool)
    ensures
        r == strings_view(excluded@).contains(name@),
{
    let mut i: usize = 0;
    while i < excluded.len()
        invariant
            i <= excluded@.len(),
            forall|j: int| 0 <= j < i ==> excluded@[j]@ != name@,
        decreases excluded@.len() - i,
    {
        if excluded[i] == *name {
            assert(strings_view(excluded@)[i as int] == name@);
            return true;
        }
        i = i + 1;
    }
    proof {
        if strings_view(excluded@).contains(name@) {
            let j = choose|j: int| 0 <= j < excluded@.len() && strings_view(excluded@)[j] == name@;
            assert(excluded@[j]@ == name@);
        }
    }
    false
}

/// The names that are not excluded, in the order given.
pub fn filter_streams(names: &Vec<String>, excluded: &Vec<String>) -> (r: Vec<String>)
    ensures
        strings_view(r@) == kept_streams(strings_view(names@), strings_view(excluded@)),
{
    let mut out: Vec<String> = Vec::new();
    let mut i: usize = 0;
    while i < names.len()
        invariant
            i <= names@.len(),
            strings_view(out@) == kept_streams(
                strings_view(names@).take(i as int),
                strings_view(excluded@),
            ),
        decreases names@.len() - i,
    {
        let ghost before = out@;
        let ghost pre = strings_view(names@).take(i as int + 1);
        assert(pre.drop_last() =~= strings_view(names@).take(i as int));
        assert(pre.last() == names@[i as int]@);
        if !is_excluded(&names[i], excluded) {
            out.push(names[i].clone());
            assert(strings_view(out@) =~= strings_view(before).push(names@[i as int]@));
        }
        i = i + 1;
    }
    assert(strings_view(names@).take(names@.len() as int) =~= strings_view(names@));
    out
}

/// A kept name is one of the given names that is not excluded, and each such
/// name is kept.
pub proof fn lemma_kept_streams_members(names: Seq<Seq<char>>, excluded: Seq<Seq<char>>, n: Seq<char>)
    ensures
        kept_streams(names, excluded).contains(n) <==> (names.contains(n) && !excluded.contains(n)),
    decreases names.len(),
{
    if names.len() > 0 {
        let front = names.drop_last();
        lemma_kept_streams_members(front, excluded, n);
        let rest = kept_streams(front, excluded);
        if names.contains(n) && n != names.last() {
            let j = choose|j: int| 0 <= j < names.len() && names[j] == n;
            assert(front[j] == n);
        }
        if front.contains(n) {
            let j = choose|j: int| 0 <= j < front.len() && front[j] == n;
            assert(names[j] == n);
        }
        assert(names[names.len() - 1] == names.last());
        if !excluded.contains(names.last()) {
            assert(rest.push(names.last())[rest.len() as int] == names.last());
            if rest.contains(n) {
                let j = choose|j: int| 0 <= j < rest.len() && rest[j] == n;
                assert(rest.push(names.last())[j] == n);
            }
            if rest.push(names.last()).contains(n) && n != names.last() {
                let j = choose|j: int| 0 <= j < rest.len() + 1 && rest.push(names.last())[j] == n;
                assert(rest[j] == n);
            }
        }
    }
}

/// Filtering a filtered sequence again with the same exclusions changes
/// nothing.
pub proof fn lemma_filter_idempotent(names: Seq<Seq<char>>, excluded: Seq<Seq<char>>)
    ensures
        kept_streams(kept_streams(names, excluded), excluded) == kept_streams(names, excluded),
    decreases names.len(),
{
    if names.len() > 0 {
        let front = names.drop_last();
        lemma_filter_idempotent(front, excluded);
        let rest = kept_streams(front, excluded);
        if !excluded.contains(names.last()) {
            let k = rest.push(names.last());
            assert(k.drop_last() =~= rest);
            assert(k.last() == names.last());
        }
    }
}

/// Filtering keeps order: the names kept from a concatenation are those kept
/// from its first part followed by those kept from its second.
pub proof fn lemma_filter_keeps_order(a: Seq<Seq<char>>, b: Seq<Seq<char>>, excluded: Seq<Seq<char>>)
    ensures
        kept_streams(a + b, excluded) == kept_streams(a, excluded) + kept_streams(b, excluded),
    decreases b.len(),
{
    if b.len() == 0 {
        assert(a + b =~= a);
        assert(kept_streams(a, excluded) + Seq::<Seq<char>>::empty() =~= kept_streams(a, excluded));
    } else {
        lemma_filter_keeps_order(a, b.drop_last(), excluded);
        assert((a + b).drop_last() =~= a + b.drop_last());
        assert((a + b).last() == b.last());
        let ka = kept_streams(a, excluded);
        let kb = kept_streams(b.drop_last(), excluded);
        assert((ka + kb).push(b.last()) =~= ka + kb.push(b.last()));
    }
}

} // verus!
