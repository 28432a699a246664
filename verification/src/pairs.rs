//! Fixed tables of `(key, value)` text pairs, and finding a key in one.

use vstd::prelude::*;

use crate::text::str_eq;

verus! {

pub open spec fn pairs_view(t: Seq<(&'static str, &'static str)>) -> Seq<(Seq<char>, Seq<char>)> {
    Seq::new(t.len(), |i: int| (t[i].0@, t[i].1@))
}

/// The value of the first entry whose key is `key`.
pub open spec fn pair_lookup(t: Seq<(Seq<char>, Seq<char>)>, key: Seq<char>) -> Option<Seq<char>>
    decreases t.len(),
{
    if t.len() == 0 {
        None
    } else if t[0].0 == key {
        Some(t[0].1)
    } else {
        pair_lookup(t.drop_first(), key)
    }
}

/// The value of the first entry whose key is `key`.
pub fn lookup_pair(t: &Vec<(&'static str, &'static str)>, key: &str) -> (r: Option<&'static str>)
    ensures
        match r {
            Some(v) => pair_lookup(pairs_view(t@), key@) == Some(v@),
            None => pair_lookup(pairs_view(t@), key@) is None,
        },
{
    let ghost all = pairs_view(t@);
    let mut i: usize = 0;
    assert(all.skip(0) =~= all);
    while i < t.len()
        invariant
            i <= t@.len(),
            all == pairs_view(t@),
            pair_lookup(all, key@) == pair_lookup(all.skip(i as int), key@),
        decreases t.len() - i,
    {
        let ghost rest = all.skip(i as int);
        assert(rest[0] == all[i as int]);
        assert(rest.drop_first() =~= all.skip(i + 1));
        if str_eq(t[i].0, key) {
            return Some(t[i].1);
        }
        i += 1;
    }
    assert(all.skip(i as int).len() == 0);
    None
}

} // verus!
