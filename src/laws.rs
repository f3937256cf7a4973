//! Properties that relate several operations of the table.
use vstd::prelude::*;

use crate::array::{
    coerce, empty_array, push_outcome, store_outcome, ArrayView, Key, HT_MAX_SIZE,
};
use crate::error::Result;
use crate::numeric::numeric_key;
use crate::zval::ZvalView;

verus! {

/// After storing `v` under a key, looking the key up finds `v`.
proof fn lemma_put_lookup(t: ArrayView, k: Key, v: ZvalView)
    requires
        t.valid(),
    ensures
        t.put(k, v).lookup(k) == Some(v),
{
    let t2 = t.put(k, v);
    if t.has(k) {
        let p = t.pos(k);
        assert(t2.entries[p].0 == k);
        assert(t2.has(k));
        let q = t2.pos(k);
        if q != p {
            assert(t.entries[q].0 == t2.entries[q].0);
            assert(t.entries[q].0 != t.entries[p].0);
        }
    } else {
        let n = t.entries.len() as int;
        assert(t2.entries[n].0 == k);
        assert(t2.has(k));
        let q = t2.pos(k);
        if q != n {
            assert(t.entries[q] == t2.entries[q]);
        }
    }
}

/// Inserting `v` under any key and then getting that key gives `v` back,
/// whenever the insert succeeds.
pub proof fn lemma_insert_then_get(t: ArrayView, k: Key, v: ZvalView)
    requires
        t.valid(),
    ensures
        store_outcome(t, coerce(k), Ok(v)) matches Ok(t2) ==> t2.lookup(coerce(k)) == Some(v),
{
    lemma_put_lookup(t, coerce(k), v);
}

/// A string that spells an integer canonically is the same key as that
/// integer: after inserting under the string, getting the integer key and
/// getting the string both give the value.
pub proof fn lemma_numeric_string_key(t: ArrayView, s: Seq<char>, n: i64, v: ZvalView)
    requires
        t.valid(),
        numeric_key(s) == Some(n),
    ensures
        coerce(Key::Name(s)) == Key::Index(n),
        store_outcome(t, coerce(Key::Name(s)), Ok(v)) matches Ok(t2) ==> t2.lookup(Key::Index(n))
            == Some(v) && t2.lookup(coerce(Key::Name(s))) == t2.lookup(Key::Index(n)),
{
    lemma_put_lookup(t, Key::Index(n), v);
}

/// The table that pushing `zs` one after another onto an empty table gives,
/// or the first error.
pub open spec fn push_all(zs: Seq<ZvalView>) -> Result<ArrayView>
    decreases zs.len(),
{
    if zs.len() == 0 {
        Ok(empty_array())
    } else {
        match push_all(zs.drop_last()) {
            Ok(t) => push_outcome(t, Ok(zs.last())),
            Err(e) => Err(e),
        }
    }
}

proof fn lemma_push_all_shape(zs: Seq<ZvalView>)
    requires
        zs.len() <= HT_MAX_SIZE,
    ensures
        push_all(zs) matches Ok(t) && t.entries == Seq::new(
            zs.len(),
            |i: int| (Key::Index(i as i64), zs[i]),
        ) && t.next_free == zs.len() as i64,
    decreases zs.len(),
{
    if zs.len() > 0 {
        let init = zs.drop_last();
        lemma_push_all_shape(init);
        let t = push_all(init)->Ok_0;
        let n = init.len() as int;
        assert(!t.has(Key::Index(n as i64))) by {
            if t.has(Key::Index(n as i64)) {
                let p = t.pos(Key::Index(n as i64));
                assert(t.entries[p] == (Key::Index(p as i64), init[p]));
            }
        }
        assert(!t.push_blocked());
        let t2 = t.pushed(zs.last());
        assert(t2.entries =~= Seq::new(zs.len(), |i: int| (Key::Index(i as i64), zs[i])));
    } else {
        assert(empty_array().entries =~= Seq::new(
            zs.len(),
            |i: int| (Key::Index(i as i64), zs[i]),
        ));
    }
}

/// An array built by pushes alone has integer keys only, and they run
/// 0, 1, 2, ... without a gap.
pub proof fn lemma_push_only_sequential(zs: Seq<ZvalView>)
    requires
        zs.len() <= HT_MAX_SIZE,
    ensures
        push_all(zs) matches Ok(t) && t.sequential_keys() && t.numerical_keys() && t.len()
            == zs.len(),
{
    lemma_push_all_shape(zs);
}

/// The items that calls of `next` hand out, one after another, until the
/// walk is exhausted.
pub open spec fn front_walk<A>(s: Seq<A>) -> Seq<A>
    decreases s.len(),
{
    if s.len() == 0 {
        Seq::empty()
    } else {
        seq![s[0]] + front_walk(s.drop_first())
    }
}

/// The items that calls of `next_back` hand out, one after another, until
/// the walk is exhausted.
pub open spec fn back_walk<A>(s: Seq<A>) -> Seq<A>
    decreases s.len(),
{
    if s.len() == 0 {
        Seq::empty()
    } else {
        seq![s.last()] + back_walk(s.drop_last())
    }
}

/// Walking from the back yields the items of a walk from the front in
/// reverse order, and a walk from the front yields each remaining entry
/// once, so its count is the length.
pub proof fn lemma_walk_back_is_reverse<A>(s: Seq<A>)
    ensures
        front_walk(s) == s,
        back_walk(s) == front_walk(s).reverse(),
        front_walk(s).len() == s.len(),
    decreases s.len(),
{
    if s.len() > 0 {
        lemma_walk_back_is_reverse(s.drop_first());
        lemma_walk_back_is_reverse(s.drop_last());
        assert(front_walk(s) =~= s);
        assert(back_walk(s) =~= s.reverse());
    } else {
        assert(front_walk(s) =~= s);
        assert(back_walk(s) =~= s.reverse());
    }
}

} // verus!
