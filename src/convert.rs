//! Conversions between the table and native sequences and string-keyed
//! association lists.
use vstd::prelude::*;

use crate::array::{
    coerce, empty_array, has_nul, key_string, store_outcome, ArrayView, Key, ZendHashTable,
    HT_MAX_SIZE,
};
use crate::boxed::ZBox;
use crate::error::{Error, Result};
use crate::numeric::numeric_key;
use crate::zval::{FromZval, IntoZval, Zval, ZvalView};

verus! {

/// Converting each value in order, stopping at the first failure.
pub open spec fn convert_all<T: IntoZval>(vs: Seq<T::V>) -> Result<Seq<ZvalView>>
    decreases vs.len(),
{
    if vs.len() == 0 {
        Ok(Seq::empty())
    } else {
        match convert_all::<T>(vs.drop_last()) {
            Err(e) => Err(e),
            Ok(zs) => match T::zval_of(vs.last()) {
                Ok(z) => Ok(zs.push(z)),
                Err(e) => Err(e),
            },
        }
    }
}

/// The table whose entries are `zs` under the keys 0, 1, 2, ...
pub open spec fn array_of_list(zs: Seq<ZvalView>) -> ArrayView {
    ArrayView {
        entries: Seq::new(zs.len(), |i: int| (Key::Index(i as i64), zs[i])),
        next_free: zs.len() as i64,
    }
}

/// What turning a sequence into a table gives: each element is pushed.
pub open spec fn array_from_seq<T: IntoZval>(vs: Seq<T::V>) -> Result<ArrayView> {
    if vs.len() > HT_MAX_SIZE {
        Err(Error::IntegerOverflow)
    } else {
        match convert_all::<T>(vs) {
            Ok(zs) => Ok(array_of_list(zs)),
            Err(e) => Err(e),
        }
    }
}

/// Reading each value as a `T` in order, stopping at the first that does
/// not convert.
pub open spec fn read_all<T: FromZval>(zs: Seq<ZvalView>) -> Result<Seq<T::V>>
    decreases zs.len(),
{
    if zs.len() == 0 {
        Ok(Seq::empty())
    } else {
        match read_all::<T>(zs.drop_last()) {
            Err(e) => Err(e),
            Ok(vs) => match T::value_of(zs.last()) {
                Some(v) => Ok(vs.push(v)),
                None => Err(Error::ValueConversion(zs.last().data_type())),
            },
        }
    }
}

/// Reading each entry as a string key and a `T`, in order, stopping at the
/// first value that does not convert.
pub open spec fn read_pairs<T: FromZval>(es: Seq<(Key, ZvalView)>) -> Result<
    Seq<(Seq<char>, T::V)>,
>
    decreases es.len(),
{
    if es.len() == 0 {
        Ok(Seq::empty())
    } else {
        match read_pairs::<T>(es.drop_last()) {
            Err(e) => Err(e),
            Ok(ps) => match T::value_of(es.last().1) {
                Some(v) => Ok(ps.push((key_string(es.last().0), v))),
                None => Err(Error::ValueConversion(es.last().1.data_type())),
            },
        }
    }
}

/// Inserting each pair in order into `t`, stopping at the first failure.
pub open spec fn insert_all<T: IntoZval>(t: ArrayView, ps: Seq<(Seq<char>, T::V)>) -> Result<
    ArrayView,
>
    decreases ps.len(),
{
    if ps.len() == 0 {
        Ok(t)
    } else {
        match insert_all::<T>(t, ps.drop_last()) {
            Err(e) => Err(e),
            Ok(t1) => store_outcome(t1, coerce(Key::Name(ps.last().0)), T::zval_of(ps.last().1)),
        }
    }
}

/// What turning string-keyed pairs into a table gives.
pub open spec fn array_from_pairs<T: IntoZval>(ps: Seq<(Seq<char>, T::V)>) -> Result<ArrayView> {
    if ps.len() > HT_MAX_SIZE {
        Err(Error::IntegerOverflow)
    } else {
        insert_all::<T>(empty_array(), ps)
    }
}

/// The views of the elements of a sequence.
pub open spec fn views<T: View>(s: Seq<T>) -> Seq<T::V> {
    s.map_values(|x: T| x@)
}

/// The views of string-keyed pairs.
pub open spec fn pair_views<T: View>(s: Seq<(String, T)>) -> Seq<(Seq<char>, T::V)> {
    s.map_values(|p: (String, T)| (p.0@, p.1@))
}

impl ZendHashTable {
    /// Builds a table from a sequence: the elements are pushed in order, so
    /// they take the keys 0, 1, 2, ...
    pub fn from_vec<T: IntoZval>(v: Vec<T>) -> (r: Result<ZBox<ZendHashTable>>)
        ensures
            match array_from_seq::<T>(views(v@)) {
                Ok(t) => r is Ok && r->Ok_0@.well_formed() && r->Ok_0@@ == t,
                Err(e) => r is Err && r->Err_0 == e,
            },
    {
        let ghost vs = views(v@);
        if v.len() > HT_MAX_SIZE {
            return Err(Error::IntegerOverflow);
        }
        let mut ht = ZendHashTable::with_capacity(v.len() as u32);
        let ghost mut zs: Seq<ZvalView> = Seq::empty();
        assert(ht@@.entries =~= array_of_list(zs).entries);
        assert(vs.take(0) =~= Seq::<T::V>::empty());
        for x in it: v
            invariant
                vs == views(it.seq()),
                it.seq().len() <= HT_MAX_SIZE,
                ht@.well_formed(),
                convert_all::<T>(vs.take(it.index() as int)) == Ok::<Seq<ZvalView>, Error>(zs),
                zs.len() == it.index(),
                ht@@ == array_of_list(zs),
        {
            let ghost i = it.index() as int;
            assert(vs.take(i + 1).drop_last() =~= vs.take(i));
            assert(vs[i] == x@);
            let z = match x.into_zval() {
                Ok(z) => z,
                Err(e) => {
                    proof {
                        lemma_convert_all_prefix_err::<T>(vs, i + 1);
                    }
                    return Err(e);
                },
            };
            let ghost zv = z@;
            proof {
                let t = ht@@;
                assert(!t.has(Key::Index(zs.len() as i64))) by {
                    if t.has(Key::Index(zs.len() as i64)) {
                        let p = t.pos(Key::Index(zs.len() as i64));
                        assert(t.entries[p].0 == Key::Index(p as i64));
                    }
                }
            }
            let res = ht.push(z);
            proof {
                assert(res is Ok);
                zs = zs.push(zv);
                assert(ht@@.entries =~= array_of_list(zs).entries);
            }
        }
        proof {
            assert(vs.take(vs.len() as int) =~= vs);
        }
        Ok(ht)
    }

    /// Reads the values, in order, as a sequence of `T`; keys are dropped.
    /// Fails on the first value that does not convert.
    pub fn to_vec<T: FromZval>(&self) -> (r: Result<Vec<T>>)
        ensures
            match read_all::<T>(self@.values()) {
                Ok(vs) => r is Ok && views(r->Ok_0@) == vs,
                Err(e) => r is Err && r->Err_0 == e,
            },
    {
        let ghost zs = self@.values();
        let mut out: Vec<T> = Vec::new();
        let mut it = self.values();
        let ghost n = zs.len() as int;
        let ghost mut i: int = 0;
        assert(zs.take(0) =~= Seq::<ZvalView>::empty());
        assert(views(out@) =~= Seq::<T::V>::empty());
        loop
            invariant
                zs == self@.values(),
                n == zs.len(),
                0 <= i <= n,
                it@ == zs.subrange(i, n),
                read_all::<T>(zs.take(i)) == Ok::<Seq<T::V>, Error>(views(out@)),
            ensures
                zs == self@.values(),
                i == n,
                read_all::<T>(zs.take(i)) == Ok::<Seq<T::V>, Error>(views(out@)),
            decreases n - i,
        {
            let z = match it.next() {
                Some(z) => z,
                None => {
                    break;
                },
            };
            assert(z@ == zs[i]);
            assert(zs.take(i + 1).drop_last() =~= zs.take(i));
            match T::from_zval(z) {
                Some(x) => {
                    let ghost before = out@;
                    let ghost xv = x@;
                    out.push(x);
                    assert(views(out@) =~= views(before).push(xv));
                },
                None => {
                    proof {
                        assert(zs.take(i + 1).last() == zs[i]);
                        assert(T::value_of(zs[i]) is None);
                        assert(read_all::<T>(zs.take(i + 1)) == Err::<Seq<T::V>, Error>(
                            Error::ValueConversion(zs[i].data_type()),
                        ));
                        lemma_read_all_prefix_err::<T>(zs, i + 1);
                    }
                    let ty = z.get_type();
                    assert(ty == zs[i].data_type());
                    return Err(Error::ValueConversion(ty));
                },
            }
            proof {
                i = i + 1;
            }
            assert(it@ =~= zs.subrange(i, n));
        }
        assert(zs.take(n) =~= zs);
        Ok(out)
    }
}

proof fn lemma_convert_all_prefix_err<T: IntoZval>(vs: Seq<T::V>, k: int)
    requires
        0 <= k <= vs.len(),
        convert_all::<T>(vs.take(k)) is Err,
    ensures
        convert_all::<T>(vs) == convert_all::<T>(vs.take(k)),
    decreases vs.len() - k,
{
    if k < vs.len() {
        assert(vs.take(k + 1).drop_last() =~= vs.take(k));
        lemma_convert_all_prefix_err::<T>(vs, k + 1);
    } else {
        assert(vs.take(k) =~= vs);
    }
}

proof fn lemma_read_all_prefix_err<T: FromZval>(zs: Seq<ZvalView>, k: int)
    requires
        0 <= k <= zs.len(),
        read_all::<T>(zs.take(k)) is Err,
    ensures
        read_all::<T>(zs) == read_all::<T>(zs.take(k)),
    decreases zs.len() - k,
{
    if k < zs.len() {
        assert(zs.take(k + 1).drop_last() =~= zs.take(k));
        lemma_read_all_prefix_err::<T>(zs, k + 1);
    } else {
        assert(zs.take(k) =~= zs);
    }
}

proof fn lemma_insert_all_prefix_err<T: IntoZval>(
    t: ArrayView,
    ps: Seq<(Seq<char>, T::V)>,
    k: int,
)
    requires
        0 <= k <= ps.len(),
        insert_all::<T>(t, ps.take(k)) is Err,
    ensures
        insert_all::<T>(t, ps) == insert_all::<T>(t, ps.take(k)),
    decreases ps.len() - k,
{
    if k < ps.len() {
        assert(ps.take(k + 1).drop_last() =~= ps.take(k));
        lemma_insert_all_prefix_err::<T>(t, ps, k + 1);
    } else {
        assert(ps.take(k) =~= ps);
    }
}

proof fn lemma_read_pairs_prefix_err<T: FromZval>(es: Seq<(Key, ZvalView)>, k: int)
    requires
        0 <= k <= es.len(),
        read_pairs::<T>(es.take(k)) is Err,
    ensures
        read_pairs::<T>(es) == read_pairs::<T>(es.take(k)),
    decreases es.len() - k,
{
    if k < es.len() {
        assert(es.take(k + 1).drop_last() =~= es.take(k));
        lemma_read_pairs_prefix_err::<T>(es, k + 1);
    } else {
        assert(es.take(k) =~= es);
    }
}

impl ZendHashTable {
    /// Builds a table from string-keyed pairs, inserted in order; a key that
    /// spells an integer is stored as that integer.
    pub fn from_pairs<T: IntoZval>(pairs: Vec<(String, T)>) -> (r: Result<ZBox<ZendHashTable>>)
        ensures
            match array_from_pairs::<T>(pair_views(pairs@)) {
                Ok(t) => r is Ok && r->Ok_0@.well_formed() && r->Ok_0@@ == t,
                Err(e) => r is Err && r->Err_0 == e,
            },
    {
        let ghost ps = pair_views(pairs@);
        if pairs.len() > HT_MAX_SIZE {
            return Err(Error::IntegerOverflow);
        }
        let mut ht = ZendHashTable::with_capacity(pairs.len() as u32);
        assert(ps.take(0) =~= Seq::<(Seq<char>, T::V)>::empty());
        for p in it: pairs
            invariant
                ps == pair_views(it.seq()),
                ps.len() <= HT_MAX_SIZE,
                ht@.well_formed(),
                insert_all::<T>(empty_array(), ps.take(it.index() as int)) == Ok::<ArrayView, Error>(
                    ht@@,
                ),
        {
            let ghost i = it.index() as int;
            assert(ps.take(i + 1).drop_last() =~= ps.take(i));
            assert(ps[i] == (p.0@, p.1@));
            assert(ps.take(i + 1).last() == ps[i]);
            let (k, x) = p;
            match ht.insert(k, x) {
                Ok(()) => {},
                Err(e) => {
                    proof {
                        assert(insert_all::<T>(empty_array(), ps.take(i + 1)) == Err::<ArrayView, Error>(e));
                        lemma_insert_all_prefix_err::<T>(empty_array(), ps, i + 1);
                    }
                    return Err(e);
                },
            }
        }
        assert(ps.take(ps.len() as int) =~= ps);
        Ok(ht)
    }

    /// Reads the entries, in order, as pairs of the key's string form and a
    /// `T`. Fails on the first value that does not convert.
    pub fn to_pairs<T: FromZval>(&self) -> (r: Result<Vec<(String, T)>>)
        ensures
            match read_pairs::<T>(self@.entries) {
                Ok(ps) => r is Ok && pair_views(r->Ok_0@) == ps,
                Err(e) => r is Err && r->Err_0 == e,
            },
    {
        let ghost es = self@.entries;
        let mut out: Vec<(String, T)> = Vec::new();
        let mut it = self.iter();
        let ghost n = es.len() as int;
        let ghost mut i: int = 0;
        assert(es.take(0) =~= Seq::<(Key, ZvalView)>::empty());
        assert(pair_views(out@) =~= Seq::<(Seq<char>, T::V)>::empty());
        loop
            invariant
                es == self@.entries,
                n == es.len(),
                0 <= i <= n,
                it@ == es.subrange(i, n),
                read_pairs::<T>(es.take(i)) == Ok::<Seq<(Seq<char>, T::V)>, Error>(pair_views(out@)),
            ensures
                i == n,
                read_pairs::<T>(es.take(i)) == Ok::<Seq<(Seq<char>, T::V)>, Error>(pair_views(out@)),
            decreases n - i,
        {
            let (k, z) = match it.next() {
                Some(e) => e,
                None => {
                    break;
                },
            };
            assert((k@, z@) == es[i]);
            assert(es.take(i + 1).drop_last() =~= es.take(i));
            assert(es.take(i + 1).last() == es[i]);
            match T::from_zval(z) {
                Some(x) => {
                    let ghost before = out@;
                    let ghost xv = x@;
                    let ks = k.to_string();
                    let ghost kv = ks@;
                    out.push((ks, x));
                    assert(pair_views(out@) =~= pair_views(before).push((kv, xv)));
                },
                None => {
                    proof {
                        lemma_read_pairs_prefix_err::<T>(es, i + 1);
                    }
                    return Err(Error::ValueConversion(z.get_type()));
                },
            }
            proof {
                i = i + 1;
            }
            assert(it@ =~= es.subrange(i, n));
        }
        assert(es.take(n) =~= es);
        Ok(out)
    }
}

/// Whether a value type converts into a tagged value and back unchanged.
pub open spec fn round_trips<T: IntoZval + FromZval>() -> bool {
    forall|x: <T as View>::V|
        #[trigger] T::zval_of(x) is Ok && T::value_of(T::zval_of(x)->Ok_0) == Some(x)
}

proof fn lemma_convert_read<T: IntoZval + FromZval>(vs: Seq<<T as View>::V>)
    requires
        round_trips::<T>(),
    ensures
        convert_all::<T>(vs) matches Ok(zs) && zs.len() == vs.len() && read_all::<T>(zs) == Ok::<
            Seq<<T as View>::V>,
            Error,
        >(vs),
    decreases vs.len(),
{
    if vs.len() > 0 {
        lemma_convert_read::<T>(vs.drop_last());
        let zs = convert_all::<T>(vs.drop_last())->Ok_0;
        let z = T::zval_of(vs.last())->Ok_0;
        assert(zs.push(z).drop_last() =~= zs);
        assert(vs.drop_last().push(vs.last()) =~= vs);
    } else {
        assert(vs =~= Seq::<<T as View>::V>::empty());
    }
}

/// A sequence turned into a table and read back as a sequence is the same
/// sequence, for any element type whose values convert to a tagged value and
/// back unchanged.
pub proof fn lemma_seq_round_trip<T: IntoZval + FromZval>(vs: Seq<<T as View>::V>)
    requires
        vs.len() <= HT_MAX_SIZE,
        round_trips::<T>(),
    ensures
        array_from_seq::<T>(vs) matches Ok(t) && read_all::<T>(t.values()) == Ok::<
            Seq<<T as View>::V>,
            Error,
        >(vs),
{
    lemma_convert_read::<T>(vs);
    let zs = convert_all::<T>(vs)->Ok_0;
    assert(array_of_list(zs).values() =~= zs);
}

/// Whether the string keys are distinct, none spells an integer and none
/// holds a nul.
pub open spec fn plain_distinct_keys<V>(ps: Seq<(Seq<char>, V)>) -> bool {
    &&& forall|i: int, j: int|
        0 <= i < ps.len() && 0 <= j < ps.len() && i != j ==> (#[trigger] ps[i]).0 != (
        #[trigger] ps[j]).0
    &&& forall|i: int|
        0 <= i < ps.len() ==> numeric_key((#[trigger] ps[i]).0) is None && !has_nul(ps[i].0)
}

proof fn lemma_insert_all_plain<T: IntoZval + FromZval>(ps: Seq<(Seq<char>, <T as View>::V)>)
    requires
        ps.len() <= HT_MAX_SIZE,
        round_trips::<T>(),
        plain_distinct_keys(ps),
    ensures
        insert_all::<T>(empty_array(), ps) matches Ok(t) && t.next_free == 0 && t.entries == Seq::new(
            ps.len(),
            |i: int| (Key::Name(ps[i].0), T::zval_of(ps[i].1)->Ok_0),
        ) && read_pairs::<T>(t.entries) == Ok::<Seq<(Seq<char>, <T as View>::V)>, Error>(ps),
    decreases ps.len(),
{
    if ps.len() > 0 {
        let init = ps.drop_last();
        assert(plain_distinct_keys(init)) by {
            assert forall|i: int, j: int|
                0 <= i < init.len() && 0 <= j < init.len() && i != j implies (#[trigger] init[i]).0
                != (#[trigger] init[j]).0 by {
                assert(init[i] == ps[i] && init[j] == ps[j]);
            }
            assert forall|i: int| 0 <= i < init.len() implies numeric_key((#[trigger] init[i]).0)
                is None && !has_nul(init[i].0) by {
                assert(init[i] == ps[i]);
            }
        }
        lemma_insert_all_plain::<T>(init);
        let t = insert_all::<T>(empty_array(), init)->Ok_0;
        let last = ps.last();
        let n = init.len() as int;
        assert(ps[n] == last);
        assert(numeric_key(last.0) is None && !has_nul(last.0));
        assert(coerce(Key::Name(last.0)) == Key::Name(last.0));
        assert(!t.has(Key::Name(last.0))) by {
            if t.has(Key::Name(last.0)) {
                let p = t.pos(Key::Name(last.0));
                assert(t.entries[p].0 == Key::Name(ps[p].0));
                assert(ps[p].0 != ps[n].0);
            }
        }
        let z = T::zval_of(last.1)->Ok_0;
        let t2 = t.put(Key::Name(last.0), z);
        assert(t2.entries =~= Seq::new(
            ps.len(),
            |i: int| (Key::Name(ps[i].0), T::zval_of(ps[i].1)->Ok_0),
        ));
        assert(t2.entries.drop_last() =~= t.entries);
        assert(init.push(last) =~= ps);
    } else {
        assert(empty_array().entries =~= Seq::new(
            ps.len(),
            |i: int| (Key::Name(ps[i].0), T::zval_of(ps[i].1)->Ok_0),
        ));
        assert(ps =~= Seq::<(Seq<char>, <T as View>::V)>::empty());
    }
}

/// String-keyed pairs turned into a table and read back as pairs are the
/// same pairs, when the keys are distinct, none spells an integer or holds
/// a nul, and the values convert to a tagged value and back unchanged.
pub proof fn lemma_pairs_round_trip<T: IntoZval + FromZval>(ps: Seq<(Seq<char>, <T as View>::V)>)
    requires
        ps.len() <= HT_MAX_SIZE,
        round_trips::<T>(),
        plain_distinct_keys(ps),
    ensures
        array_from_pairs::<T>(ps) matches Ok(t) && read_pairs::<T>(t.entries) == Ok::<
            Seq<(Seq<char>, <T as View>::V)>,
            Error,
        >(ps),
{
    lemma_insert_all_plain::<T>(ps);
}

} // verus!
