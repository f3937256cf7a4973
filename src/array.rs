//! The host's insertion-ordered associative array, keyed by integers or
//! strings, holding tagged values.
use vstd::prelude::*;

use crate::boxed::ZBox;
use crate::error::{Error, Result};
use crate::numeric::{decimal, decimal_string, numeric_key, parse_numeric_key};
use crate::zval::{FromZval, IntoZval, Zval, ZvalView};

verus! {

/// The slot count a table starts with.
pub const HT_MIN_SIZE: u32 = 8;

/// The most entries a table can hold.
pub const HT_MAX_SIZE: usize = 0x4000_0000;

/// A key of the table, as the model sees it.
pub enum Key {
    Index(i64),
    Name(Seq<char>),
}

/// The key that the host uses for a key given by a caller: a string that
/// spells an integer canonically stands for that integer.
pub open spec fn coerce(k: Key) -> Key {
    match k {
        Key::Index(i) => Key::Index(i),
        Key::Name(s) => match numeric_key(s) {
            Some(n) => Key::Index(n),
            None => Key::Name(s),
        },
    }
}

/// Whether a string holds a nul character.
pub open spec fn has_nul(s: Seq<char>) -> bool {
    exists|i: int| 0 <= i < s.len() && s[i] == '\0'
}

/// The next free integer key after storing under `k`.
pub open spec fn bump(next: i64, k: Key) -> i64 {
    match k {
        Key::Index(h) => if h >= next {
            if h < i64::MAX {
                (h + 1) as i64
            } else {
                i64::MAX
            }
        } else {
            next
        },
        Key::Name(_) => next,
    }
}

/// Whether a key is a string holding a nul character.
pub open spec fn nul_name(k: Key) -> bool {
    match k {
        Key::Name(s) => has_nul(s),
        Key::Index(_) => false,
    }
}

/// What storing a converted value under the coerced key `k` gives: the
/// conversion's error, an error for a key the host cannot take or for a
/// table without room, or the new table.
pub open spec fn store_outcome(t: ArrayView, k: Key, v: Result<ZvalView>) -> Result<ArrayView> {
    match v {
        Err(e) => Err(e),
        Ok(z) => if nul_name(k) {
            Err(Error::InvalidKey)
        } else if t.full_for(k) {
            Err(Error::IntegerOverflow)
        } else {
            Ok(t.put(k, z))
        },
    }
}

/// What pushing a converted value gives.
pub open spec fn push_outcome(t: ArrayView, v: Result<ZvalView>) -> Result<ArrayView> {
    match v {
        Err(e) => Err(e),
        Ok(z) => if t.push_blocked() {
            Err(Error::IntegerOverflow)
        } else {
            Ok(t.pushed(z))
        },
    }
}

/// Mathematical model of a table: its entries in insertion order and the
/// integer key that the next push takes.
pub struct ArrayView {
    pub entries: Seq<(Key, ZvalView)>,
    pub next_free: i64,
}

/// The model of a new, empty table.
pub open spec fn empty_array() -> ArrayView {
    ArrayView { entries: Seq::empty(), next_free: 0 }
}

impl ArrayView {
    pub open spec fn len(self) -> nat {
        self.entries.len()
    }

    /// Whether some entry has key `k`.
    pub open spec fn has(self, k: Key) -> bool {
        exists|i: int| 0 <= i < self.entries.len() && self.entries[i].0 == k
    }

    /// The position of the entry with key `k`.
    pub open spec fn pos(self, k: Key) -> int {
        choose|i: int| 0 <= i < self.entries.len() && self.entries[i].0 == k
    }

    /// The value stored under `k`.
    pub open spec fn lookup(self, k: Key) -> Option<ZvalView> {
        if self.has(k) {
            Some(self.entries[self.pos(k)].1)
        } else {
            None
        }
    }

    /// The values in insertion order.
    pub open spec fn values(self) -> Seq<ZvalView> {
        self.entries.map_values(|e: (Key, ZvalView)| e.1)
    }

    /// The table after storing `v` under `k`: an entry with that key keeps
    /// its place and takes the new value, else the pair goes last.
    pub open spec fn put(self, k: Key, v: ZvalView) -> ArrayView {
        if self.has(k) {
            ArrayView {
                entries: self.entries.update(self.pos(k), (k, v)),
                next_free: bump(self.next_free, k),
            }
        } else {
            ArrayView { entries: self.entries.push((k, v)), next_free: bump(self.next_free, k) }
        }
    }

    /// The table without the entry of key `k`.
    pub open spec fn delete(self, k: Key) -> ArrayView {
        if self.has(k) {
            ArrayView { entries: self.entries.remove(self.pos(k)), next_free: self.next_free }
        } else {
            self
        }
    }

    /// Whether storing under `k` would need a slot past the maximum.
    pub open spec fn full_for(self, k: Key) -> bool {
        !self.has(k) && self.len() >= HT_MAX_SIZE
    }

    /// The table after a push of `v`.
    pub open spec fn pushed(self, v: ZvalView) -> ArrayView {
        self.put(Key::Index(self.next_free), v)
    }

    /// Whether a push cannot find a free slot.
    pub open spec fn push_blocked(self) -> bool {
        self.full_for(Key::Index(self.next_free)) || self.has(Key::Index(self.next_free))
    }

    /// Whether every key is an integer.
    pub open spec fn numerical_keys(self) -> bool {
        forall|i: int| 0 <= i < self.entries.len() ==> (#[trigger] self.entries[i]).0 is Index
    }

    /// Whether the keys are exactly 0, 1, 2, ... in order.
    pub open spec fn sequential_keys(self) -> bool {
        forall|i: int|
            0 <= i < self.entries.len() ==> (#[trigger] self.entries[i]).0 == Key::Index(i as i64)
    }

    /// What the table holds at all times: distinct keys, string keys that
    /// are neither integers in disguise nor hold a nul, integer keys below
    /// the next free one, and no more entries than the maximum.
    pub open spec fn valid(self) -> bool {
        &&& forall|i: int, j: int|
            0 <= i < self.entries.len() && 0 <= j < self.entries.len() && i != j
                ==> (#[trigger] self.entries[i]).0 != (#[trigger] self.entries[j]).0
        &&& forall|i: int|
            0 <= i < self.entries.len() ==> match (#[trigger] self.entries[i]).0 {
                Key::Index(h) => h < self.next_free || self.next_free == i64::MAX,
                Key::Name(s) => numeric_key(s) is None && !has_nul(s),
            }
        &&& self.next_free >= 0
        &&& self.entries.len() <= HT_MAX_SIZE
    }
}

/// A key as a caller gives it or as iteration hands it out.
#[derive(Debug, Clone, PartialEq)]
pub enum ArrayKey<'a> {
    /// An integer key.
    Long(i64),
    /// An owned string key.
    String(String),
    /// A borrowed string key.
    Str(&'a str),
}

impl<'a> View for ArrayKey<'a> {
    type V = Key;

    open spec fn view(&self) -> Key {
        match self {
            ArrayKey::Long(i) => Key::Index(*i),
            ArrayKey::String(s) => Key::Name(s@),
            ArrayKey::Str(s) => Key::Name(s@),
        }
    }
}

/// The string form of a key.
pub open spec fn key_string(k: Key) -> Seq<char> {
    match k {
        Key::Index(n) => decimal(n as int),
        Key::Name(s) => s,
    }
}

impl<'a> ArrayKey<'a> {
    /// The key's string form: an integer key in decimal.
    pub fn to_string(&self) -> (r: String)
        ensures
            r@ == key_string(self@),
    {
        match self {
            ArrayKey::Long(n) => decimal_string(*n),
            ArrayKey::String(s) => s.clone(),
            ArrayKey::Str(s) => (*s).to_owned(),
        }
    }

    /// Whether the key is an integer.
    pub fn is_long(&self) -> (r: bool)
        ensures
            r == (self@ is Index),
    {
        match self {
            ArrayKey::Long(_) => true,
            ArrayKey::String(_) | ArrayKey::Str(_) => false,
        }
    }
}

impl<'a> FromZval for ArrayKey<'a> {
    open spec fn value_of(z: ZvalView) -> Option<Key> {
        match z {
            ZvalView::Long(l) => Some(Key::Index(l)),
            ZvalView::Str(s) => Some(Key::Name(s)),
            _ => None,
        }
    }

    fn from_zval(zval: &Zval) -> (r: Option<ArrayKey<'a>>) {
        match zval {
            Zval::Long(l) => Some(ArrayKey::Long(*l)),
            Zval::Str(s) => Some(ArrayKey::String(s.clone())),
            _ => None,
        }
    }
}

/// Values that can be used as a key of the table.
pub trait IntoArrayKey<'a> {
    spec fn key_view(&self) -> Key;

    fn into_array_key(self) -> (r: ArrayKey<'a>)
        ensures
            r@ == self.key_view(),
    ;
}

impl<'a> IntoArrayKey<'a> for ArrayKey<'a> {
    open spec fn key_view(&self) -> Key {
        self@
    }

    fn into_array_key(self) -> (r: ArrayKey<'a>) {
        self
    }
}

impl<'a> IntoArrayKey<'a> for i64 {
    open spec fn key_view(&self) -> Key {
        Key::Index(*self)
    }

    fn into_array_key(self) -> (r: ArrayKey<'a>) {
        ArrayKey::Long(self)
    }
}

impl<'a> IntoArrayKey<'a> for &'a str {
    open spec fn key_view(&self) -> Key {
        Key::Name(self@)
    }

    fn into_array_key(self) -> (r: ArrayKey<'a>) {
        ArrayKey::Str(self)
    }
}

impl<'a> IntoArrayKey<'a> for String {
    open spec fn key_view(&self) -> Key {
        Key::Name(self@)
    }

    fn into_array_key(self) -> (r: ArrayKey<'a>) {
        ArrayKey::String(self)
    }
}

/// A key after coercion, as the table stores it.
#[derive(Debug)]
enum StoredKey {
    Index(i64),
    Name(String),
}

impl View for StoredKey {
    type V = Key;

    closed spec fn view(&self) -> Key {
        match self {
            StoredKey::Index(i) => Key::Index(*i),
            StoredKey::Name(s) => Key::Name(s@),
        }
    }
}

#[derive(Debug)]
struct Bucket {
    key: StoredKey,
    val: Zval,
}

impl View for Bucket {
    type V = (Key, ZvalView);

    closed spec fn view(&self) -> (Key, ZvalView) {
        (self.key@, self.val@)
    }
}

spec fn bucket_views(s: Seq<Bucket>) -> Seq<(Key, ZvalView)> {
    s.map_values(|b: Bucket| b@)
}

broadcast proof fn lemma_bucket_views_update(s: Seq<Bucket>, i: int, b: Bucket)
    requires
        0 <= i < s.len(),
    ensures
        #[trigger] bucket_views(s.update(i, b)) == bucket_views(s).update(i, b@),
{
    assert(bucket_views(s.update(i, b)) =~= bucket_views(s).update(i, b@));
}

broadcast proof fn lemma_bucket_views_push(s: Seq<Bucket>, b: Bucket)
    ensures
        #[trigger] bucket_views(s.push(b)) == bucket_views(s).push(b@),
{
    assert(bucket_views(s.push(b)) =~= bucket_views(s).push(b@));
}

broadcast proof fn lemma_bucket_views_remove(s: Seq<Bucket>, i: int)
    requires
        0 <= i < s.len(),
    ensures
        #[trigger] bucket_views(s.remove(i)) == bucket_views(s).remove(i),
{
    assert(bucket_views(s.remove(i)) =~= bucket_views(s).remove(i));
}

broadcast proof fn lemma_put_existing_valid(t: ArrayView, k: Key, v: ZvalView)
    requires
        t.valid(),
        t.has(k),
    ensures
        #[trigger] t.put(k, v).valid(),
{
    let p = t.pos(k);
    let t2 = t.put(k, v);
    assert(t2.next_free == t.next_free) by {
        assert(t.entries[p].0 == k);
    }
    assert forall|a: int| 0 <= a < t2.entries.len() implies (#[trigger] t2.entries[a]).0 == t.entries[a].0 by {
        if a == p {
            assert(t.entries[p].0 == k);
        }
    }
    assert forall|a: int, b: int|
        0 <= a < t2.entries.len() && 0 <= b < t2.entries.len() && a != b
            implies (#[trigger] t2.entries[a]).0 != (#[trigger] t2.entries[b]).0 by {
        assert(t2.entries[a].0 == t.entries[a].0);
        assert(t2.entries[b].0 == t.entries[b].0);
    }
    assert forall|a: int| 0 <= a < t2.entries.len() implies match (#[trigger] t2.entries[a]).0 {
        Key::Index(h) => h < t2.next_free || t2.next_free == i64::MAX,
        Key::Name(s) => numeric_key(s) is None && !has_nul(s),
    } by {
        assert(t2.entries[a].0 == t.entries[a].0);
    }
}

fn clone_bucket(b: &Bucket) -> (r: Bucket)
    ensures
        r@ == b@,
{
    let key = match &b.key {
        StoredKey::Index(i) => StoredKey::Index(*i),
        StoredKey::Name(s) => StoredKey::Name(s.clone()),
    };
    Bucket { key, val: b.val.clone() }
}

/// Whether a string holds a nul character.
fn contains_nul(s: &str) -> (r: bool)
    ensures
        r == has_nul(s@),
{
    let n = s.unicode_len();
    let mut i: usize = 0;
    while i < n
        invariant
            i <= n,
            n == s@.len(),
            forall|j: int| 0 <= j < i ==> s@[j] != '\0',
        decreases n - i,
    {
        if s.get_char(i) == '\0' {
            return true;
        }
        i += 1;
    }
    false
}

/// A string key after coercion: the integer it spells, or the string.
fn coerce_str(s: &str) -> (r: StoredKey)
    ensures
        r@ == coerce(Key::Name(s@)),
{
    match parse_numeric_key(s) {
        Some(n) => StoredKey::Index(n),
        None => StoredKey::Name(s.to_owned()),
    }
}

/// A caller's key after coercion.
fn coerce_key(key: ArrayKey) -> (r: StoredKey)
    ensures
        r@ == coerce(key@),
{
    match key {
        ArrayKey::Long(i) => StoredKey::Index(i),
        ArrayKey::String(s) => coerce_str(s.as_str()),
        ArrayKey::Str(s) => coerce_str(s),
    }
}

/// A PHP-style hashtable: an insertion-ordered map from integer or string
/// keys to tagged values.
#[derive(Debug)]
pub struct ZendHashTable {
    buckets: Vec<Bucket>,
    next_free: i64,
}

impl View for ZendHashTable {
    type V = ArrayView;

    closed spec fn view(&self) -> ArrayView {
        ArrayView {
            entries: bucket_views(self.buckets@),
            next_free: self.next_free,
        }
    }
}

impl ZendHashTable {
    /// The table's invariant.
    pub open spec fn well_formed(&self) -> bool {
        self@.valid()
    }

    /// Creates a new, empty table.
    pub fn new() -> (r: ZBox<ZendHashTable>)
        ensures
            r@.well_formed(),
            r@@ == empty_array(),
    {
        Self::with_capacity(HT_MIN_SIZE)
    }

    /// Creates a new, empty table with room for `size` entries.
    pub fn with_capacity(size: u32) -> (r: ZBox<ZendHashTable>)
        ensures
            r@.well_formed(),
            r@@ == empty_array(),
    {
        let cap: usize = if (size as usize) < HT_MAX_SIZE { size as usize } else { HT_MAX_SIZE };
        let t = ZendHashTable { buckets: Vec::with_capacity(cap), next_free: 0 };
        assert(t@.entries =~= Seq::<(Key, ZvalView)>::empty());
        ZBox::new(t)
    }

    /// The number of entries.
    pub fn len(&self) -> (r: usize)
        ensures
            r == self@.len(),
    {
        self.buckets.len()
    }

    /// Whether the table has no entries.
    pub fn is_empty(&self) -> (r: bool)
        ensures
            r == (self@.len() == 0),
    {
        self.len() == 0
    }

    /// Removes every entry.
    pub fn clear(&mut self)
        ensures
            final(self)@ == empty_array(),
    {
        self.buckets.clear();
        self.next_free = 0;
        assert(self@.entries =~= Seq::<(Key, ZvalView)>::empty());
    }

    /// The position of the entry with a stored key.
    fn find(&self, key: &StoredKey) -> (r: Option<usize>)
        requires
            self.well_formed(),
        ensures
            r is Some <==> self@.has(key@),
            r is Some ==> r->Some_0 < self@.len() && r->Some_0 == self@.pos(key@),
    {
        let n = self.buckets.len();
        let mut i: usize = 0;
        while i < n
            invariant
                i <= n,
                n == self.buckets@.len(),
                self.well_formed(),
                forall|j: int| 0 <= j < i ==> self@.entries[j].0 != key@,
            decreases n - i,
        {
            let same = match (&self.buckets[i].key, key) {
                (StoredKey::Index(a), StoredKey::Index(b)) => *a == *b,
                (StoredKey::Name(a), StoredKey::Name(b)) => *a == *b,
                _ => false,
            };
            assert(self@.entries[i as int] == self.buckets@[i as int]@);
            if same {
                proof {
                    assert(self@.entries[i as int].0 == key@);
                    assert(self@.has(key@));
                    let p = self@.pos(key@);
                    assert(self@.entries[p].0 == key@);
                    if p != i as int {
                        assert(self@.entries[i as int].0 != self@.entries[p].0);
                    }
                }
                return Some(i);
            }
            i += 1;
        }
        proof {
            if self@.has(key@) {
                let p = self@.pos(key@);
                assert(self@.entries[p].0 == key@);
            }
        }
        None
    }

    /// The value stored under `key`, after coercion of the key.
    pub fn get<'a, K: IntoArrayKey<'a>>(&self, key: K) -> (r: Option<&Zval>)
        requires
            self.well_formed(),
        ensures
            r is Some <==> self@.has(coerce(key.key_view())),
            r is Some ==> self@.lookup(coerce(key.key_view())) == Some(r->Some_0@),
    {
        let k = coerce_key(key.into_array_key());
        match self.find(&k) {
            Some(i) => Some(&self.buckets[i].val),
            None => None,
        }
    }

    /// The value stored under the integer key `key`.
    pub fn get_index(&self, key: i64) -> (r: Option<&Zval>)
        requires
            self.well_formed(),
        ensures
            r is Some <==> self@.has(Key::Index(key)),
            r is Some ==> self@.lookup(Key::Index(key)) == Some(r->Some_0@),
    {
        match self.find(&StoredKey::Index(key)) {
            Some(i) => Some(&self.buckets[i].val),
            None => None,
        }
    }

    /// A mutable borrow of the value stored under `key`, after coercion of
    /// the key.
    pub fn get_mut<'a, K: IntoArrayKey<'a>>(&mut self, key: K) -> (r: Option<&mut Zval>)
        requires
            old(self).well_formed(),
        ensures
            final(self).well_formed(),
            r is Some <==> old(self)@.has(coerce(key.key_view())),
            r is Some ==> old(self)@.lookup(coerce(key.key_view())) == Some(r->Some_0@),
            r is Some ==> final(self)@ == old(self)@.put(coerce(key.key_view()), (*final(r->Some_0))@),
            r is None ==> final(self)@ == old(self)@,
    {
        broadcast use lemma_bucket_views_update, lemma_put_existing_valid;

        let k = coerce_key(key.into_array_key());
        match self.find(&k) {
            Some(i) => {
                assert(self.buckets@[i as int]@.0 == k@);
                Some(&mut self.buckets[i].val)
            },
            None => None,
        }
    }

    /// A mutable borrow of the value stored under the integer key `key`.
    pub fn get_index_mut(&mut self, key: i64) -> (r: Option<&mut Zval>)
        requires
            old(self).well_formed(),
        ensures
            final(self).well_formed(),
            r is Some <==> old(self)@.has(Key::Index(key)),
            r is Some ==> old(self)@.lookup(Key::Index(key)) == Some(r->Some_0@),
            r is Some ==> final(self)@ == old(self)@.put(Key::Index(key), (*final(r->Some_0))@),
            r is None ==> final(self)@ == old(self)@,
    {
        broadcast use lemma_bucket_views_update, lemma_put_existing_valid;

        let k = StoredKey::Index(key);
        match self.find(&k) {
            Some(i) => {
                assert(self.buckets@[i as int]@.0 == k@);
                Some(&mut self.buckets[i].val)
            },
            None => None,
        }
    }

    /// Stores `v` under a coerced key that the host can take.
    fn store(&mut self, k: StoredKey, v: Zval) -> (r: Result<()>)
        requires
            old(self).well_formed(),
            !nul_name(k@),
            coerce(k@) == k@,
        ensures
            final(self).well_formed(),
            match store_outcome(old(self)@, k@, Ok(v@)) {
                Ok(t) => r is Ok && final(self)@ == t,
                Err(e) => r == Err::<(), Error>(e) && final(self)@ == old(self)@,
            },
    {
        broadcast use lemma_bucket_views_update, lemma_bucket_views_push;

        let next = match &k {
            StoredKey::Index(h) => if *h >= self.next_free {
                if *h < i64::MAX {
                    *h + 1
                } else {
                    i64::MAX
                }
            } else {
                self.next_free
            },
            StoredKey::Name(_) => self.next_free,
        };
        let ghost kv = k@;
        let ghost vv = v@;
        let ghost old_view = self@;
        match self.find(&k) {
            Some(i) => {
                self.buckets.set(i, Bucket { key: k, val: v });
                self.next_free = next;
                proof {
                    assert(self@.entries == old_view.entries.update(i as int, (kv, vv)));
                    assert forall|a: int, b: int|
                        0 <= a < self@.entries.len() && 0 <= b < self@.entries.len() && a != b
                            implies (#[trigger] self@.entries[a]).0 != (#[trigger] self@.entries[b]).0 by {
                        assert(old_view.entries[a].0 == self@.entries[a].0);
                        assert(old_view.entries[b].0 == self@.entries[b].0);
                    }
                    assert forall|a: int| 0 <= a < self@.entries.len() implies match (#[trigger] self@.entries[a]).0 {
                        Key::Index(h) => h < self@.next_free || self@.next_free == i64::MAX,
                        Key::Name(s) => numeric_key(s) is None && !has_nul(s),
                    } by {
                        assert(old_view.entries[a].0 == self@.entries[a].0);
                    }
                }
                Ok(())
            },
            None => {
                if self.buckets.len() >= HT_MAX_SIZE {
                    return Err(Error::IntegerOverflow);
                }
                self.buckets.push(Bucket { key: k, val: v });
                self.next_free = next;
                proof {
                    let n = old_view.entries.len() as int;
                    assert(self@.entries == old_view.entries.push((kv, vv)));
                    assert forall|a: int, b: int|
                        0 <= a < self@.entries.len() && 0 <= b < self@.entries.len() && a != b
                            implies (#[trigger] self@.entries[a]).0 != (#[trigger] self@.entries[b]).0 by {
                        if a < n && b < n {
                            assert(old_view.entries[a] == self@.entries[a]);
                            assert(old_view.entries[b] == self@.entries[b]);
                        } else if a < n {
                            assert(old_view.entries[a] == self@.entries[a]);
                        } else {
                            assert(old_view.entries[b] == self@.entries[b]);
                        }
                    }
                    assert forall|a: int| 0 <= a < self@.entries.len() implies match (#[trigger] self@.entries[a]).0 {
                        Key::Index(h) => h < self@.next_free || self@.next_free == i64::MAX,
                        Key::Name(s) => numeric_key(s) is None && !has_nul(s),
                    } by {
                        if a < n {
                            assert(old_view.entries[a] == self@.entries[a]);
                        }
                    }
                }
                Ok(())
            },
        }
    }

    /// Stores `val` under `key`, after coercion of the key. An entry with
    /// that key keeps its place and takes the new value; otherwise the pair
    /// goes last.
    pub fn insert<'a, K: IntoArrayKey<'a>, V: IntoZval>(&mut self, key: K, val: V) -> (r: Result<()>)
        requires
            old(self).well_formed(),
        ensures
            final(self).well_formed(),
            match store_outcome(old(self)@, coerce(key.key_view()), V::zval_of(val@)) {
                Ok(t) => r is Ok && final(self)@ == t,
                Err(e) => r == Err::<(), Error>(e) && final(self)@ == old(self)@,
            },
    {
        let z = match val.into_zval() {
            Ok(z) => z,
            Err(e) => return Err(e),
        };
        let k = coerce_key(key.into_array_key());
        if let StoredKey::Name(s) = &k {
            if contains_nul(s.as_str()) {
                return Err(Error::InvalidKey);
            }
        }
        proof {
            if let Key::Name(s) = k@ {
                assert(numeric_key(s) is None);
            }
        }
        self.store(k, z)
    }

    /// Stores `val` under the integer key `key`.
    pub fn insert_at_index<V: IntoZval>(&mut self, key: i64, val: V) -> (r: Result<()>)
        requires
            old(self).well_formed(),
        ensures
            final(self).well_formed(),
            match store_outcome(old(self)@, Key::Index(key), V::zval_of(val@)) {
                Ok(t) => r is Ok && final(self)@ == t,
                Err(e) => r == Err::<(), Error>(e) && final(self)@ == old(self)@,
            },
    {
        let z = match val.into_zval() {
            Ok(z) => z,
            Err(e) => return Err(e),
        };
        self.store(StoredKey::Index(key), z)
    }

    /// Appends `val` under the next free integer key.
    pub fn push<V: IntoZval>(&mut self, val: V) -> (r: Result<()>)
        requires
            old(self).well_formed(),
        ensures
            final(self).well_formed(),
            match push_outcome(old(self)@, V::zval_of(val@)) {
                Ok(t) => r is Ok && final(self)@ == t,
                Err(e) => r == Err::<(), Error>(e) && final(self)@ == old(self)@,
            },
    {
        let z = match val.into_zval() {
            Ok(z) => z,
            Err(e) => return Err(e),
        };
        let k = StoredKey::Index(self.next_free);
        if self.find(&k).is_some() {
            return Err(Error::IntegerOverflow);
        }
        self.store(k, z)
    }

    /// Removes the entry of `key`, after coercion of the key. Returns
    /// `Some(())` where there was one.
    pub fn remove<'a, K: IntoArrayKey<'a>>(&mut self, key: K) -> (r: Option<()>)
        requires
            old(self).well_formed(),
        ensures
            final(self).well_formed(),
            r is Some <==> old(self)@.has(coerce(key.key_view())),
            final(self)@ == old(self)@.delete(coerce(key.key_view())),
    {
        let k = coerce_key(key.into_array_key());
        self.remove_stored(&k)
    }

    /// Removes the entry of the integer key `key`. Returns `Some(())` where
    /// there was one.
    pub fn remove_index(&mut self, key: i64) -> (r: Option<()>)
        requires
            old(self).well_formed(),
        ensures
            final(self).well_formed(),
            r is Some <==> old(self)@.has(Key::Index(key)),
            final(self)@ == old(self)@.delete(Key::Index(key)),
    {
        self.remove_stored(&StoredKey::Index(key))
    }

    fn remove_stored(&mut self, k: &StoredKey) -> (r: Option<()>)
        requires
            old(self).well_formed(),
        ensures
            final(self).well_formed(),
            r is Some <==> old(self)@.has(k@),
            final(self)@ == old(self)@.delete(k@),
    {
        broadcast use lemma_bucket_views_remove;

        let ghost old_view = self@;
        match self.find(k) {
            Some(i) => {
                self.buckets.remove(i);
                proof {
                    assert(self@.entries == old_view.entries.remove(i as int));
                    assert forall|a: int, b: int|
                        0 <= a < self@.entries.len() && 0 <= b < self@.entries.len() && a != b
                            implies (#[trigger] self@.entries[a]).0 != (#[trigger] self@.entries[b]).0 by {
                        let a2 = if a < i { a } else { a + 1 };
                        let b2 = if b < i { b } else { b + 1 };
                        assert(old_view.entries[a2] == self@.entries[a]);
                        assert(old_view.entries[b2] == self@.entries[b]);
                    }
                    assert forall|a: int| 0 <= a < self@.entries.len() implies match (#[trigger] self@.entries[a]).0 {
                        Key::Index(h) => h < self@.next_free || self@.next_free == i64::MAX,
                        Key::Name(s) => numeric_key(s) is None && !has_nul(s),
                    } by {
                        let a2 = if a < i { a } else { a + 1 };
                        assert(old_view.entries[a2] == self@.entries[a]);
                    }
                }
                Some(())
            },
            None => None,
        }
    }

    /// Whether every key is an integer.
    pub fn has_numerical_keys(&self) -> (r: bool)
        ensures
            r == self@.numerical_keys(),
    {
        let n = self.buckets.len();
        let mut i: usize = 0;
        while i < n
            invariant
                i <= n,
                n == self@.entries.len(),
                forall|j: int| 0 <= j < i ==> (#[trigger] self@.entries[j]).0 is Index,
            decreases n - i,
        {
            assert(self@.entries[i as int] == self.buckets@[i as int]@);
            match &self.buckets[i].key {
                StoredKey::Index(_) => {},
                StoredKey::Name(_) => {
                    return false;
                },
            }
            i += 1;
        }
        true
    }

    /// Whether the keys are exactly 0, 1, 2, ... in insertion order.
    pub fn has_sequential_keys(&self) -> (r: bool)
        requires
            self.well_formed(),
        ensures
            r == self@.sequential_keys(),
    {
        let n = self.buckets.len();
        let mut i: usize = 0;
        while i < n
            invariant
                i <= n,
                n == self@.entries.len(),
                n <= HT_MAX_SIZE,
                forall|j: int| 0 <= j < i ==> (#[trigger] self@.entries[j]).0 == Key::Index(j as i64),
            decreases n - i,
        {
            assert(self@.entries[i as int] == self.buckets@[i as int]@);
            match &self.buckets[i].key {
                StoredKey::Index(h) => {
                    if *h != i as i64 {
                        return false;
                    }
                },
                StoredKey::Name(_) => {
                    return false;
                },
            }
            i += 1;
        }
        true
    }

    /// A forward and backward walk over the entries.
    pub fn iter(&self) -> (r: Iter<'_>)
        ensures
            r@ == self@.entries,
    {
        Iter::new(self)
    }

    /// A walk over the values, as if the table were a list.
    pub fn values(&self) -> (r: Values<'_>)
        ensures
            r@ == self@.values(),
    {
        Values::new(self)
    }

    /// A copy of the table.
    pub fn to_owned(&self) -> (r: ZBox<ZendHashTable>)
        ensures
            r@@ == self@,
    {
        let n = self.buckets.len();
        let mut buckets: Vec<Bucket> = Vec::with_capacity(n);
        let mut i: usize = 0;
        while i < n
            invariant
                i <= n,
                n == self.buckets@.len(),
                bucket_views(buckets@) == bucket_views(self.buckets@.subrange(0, i as int)),
            decreases n - i,
        {
            let b = clone_bucket(&self.buckets[i]);
            buckets.push(b);
            proof {
                broadcast use lemma_bucket_views_push;

                assert(self.buckets@.subrange(0, i + 1) =~= self.buckets@.subrange(0, i as int).push(
                    self.buckets@[i as int],
                ));
            }
            i += 1;
        }
        assert(self.buckets@.subrange(0, n as int) =~= self.buckets@);
        ZBox::new(ZendHashTable { buckets, next_free: self.next_free })
    }
}

impl Clone for ZBox<ZendHashTable> {
    fn clone(&self) -> (r: Self)
        ensures
            r@@ == self@@,
    {
        ZendHashTable::to_owned(&**self)
    }
}

impl Default for ZBox<ZendHashTable> {
    fn default() -> (r: Self)
        ensures
            r@.well_formed(),
            r@@ == empty_array(),
    {
        ZendHashTable::new()
    }
}

/// The key as the host hands it out in a tagged value.
pub open spec fn key_zval(k: Key) -> ZvalView {
    match k {
        Key::Index(i) => ZvalView::Long(i),
        Key::Name(s) => ZvalView::Str(s),
    }
}

fn out_key<'a>(k: &StoredKey) -> (r: ArrayKey<'a>)
    ensures
        r@ == k@,
{
    match k {
        StoredKey::Index(i) => ArrayKey::Long(*i),
        StoredKey::Name(s) => ArrayKey::String(s.clone()),
    }
}

/// A walk over the entries of a table, from the front, from the back, or
/// both.
pub struct Iter<'a> {
    ht: &'a ZendHashTable,
    current: usize,
    end: usize,
}

impl<'a> Iter<'a> {
    #[verifier::type_invariant]
    spec fn inv(self) -> bool {
        self.current <= self.end <= self.ht.buckets@.len()
    }

    /// The entries not yet handed out, in order.
    pub closed spec fn view(&self) -> Seq<(Key, ZvalView)> {
        self.ht@.entries.subrange(self.current as int, self.end as int)
    }

    /// Creates a walk over all entries of `ht`.
    pub fn new(ht: &'a ZendHashTable) -> (r: Iter<'a>)
        ensures
            r@ == ht@.entries,
    {
        let r = Iter { ht, current: 0, end: ht.buckets.len() };
        assert(r@ =~= ht@.entries);
        r
    }

    /// The number of entries not yet handed out.
    pub fn len(&self) -> (r: usize)
        ensures
            r == self@.len(),
    {
        proof { use_type_invariant(self); }
        self.end - self.current
    }

    /// The number of entries not yet handed out, consuming the walk.
    pub fn count(self) -> (r: usize)
        ensures
            r == self@.len(),
    {
        self.len()
    }

    /// The next entry from the front.
    pub fn next(&mut self) -> (r: Option<(ArrayKey<'a>, &'a Zval)>)
        ensures
            old(self)@.len() == 0 ==> r is None && final(self)@ == old(self)@,
            old(self)@.len() > 0 ==> r is Some && (r->Some_0.0@, r->Some_0.1@) == old(self)@[0]
                && final(self)@ == old(self)@.drop_first(),
    {
        proof { use_type_invariant(&*self); }
        if self.current >= self.end {
            return None;
        }
        let ht: &'a ZendHashTable = self.ht;
        let i = self.current;
        let b = &ht.buckets[i];
        assert(ht@.entries[i as int] == b@);
        self.current = i + 1;
        assert(self@ =~= old(self)@.drop_first());
        Some((out_key(&b.key), &b.val))
    }

    /// The next entry from the back.
    pub fn next_back(&mut self) -> (r: Option<(ArrayKey<'a>, &'a Zval)>)
        ensures
            old(self)@.len() == 0 ==> r is None && final(self)@ == old(self)@,
            old(self)@.len() > 0 ==> r is Some && (r->Some_0.0@, r->Some_0.1@) == old(self)@.last()
                && final(self)@ == old(self)@.drop_last(),
    {
        proof { use_type_invariant(&*self); }
        if self.current >= self.end {
            return None;
        }
        let ht: &'a ZendHashTable = self.ht;
        let i = self.end - 1;
        let b = &ht.buckets[i];
        assert(ht@.entries[i as int] == b@);
        self.end = i;
        assert(self@ =~= old(self)@.drop_last());
        Some((out_key(&b.key), &b.val))
    }

    /// The next entry from the front, with its key as a tagged value.
    pub fn next_zval(&mut self) -> (r: Option<(Zval, &'a Zval)>)
        ensures
            old(self)@.len() == 0 ==> r is None && final(self)@ == old(self)@,
            old(self)@.len() > 0 ==> r is Some && r->Some_0.0@ == key_zval(old(self)@[0].0)
                && r->Some_0.1@ == old(self)@[0].1 && final(self)@ == old(self)@.drop_first(),
    {
        match self.next() {
            Some((ArrayKey::Long(i), v)) => Some((Zval::Long(i), v)),
            Some((ArrayKey::String(s), v)) => Some((Zval::Str(s), v)),
            Some((ArrayKey::Str(s), v)) => Some((Zval::Str(s.to_owned()), v)),
            None => None,
        }
    }
}

/// A walk over the values of a table, as if it were a list.
pub struct Values<'a>(Iter<'a>);

impl<'a> Values<'a> {
    /// The values not yet handed out, in order.
    pub closed spec fn view(&self) -> Seq<ZvalView> {
        self.0@.map_values(|e: (Key, ZvalView)| e.1)
    }

    /// Creates a walk over all values of `ht`.
    pub fn new(ht: &'a ZendHashTable) -> (r: Values<'a>)
        ensures
            r@ == ht@.values(),
    {
        Values(Iter::new(ht))
    }

    /// The number of values not yet handed out.
    pub fn len(&self) -> (r: usize)
        ensures
            r == self@.len(),
    {
        self.0.len()
    }

    /// The number of values not yet handed out, consuming the walk.
    pub fn count(self) -> (r: usize)
        ensures
            r == self@.len(),
    {
        self.0.count()
    }

    /// The next value from the front.
    pub fn next(&mut self) -> (r: Option<&'a Zval>)
        ensures
            old(self)@.len() == 0 ==> r is None && final(self)@ == old(self)@,
            old(self)@.len() > 0 ==> r is Some && r->Some_0@ == old(self)@[0]
                && final(self)@ == old(self)@.drop_first(),
    {
        let ghost before = self.0@;
        let r = match self.0.next() {
            Some((_, v)) => Some(v),
            None => None,
        };
        assert(self@ =~= old(self)@.drop_first() || before.len() == 0);
        r
    }

    /// The next value from the back.
    pub fn next_back(&mut self) -> (r: Option<&'a Zval>)
        ensures
            old(self)@.len() == 0 ==> r is None && final(self)@ == old(self)@,
            old(self)@.len() > 0 ==> r is Some && r->Some_0@ == old(self)@.last()
                && final(self)@ == old(self)@.drop_last(),
    {
        let ghost before = self.0@;
        let r = match self.0.next_back() {
            Some((_, v)) => Some(v),
            None => None,
        };
        assert(self@ =~= old(self)@.drop_last() || before.len() == 0);
        r
    }
}

} // verus!
