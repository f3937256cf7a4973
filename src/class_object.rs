//! Native values carried inside host objects: the carrier's layout, its
//! allocation in the host's object store, and the up-cast from a host
//! object header back to its carrier.
use vstd::layout::{align_of, layout_for_type_is_valid, size_of};
use vstd::prelude::*;

use crate::error::{Error, Result};

verus! {

/// The alignment the host requires of an object header.
pub const HEADER_ALIGN: usize = 8;

/// The size of the host's object header record.
pub const HEADER_SIZE: usize = 56;

/// The address at which the host's object store starts handing out memory.
pub const STORE_BASE: usize = 0x1000;

/// A host class, as the host numbers them.
#[derive(Debug, Clone, Copy, PartialEq, Eq, Structural)]
pub struct ClassEntry {
    pub id: u32,
}

/// The host's object header: the object's class and the address at which
/// the header lies.
#[derive(Debug, Clone, Copy, PartialEq, Eq, Structural)]
pub struct ZendObject {
    pub ce: ClassEntry,
    pub addr: usize,
}

/// A native value carried inside a host object: the payload, absent until
/// initialised, followed by the host's header.
#[derive(Debug)]
pub struct ZendClassObject<T> {
    /// The native value, if initialised.
    pub obj: Option<T>,
    /// The host's header.
    pub std: ZendObject,
}

/// `n` rounded up to a multiple of the header alignment.
pub open spec fn round_up(n: nat) -> nat {
    if n % (HEADER_ALIGN as nat) == 0 {
        n
    } else {
        n + (HEADER_ALIGN - n % (HEADER_ALIGN as nat)) as nat
    }
}

/// The offset of the header within a carrier of `T`: the payload's size,
/// padded to the header's alignment.
pub open spec fn spec_std_offset<T>() -> nat {
    round_up(size_of::<Option<T>>())
}

/// The number of bytes the host allocates for one carrier of `T`.
pub open spec fn spec_alloc_size<T>() -> nat {
    spec_std_offset::<T>() + HEADER_SIZE as nat
}

/// The address of the header of the carrier at `carrier`.
pub open spec fn header_addr<T>(carrier: int) -> int {
    carrier + spec_std_offset::<T>()
}

/// The address of the carrier whose header lies at `header`.
pub open spec fn carrier_addr<T>(header: int) -> int {
    header - spec_std_offset::<T>()
}

/// Returns the offset of the header within a carrier of `T`.
pub fn std_offset<T>() -> (r: usize)
    ensures
        r == spec_std_offset::<T>(),
{
    layout_for_type_is_valid::<Option<T>>();
    let s = core::mem::size_of::<Option<T>>();
    let rem = s % HEADER_ALIGN;
    if rem == 0 {
        s
    } else {
        s + (HEADER_ALIGN - rem)
    }
}

impl<T> ZendClassObject<T> {
    /// Sets the payload, returning the previous one if there was one.
    pub fn initialize(&mut self, val: T) -> (r: Option<T>)
        ensures
            r == old(self).obj,
            final(self).obj == Some(val),
            final(self).std == old(self).std,
    {
        let mut previous = Some(val);
        core::mem::swap(&mut self.obj, &mut previous);
        previous
    }

    /// A mutable borrow of the host's header.
    pub fn get_mut_zend_obj(&mut self) -> (r: &mut ZendObject)
        ensures
            *r == old(self).std,
            final(self).std == *final(r),
            final(self).obj == old(self).obj,
    {
        &mut self.std
    }

    /// A borrow of the payload, which must be initialised.
    pub fn value(&self) -> (r: &T)
        requires
            self.obj is Some,
        ensures
            *r == self.obj->Some_0,
    {
        self.obj.as_ref().unwrap()
    }

    /// A mutable borrow of the payload, which must be initialised.
    pub fn value_mut(&mut self) -> (r: &mut T)
        requires
            old(self).obj is Some,
        ensures
            *r == old(self).obj->Some_0,
            final(self).obj == Some(*final(r)),
            final(self).std == old(self).std,
    {
        self.obj.as_mut().unwrap()
    }
}

/// A carrier in the object store, at its address.
pub struct Slot<T> {
    pub addr: usize,
    pub object: ZendClassObject<T>,
}

/// The host's store of carriers of `T`: each lies at its own address, with
/// its header `std_offset` bytes further on.
pub struct ObjectStore<T> {
    slots: Vec<Slot<T>>,
    next_addr: usize,
    class: ClassEntry,
}

/// The position of the slot at carrier address `addr`.
pub open spec fn slot_at<T>(slots: Seq<Slot<T>>, addr: int) -> Option<int> {
    if exists|i: int| 0 <= i < slots.len() && slots[i].addr == addr {
        Some(choose|i: int| 0 <= i < slots.len() && slots[i].addr == addr)
    } else {
        None
    }
}

/// The position of the carrier that the header `std` up-casts to as a
/// carrier of `T` registered as `class`: the slot at the header's address
/// less the offset, if its class is `class`.
pub open spec fn upcast<T>(slots: Seq<Slot<T>>, class: ClassEntry, std: ZendObject) -> Option<int> {
    match slot_at(slots, carrier_addr::<T>(std.addr as int)) {
        Some(i) => if slots[i].object.std.ce == class {
            Some(i)
        } else {
            None
        },
        None => None,
    }
}

impl<T> ObjectStore<T> {
    /// The carriers in order of allocation.
    pub closed spec fn view(&self) -> Seq<Slot<T>> {
        self.slots@
    }

    /// The class that `T` is registered as.
    pub closed spec fn class(&self) -> ClassEntry {
        self.class
    }

    /// The address the next carrier is placed at.
    pub closed spec fn spec_next_addr(&self) -> usize {
        self.next_addr
    }

    /// The store's invariant: carriers lie below the next address, at
    /// distinct addresses, each with its header at the offset.
    pub open spec fn well_formed(&self) -> bool {
        &&& forall|i: int|
            0 <= i < self@.len() ==> (#[trigger] self@[i]).addr < self.spec_next_addr()
                && self@[i].object.std.addr == header_addr::<T>(self@[i].addr as int)
        &&& forall|i: int, j: int|
            0 <= i < self@.len() && 0 <= j < self@.len() && i != j ==> (#[trigger] self@[i]).addr
                != (#[trigger] self@[j]).addr
        &&& self.spec_next_addr() >= STORE_BASE
    }

    /// An empty store for carriers of `T`, which is registered as `class`.
    pub fn new(class: ClassEntry) -> (r: ObjectStore<T>)
        ensures
            r.well_formed(),
            r@ == Seq::<Slot<T>>::empty(),
            r.class() == class,
    {
        ObjectStore { slots: Vec::new(), next_addr: STORE_BASE, class }
    }

    /// The class that `T` is registered as.
    pub fn class_entry(&self) -> (r: ClassEntry)
        ensures
            r == self.class(),
    {
        self.class
    }

    /// The number of carriers.
    pub fn len(&self) -> (r: usize)
        ensures
            r == self@.len(),
    {
        self.slots.len()
    }

    fn find(&self, addr: usize) -> (r: Option<usize>)
        requires
            self.well_formed(),
        ensures
            r is None <==> slot_at(self@, addr as int) is None,
            r is Some ==> r->Some_0 < self@.len() && slot_at(self@, addr as int) == Some(
                r->Some_0 as int,
            ),
    {
        let n = self.slots.len();
        let mut i: usize = 0;
        while i < n
            invariant
                i <= n,
                n == self@.len(),
                self.well_formed(),
                forall|j: int| 0 <= j < i ==> self@[j].addr != addr,
            decreases n - i,
        {
            if self.slots[i].addr == addr {
                proof {
                    let p = choose|k: int| 0 <= k < self@.len() && self@[k].addr == addr as int;
                    if p != i as int {
                        assert(self@[p].addr != self@[i as int].addr);
                    }
                }
                return Some(i);
            }
            i += 1;
        }
        None
    }

    /// The carrier at carrier address `addr`.
    pub fn get(&self, addr: usize) -> (r: Option<&ZendClassObject<T>>)
        requires
            self.well_formed(),
        ensures
            r is Some <==> slot_at(self@, addr as int) is Some,
            r is Some ==> *r->Some_0 == self@[slot_at(self@, addr as int)->Some_0].object,
    {
        match self.find(addr) {
            Some(i) => Some(&self.slots[i].object),
            None => None,
        }
    }

    /// Places a carrier with payload `val` and class `ce` at the next free
    /// address and returns that address. Fails where the address space is
    /// exhausted.
    fn allocate(&mut self, val: Option<T>, ce: ClassEntry) -> (r: Result<usize>)
        requires
            old(self).well_formed(),
        ensures
            final(self).well_formed(),
            final(self).class() == old(self).class(),
            r is Ok <==> old(self).spec_next_addr() + spec_alloc_size::<T>() <= usize::MAX,
            r is Ok ==> r->Ok_0 == old(self).spec_next_addr() && final(self)@ == old(self)@.push(
                Slot {
                    addr: r->Ok_0,
                    object: ZendClassObject {
                        obj: val,
                        std: ZendObject { ce, addr: header_addr::<T>(r->Ok_0 as int) as usize },
                    },
                },
            ),
            r is Err ==> r->Err_0 == Error::IntegerOverflow && final(self)@ == old(self)@,
    {
        let offset = std_offset::<T>();
        let a = self.next_addr;
        if a > usize::MAX - offset || a + offset > usize::MAX - HEADER_SIZE {
            return Err(Error::IntegerOverflow);
        }
        let object = ZendClassObject { obj: val, std: ZendObject { ce, addr: a + offset } };
        self.slots.push(Slot { addr: a, object });
        self.next_addr = a + offset + HEADER_SIZE;
        proof {
            let n = self@.len() - 1;
            assert forall|i: int, j: int|
                0 <= i < self@.len() && 0 <= j < self@.len() && i != j implies (#[trigger] self@[i]).addr
                != (#[trigger] self@[j]).addr by {
                if i < n && j < n {
                    assert(self@[i] == old(self)@[i] && self@[j] == old(self)@[j]);
                } else if i < n {
                    assert(self@[i] == old(self)@[i]);
                } else {
                    assert(self@[j] == old(self)@[j]);
                }
            }
            assert forall|i: int| 0 <= i < self@.len() implies (#[trigger] self@[i]).addr
                < self.spec_next_addr() && self@[i].object.std.addr == header_addr::<T>(
                self@[i].addr as int,
            ) by {
                if i < n {
                    assert(self@[i] == old(self)@[i]);
                }
            }
        }
        Ok(a)
    }

    /// Removes the carrier at carrier address `addr`, dropping its payload.
    /// Returns whether there was one.
    pub fn release(&mut self, addr: usize) -> (r: bool)
        requires
            old(self).well_formed(),
        ensures
            final(self).well_formed(),
            final(self).class() == old(self).class(),
            r == slot_at(old(self)@, addr as int) is Some,
            r ==> final(self)@ == old(self)@.remove(slot_at(old(self)@, addr as int)->Some_0),
            !r ==> final(self)@ == old(self)@,
    {
        match self.find(addr) {
            Some(i) => {
                self.slots.remove(i);
                proof {
                    assert forall|a: int, b: int|
                        0 <= a < self@.len() && 0 <= b < self@.len() && a != b implies (
                        #[trigger] self@[a]).addr != (#[trigger] self@[b]).addr by {
                        let a2 = if a < i { a } else { a + 1 };
                        let b2 = if b < i { b } else { b + 1 };
                        assert(self@[a] == old(self)@[a2] && self@[b] == old(self)@[b2]);
                    }
                    assert forall|a: int| 0 <= a < self@.len() implies (#[trigger] self@[a]).addr
                        < self.spec_next_addr() && self@[a].object.std.addr == header_addr::<T>(
                        self@[a].addr as int,
                    ) by {
                        let a2 = if a < i { a } else { a + 1 };
                        assert(self@[a] == old(self)@[a2]);
                    }
                }
                true
            },
            None => false,
        }
    }
}

impl<T> ZendClassObject<T> {
    /// Allocates a carrier of `val` in the store, with the store's class, and
    /// returns its address.
    pub fn new(store: &mut ObjectStore<T>, val: T) -> (r: Result<usize>)
        requires
            old(store).well_formed(),
        ensures
            final(store).well_formed(),
            final(store).class() == old(store).class(),
            r is Ok <==> old(store).spec_next_addr() + spec_alloc_size::<T>() <= usize::MAX,
            r is Ok ==> r->Ok_0 == old(store).spec_next_addr() && final(store)@ == old(store)@.push(
                Slot {
                    addr: r->Ok_0,
                    object: ZendClassObject {
                        obj: Some(val),
                        std: ZendObject {
                            ce: old(store).class(),
                            addr: header_addr::<T>(r->Ok_0 as int) as usize,
                        },
                    },
                },
            ),
            r is Err ==> r->Err_0 == Error::IntegerOverflow && final(store)@ == old(store)@,
    {
        store.allocate(Some(val), store.class)
    }

    /// Allocates a carrier without a payload, with the class `ce` or else the
    /// store's, and returns its address. The payload is to be set with
    /// `initialize` before it is read.
    pub fn new_uninit(store: &mut ObjectStore<T>, ce: Option<ClassEntry>) -> (r: Result<usize>)
        requires
            old(store).well_formed(),
        ensures
            final(store).well_formed(),
            final(store).class() == old(store).class(),
            r is Ok <==> old(store).spec_next_addr() + spec_alloc_size::<T>() <= usize::MAX,
            r is Ok ==> r->Ok_0 == old(store).spec_next_addr() && final(store)@ == old(store)@.push(
                Slot {
                    addr: r->Ok_0,
                    object: ZendClassObject {
                        obj: None,
                        std: ZendObject {
                            ce: match ce {
                                Some(c) => c,
                                None => old(store).class(),
                            },
                            addr: header_addr::<T>(r->Ok_0 as int) as usize,
                        },
                    },
                },
            ),
            r is Err ==> r->Err_0 == Error::IntegerOverflow && final(store)@ == old(store)@,
    {
        let c = match ce {
            Some(c) => c,
            None => store.class,
        };
        store.allocate(None, c)
    }

    /// The carrier of the host object whose header is `std`: the header's
    /// address less the offset gives the carrier's address, and the carrier
    /// must be of `T`'s class.
    pub fn from_zend_obj<'a>(store: &'a ObjectStore<T>, std: &ZendObject) -> (r: Option<&'a Self>)
        requires
            store.well_formed(),
        ensures
            r is Some <==> upcast(store@, store.class(), *std) is Some,
            r is Some ==> *r->Some_0 == store@[upcast(store@, store.class(), *std)->Some_0].object,
    {
        let offset = std_offset::<T>();
        if std.addr < offset {
            proof {
                assert(slot_at(store@, carrier_addr::<T>(std.addr as int)) is None) by {
                    if exists|i: int| 0 <= i < store@.len() && store@[i].addr == carrier_addr::<T>(
                        std.addr as int,
                    ) {
                        let i = choose|i: int| 0 <= i < store@.len() && store@[i].addr
                            == carrier_addr::<T>(std.addr as int);
                        assert(store@[i].addr >= 0);
                    }
                }
            }
            return None;
        }
        match store.find(std.addr - offset) {
            Some(i) => {
                let object = &store.slots[i].object;
                if object.std.ce == store.class {
                    Some(object)
                } else {
                    None
                }
            },
            None => None,
        }
    }
}

impl<T> ZendClassObject<T> {
    /// The carrier of the host object whose header is `std`, mutably; as
    /// for `from_zend_obj`. The store stays well formed as long as the
    /// carrier's header is left as it was.
    pub fn from_zend_obj_mut<'a>(store: &'a mut ObjectStore<T>, std: &ZendObject) -> (r: Option<
        &'a mut Self,
    >)
        requires
            old(store).well_formed(),
        ensures
            r is Some <==> upcast(old(store)@, old(store).class(), *std) is Some,
            r is Some ==> {
                let i = upcast(old(store)@, old(store).class(), *std)->Some_0;
                &&& *r->Some_0 == old(store)@[i].object
                &&& final(store)@ == old(store)@.update(
                    i,
                    Slot { addr: old(store)@[i].addr, object: *final(r->Some_0) },
                )
                &&& final(store).spec_next_addr() == old(store).spec_next_addr()
                &&& final(store).class() == old(store).class()
                &&& (*final(r->Some_0)).std == old(store)@[i].object.std ==> final(store).well_formed()
            },
            r is None ==> *final(store) == *old(store),
    {
        let offset = std_offset::<T>();
        if std.addr < offset {
            proof {
                assert(slot_at(store@, carrier_addr::<T>(std.addr as int)) is None) by {
                    if exists|i: int| 0 <= i < store@.len() && store@[i].addr == carrier_addr::<T>(
                        std.addr as int,
                    ) {
                        let i = choose|i: int| 0 <= i < store@.len() && store@[i].addr
                            == carrier_addr::<T>(std.addr as int);
                        assert(store@[i].addr >= 0);
                    }
                }
            }
            return None;
        }
        match store.find(std.addr - offset) {
            Some(i) => {
                if store.slots[i].object.std.ce == store.class {
                    Some(&mut store.slots[i].object)
                } else {
                    None
                }
            },
            None => None,
        }
    }
}

impl<T> ZendClassObject<T> {
    /// The carrier of the host object whose header is `std`, or
    /// `InvalidScope` where the header does not up-cast to a carrier of `T`.
    pub fn from_zend_object<'a>(store: &'a ObjectStore<T>, std: &ZendObject) -> (r: Result<&'a Self>)
        requires
            store.well_formed(),
        ensures
            r is Ok <==> upcast(store@, store.class(), *std) is Some,
            r is Ok ==> *r->Ok_0 == store@[upcast(store@, store.class(), *std)->Some_0].object,
            r is Err ==> r->Err_0 == Error::InvalidScope,
    {
        match Self::from_zend_obj(store, std) {
            Some(object) => Ok(object),
            None => Err(Error::InvalidScope),
        }
    }
}

impl<T: Clone> ObjectStore<T> {
    /// Copies the carrier at carrier address `addr` into a new carrier of
    /// the same class with a clone of the payload, and returns the new
    /// carrier's address. Gives `None` where there is no such carrier, its
    /// payload is not initialised, or the address space is exhausted.
    pub fn clone_object(&mut self, addr: usize) -> (r: Option<usize>)
        requires
            old(self).well_formed(),
        ensures
            final(self).well_formed(),
            final(self).class() == old(self).class(),
            r is Some <==> (slot_at(old(self)@, addr as int) matches Some(i)
                && old(self)@[i].object.obj is Some && old(self).spec_next_addr()
                + spec_alloc_size::<T>() <= usize::MAX),
            r is Some ==> {
                let i = slot_at(old(self)@, addr as int)->Some_0;
                let n = old(self)@.len() as int;
                &&& r->Some_0 == old(self).spec_next_addr()
                &&& final(self)@.len() == n + 1
                &&& final(self)@.take(n) == old(self)@
                &&& final(self)@[n].addr == r->Some_0
                &&& final(self)@[n].object.std == ZendObject {
                    ce: old(self)@[i].object.std.ce,
                    addr: header_addr::<T>(r->Some_0 as int) as usize,
                }
                &&& final(self)@[n].object.obj is Some
            },
            r is None ==> final(self)@ == old(self)@,
    {
        let i = match self.find(addr) {
            Some(i) => i,
            None => return None,
        };
        let ce = self.slots[i].object.std.ce;
        let copy = match &self.slots[i].object.obj {
            Some(v) => v.clone(),
            None => return None,
        };
        match self.allocate(Some(copy), ce) {
            Ok(a) => {
                assert(self@.take(self@.len() - 1) =~= old(self)@);
                Some(a)
            },
            Err(_) => None,
        }
    }
}

/// The header that a carrier allocated at `carrier` gets up-casts back to
/// that same address: allocation and up-cast use one offset.
pub proof fn lemma_offset_round_trip<T>(carrier: int)
    ensures
        carrier_addr::<T>(header_addr::<T>(carrier)) == carrier,
{
}

/// A carrier just made by `new` is found again from its own header, with
/// its payload, and a header of another class finds nothing.
pub proof fn lemma_new_then_upcast<T>(store: ObjectStore<T>, a: usize, val: T, other: ClassEntry)
    requires
        store.well_formed(),
        a == store.spec_next_addr(),
        a + spec_alloc_size::<T>() <= usize::MAX,
        other != store.class(),
    ensures
        ({
            let std = ZendObject { ce: store.class(), addr: header_addr::<T>(a as int) as usize };
            let slots = store@.push(
                Slot { addr: a, object: ZendClassObject { obj: Some(val), std } },
            );
            &&& upcast(slots, store.class(), std) == Some(store@.len() as int)
            &&& slots[store@.len() as int].object.obj == Some(val)
        }),
        ({
            let std = ZendObject { ce: other, addr: header_addr::<T>(a as int) as usize };
            let slots = store@.push(
                Slot { addr: a, object: ZendClassObject { obj: None, std } },
            );
            upcast(slots, store.class(), std) is None
        }),
{
    let n = store@.len() as int;
    let std = ZendObject { ce: store.class(), addr: header_addr::<T>(a as int) as usize };
    let slots = store@.push(Slot { addr: a, object: ZendClassObject { obj: Some(val), std } });
    assert(slots[n].addr == a);
    let p = choose|i: int| 0 <= i < slots.len() && slots[i].addr == a;
    if p != n {
        assert(slots[p] == store@[p]);
    }
    let std2 = ZendObject { ce: other, addr: header_addr::<T>(a as int) as usize };
    let slots2 = store@.push(Slot { addr: a, object: ZendClassObject { obj: None, std: std2 } });
    assert(slots2[n].addr == a);
    let q = choose|i: int| 0 <= i < slots2.len() && slots2[i].addr == a;
    if q != n {
        assert(slots2[q] == store@[q]);
    }
}

} // verus!
