use std::cell::Cell;
use std::rc::Rc;

use ext_php_rs::class_object::std_offset;
use ext_php_rs::{
    settle, CatchError, ClassEntry, Error, FrameOutcome, ObjectStore, Settlement,
    ZBox, ZendClassObject, ZendObject,
};

struct Counted {
    drops: Rc<Cell<u32>>,
    tag: u32,
}

impl Clone for Counted {
    fn clone(&self) -> Self {
        Counted { drops: self.drops.clone(), tag: self.tag }
    }
}

impl Drop for Counted {
    fn drop(&mut self) {
        self.drops.set(self.drops.get() + 1);
    }
}

const COUNTED_CLASS: ClassEntry = ClassEntry { id: 7 };

#[test]
fn boxed_owner_releases_once() {
    let drops = Rc::new(Cell::new(0));
    {
        let b = ZBox::new(Counted { drops: drops.clone(), tag: 1 });
        assert_eq!(b.tag, 1);
        assert_eq!(drops.get(), 0);
    }
    assert_eq!(drops.get(), 1);
}

#[test]
fn boxed_owner_into_box_keeps_value() {
    let drops = Rc::new(Cell::new(0));
    let b = ZBox::new(Counted { drops: drops.clone(), tag: 2 });
    let raw = b.into_box();
    assert_eq!(drops.get(), 0);
    let again = ZBox::from_box(raw);
    assert_eq!(again.tag, 2);
    drop(again);
    assert_eq!(drops.get(), 1);
}

#[test]
fn carrier_upcast_finds_value() {
    let drops = Rc::new(Cell::new(0));
    let mut store = ObjectStore::new(COUNTED_CLASS);
    let a = ZendClassObject::new(&mut store, Counted { drops: drops.clone(), tag: 5 }).unwrap();
    let header = store.get(a).unwrap().std;
    assert_eq!(header.addr, a + std_offset::<Counted>());
    let found = ZendClassObject::<Counted>::from_zend_obj(&store, &header).unwrap();
    assert_eq!(found.value().tag, 5);
    let foreign = ZendObject { ce: ClassEntry { id: 8 }, addr: header.addr };
    let b = ZendClassObject::<Counted>::new_uninit(&mut store, Some(ClassEntry { id: 8 })).unwrap();
    let other_header = store.get(b).unwrap().std;
    assert!(ZendClassObject::<Counted>::from_zend_obj(&store, &other_header).is_none());
    assert_eq!(foreign.ce, ClassEntry { id: 8 });
    let nowhere = ZendObject { ce: ClassEntry { id: 7 }, addr: 3 };
    assert!(ZendClassObject::<Counted>::from_zend_obj(&store, &nowhere).is_none());
}

#[test]
fn carrier_initialize_and_mutate() {
    let drops = Rc::new(Cell::new(0));
    let mut store = ObjectStore::new(COUNTED_CLASS);
    let a = ZendClassObject::<Counted>::new_uninit(&mut store, None).unwrap();
    let header = store.get(a).unwrap().std;
    {
        let carrier = ZendClassObject::<Counted>::from_zend_obj_mut(&mut store, &header).unwrap();
        let previous = carrier.initialize(Counted { drops: drops.clone(), tag: 9 });
        assert!(previous.is_none());
        carrier.value_mut().tag = 10;
        assert_eq!(carrier.get_mut_zend_obj().ce, ClassEntry { id: 7 });
    }
    assert_eq!(store.get(a).unwrap().value().tag, 10);
}

#[test]
fn carrier_clone_and_release() {
    let drops = Rc::new(Cell::new(0));
    let mut store = ObjectStore::new(COUNTED_CLASS);
    let a = ZendClassObject::new(&mut store, Counted { drops: drops.clone(), tag: 3 }).unwrap();
    let b = store.clone_object(a).unwrap();
    assert_ne!(a, b);
    assert_eq!(store.len(), 2);
    assert_eq!(store.get(b).unwrap().value().tag, 3);
    assert!(store.release(a));
    assert!(store.release(b));
    assert!(!store.release(b));
    assert_eq!(drops.get(), 2);
    assert_eq!(store.len(), 0);
}

#[test]
fn settle_bailout_and_results() {
    let r: Settlement<&str, String> = settle(true, None);
    assert!(matches!(r, Settlement::Finish(Err(CatchError))));
    let r: Settlement<&str, String> = settle(true, Some(FrameOutcome::Returned("foo")));
    assert!(matches!(r, Settlement::Finish(Err(CatchError))));
    let r: Settlement<&str, String> = settle(false, None);
    assert!(matches!(r, Settlement::Finish(Err(CatchError))));
    let r: Settlement<&str, String> = settle(false, Some(FrameOutcome::Returned("foo")));
    assert!(matches!(r, Settlement::Finish(Ok("foo"))));
    let r: Settlement<&str, String> =
        settle(false, Some(FrameOutcome::Panicked("should panic".to_string())));
    match r {
        Settlement::Resume(p) => assert_eq!(p, "should panic"),
        Settlement::Finish(_) => panic!("a panic must be resumed"),
    }
}

#[test]
fn error_kinds_are_distinct() {
    assert_ne!(Error::InvalidScope, Error::InvalidKey);
    assert_ne!(Error::IntegerOverflow, Error::InvalidKey);
}

#[test]
fn upcast_of_foreign_class_is_invalid_scope() {
    let mut store: ObjectStore<Counted> = ObjectStore::new(COUNTED_CLASS);
    let a = ZendClassObject::<Counted>::new_uninit(&mut store, Some(ClassEntry { id: 1 })).unwrap();
    let header = store.get(a).unwrap().std;
    assert_eq!(
        ZendClassObject::<Counted>::from_zend_object(&store, &header).err(),
        Some(Error::InvalidScope)
    );
}
