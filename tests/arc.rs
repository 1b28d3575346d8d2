use shared_ptr::arc::{Arc, Heap, Released, Weak};
use std::cell::Cell;
use std::rc::Rc;

struct DetectDrop(Rc<Cell<usize>>);

impl Drop for DetectDrop {
    fn drop(&mut self) {
        self.0.set(self.0.get() + 1);
    }
}

#[test]
fn test() {
    let drops = Rc::new(Cell::new(0));
    let mut heap = Heap::new();
    let x = Arc::new(&mut heap, ("hello", DetectDrop(drops.clone())));
    let y = Arc::downgrade(&x, &mut heap);
    let z = Arc::downgrade(&x, &mut heap);

    let y2 = y.upgrade(&mut heap).unwrap();
    assert_eq!(y2.deref(&heap).0, "hello");
    assert_eq!(x.deref(&heap).0, "hello");
    y2.drop(&mut heap);
    y.drop(&mut heap);

    assert_eq!(drops.get(), 0);
    let z2 = z.upgrade(&mut heap);
    assert!(z2.is_some());
    z2.unwrap().drop(&mut heap);

    x.drop(&mut heap);

    assert_eq!(drops.get(), 1);
    assert!(z.upgrade(&mut heap).is_none());
}

#[test]
fn exclusive_mutate_sole_owner() {
    let mut heap = Heap::new();
    let mut a = Arc::new(&mut heap, 42);
    {
        let m = Arc::get_mut(&mut a, &mut heap).unwrap();
        assert_eq!(*m, 42);
        *m = 43;
    }
    assert_eq!(*a.deref(&heap), 43);
    let r = a.drop(&mut heap);
    assert_eq!(r, Released { payload_destroyed: true, block_freed: true });
}

#[test]
fn exclusive_mutate_two_strong() {
    let mut heap = Heap::new();
    let mut a = Arc::new(&mut heap, String::from("x"));
    let mut b = a.clone(&mut heap);
    assert!(Arc::get_mut(&mut a, &mut heap).is_none());
    assert!(Arc::get_mut(&mut b, &mut heap).is_none());
    let r = b.drop(&mut heap);
    assert_eq!(r, Released { payload_destroyed: false, block_freed: false });
    let m = Arc::get_mut(&mut a, &mut heap).unwrap();
    m.push('y');
    assert_eq!(a.deref(&heap).as_str(), "xy");
}

#[test]
fn exclusive_mutate_refused_with_weak() {
    let mut heap = Heap::new();
    let mut a = Arc::new(&mut heap, 7u32);
    let w = Arc::downgrade(&a, &mut heap);
    let w2 = w.clone(&mut heap);
    assert!(Arc::get_mut(&mut a, &mut heap).is_none());
    assert!(!w.drop(&mut heap));
    assert!(Arc::get_mut(&mut a, &mut heap).is_none());
    assert!(!w2.drop(&mut heap));
    assert_eq!(Arc::get_mut(&mut a, &mut heap).copied(), Some(7));
}

#[test]
fn upgrade_after_last_strong_is_empty() {
    let drops = Rc::new(Cell::new(0));
    let mut heap = Heap::new();
    let a = Arc::new(&mut heap, DetectDrop(drops.clone()));
    let w = Arc::downgrade(&a, &mut heap);
    let r = a.drop(&mut heap);
    assert_eq!(r, Released { payload_destroyed: true, block_freed: false });
    assert_eq!(drops.get(), 1);
    assert!(w.upgrade(&mut heap).is_none());
    assert!(w.upgrade(&mut heap).is_none());
    assert!(w.drop(&mut heap));
    assert_eq!(drops.get(), 1);
}

#[test]
fn payload_destroyed_once_after_last_strong() {
    let drops = Rc::new(Cell::new(0));
    let mut heap = Heap::new();
    let a = Arc::new(&mut heap, DetectDrop(drops.clone()));
    let b = a.clone(&mut heap);
    let c = b.clone(&mut heap);
    let w = Arc::downgrade(&c, &mut heap);
    assert_eq!(Arc::strong_count(&a, &heap), 3);
    assert_eq!(Arc::weak_count(&a, &heap), 1);
    assert!(!a.drop(&mut heap).payload_destroyed);
    assert!(!c.drop(&mut heap).payload_destroyed);
    assert_eq!(drops.get(), 0);
    let r = b.drop(&mut heap);
    assert_eq!(r, Released { payload_destroyed: true, block_freed: false });
    assert_eq!(drops.get(), 1);
    assert!(w.drop(&mut heap));
    assert_eq!(drops.get(), 1);
}

#[test]
fn block_released_by_last_weak() {
    let mut heap = Heap::new();
    let a = Arc::new(&mut heap, 1u8);
    let w1: Weak = Arc::downgrade(&a, &mut heap);
    let w2 = w1.clone(&mut heap);
    let r = a.drop(&mut heap);
    assert_eq!(r, Released { payload_destroyed: true, block_freed: false });
    assert!(!w1.drop(&mut heap));
    assert!(w2.drop(&mut heap));
}

#[test]
fn upgrade_raises_counts() {
    let mut heap = Heap::new();
    let a = Arc::new(&mut heap, 5i64);
    let w = Arc::downgrade(&a, &mut heap);
    let b = w.upgrade(&mut heap).unwrap();
    assert_eq!(Arc::strong_count(&b, &heap), 2);
    assert_eq!(Arc::weak_count(&b, &heap), 1);
    assert_eq!(*b.deref(&heap), 5);
    assert!(!a.drop(&mut heap).block_freed);
    assert!(!w.drop(&mut heap));
    let r = b.drop(&mut heap);
    assert_eq!(r, Released { payload_destroyed: true, block_freed: true });
}

#[test]
fn blocks_are_independent() {
    let mut heap = Heap::new();
    let mut a = Arc::new(&mut heap, 1u16);
    let b = Arc::new(&mut heap, 2u16);
    let b2 = b.clone(&mut heap);
    assert_eq!(Arc::get_mut(&mut a, &mut heap).copied(), Some(1));
    assert_eq!(*b2.deref(&heap), 2);
    assert_eq!(Arc::strong_count(&a, &heap), 1);
    assert_eq!(Arc::strong_count(&b, &heap), 2);
}

#[test]
fn weak_handle_counts() {
    let mut heap = Heap::new();
    let a = Arc::new(&mut heap, 3u8);
    let w = Arc::downgrade(&a, &mut heap);
    let w2 = w.clone(&mut heap);
    assert_eq!(w.strong_count(&heap), 1);
    assert_eq!(w2.weak_count(&heap), 2);
    a.drop(&mut heap);
    assert_eq!(w.strong_count(&heap), 0);
    assert_eq!(w.weak_count(&heap), 2);
}
