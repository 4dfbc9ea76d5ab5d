use atom_rc::AtomRc;
use std::sync::atomic::{AtomicUsize, Ordering};
use std::sync::Arc;

/// A payload that counts how many times it has been destroyed.
struct Witnessed {
    value: u64,
    destroyed: Arc<AtomicUsize>,
}

impl Drop for Witnessed {
    fn drop(&mut self) {
        self.destroyed.fetch_add(1, Ordering::SeqCst);
    }
}

fn witnessed(value: u64) -> (AtomRc<Witnessed>, Arc<AtomicUsize>) {
    let destroyed = Arc::new(AtomicUsize::new(0));
    let handle = AtomRc::new(Witnessed { value, destroyed: destroyed.clone() });
    (handle, destroyed)
}

fn require_send_sync<X: Send + Sync>() {}

#[test]
fn it_works() {}

#[test]
fn new_then_read_gives_the_value() {
    let h = AtomRc::new(String::from("payload"));
    assert_eq!(h.as_str(), "payload");
    assert_eq!(h.len(), 7);
}

#[test]
fn clone_aliases_the_same_value() {
    let a = AtomRc::new(vec![1u32, 2, 3]);
    let b = a.clone();
    assert!(std::ptr::eq(&*a, &*b));
    assert_eq!(*b, vec![1u32, 2, 3]);
}

#[test]
fn single_handle_frees_on_drop() {
    let (h, destroyed) = witnessed(9);
    assert_eq!(h.value, 9);
    assert_eq!(destroyed.load(Ordering::SeqCst), 0);
    drop(h);
    assert_eq!(destroyed.load(Ordering::SeqCst), 1);
}

#[test]
fn clone_n_then_drop_n_plus_one_frees_on_the_last() {
    let n: usize = 5;
    let (original, destroyed) = witnessed(42);
    let mut clones = Vec::new();
    for _ in 0..n {
        clones.push(original.clone());
    }
    drop(original);
    assert_eq!(destroyed.load(Ordering::SeqCst), 0);
    while clones.len() > 1 {
        clones.pop();
        assert_eq!(destroyed.load(Ordering::SeqCst), 0);
    }
    clones.pop();
    assert_eq!(destroyed.load(Ordering::SeqCst), 1);
}

#[test]
fn last_remaining_handle_reads_the_original_value() {
    let (original, destroyed) = witnessed(7);
    let a = original.clone();
    let b = a.clone();
    let c = original.clone();
    drop(original);
    drop(a);
    drop(c);
    assert_eq!(b.value, 7);
    assert_eq!(destroyed.load(Ordering::SeqCst), 0);
    drop(b);
    assert_eq!(destroyed.load(Ordering::SeqCst), 1);
}

#[test]
fn clone_storm_leaves_the_original_alive() {
    let (original, destroyed) = witnessed(3);
    let mut clones = Vec::new();
    for _ in 0..1000 {
        clones.push(original.clone());
    }
    // Release in an order unlike the order of cloning.
    while !clones.is_empty() {
        let i = clones.len() / 2;
        clones.swap_remove(i);
    }
    assert_eq!(destroyed.load(Ordering::SeqCst), 0);
    assert_eq!(original.value, 3);
    drop(original);
    assert_eq!(destroyed.load(Ordering::SeqCst), 1);
}

#[test]
fn interleaved_clones_and_drops_free_once() {
    let (original, destroyed) = witnessed(11);
    let mut live = vec![original];
    for round in 0..50usize {
        let first = live[0].clone();
        live.push(first);
        if round % 3 == 0 {
            let last = live[live.len() - 1].clone();
            live.push(last);
        }
        if live.len() > 2 {
            live.remove(1);
        }
        assert_eq!(destroyed.load(Ordering::SeqCst), 0);
    }
    while let Some(h) = live.pop() {
        assert_eq!(h.value, 11);
        drop(h);
    }
    assert_eq!(destroyed.load(Ordering::SeqCst), 1);
}

#[test]
fn thread_safe_payload_gives_a_thread_safe_handle() {
    require_send_sync::<AtomRc<u64>>();
    require_send_sync::<AtomRc<String>>();
    require_send_sync::<AtomRc<Vec<AtomicUsize>>>();
}

#[test]
fn every_clone_points_at_the_first_value() {
    let first = AtomRc::new(String::from("shared"));
    let mut clones: Vec<AtomRc<String>> = Vec::new();
    for i in 0..10usize {
        let next = if i % 2 == 0 { first.clone() } else { clones[i - 1].clone() };
        clones.push(next);
    }
    for c in clones.iter() {
        assert!(std::ptr::eq(&**c, &*first));
        assert_eq!(c.as_str(), "shared");
    }
}
