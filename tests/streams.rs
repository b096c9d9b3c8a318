use quic_identity::stream::Resolution;
use quic_identity::streams::Streams;
use std::sync::atomic::{AtomicUsize, Ordering};
use std::sync::Arc;
use std::task::{Wake, Waker};

type Table = Streams<u32, &'static str>;

#[test]
fn added_id_is_live() {
    let mut t = Table::new();
    assert!(!t.contains(4));
    let h = t.add_stream(4);
    assert_eq!(h.raw(), 4);
    assert!(t.contains(4));
    assert_eq!(t.keys(), vec![4]);
}

#[test]
fn unknown_id_is_ignored_by_wakes() {
    let mut t = Table::new();
    let h = t.add_stream(1);
    assert!(t.wake_reader(9).is_empty());
    assert!(t.wake_writer(9).is_empty());
    assert!(t.remove(h).is_empty());
    assert!(!t.contains(1));
    assert!(t.wake_reader(1).is_empty());
}

#[test]
fn events_reach_the_right_stream() {
    let mut t = Table::new();
    let a = t.add_stream(10);
    let b = t.add_stream(20);
    assert!(t.set_reader(&a, 1).is_empty());
    assert!(t.set_reader(&b, 2).is_empty());
    assert_eq!(t.wake_reader(20), vec![Resolution::Wake(2)]);
    assert_eq!(t.set_reader(&a, 3), vec![Resolution::Wake(1)]);
    assert!(t.set_finisher(&b, "fin").is_empty());
    assert_eq!(t.wake_writer(20), vec![Resolution::Notify("fin")]);
    assert!(t.wake_writer(20).is_empty());
}

#[test]
fn removal_wakes_waiters() {
    let mut t = Table::new();
    let a = t.add_stream(1);
    t.set_writer(&a, 5);
    t.set_reader(&a, 6);
    assert_eq!(t.remove(a), vec![Resolution::Wake(5), Resolution::Wake(6)]);
    assert!(t.keys().is_empty());
    assert!(t.wake_writer(1).is_empty());
}

#[test]
fn wake_all_and_keys_in_order() {
    let mut t = Table::new();
    let a = t.add_stream(3);
    let b = t.add_stream(1);
    let _c = t.add_stream(2);
    t.set_reader(&a, 1);
    t.set_finisher(&b, "b");
    assert_eq!(t.keys(), vec![3, 1, 2]);
    assert_eq!(t.wake_all(), vec![Resolution::Wake(1), Resolution::Notify("b")]);
    assert!(t.wake_all().is_empty());
    assert_eq!(t.keys(), vec![3, 1, 2]);
}

struct Counter(AtomicUsize);

impl Wake for Counter {
    fn wake(self: Arc<Self>) {
        self.0.fetch_add(1, Ordering::SeqCst);
    }
}

fn resolve(out: Vec<Resolution<Waker, ()>>) {
    for r in out {
        match r {
            Resolution::Wake(w) => w.wake(),
            Resolution::Notify(()) => {}
        }
    }
}

#[test]
fn removed_writer_woken_exactly_once() {
    let counter = Arc::new(Counter(AtomicUsize::new(0)));
    let mut t: Streams<Waker, ()> = Streams::new();
    let h = t.add_stream(8);
    resolve(t.set_writer(&h, Waker::from(counter.clone())));
    assert_eq!(counter.0.load(Ordering::SeqCst), 0);
    resolve(t.remove(h));
    assert_eq!(counter.0.load(Ordering::SeqCst), 1);
    resolve(t.wake_writer(8));
    resolve(t.wake_all());
    assert_eq!(counter.0.load(Ordering::SeqCst), 1);
}
