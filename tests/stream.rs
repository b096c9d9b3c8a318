use quic_identity::stream::{Resolution, StreamEvent, StreamState};

type State = StreamState<u32, &'static str>;

#[test]
fn reader_supersession() {
    let mut s = State::new();
    assert!(s.set_reader(1).is_empty());
    assert_eq!(s.set_reader(2), vec![Resolution::Wake(1)]);
    assert_eq!(s.wake_reader(), vec![Resolution::Wake(2)]);
    assert!(s.wake_reader().is_empty());
}

#[test]
fn writer_replacement_resolves_previous() {
    let mut s = State::new();
    assert!(s.set_writer(1).is_empty());
    assert_eq!(s.set_finisher("fin"), vec![Resolution::Wake(1)]);
    assert_eq!(s.set_writer(3), vec![Resolution::Notify("fin")]);
    assert_eq!(s.wake_writer(), vec![Resolution::Wake(3)]);
}

#[test]
fn finisher_one_shot() {
    let mut s = State::default();
    assert!(s.set_finisher("done").is_empty());
    assert_eq!(s.wake_writer(), vec![Resolution::Notify("done")]);
    assert!(s.wake_writer().is_empty());
}

#[test]
fn wake_all_writer_then_reader() {
    let mut s = State::new();
    s.set_reader(1);
    s.set_writer(2);
    assert_eq!(s.wake_all(), vec![Resolution::Wake(2), Resolution::Wake(1)]);
    assert!(s.wake_all().is_empty());
}

#[test]
fn close_releases_everything() {
    let mut s = State::new();
    s.set_reader(7);
    s.set_finisher("f");
    assert_eq!(s.close(), vec![Resolution::Notify("f"), Resolution::Wake(7)]);
}

#[test]
fn every_registered_waiter_resolved_once() {
    let mut s = State::new();
    let events = vec![
        StreamEvent::SetReader(1),
        StreamEvent::SetWriter(2),
        StreamEvent::SetReader(3),
        StreamEvent::WakeWriter,
        StreamEvent::SetFinisher("a"),
        StreamEvent::SetWriter(4),
        StreamEvent::WakeReader,
        StreamEvent::SetReader(5),
        StreamEvent::SetFinisher("b"),
    ];
    let mut out = Vec::new();
    for e in events {
        out.extend(s.apply(e));
    }
    out.extend(s.close());
    let mut wakes: Vec<u32> = out.iter().filter_map(|r| match r { Resolution::Wake(w) => Some(*w), _ => None }).collect();
    let mut notes: Vec<&str> = out.iter().filter_map(|r| match r { Resolution::Notify(f) => Some(*f), _ => None }).collect();
    wakes.sort();
    notes.sort();
    assert_eq!(wakes, vec![1, 2, 3, 4, 5]);
    assert_eq!(notes, vec!["a", "b"]);
}
