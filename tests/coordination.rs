use music_bot::directory::QueueDirectory;
use music_bot::playback::{Phase, Playback, Step};
use music_bot::queue::TenantQueue;
use music_bot::registry::{files_to_reap, ResourceRegistry};
use music_bot::shutdown::{ShutdownHandler, ShutdownState};

fn s(x: &str) -> String {
    x.to_string()
}

#[test]
fn enqueue_to_empty_queue_starts_fetch() {
    let mut dir = QueueDirectory::new();
    let mut reg = ResourceRegistry::new();
    let step = dir.enqueue(7, s("songA"));
    assert_eq!(dir.queue_len(7), 1);
    assert_eq!(step, Step::Fetch(s("songA")));
    assert_eq!(dir.phase(7), Phase::Fetching);
    dir.fetch_succeeded(7, &mut reg, Some(s("/tmp/a.webm")));
    assert_eq!(dir.phase(7), Phase::Playing);
    assert_eq!(reg.snapshot(7), vec![s("/tmp/a.webm")]);
}

#[test]
fn second_enqueue_waits_its_turn() {
    let mut dir = QueueDirectory::new();
    assert_eq!(dir.enqueue(7, s("songA")), Step::Fetch(s("songA")));
    assert_eq!(dir.enqueue(7, s("songB")), Step::Wait);
    assert_eq!(dir.queue_len(7), 2);
    assert_eq!(dir.phase(7), Phase::Fetching);
}

#[test]
fn track_end_advances_to_next() {
    let mut dir = QueueDirectory::new();
    let mut reg = ResourceRegistry::new();
    dir.enqueue(7, s("songA"));
    dir.enqueue(7, s("songB"));
    dir.fetch_succeeded(7, &mut reg, Some(s("/tmp/a.webm")));
    let step = dir.track_ended(7, &mut reg);
    assert_eq!(step, Step::Fetch(s("songB")));
    assert!(reg.snapshot(7).is_empty());
    assert_eq!(dir.queue_items(7), vec![s("songB")]);
    assert_eq!(dir.phase(7), Phase::Fetching);
}

#[test]
fn stop_before_chain_reentry_settles_idle() {
    let mut dir = QueueDirectory::new();
    let mut reg = ResourceRegistry::new();
    dir.enqueue(7, s("songA"));
    dir.enqueue(7, s("songB"));
    dir.fetch_succeeded(7, &mut reg, None);
    dir.stop(7);
    assert_eq!(dir.queue_len(7), 0);
    let step = dir.track_ended(7, &mut reg);
    assert_eq!(step, Step::Wait);
    assert_eq!(dir.phase(7), Phase::Idle);
    assert_eq!(dir.queue_len(7), 0);
}

#[test]
fn stop_then_enqueue_keeps_new_request() {
    let mut dir = QueueDirectory::new();
    let mut reg = ResourceRegistry::new();
    dir.enqueue(7, s("songA"));
    dir.fetch_succeeded(7, &mut reg, None);
    dir.stop(7);
    assert_eq!(dir.enqueue(7, s("songC")), Step::Wait);
    assert_eq!(dir.track_ended(7, &mut reg), Step::Fetch(s("songC")));
    assert_eq!(dir.queue_items(7), vec![s("songC")]);
}

#[test]
fn shutdown_clears_all_queues_once() {
    let mut dir = QueueDirectory::new();
    for q in ["a", "b", "c"] {
        dir.enqueue(1, s(q));
    }
    dir.enqueue(2, s("d"));
    let mut handler = ShutdownHandler::new();
    assert!(!handler.is_shutting_down());
    assert!(handler.shutdown(&mut dir));
    assert_eq!(dir.queue_len(1), 0);
    assert_eq!(dir.queue_len(2), 0);
    assert!(handler.is_shutting_down());
    assert!(!handler.shutdown(&mut dir));
    assert!(handler.finish());
    assert!(!handler.finish());
    assert_eq!(handler.state(), ShutdownState::Stopped);
    assert!(handler.is_stopped());
}

#[test]
fn fetch_failure_drops_item_and_moves_on() {
    let mut dir = QueueDirectory::new();
    dir.enqueue(3, s("bad"));
    dir.enqueue(3, s("good"));
    assert_eq!(dir.fetch_failed(3), Step::Fetch(s("good")));
    assert_eq!(dir.queue_items(3), vec![s("good")]);
    assert_eq!(dir.fetch_failed(3), Step::Wait);
    assert_eq!(dir.phase(3), Phase::Idle);
}

#[test]
fn dequeue_order_is_enqueue_order() {
    let mut dir = QueueDirectory::new();
    let mut reg = ResourceRegistry::new();
    for q in ["one", "two", "three"] {
        dir.enqueue(1, s(q));
        dir.enqueue(2, s("other"));
    }
    let mut played = Vec::new();
    let mut next = Some(s("one"));
    while let Some(item) = next {
        played.push(item);
        dir.fetch_succeeded(1, &mut reg, None);
        next = match dir.track_ended(1, &mut reg) {
            Step::Fetch(h) => Some(h),
            Step::Wait => None,
        };
    }
    assert_eq!(played, vec![s("one"), s("two"), s("three")]);
    assert_eq!(dir.queue_len(2), 3);
}

#[test]
fn guilds_are_independent() {
    let mut dir = QueueDirectory::new();
    assert_eq!(dir.enqueue(1, s("x")), Step::Fetch(s("x")));
    assert_eq!(dir.enqueue(2, s("y")), Step::Fetch(s("y")));
    dir.stop(1);
    assert_eq!(dir.queue_items(2), vec![s("y")]);
}

#[test]
fn one_active_file_per_guild() {
    let mut dir = QueueDirectory::new();
    let mut reg = ResourceRegistry::new();
    dir.enqueue(5, s("a"));
    dir.enqueue(5, s("b"));
    dir.fetch_succeeded(5, &mut reg, Some(s("/f/a")));
    assert_eq!(reg.snapshot(5).len(), 1);
    dir.track_ended(5, &mut reg);
    dir.fetch_succeeded(5, &mut reg, Some(s("/f/b")));
    assert_eq!(reg.snapshot(5), vec![s("/f/b")]);
    assert_eq!(dir.artifact(5), Some(s("/f/b")));
}

#[test]
fn reap_keeps_active_file() {
    let listing = vec![s("/g/a"), s("/g/b"), s("/g/active"), s("/g/c")];
    let active = vec![s("/g/active")];
    let doomed = files_to_reap(&listing, &active);
    assert_eq!(doomed, vec![s("/g/a"), s("/g/b"), s("/g/c")]);
    let left = vec![s("/g/active")];
    for _ in 0..3 {
        assert!(files_to_reap(&left, &active).is_empty());
        let partial = vec![s("/g/b"), s("/g/active")];
        assert_eq!(files_to_reap(&partial, &active), vec![s("/g/b")]);
    }
}

#[test]
fn reap_with_empty_listing() {
    assert!(files_to_reap(&Vec::new(), &vec![s("/g/x")]).is_empty());
}

#[test]
fn mark_inactive_twice_is_once() {
    let mut reg = ResourceRegistry::new();
    reg.mark_active(1, &s("/p"));
    reg.mark_active(1, &s("/p"));
    reg.mark_active(1, &s("/q"));
    reg.mark_inactive(1, &s("/p"));
    reg.mark_inactive(1, &s("/p"));
    assert_eq!(reg.snapshot(1), vec![s("/q")]);
    reg.mark_inactive(1, &s("/never"));
    assert_eq!(reg.snapshot(1), vec![s("/q")]);
    assert_eq!(reg.tenants(), vec![1]);
}

#[test]
fn registry_keeps_guilds_apart() {
    let mut reg = ResourceRegistry::new();
    reg.mark_active(1, &s("/p"));
    reg.mark_active(2, &s("/p"));
    reg.mark_inactive(1, &s("/p"));
    assert!(reg.snapshot(1).is_empty());
    assert_eq!(reg.snapshot(2), vec![s("/p")]);
    assert_eq!(reg.tenants(), vec![1, 2]);
}

#[test]
fn pop_and_clear_on_empty_queue() {
    let mut q = TenantQueue::new();
    q.pop_head();
    q.clear();
    q.clear();
    assert!(q.is_empty());
    assert_eq!(q.peek_head(), None);
    assert_eq!(q.enqueue(s("a")), 1);
    assert_eq!(q.enqueue(s("b")), 2);
    assert_eq!(q.peek_head(), Some(s("a")));
    q.pop_head();
    assert_eq!(q.items(), vec![s("b")]);
}

#[test]
fn playback_alone_runs_a_cycle() {
    let mut pb = Playback::new(9);
    let mut reg = ResourceRegistry::new();
    assert_eq!(pb.guild(), 9);
    assert_eq!(pb.enqueue(s("a")), Step::Fetch(s("a")));
    pb.fetch_succeeded(&mut reg, Some(s("/x")));
    assert_eq!(pb.artifact(), Some(s("/x")));
    assert_eq!(pb.track_ended(&mut reg), Step::Wait);
    assert_eq!(pb.phase(), Phase::Idle);
    assert!(reg.snapshot(9).is_empty());
}

#[test]
fn get_or_create_is_idempotent() {
    let mut dir = QueueDirectory::new();
    dir.get_or_create(4);
    assert_eq!(dir.phase(4), Phase::Idle);
    assert_eq!(dir.queue_len(4), 0);
    dir.enqueue(4, s("a"));
    dir.get_or_create(4);
    assert_eq!(dir.queue_items(4), vec![s("a")]);
    assert_eq!(dir.phase(4), Phase::Fetching);
    assert_eq!(dir.artifact(4), None);
}
