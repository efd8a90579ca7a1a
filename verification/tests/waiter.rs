use crates_mirror::pubsub::new_pair;

#[test]
fn finished_waiter_releases_its_subscriber() {
    let (publisher, subscriber) = new_pair();
    publisher.finish();
    // A subscriber of a finished waiter completes promptly.
    subscriber.wait();
}

#[test]
fn clones_made_before_and_after_finish_all_complete() {
    let (publisher, subscriber) = new_pair();
    let early = subscriber.subscribe();
    publisher.finish();
    let late = subscriber.subscribe();
    subscriber.wait();
    early.wait();
    late.wait();
}

#[test]
fn dropped_publisher_counts_as_finished() {
    let (publisher, subscriber) = new_pair();
    drop(publisher);
    subscriber.wait();
}

#[test]
fn waiting_twice_is_harmless() {
    let (publisher, subscriber) = new_pair();
    publisher.finish();
    subscriber.wait();
    subscriber.wait();
}
