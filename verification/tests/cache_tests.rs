//! The cache protocol: publish visibility, time-to-live expiry, refresh,
//! and the bounded channel.

use rose_store::fs_manager::cache::{Cache, CHANNEL_CAPACITY, TTL_MILLIS};
use rose_store::ident::ImageId;

#[test]
fn insert_invisible_until_publish() {
    let mut c = Cache::new(1000);
    c.insert(ImageId(7), vec![1, 2, 3]);
    // absorbed but not yet published: readers still miss
    c.pump(0);
    assert_eq!(c.get(ImageId(7)), None);
    // a forced update publishes the pending batch
    c.force_update();
    c.pump(0);
    assert_eq!(c.get(ImageId(7)), Some(vec![1, 2, 3]));
}

#[test]
fn periodic_tick_publishes() {
    let mut c = Cache::new(1000);
    c.insert(ImageId(7), vec![9]);
    // past the publish interval, absorbing any operation publishes
    c.pump(1500);
    assert_eq!(c.get(ImageId(7)), Some(vec![9]));
}

#[test]
fn ttl_expiry_after_tick() {
    let mut c = Cache::new(1000);
    c.insert(ImageId(1), vec![5]);
    c.force_update();
    c.pump(0);
    assert_eq!(c.get(ImageId(1)), Some(vec![5]));
    // absorb the refresh that the get enqueued, still at instant 0
    c.pump(0);
    // untouched past the TTL: the next periodic tick sweeps it out
    c.insert(ImageId(2), vec![6]);
    c.pump(TTL_MILLIS + 1500);
    assert_eq!(c.get(ImageId(1)), None);
    // the entry that rode the tick is fresh and stays
    assert_eq!(c.get(ImageId(2)), Some(vec![6]));
}

#[test]
fn refresh_keeps_entry_live() {
    let mut c = Cache::new(1000);
    c.insert(ImageId(1), vec![5]);
    c.force_update();
    c.pump(0);
    // each get enqueues a refresh; pumping within the TTL renews the touch
    assert_eq!(c.get(ImageId(1)), Some(vec![5]));
    c.pump(2000);
    assert_eq!(c.get(ImageId(1)), Some(vec![5]));
    c.pump(4000);
    assert_eq!(c.get(ImageId(1)), Some(vec![5]));
    c.pump(6000);
    // touched at 6000, so a tick at 8000 is within the TTL
    c.insert(ImageId(3), vec![7]);
    c.pump(8000);
    assert_eq!(c.get(ImageId(1)), Some(vec![5]));
    // absorb the last refresh (touch instant 8000), then leave it alone
    c.pump(8000);
    c.insert(ImageId(4), vec![8]);
    c.pump(8000 + TTL_MILLIS + 1);
    assert_eq!(c.get(ImageId(1)), None);
}

#[test]
fn get_misses_without_entry() {
    let mut c = Cache::new(1000);
    assert_eq!(c.get(ImageId(42)), None);
}

#[test]
fn full_channel_drops_operations() {
    let mut c = Cache::new(1000);
    for i in 0..(CHANNEL_CAPACITY + 10) {
        c.insert(ImageId(i as u128), vec![1]);
    }
    assert_eq!(c.queue.len(), CHANNEL_CAPACITY);
    // even the forced update is dropped while the channel is full
    c.force_update();
    assert_eq!(c.queue.len(), CHANNEL_CAPACITY);
    // the dropped operations are the overflow; the first ones survive
    c.pump(0);
    c.force_update();
    c.pump(0);
    assert_eq!(c.get(ImageId(0)), Some(vec![1]));
    assert_eq!(c.get(ImageId((CHANNEL_CAPACITY - 1) as u128)), Some(vec![1]));
    assert_eq!(c.get(ImageId(CHANNEL_CAPACITY as u128)), None);
}

#[test]
fn last_insert_wins() {
    let mut c = Cache::new(1000);
    c.insert(ImageId(1), vec![1]);
    c.insert(ImageId(1), vec![2]);
    c.force_update();
    c.pump(0);
    assert_eq!(c.get(ImageId(1)), Some(vec![2]));
}
