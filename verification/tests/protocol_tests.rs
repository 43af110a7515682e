use kvlite::file::{Header, Item};
use kvlite::image::{is_well_formed, perform};
use kvlite::protocol::{hash_slot, Action, Event, Kind, Operation, Reply, DEFAULT_KEY_COUNT};
use kvlite::Error;

/// Runs `op` alone against `image` until it ends.
fn run(image: &mut Option<Vec<u8>>, mut op: Operation) -> Reply {
    let mut action = op.start();
    loop {
        match action {
            Action::Finish { reply } => return reply,
            other => {
                let event = perform(image, other);
                action = op.step(event);
            }
        }
    }
}

/// Performs the actions of `op` from `action` on, up to the first `Lock`,
/// which is handed back unperformed.
fn walk_to_lock(image: &mut Option<Vec<u8>>, op: &mut Operation, mut action: Action) -> Action {
    loop {
        match action {
            Action::Lock => return Action::Lock,
            Action::Finish { .. } => panic!("the walk ended without a change to make"),
            other => {
                let event = perform(image, other);
                action = op.step(event);
            }
        }
    }
}

/// The header of a new file with `key_count` home slots, as read from disk.
fn header_bytes(key_count: u32) -> Vec<u8> {
    let header = Header {
        version: 0,
        key_count,
        val_size: 1284,
        heap_size: 0,
    };
    header.as_bytes().to_vec()
}

fn get(image: &mut Option<Vec<u8>>, key: &str) -> Reply {
    run(image, Operation::new(Kind::Get, key, "", 1))
}

#[test]
fn default_key_count_is_256() {
    assert_eq!(DEFAULT_KEY_COUNT, 256);
}

#[test]
fn hash_slot_exact_values() {
    assert_eq!(hash_slot("foo", 256), 38);
    assert_eq!(hash_slot("uma", 256), 41);
    assert_eq!(hash_slot("foo", 1), 0);
    assert_eq!(hash_slot("foo", u32::MAX), 849955110);
}

#[test]
fn first_action_creates_the_file() {
    let op = Operation::get("foo");
    assert_eq!(
        op.start(),
        Action::Create {
            header: vec![0, 0, 0, 0, 0, 1, 0, 0, 4, 5, 0, 0, 0, 0, 0, 0],
            slots: 256
        }
    );
    assert_eq!(Operation::create(3), Operation::new(Kind::Insert, "k", "v", 3).start());
    assert!(!op.is_finished());
}

#[test]
fn lookup_actions_in_order() {
    let mut image: Option<Vec<u8>> = None;
    let mut op = Operation::get("foo");
    let create = op.start();
    assert_eq!(perform(&mut image, create), Event::Done);
    assert_eq!(op.step(Event::Done), Action::ReadHeader);
    let header = perform(&mut image, Action::ReadHeader);
    assert_eq!(op.step(header), Action::ReadItem { pos: 38 });
    let record = perform(&mut image, Action::ReadItem { pos: 38 });
    assert_eq!(record, Event::Data(vec![0u8; 1284]));
    assert_eq!(
        op.step(record),
        Action::Finish {
            reply: Reply::Failed(Error::NotFound)
        }
    );
    assert!(op.is_finished());
    // nothing follows the end
    assert_eq!(
        op.step(Event::Done),
        Action::Finish {
            reply: Reply::Failed(Error::IO)
        }
    );
}

#[test]
fn lookup_follows_the_chain() {
    let mut op = Operation::new(Kind::Get, "uma", "", 1);
    op.start();
    op.step(Event::Done);
    let header = Header {
        version: 0,
        key_count: 1,
        val_size: 1284,
        heap_size: 9,
    };
    assert_eq!(
        op.step(Event::Data(header.as_bytes().to_vec())),
        Action::ReadItem { pos: 0 }
    );
    let first = Item::new("foo", "1").with_next(Some(4));
    assert_eq!(
        op.step(Event::Data(first.as_bytes().to_vec())),
        Action::ReadItem { pos: 4 }
    );
    // an emptied record that still leads on
    let tomb = Item::empty().with_next(Some(7));
    assert_eq!(
        op.step(Event::Data(tomb.as_bytes().to_vec())),
        Action::ReadItem { pos: 7 }
    );
    let hit = Item::new("uma", "3").with_next(Some(9));
    assert_eq!(
        op.step(Event::Data(hit.as_bytes().to_vec())),
        Action::Finish {
            reply: Reply::Value(String::from("3"))
        }
    );
}

#[test]
fn failures_end_in_io() {
    let io = Action::Finish {
        reply: Reply::Failed(Error::IO),
    };
    // the file cannot be created
    let mut op = Operation::get("foo");
    op.start();
    assert_eq!(op.step(Event::Failed), io);
    // the header cannot be read
    let mut op = Operation::get("foo");
    op.start();
    op.step(Event::Done);
    assert_eq!(op.step(Event::Failed), io);
    // the header is short
    let mut op = Operation::get("foo");
    op.start();
    op.step(Event::Done);
    assert_eq!(op.step(Event::Data(vec![0u8; 15])), io);
    // the header has no home slots
    let mut op = Operation::get("foo");
    op.start();
    op.step(Event::Done);
    assert_eq!(op.step(Event::Data(vec![0u8; 16])), io);
    // a record cannot be read
    let mut op = Operation::remove("foo");
    op.start();
    op.step(Event::Done);
    op.step(Event::Data(header_bytes(1)));
    assert_eq!(op.step(Event::Failed), io);
    // the lock cannot be taken: there is nothing to release
    let mut op = Operation::insert("foo", "bar");
    op.start();
    op.step(Event::Done);
    op.step(Event::Data(header_bytes(1)));
    assert_eq!(op.step(Event::Data(vec![0u8; 1284])), Action::Lock);
    assert_eq!(op.step(Event::Failed), io);
}

#[test]
fn failure_under_the_lock_releases_it() {
    let mut op = Operation::insert("foo", "bar");
    op.start();
    op.step(Event::Done);
    op.step(Event::Data(header_bytes(1)));
    assert_eq!(op.step(Event::Data(vec![0u8; 1284])), Action::Lock);
    assert_eq!(op.step(Event::Done), Action::ReadItem { pos: 0 });
    let write = op.step(Event::Data(vec![0u8; 1284]));
    assert_eq!(
        write,
        Action::WriteItem {
            pos: 0,
            bytes: Item::new("foo", "bar").as_bytes().to_vec()
        }
    );
    assert_eq!(op.step(Event::Failed), Action::Unlock);
    assert_eq!(
        op.step(Event::Done),
        Action::Finish {
            reply: Reply::Failed(Error::IO)
        }
    );
}

#[test]
fn conflict_restarts_the_walk_and_writes_nothing() {
    let mut op = Operation::remove("foo");
    op.start();
    op.step(Event::Done);
    op.step(Event::Data(header_bytes(1)));
    let seen = Item::new("foo", "bar").with_next(Some(3));
    assert_eq!(op.step(Event::Data(seen.as_bytes().to_vec())), Action::Lock);
    assert_eq!(op.step(Event::Done), Action::ReadItem { pos: 0 });
    // by now the record holds another value
    let now = Item::new("foo", "baz").with_next(Some(3));
    assert_eq!(op.step(Event::Data(now.as_bytes().to_vec())), Action::Unlock);
    assert_eq!(op.step(Event::Done), Action::ReadItem { pos: 0 });
    // the second walk sees the new record and commits over it
    assert_eq!(op.step(Event::Data(now.as_bytes().to_vec())), Action::Lock);
    assert_eq!(op.step(Event::Done), Action::ReadItem { pos: 0 });
    assert_eq!(
        op.step(Event::Data(now.as_bytes().to_vec())),
        Action::WriteItem {
            pos: 0,
            bytes: Item::empty().with_next(Some(3)).as_bytes().to_vec()
        }
    );
    assert_eq!(op.step(Event::Done), Action::Unlock);
    assert_eq!(
        op.step(Event::Done),
        Action::Finish {
            reply: Reply::Done
        }
    );
}

#[test]
fn append_actions_in_order() {
    let mut op = Operation::insert("doo", "dah");
    op.start();
    op.step(Event::Done);
    let header = Header {
        version: 0,
        key_count: 1,
        val_size: 1284,
        heap_size: 0,
    };
    op.step(Event::Data(header.as_bytes().to_vec()));
    let last = Item::new("foo", "bar");
    assert_eq!(op.step(Event::Data(last.as_bytes().to_vec())), Action::Lock);
    assert_eq!(op.step(Event::Done), Action::ReadHeader);
    // meanwhile the heap has grown by two records
    let grown = Header {
        version: 0,
        key_count: 1,
        val_size: 1284,
        heap_size: 2,
    };
    assert_eq!(
        op.step(Event::Data(grown.as_bytes().to_vec())),
        Action::WriteItem {
            pos: 3,
            bytes: Item::new("doo", "dah").as_bytes().to_vec()
        }
    );
    assert_eq!(op.step(Event::Done), Action::ReadItem { pos: 0 });
    assert_eq!(
        op.step(Event::Data(last.as_bytes().to_vec())),
        Action::WriteItem {
            pos: 0,
            bytes: last.with_next(Some(3)).as_bytes().to_vec()
        }
    );
    let mut counted = grown;
    counted.inc_heap();
    assert_eq!(
        op.step(Event::Done),
        Action::WriteHeader {
            bytes: counted.as_bytes().to_vec()
        }
    );
    assert_eq!(op.step(Event::Done), Action::Unlock);
    assert_eq!(
        op.step(Event::Done),
        Action::Finish {
            reply: Reply::Done
        }
    );
}

#[test]
fn append_fails_when_slots_run_out() {
    let mut op = Operation::insert("doo", "dah");
    op.start();
    op.step(Event::Done);
    let full = Header {
        version: 0,
        key_count: 1,
        val_size: 1284,
        heap_size: u32::MAX,
    };
    op.step(Event::Data(full.as_bytes().to_vec()));
    assert_eq!(
        op.step(Event::Data(Item::new("foo", "bar").as_bytes().to_vec())),
        Action::Lock
    );
    assert_eq!(op.step(Event::Done), Action::ReadHeader);
    assert_eq!(op.step(Event::Data(full.as_bytes().to_vec())), Action::Unlock);
    assert_eq!(
        op.step(Event::Done),
        Action::Finish {
            reply: Reply::Failed(Error::IO)
        }
    );
}

#[test]
fn two_inserts_race_for_one_empty_slot() {
    let mut image: Option<Vec<u8>> = None;
    let mut a = Operation::new(Kind::Insert, "foo", "1", 1);
    let mut b = Operation::new(Kind::Insert, "doo", "2", 1);

    // both walk to the same unused home slot before either takes the lock
    let first = a.start();
    let lock_a = walk_to_lock(&mut image, &mut a, first);
    let first = b.start();
    let lock_b = walk_to_lock(&mut image, &mut b, first);

    // a takes the lock first and commits
    let event = perform(&mut image, lock_a);
    let mut action = a.step(event);
    let mut writes_a = 0;
    let reply_a = loop {
        match action {
            Action::Finish { reply } => break reply,
            other => {
                if matches!(other, Action::WriteItem { .. }) {
                    writes_a += 1;
                }
                let event = perform(&mut image, other);
                action = a.step(event);
            }
        }
    };
    assert_eq!(reply_a, Reply::Done);
    assert_eq!(writes_a, 1);

    // b finds the slot changed, gives the lock back without a write, and walks again
    let event = perform(&mut image, lock_b);
    assert_eq!(b.step(event), Action::ReadItem { pos: 0 });
    let event = perform(&mut image, Action::ReadItem { pos: 0 });
    assert_eq!(b.step(event), Action::Unlock);
    let before_retry = image.clone();
    let event = perform(&mut image, Action::Unlock);
    let again = b.step(event);
    assert_eq!(again, Action::ReadItem { pos: 0 });
    assert_eq!(image, before_retry);

    // the second walk ends behind "foo": b appends to the heap
    let lock_b = walk_to_lock(&mut image, &mut b, again);
    let event = perform(&mut image, lock_b);
    let mut action = b.step(event);
    let reply_b = loop {
        match action {
            Action::Finish { reply } => break reply,
            other => {
                let event = perform(&mut image, other);
                action = b.step(event);
            }
        }
    };
    assert_eq!(reply_b, Reply::Done);

    // no key is lost
    assert_eq!(get(&mut image, "foo"), Reply::Value(String::from("1")));
    assert_eq!(get(&mut image, "doo"), Reply::Value(String::from("2")));
    let bytes = image.unwrap();
    assert_eq!(bytes.len(), 16 + 2 * 1284);
    assert_eq!(Header::from_slice(&bytes[0..16]).heap_size, 1);
}

#[test]
fn failed_append_leaves_an_orphan_that_the_next_append_overwrites() {
    let mut image: Option<Vec<u8>> = None;
    assert_eq!(
        run(&mut image, Operation::new(Kind::Insert, "foo", "1", 1)),
        Reply::Done
    );

    // a and b both walk to the end of the chain
    let mut a = Operation::new(Kind::Insert, "doo", "2", 1);
    let mut b = Operation::new(Kind::Insert, "uma", "3", 1);
    let first = a.start();
    let lock_a = walk_to_lock(&mut image, &mut a, first);
    let first = b.start();
    let lock_b = walk_to_lock(&mut image, &mut b, first);

    // a appends
    let event = perform(&mut image, lock_a);
    let mut action = a.step(event);
    loop {
        match action {
            Action::Finish { reply } => {
                assert_eq!(reply, Reply::Done);
                break;
            }
            other => {
                let event = perform(&mut image, other);
                action = a.step(event);
            }
        }
    }
    assert_eq!(image.as_ref().unwrap().len(), 16 + 2 * 1284);

    // b writes its node behind the heap, then sees that the last node changed
    let event = perform(&mut image, lock_b);
    assert_eq!(b.step(event), Action::ReadHeader);
    let event = perform(&mut image, Action::ReadHeader);
    let write = b.step(event);
    assert_eq!(
        write,
        Action::WriteItem {
            pos: 2,
            bytes: Item::new("uma", "3").as_bytes().to_vec()
        }
    );
    let event = perform(&mut image, write);
    assert_eq!(b.step(event), Action::ReadItem { pos: 0 });
    let event = perform(&mut image, Action::ReadItem { pos: 0 });
    assert_eq!(b.step(event), Action::Unlock);

    // the orphan is on disk, the heap count is as it was, and no chain reaches it
    {
        let bytes = image.as_ref().unwrap();
        assert_eq!(bytes.len(), 16 + 3 * 1284);
        assert_eq!(Header::from_slice(&bytes[0..16]).heap_size, 1);
    }
    assert_eq!(get(&mut image, "uma"), Reply::Failed(Error::NotFound));

    // b walks again and appends at the same place
    let event = perform(&mut image, Action::Unlock);
    let mut action = b.step(event);
    loop {
        match action {
            Action::Finish { reply } => {
                assert_eq!(reply, Reply::Done);
                break;
            }
            other => {
                let event = perform(&mut image, other);
                action = b.step(event);
            }
        }
    }
    assert_eq!(get(&mut image, "foo"), Reply::Value(String::from("1")));
    assert_eq!(get(&mut image, "doo"), Reply::Value(String::from("2")));
    assert_eq!(get(&mut image, "uma"), Reply::Value(String::from("3")));
    let bytes = image.unwrap();
    assert_eq!(bytes.len(), 16 + 3 * 1284);
    assert_eq!(Header::from_slice(&bytes[0..16]).heap_size, 2);
}

#[test]
fn medium_reads_zeros_past_the_end_and_fills_gaps() {
    let mut image: Option<Vec<u8>> = None;
    assert_eq!(perform(&mut image, Action::ReadHeader), Event::Failed);
    assert_eq!(perform(&mut image, Action::Lock), Event::Failed);
    assert_eq!(
        perform(
            &mut image,
            Action::WriteHeader {
                bytes: vec![1u8; 16]
            }
        ),
        Event::Failed
    );
    assert_eq!(perform(&mut image, Operation::create(1)), Event::Done);
    assert_eq!(image.as_ref().unwrap().len(), 16 + 1284);
    assert_eq!(
        perform(&mut image, Action::ReadItem { pos: 5 }),
        Event::Data(vec![0u8; 1284])
    );
    assert_eq!(
        perform(
            &mut image,
            Action::WriteItem {
                pos: 2,
                bytes: vec![7u8; 1284]
            }
        ),
        Event::Done
    );
    let bytes = image.as_ref().unwrap();
    assert_eq!(bytes.len(), 16 + 3 * 1284);
    assert!(bytes[16..16 + 2 * 1284].iter().all(|&b| b == 0));
    assert!(bytes[16 + 2 * 1284..].iter().all(|&b| b == 7));
    assert_eq!(
        perform(
            &mut image,
            Action::Finish {
                reply: Reply::Done
            }
        ),
        Event::Failed
    );
}

#[test]
fn whole_files_are_recognised() {
    let mut image: Option<Vec<u8>> = None;
    assert_eq!(perform(&mut image, Operation::create(3)), Event::Done);
    assert!(is_well_formed(image.as_ref().unwrap()));
    assert_eq!(
        run(&mut image, Operation::new(Kind::Insert, "foo", "1", 3)),
        Reply::Done
    );
    assert!(is_well_formed(image.as_ref().unwrap()));
    let mut bytes = image.unwrap();
    bytes.truncate(16 + 2 * 1284);
    assert!(!is_well_formed(&bytes));
    assert!(!is_well_formed(&[]));
    assert!(!is_well_formed(&[0u8; 2000]));
}
