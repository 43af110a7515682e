use kvlite::file::{Header, Item};
use kvlite::{Error, FileHashMap};

#[test]
fn test_hash() {
    let n = 256u32;
    let key1 = String::from("foo");
    let key2 = String::from("bar");
    let h1 = FileHashMap::hash(key1.as_str(), n);
    let h2 = FileHashMap::hash(key1.as_str(), n);
    let h3 = FileHashMap::hash(key2.as_str(), n);
    assert_eq!(h1, h2);
    assert_ne!(h1, h3);
}

#[test]
fn test_filemap() {
    // create a file hashmap with 1 bucket to ensure collisions
    let mut fm = FileHashMap::new("test.kvlite");
    fm.delete_file();
    fm.init_file_once(1).unwrap();

    // get nonexistent key
    let val = fm.get("foo");
    assert_eq!(val.unwrap_err(), Error::NotFound);

    // create key
    fm.insert("foo", "bar").unwrap();
    let val = fm.get("foo");
    assert_eq!(val.unwrap(), "bar");

    // update key
    fm.insert("foo", "baz").unwrap();
    let val = fm.get("foo");
    assert_eq!(val.unwrap(), "baz");

    // add second key and check it
    fm.insert("doo", "dah").unwrap();
    let val = fm.get("doo");
    assert_eq!(val.unwrap(), "dah");

    // add third key and check it
    fm.insert("uma", "duma").unwrap();
    let val = fm.get("uma");
    assert_eq!(val.unwrap(), "duma");

    // make sure old keys are still there
    let val = fm.get("foo");
    assert_eq!(val.unwrap(), "baz");
    let val = fm.get("doo");
    assert_eq!(val.unwrap(), "dah");

    // delete a key and check it
    fm.remove("foo").unwrap();
    let val = fm.get("foo");
    assert_eq!(val.unwrap_err(), Error::NotFound);
}

#[test]
fn hash_exact_values() {
    assert_eq!(FileHashMap::hash("foo", 256), 38);
    assert_eq!(FileHashMap::hash("bar", 256), 179);
    assert_eq!(FileHashMap::hash("doo", 256), 36);
    assert_eq!(FileHashMap::hash("uma", 256), 41);
    assert_eq!(FileHashMap::hash("", 256), 0);
    assert_eq!(FileHashMap::hash("a", 256), 97);
    assert_eq!(FileHashMap::hash("h\u{e9}llo", 256), 225);
    assert_eq!(FileHashMap::hash("foo", 7), 4);
    assert_eq!(FileHashMap::hash("foo", u32::MAX), 849955110);
    assert_eq!(FileHashMap::hash(&"x".repeat(300), 7), 5);
}

#[test]
fn hash_is_below_the_bucket_count() {
    let keys = ["", "a", "foo", "bar", "a much longer key with spaces", "\u{1f980}"];
    for n in [1u32, 2, 3, 7, 256, 1000, u32::MAX] {
        for k in keys.iter() {
            assert!(FileHashMap::hash(k, n) < n as u64);
            assert_eq!(FileHashMap::hash(k, n), FileHashMap::hash(k, n));
        }
    }
    for k in keys.iter() {
        assert_eq!(FileHashMap::hash(k, 1), 0);
    }
}

#[test]
fn new_table_has_no_file() {
    let fm = FileHashMap::new("db.kvlite");
    assert_eq!(fm.filename(), "db.kvlite");
    assert_eq!(fm.image(), None);
}

#[test]
fn get_on_a_fresh_file_is_not_found() {
    let mut fm = FileHashMap::new("fresh.kvlite");
    assert_eq!(fm.get("foo"), Err(Error::NotFound));
    assert_eq!(fm.get("anything else"), Err(Error::NotFound));
    // the file was created on the way, with the default count of home slots
    let image = fm.image().unwrap();
    assert_eq!(image.len(), 16 + 256 * 1284);
    let header = Header::from_slice(&image[0..16]);
    assert_eq!(
        header,
        Header {
            version: 0,
            key_count: 256,
            val_size: 1284,
            heap_size: 0
        }
    );
    assert!(image[16..].iter().all(|&b| b == 0));
}

#[test]
fn empty_key_reads_an_unused_slot() {
    // An unused slot holds the empty key with the empty value.
    let mut fm = FileHashMap::new("fresh.kvlite");
    assert_eq!(fm.get(""), Ok(String::new()));
}

#[test]
fn init_keeps_an_existing_file() {
    let mut fm = FileHashMap::new("init.kvlite");
    assert_eq!(fm.init_file_once(1), Ok(()));
    let first = fm.image().unwrap();
    assert_eq!(first.len(), 16 + 1284);
    assert_eq!(first[4..8], [1, 0, 0, 0]);
    assert_eq!(fm.init_file_once(5), Ok(()));
    assert_eq!(fm.image().unwrap(), first);
    fm.insert("foo", "bar").unwrap();
    assert_eq!(fm.init_file_once(3), Ok(()));
    assert_eq!(fm.get("foo").unwrap(), "bar");
}

#[test]
fn delete_file_forgets_everything() {
    let mut fm = FileHashMap::new("gone.kvlite");
    fm.insert("foo", "bar").unwrap();
    fm.delete_file();
    assert_eq!(fm.image(), None);
    assert_eq!(fm.get("foo"), Err(Error::NotFound));
}

#[test]
fn chaining_in_one_bucket() {
    let mut fm = FileHashMap::new("a.kvlite");
    fm.init_file_once(1).unwrap();
    fm.insert("foo", "bar").unwrap();
    fm.insert("doo", "dah").unwrap();
    assert_eq!(fm.get("foo").unwrap(), "bar");
    assert_eq!(fm.get("doo").unwrap(), "dah");

    // the file: header, the home slot, one heap record
    let image = fm.image().unwrap();
    assert_eq!(image.len(), 16 + 2 * 1284);
    let header = Header::from_slice(&image[0..16]);
    assert_eq!(header.key_count, 1);
    assert_eq!(header.heap_size, 1);
    let home = Item::from_slice(&image[16..16 + 1284]);
    assert_eq!(
        home,
        Item {
            key: String::from("foo"),
            value: String::from("bar"),
            next: 1
        }
    );
    let node = Item::from_slice(&image[16 + 1284..16 + 2 * 1284]);
    assert_eq!(
        node,
        Item {
            key: String::from("doo"),
            value: String::from("dah"),
            next: 0
        }
    );
}

#[test]
fn update_keeps_the_chain() {
    let mut fm = FileHashMap::new("b.kvlite");
    fm.init_file_once(1).unwrap();
    fm.insert("foo", "bar").unwrap();
    fm.insert("doo", "dah").unwrap();
    let before = fm.image().unwrap();
    fm.insert("foo", "baz").unwrap();
    assert_eq!(fm.get("foo").unwrap(), "baz");
    assert_eq!(fm.get("doo").unwrap(), "dah");
    let after = fm.image().unwrap();
    assert_eq!(after.len(), before.len());
    // only the value field of the home slot differs
    assert_eq!(after[0..16 + 256], before[0..16 + 256]);
    assert_eq!(after[16 + 1280..], before[16 + 1280..]);
    let home = Item::from_slice(&after[16..16 + 1284]);
    assert_eq!(home.next, 1);
    // an update in the middle of the chain
    fm.insert("uma", "duma").unwrap();
    fm.insert("doo", "dih").unwrap();
    assert_eq!(fm.get("foo").unwrap(), "baz");
    assert_eq!(fm.get("doo").unwrap(), "dih");
    assert_eq!(fm.get("uma").unwrap(), "duma");
    assert_eq!(fm.image().unwrap().len(), 16 + 3 * 1284);
}

#[test]
fn removal_in_the_middle_of_a_chain() {
    let mut fm = FileHashMap::new("c.kvlite");
    fm.init_file_once(1).unwrap();
    fm.insert("foo", "1").unwrap();
    fm.insert("doo", "2").unwrap();
    fm.insert("uma", "3").unwrap();
    assert_eq!(fm.remove("doo"), Ok(()));
    assert_eq!(fm.get("doo"), Err(Error::NotFound));
    assert_eq!(fm.get("uma").unwrap(), "3");
    assert_eq!(fm.get("foo").unwrap(), "1");

    // the record is emptied in place and still leads on
    let image = fm.image().unwrap();
    assert_eq!(image.len(), 16 + 3 * 1284);
    let tomb = Item::from_slice(&image[16 + 1284..16 + 2 * 1284]);
    assert_eq!(
        tomb,
        Item {
            key: String::new(),
            value: String::new(),
            next: 2
        }
    );
    assert_eq!(Header::from_slice(&image[0..16]).heap_size, 2);

    // the slot is not used again: a new key goes behind the heap
    fm.insert("new", "4").unwrap();
    assert_eq!(fm.image().unwrap().len(), 16 + 4 * 1284);
    assert_eq!(fm.get("new").unwrap(), "4");
    assert_eq!(fm.get("uma").unwrap(), "3");
}

#[test]
fn removal_of_the_home_slot_and_of_the_last_node() {
    let mut fm = FileHashMap::new("d.kvlite");
    fm.init_file_once(1).unwrap();
    fm.insert("foo", "1").unwrap();
    fm.insert("doo", "2").unwrap();
    fm.remove("foo").unwrap();
    assert_eq!(fm.get("foo"), Err(Error::NotFound));
    assert_eq!(fm.get("doo").unwrap(), "2");
    fm.remove("doo").unwrap();
    assert_eq!(fm.get("doo"), Err(Error::NotFound));
    // the last node had no next slot: it is an unused slot now, and taken again
    fm.insert("uma", "3").unwrap();
    assert_eq!(fm.image().unwrap().len(), 16 + 2 * 1284);
    assert_eq!(fm.get("uma").unwrap(), "3");
}

#[test]
fn remove_miss_writes_nothing() {
    let mut fm = FileHashMap::new("e.kvlite");
    fm.init_file_once(1).unwrap();
    fm.insert("foo", "bar").unwrap();
    fm.insert("doo", "dah").unwrap();
    let before = fm.image().unwrap();
    assert_eq!(fm.remove("absent"), Err(Error::NotFound));
    assert_eq!(fm.image().unwrap(), before);
    let mut fresh = FileHashMap::new("f.kvlite");
    assert_eq!(fresh.remove("absent"), Err(Error::NotFound));
    assert!(fresh.image().unwrap()[16..].iter().all(|&b| b == 0));
}

#[test]
fn get_writes_nothing() {
    let mut fm = FileHashMap::new("g.kvlite");
    fm.init_file_once(2).unwrap();
    fm.insert("foo", "bar").unwrap();
    let before = fm.image().unwrap();
    assert_eq!(fm.get("foo").unwrap(), "bar");
    assert_eq!(fm.get("nope"), Err(Error::NotFound));
    assert_eq!(fm.image().unwrap(), before);
}

#[test]
fn many_keys_in_the_default_table() {
    let mut fm = FileHashMap::new("many.kvlite");
    for i in 0..600u32 {
        fm.insert(&format!("key{}", i), &format!("value{}", i)).unwrap();
    }
    for i in 0..600u32 {
        assert_eq!(fm.get(&format!("key{}", i)).unwrap(), format!("value{}", i));
    }
    for i in (0..600u32).step_by(2) {
        fm.remove(&format!("key{}", i)).unwrap();
    }
    for i in 0..600u32 {
        let got = fm.get(&format!("key{}", i));
        if i % 2 == 0 {
            assert_eq!(got, Err(Error::NotFound));
        } else {
            assert_eq!(got.unwrap(), format!("value{}", i));
        }
    }
    let image = fm.image().unwrap();
    let header = Header::from_slice(&image[0..16]);
    assert_eq!(header.key_count, 256);
    assert_eq!(
        image.len(),
        16 + 1284 * (header.key_count as usize + header.heap_size as usize)
    );
}

#[test]
fn keys_land_in_their_home_slots() {
    let mut fm = FileHashMap::new("home.kvlite");
    fm.insert("foo", "bar").unwrap();
    let image = fm.image().unwrap();
    let at = 16 + 1284 * 38;
    let item = Item::from_slice(&image[at..at + 1284]);
    assert_eq!(item, Item::new("foo", "bar"));
    assert_eq!(image.len(), 16 + 256 * 1284);
}

#[test]
fn long_key_is_stored_cut_and_not_found_again() {
    let mut fm = FileHashMap::new("long.kvlite");
    fm.init_file_once(1).unwrap();
    let long = "a".repeat(300);
    fm.insert(&long, "v").unwrap();
    assert_eq!(fm.get(&long), Err(Error::NotFound));
    assert_eq!(fm.get(&"a".repeat(256)).unwrap(), "v");
}

#[test]
fn open_takes_up_a_stored_image() {
    let mut fm = FileHashMap::new("stored.kvlite");
    fm.init_file_once(2).unwrap();
    fm.insert("foo", "bar").unwrap();
    fm.insert("doo", "dah").unwrap();
    fm.insert("uma", "duma").unwrap();
    let stored = fm.image().unwrap();

    let mut again = FileHashMap::open("stored.kvlite", stored.clone()).unwrap();
    assert_eq!(again.filename(), "stored.kvlite");
    assert_eq!(again.image().unwrap(), stored);
    assert_eq!(again.get("foo").unwrap(), "bar");
    assert_eq!(again.get("doo").unwrap(), "dah");
    assert_eq!(again.get("uma").unwrap(), "duma");
    // the count of home slots of the file governs, not the default
    assert_eq!(Header::from_slice(&again.image().unwrap()[0..16]).key_count, 2);
    again.insert("new", "1").unwrap();
    assert_eq!(again.get("new").unwrap(), "1");
}

#[test]
fn open_refuses_what_is_not_a_whole_file() {
    let io = Some(Error::IO);
    assert_eq!(FileHashMap::open("x", vec![]).err(), io);
    assert_eq!(FileHashMap::open("x", vec![0u8; 15]).err(), io);
    // no home slots
    assert_eq!(FileHashMap::open("x", vec![0u8; 16 + 1284]).err(), io);

    let mut fm = FileHashMap::new("x");
    fm.init_file_once(1).unwrap();
    fm.insert("foo", "1").unwrap();
    fm.insert("doo", "2").unwrap();
    let whole = fm.image().unwrap();
    assert!(FileHashMap::open("x", whole.clone()).is_ok());

    // shorter than the header says
    let mut short = whole.clone();
    short.pop();
    assert_eq!(FileHashMap::open("x", short).err(), io);
    // a record that leads back to itself
    let mut looped = whole.clone();
    looped[16 + 1284 + 1280] = 1;
    assert_eq!(FileHashMap::open("x", looped).err(), io);
    // a record that leads back to an earlier slot
    let mut fm3 = FileHashMap::new("x");
    fm3.init_file_once(1).unwrap();
    fm3.insert("a", "1").unwrap();
    fm3.insert("b", "2").unwrap();
    fm3.insert("c", "3").unwrap();
    let mut back = fm3.image().unwrap();
    back[16 + 2 * 1284 + 1280] = 1;
    assert_eq!(FileHashMap::open("x", back).err(), io);
    // a record that leads out of the file
    let mut out = whole.clone();
    out[16 + 1284 + 1280] = 2;
    assert_eq!(FileHashMap::open("x", out).err(), io);
}

#[test]
fn open_accepts_bytes_behind_the_last_slot() {
    let mut fm = FileHashMap::new("x");
    fm.init_file_once(1).unwrap();
    fm.insert("foo", "1").unwrap();
    let mut image = fm.image().unwrap();
    // what an append that lost its race leaves behind
    image.extend_from_slice(&Item::new("lost", "node").as_bytes());
    let mut again = FileHashMap::open("x", image).unwrap();
    assert_eq!(again.get("lost"), Err(Error::NotFound));
    again.insert("doo", "2").unwrap();
    // the new node took the place of the leftover
    let bytes = again.image().unwrap();
    assert_eq!(bytes.len(), 16 + 2 * 1284);
    assert_eq!(
        Item::from_slice(&bytes[16 + 1284..]),
        Item::new("doo", "2")
    );
    assert_eq!(again.get("foo").unwrap(), "1");
    assert_eq!(again.get("doo").unwrap(), "2");
}
