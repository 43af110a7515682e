use kvlite::file::{Header, Item, HEADER_SIZE, ITEM_SIZE, KEY_SIZE, VALUE_SIZE};

#[test]
fn test_item() {
    let item = Item {
        key: String::from("foo"),
        value: String::from("bar"),
        next: 0u32,
    };
    let new_item = Item::from(item.as_bytes());

    assert_eq!(new_item.key, item.key);
    assert_eq!(new_item.value, item.value);
    assert_eq!(new_item.next, item.next);

    assert!(Item::empty().is_empty());
}

#[test]
fn test_header() {
    let h = Header {
        version: 1,
        key_count: 16,
        val_size: 1024,
        heap_size: 100,
    };
    let new_h = Header::from(h.as_bytes());

    assert_eq!(h.version, new_h.version);
    assert_eq!(h.key_count, new_h.key_count);
    assert_eq!(h.val_size, new_h.val_size);
    assert_eq!(h.heap_size, new_h.heap_size);
}

#[test]
fn sizes_add_up() {
    assert_eq!(HEADER_SIZE, 16);
    assert_eq!(ITEM_SIZE, 1284);
    assert_eq!(KEY_SIZE + VALUE_SIZE + 4, ITEM_SIZE as usize);
}

#[test]
fn header_bytes_are_little_endian() {
    let h = Header {
        version: 1,
        key_count: 16,
        val_size: 1024,
        heap_size: 100,
    };
    assert_eq!(
        h.as_bytes(),
        [1, 0, 0, 0, 16, 0, 0, 0, 0, 4, 0, 0, 100, 0, 0, 0]
    );
    let h = Header {
        version: 0x0102_0304,
        key_count: 0xffff_ffff,
        val_size: 0,
        heap_size: 0x8000_0001,
    };
    assert_eq!(
        h.as_bytes(),
        [4, 3, 2, 1, 255, 255, 255, 255, 0, 0, 0, 0, 1, 0, 0, 128]
    );
}

#[test]
fn header_reads_little_endian() {
    let h = Header::from([4, 3, 2, 1, 255, 255, 255, 255, 0, 0, 0, 0, 1, 0, 0, 128]);
    assert_eq!(h.version, 0x0102_0304);
    assert_eq!(h.key_count, 0xffff_ffff);
    assert_eq!(h.val_size, 0);
    assert_eq!(h.heap_size, 0x8000_0001);
    assert_eq!(Header::from_slice(&[0u8; 16]), Header::from([0u8; 16]));
}

#[test]
fn header_round_trip_on_edge_values() {
    let values = [0u32, 1, 255, 256, 65535, 65536, 0x00ff_ffff, 0x0100_0000, u32::MAX];
    for &a in values.iter() {
        for &b in values.iter() {
            let h = Header {
                version: a,
                key_count: b,
                val_size: a ^ b,
                heap_size: b.wrapping_add(a),
            };
            assert_eq!(Header::from(h.as_bytes()), h);
        }
    }
}

#[test]
fn header_inc_heap_adds_one() {
    let mut h = Header {
        version: 0,
        key_count: 256,
        val_size: 1284,
        heap_size: 41,
    };
    h.inc_heap();
    assert_eq!(
        h,
        Header {
            version: 0,
            key_count: 256,
            val_size: 1284,
            heap_size: 42
        }
    );
}

#[test]
fn item_layout() {
    let item = Item {
        key: String::from("foo"),
        value: String::from("bar"),
        next: 0x0102_0304,
    };
    let b = item.as_bytes();
    assert_eq!(b.len(), 1284);
    assert_eq!(&b[0..3], "foo".as_bytes());
    assert!(b[3..256].iter().all(|&x| x == 0));
    assert_eq!(&b[256..259], "bar".as_bytes());
    assert!(b[259..1280].iter().all(|&x| x == 0));
    assert_eq!(&b[1280..1284], &[4, 3, 2, 1]);
}

#[test]
fn item_round_trip() {
    let item = Item {
        key: String::from("h\u{e9}llo \u{4e16}\u{754c}"),
        value: String::from("\u{1f980} crab"),
        next: 77,
    };
    assert_eq!(Item::from(item.as_bytes()), item);
    let full = Item {
        key: "k".repeat(256),
        value: "v".repeat(1024),
        next: u32::MAX,
    };
    assert_eq!(Item::from(full.as_bytes()), full);
}

#[test]
fn item_key_is_cut_at_256_bytes() {
    let item = Item::new(&"a".repeat(300), "v");
    let back = Item::from(item.as_bytes());
    assert_eq!(back.key, "a".repeat(256));
    assert_eq!(back.value, "v");
}

#[test]
fn item_value_is_cut_at_1024_bytes() {
    let item = Item::new("k", &"b".repeat(2000));
    let back = Item::from(item.as_bytes());
    assert_eq!(back.key, "k");
    assert_eq!(back.value, "b".repeat(1024));
    assert_eq!(back.next, 0);
}

#[test]
fn item_text_ends_at_first_zero_byte() {
    let item = Item::new("ab\0cd", "x\0\0y");
    let back = Item::from(item.as_bytes());
    assert_eq!(back.key, "ab");
    assert_eq!(back.value, "x");
    let item = Item::new("\0hidden", "seen");
    let back = Item::from(item.as_bytes());
    assert_eq!(back.key, "");
    assert_eq!(back.value, "seen");
}

#[test]
fn item_invalid_utf8_is_replaced() {
    let mut b = [0u8; 1284];
    b[0] = 0xff;
    b[1] = b'a';
    b[256] = b'o';
    b[257] = 0xc3;
    let item = Item::from(b);
    assert_eq!(item.key, "\u{fffd}a");
    assert_eq!(item.value, "o\u{fffd}");
}

#[test]
fn item_key_cut_inside_a_character() {
    // 85 three-byte characters and one byte of the next one fill the field.
    let item = Item::new(&"\u{4e16}".repeat(100), "");
    let back = Item::from(item.as_bytes());
    assert_eq!(back.key, format!("{}\u{fffd}", "\u{4e16}".repeat(85)));
}

#[test]
fn item_from_slice_reads_like_from() {
    let item = Item {
        key: String::from("key"),
        value: String::from("value"),
        next: 9,
    };
    let b = item.as_bytes();
    assert_eq!(Item::from_slice(&b), item);
}

#[test]
fn find_null_byte_cases() {
    assert_eq!(Item::find_null_byte(&[]), 0);
    assert_eq!(Item::find_null_byte(&[0]), 0);
    assert_eq!(Item::find_null_byte(&[1, 2, 3]), 3);
    assert_eq!(Item::find_null_byte(&[1, 0, 3, 0]), 1);
    assert_eq!(Item::find_null_byte(&[1, 2, 0]), 2);
}

#[test]
fn empty_item_is_all_zero_bytes() {
    assert_eq!(Item::empty().as_bytes(), [0u8; 1284]);
    assert!(Item::from([0u8; 1284]).is_empty());
    assert!(!Item::new("k", "").is_empty());
    assert!(!Item::new("", "v").is_empty());
    assert!(!Item::empty().with_next(Some(3)).is_empty());
}

#[test]
fn item_next_and_accessors() {
    let item = Item::new("foo", "bar");
    assert_eq!(item.get_next(), None);
    assert!(item.is_key("foo"));
    assert!(!item.is_key("fo"));
    assert!(!item.is_key("foo "));
    let linked = item.with_next(Some(5));
    assert_eq!(linked.get_next(), Some(5));
    assert_eq!(linked.key, "foo");
    assert_eq!(linked.value, "bar");
    assert_eq!(linked.with_next(None).get_next(), None);
    assert_eq!(linked.with_next(Some(0)).get_next(), None);
    assert_eq!(linked.get_val(), "bar");
}

#[test]
fn same_bytes_compares_content() {
    assert!(kvlite::file::same_bytes(&[], &[]));
    assert!(kvlite::file::same_bytes(&[1, 2, 3], &[1, 2, 3]));
    assert!(!kvlite::file::same_bytes(&[1, 2, 3], &[1, 2]));
    assert!(!kvlite::file::same_bytes(&[1, 2, 3], &[1, 2, 4]));
}

#[test]
fn read_u32_is_little_endian() {
    let bytes = [9u8, 0x78, 0x56, 0x34, 0x12, 9];
    assert_eq!(kvlite::file::read_u32(&bytes, 1), 0x1234_5678);
    assert_eq!(kvlite::file::read_u32(&[255, 255, 255, 255], 0), u32::MAX);
    assert_eq!(kvlite::file::read_u32(&[0, 0, 0, 1], 0), 0x0100_0000);
}
