//! Chains of records: where a walk stops, and what each operation makes
//! of the file.

use crate::file::{
    lemma_header_round_trip, lemma_item_decode_encode, lemma_item_round_trip, Header, ItemView,
};
use crate::image::{
    header_of, item_at, lemma_put_header, lemma_put_record, lemma_read_write, link_ok, offset,
    record_at, slots, well_formed, write_at, fresh_image, lemma_fresh_image, perform_on,
};
use crate::protocol::{
    answers, hash_bytes, home_slot, ActionView, After, Kind, Phase, ReplyView, State,
};
use crate::Error;
use vstd::prelude::*;
use vstd::utf8::*;

verus! {

/// Where a walk of a chain stops.
pub enum Stop {
    /// At a slot that answers the walk.
    Hit(u32),
    /// At the last slot of the chain, which does not answer it.
    End(u32),
}

/// Where the walk for `key` stops when it is at slot `pos`.
pub open spec fn walk(img: Seq<u8>, kind: Kind, key: Seq<char>, pos: u32) -> Stop
    decreases slots(img) - pos,
{
    let item = item_at(img, pos as int);
    if answers(kind, item, key) {
        Stop::Hit(pos)
    } else if pos < item.next < slots(img) {
        walk(img, kind, key, item.next)
    } else {
        Stop::End(pos)
    }
}

/// The home slot of `key` in the file.
pub open spec fn home_of(img: Seq<u8>, key: Seq<char>) -> u32 {
    home_slot(key, header_of(img).key_count)
}

/// The value that the file holds for `key`: that of the first record of
/// the key's chain that holds the key.
pub open spec fn lookup(img: Seq<u8>, key: Seq<char>) -> Option<Seq<char>> {
    match walk(img, Kind::Get, key, home_of(img, key)) {
        Stop::Hit(pos) => Some(item_at(img, pos as int).value),
        Stop::End(_) => None,
    }
}

/// Whether the file can take one more record: a slot index can hold its
/// place, and the image stays within what memory can address.
pub open spec fn can_grow(img: Seq<u8>) -> bool {
    State::new_slot(header_of(img)) is Some && offset(slots(img)) + 1284 <= usize::MAX
}

/// The file after a record was appended behind slot `last`: the record
/// stands behind the heap, `last` has it as its next, and the header
/// counts it.
pub open spec fn appended(img: Seq<u8>, last: u32, node: ItemView) -> Seq<u8> {
    let fresh = slots(img);
    let header = Header { heap_size: (header_of(img).heap_size + 1) as u32, ..header_of(img) };
    let linked = ItemView { next: fresh as u32, ..item_at(img, last as int) };
    write_at(
        write_at(write_at(img, offset(fresh), node.encode()), offset(last as int), linked.encode()),
        0,
        header.encode(),
    )
}

/// The file after `value` was stored under `key`, or `None` where that
/// takes a new record and the file cannot grow. A slot that holds the key,
/// or an unused slot met before, takes the key and value and keeps its
/// next slot. Otherwise a new record is appended to the chain.
pub open spec fn inserted(img: Seq<u8>, key: Seq<char>, value: Seq<char>) -> Option<Seq<u8>> {
    match walk(img, Kind::Insert, key, home_of(img, key)) {
        Stop::Hit(pos) => Some(
            write_at(
                img,
                offset(pos as int),
                ItemView { key, value, next: item_at(img, pos as int).next }.encode(),
            ),
        ),
        Stop::End(pos) => if can_grow(img) {
            Some(appended(img, pos, ItemView { key, value, next: 0 }))
        } else {
            None
        },
    }
}

/// The file after `key` was removed, or `None` where the file does not
/// hold it. The record that held the key becomes that of an unused slot,
/// but for its next slot, which it keeps.
pub open spec fn removed(img: Seq<u8>, key: Seq<char>) -> Option<Seq<u8>> {
    match walk(img, Kind::Remove, key, home_of(img, key)) {
        Stop::Hit(pos) => Some(
            write_at(
                img,
                offset(pos as int),
                ItemView { next: item_at(img, pos as int).next, ..ItemView::empty() }.encode(),
            ),
        ),
        Stop::End(_) => None,
    }
}

/// The file that an operation works on: the file that is there, or a new
/// one with `key_count` home slots.
pub open spec fn started(img: Option<Seq<u8>>, key_count: u32) -> Seq<u8> {
    match img {
        Some(bytes) => bytes,
        None => fresh_image(key_count),
    }
}

/// How an operation ends on a whole file, and what the file holds then.
pub open spec fn outcome(img: Seq<u8>, kind: Kind, key: Seq<char>, value: Seq<char>) -> (
    Seq<u8>,
    ReplyView,
) {
    match kind {
        Kind::Get => match lookup(img, key) {
            Some(v) => (img, ReplyView::Value(v)),
            None => (img, ReplyView::Failed(Error::NotFound)),
        },
        Kind::Insert => match inserted(img, key, value) {
            Some(after) => (after, ReplyView::Done),
            None => (img, ReplyView::Failed(Error::IO)),
        },
        Kind::Remove => match removed(img, key) {
            Some(after) => (after, ReplyView::Done),
            None => (img, ReplyView::Failed(Error::NotFound)),
        },
    }
}

/// The home slot of a key is one of the home slots.
pub proof fn lemma_home_slot(key: Seq<char>, key_count: u32)
    requires
        key_count >= 1,
    ensures
        home_slot(key, key_count) < key_count,
{
    let h = hash_bytes(encode_utf8(key));
    assert(0 <= (h as int) % (key_count as int) < key_count) by (nonlinear_arith)
        requires
            key_count >= 1,
            h >= 0,
    ;
}

/// A walk on a whole file stops at a slot of the file, at or behind the
/// slot it is at: at one that answers it, or at one that does not and has
/// no next slot.
pub proof fn lemma_walk(img: Seq<u8>, kind: Kind, key: Seq<char>, pos: u32)
    requires
        well_formed(img),
        pos < slots(img),
    ensures
        match walk(img, kind, key, pos) {
            Stop::Hit(p) => pos <= p < slots(img) && answers(kind, item_at(img, p as int), key),
            Stop::End(p) => pos <= p < slots(img) && !answers(kind, item_at(img, p as int), key)
                && item_at(img, p as int).next == 0,
        },
    decreases slots(img) - pos,
{
    let item = item_at(img, pos as int);
    assert(link_ok(img, pos as int));
    if !answers(kind, item, key) && pos < item.next < slots(img) {
        lemma_walk(img, kind, key, item.next);
    }
}

/// Writing over a slot a record with the same next slot keeps a whole file
/// whole.
pub proof fn lemma_overwrite_well_formed(img: Seq<u8>, pos: int, item: ItemView)
    requires
        well_formed(img),
        0 <= pos < slots(img),
        item.next == item_at(img, pos).next,
    ensures
        well_formed(write_at(img, offset(pos), item.encode())),
        write_at(img, offset(pos), item.encode()).len() == img.len(),
        header_of(write_at(img, offset(pos), item.encode())) == header_of(img),
{
    let after = write_at(img, offset(pos), item.encode());
    lemma_item_decode_encode(item);
    lemma_put_record(img, pos, item.encode(), pos);
    assert(offset(pos) + 1284 <= img.len()) by (nonlinear_arith)
        requires
            0 <= pos < slots(img),
            img.len() >= offset(slots(img)),
    ;
    assert forall|q: int| 0 <= q < slots(after) implies #[trigger] link_ok(after, q) by {
        lemma_put_record(img, pos, item.encode(), q);
        assert(link_ok(img, q));
    }
}

/// Appending a record behind the last slot of a chain keeps a whole file
/// whole, and makes it one slot longer.
pub proof fn lemma_append_well_formed(img: Seq<u8>, last: u32, node: ItemView)
    requires
        well_formed(img),
        last < slots(img),
        State::new_slot(header_of(img)) is Some,
        node.next == 0,
    ensures
        well_formed(appended(img, last, node)),
        slots(appended(img, last, node)) == slots(img) + 1,
        item_at(appended(img, last, node), slots(img)) == ItemView::decode(node.encode()),
        item_at(appended(img, last, node), last as int) == ItemView::decode(
            ItemView { next: slots(img) as u32, ..item_at(img, last as int) }.encode(),
        ),
        forall|q: int|
            0 <= q < slots(img) && q != last ==> #[trigger] record_at(
                appended(img, last, node),
                q,
            ) == record_at(img, q),
{
    let fresh = slots(img);
    let header = Header { heap_size: (header_of(img).heap_size + 1) as u32, ..header_of(img) };
    let linked = ItemView { next: fresh as u32, ..item_at(img, last as int) };
    let img1 = write_at(img, offset(fresh), node.encode());
    let img2 = write_at(img1, offset(last as int), linked.encode());
    let img3 = write_at(img2, 0, header.encode());
    lemma_item_decode_encode(node);
    lemma_item_decode_encode(linked);
    lemma_header_round_trip(header);
    assert(offset(last as int) + 1284 <= img.len()) by (nonlinear_arith)
        requires
            0 <= last < slots(img),
            img.len() >= offset(slots(img)),
    ;
    lemma_read_write(img, offset(fresh), node.encode(), 0, 16);
    lemma_read_write(img1, offset(last as int), linked.encode(), 0, 16);
    lemma_put_header(img2, header, 0);
    assert(img3.len() >= offset(fresh + 1));
    assert forall|q: int| 0 <= q < slots(img3) implies #[trigger] link_ok(img3, q) by {
        lemma_put_record(img, fresh, node.encode(), q);
        lemma_put_record(img1, last as int, linked.encode(), q);
        lemma_put_header(img2, header, q);
        if q < fresh {
            assert(link_ok(img, q));
        }
    }
    assert forall|q: int| 0 <= q < slots(img) && q != last implies #[trigger] record_at(img3, q)
        == record_at(img, q) by {
        lemma_put_record(img, fresh, node.encode(), q);
        lemma_put_record(img1, last as int, linked.encode(), q);
        lemma_put_header(img2, header, q);
    }
    lemma_put_record(img, fresh, node.encode(), fresh);
    lemma_put_record(img1, last as int, linked.encode(), fresh);
    lemma_put_header(img2, header, fresh);
    lemma_put_record(img1, last as int, linked.encode(), last as int);
    lemma_put_header(img2, header, last as int);
}

/// An operation leaves a whole file whole.
pub proof fn lemma_outcome_well_formed(
    img: Seq<u8>,
    kind: Kind,
    key: Seq<char>,
    value: Seq<char>,
)
    requires
        well_formed(img),
    ensures
        well_formed(outcome(img, kind, key, value).0),
{
    let home = home_of(img, key);
    lemma_home_slot(key, header_of(img).key_count);
    lemma_walk(img, kind, key, home);
    match walk(img, kind, key, home) {
        Stop::Hit(p) => {
            let item = item_at(img, p as int);
            lemma_overwrite_well_formed(
                img,
                p as int,
                ItemView { key, value, next: item.next },
            );
            lemma_overwrite_well_formed(
                img,
                p as int,
                ItemView { next: item.next, ..ItemView::empty() },
            );
        },
        Stop::End(p) => {
            if can_grow(img) {
                lemma_append_well_formed(img, p, ItemView { key, value, next: 0 });
            }
        },
    }
}

/// The slot at which a walk found what it looked for, if it did.
pub open spec fn hit(stop: Stop) -> Option<u32> {
    match stop {
        Stop::Hit(pos) => Some(pos),
        Stop::End(_) => None,
    }
}

/// The record in slot `pos` has an empty key, or is the record that a
/// lookup of its key finds.
pub open spec fn placed(img: Seq<u8>, pos: int) -> bool {
    let key = item_at(img, pos).key;
    key.len() == 0 || walk(img, Kind::Get, key, home_of(img, key)) == Stop::Hit(pos as u32)
}

/// The record in slot `pos` holds texts that fit their fields, and is where
/// a lookup of its key finds it.
pub open spec fn sound(img: Seq<u8>, pos: int) -> bool {
    item_at(img, pos).storable() && placed(img, pos)
}

/// The file is one that inserts of storable texts under keys that are not
/// empty, and removals, make of a new file: it is whole, a slot index can
/// name each of its slots, and every record is sound. In such a file no two
/// records hold the same key, unless it is the empty key.
pub open spec fn faithful(img: Seq<u8>) -> bool {
    &&& well_formed(img)
    &&& slots(img) <= 0x1_0000_0000
    &&& forall|pos: int| 0 <= pos < slots(img) ==> #[trigger] sound(img, pos)
}

/// Whether two files treat a walk for `key` alike at slot `pos`: the slot
/// answers it in both or in neither, and leads on to the same slot.
pub open spec fn alike(
    a: Seq<u8>,
    kind_a: Kind,
    b: Seq<u8>,
    kind_b: Kind,
    key: Seq<char>,
    pos: int,
) -> bool {
    &&& answers(kind_a, item_at(a, pos), key) == answers(kind_b, item_at(b, pos), key)
    &&& item_at(a, pos).next == item_at(b, pos).next
}

/// Walks on two files of the same number of slots stop at the same slot in
/// the same way if the files treat the walk alike at every slot.
pub proof fn lemma_walk_alike(
    a: Seq<u8>,
    kind_a: Kind,
    b: Seq<u8>,
    kind_b: Kind,
    key: Seq<char>,
    pos: u32,
)
    requires
        slots(a) == slots(b),
        pos < slots(a),
        forall|q: int| pos <= q < slots(a) ==> #[trigger] alike(a, kind_a, b, kind_b, key, q),
    ensures
        walk(a, kind_a, key, pos) == walk(b, kind_b, key, pos),
    decreases slots(a) - pos,
{
    assert(alike(a, kind_a, b, kind_b, key, pos as int));
    let item = item_at(a, pos as int);
    if !answers(kind_a, item, key) && pos < item.next < slots(a) {
        lemma_walk_alike(a, kind_a, b, kind_b, key, item.next);
    }
}

/// The walk of a removal is that of a lookup.
pub proof fn lemma_walk_remove(img: Seq<u8>, key: Seq<char>, pos: u32)
    requires
        pos < slots(img),
    ensures
        walk(img, Kind::Remove, key, pos) == walk(img, Kind::Get, key, pos),
{
    assert forall|q: int| pos <= q < slots(img) implies #[trigger] alike(
        img,
        Kind::Remove,
        img,
        Kind::Get,
        key,
        q,
    ) by {}
    lemma_walk_alike(img, Kind::Remove, img, Kind::Get, key, pos);
}

/// Where a lookup finds a key, the walk of an insert stops too.
pub proof fn lemma_walk_insert(img: Seq<u8>, key: Seq<char>, pos: u32, found: u32)
    requires
        well_formed(img),
        pos < slots(img),
        walk(img, Kind::Get, key, pos) == Stop::Hit(found),
    ensures
        walk(img, Kind::Insert, key, pos) == Stop::Hit(found),
    decreases slots(img) - pos,
{
    let item = item_at(img, pos as int);
    if !answers(Kind::Get, item, key) {
        lemma_walk_insert(img, key, item.next, found);
    }
}

/// The empty texts are storable.
pub proof fn lemma_empty_storable(next: u32)
    ensures
        (ItemView { next, ..ItemView::empty() }).storable(),
{
    assert(encode_utf8(Seq::<char>::empty()) =~= Seq::<u8>::empty()) by {
        reveal_with_fuel(encode_utf8, 1);
    }
}

/// `after` is `img` with `item` in slot `at` and every other record as it
/// was.
pub open spec fn replaced(img: Seq<u8>, after: Seq<u8>, at: int, item: ItemView) -> bool {
    &&& slots(after) == slots(img)
    &&& header_of(after).key_count == header_of(img).key_count
    &&& item_at(after, at) == item
    &&& forall|q: int|
        0 <= q < slots(img) && q != at ==> #[trigger] item_at(after, q) == item_at(img, q)
}

/// `after` is `img` with one more slot, which holds `node`; slot `last`
/// has the new slot as its next, and every other record is as it was.
pub open spec fn extended(img: Seq<u8>, after: Seq<u8>, last: int, node: ItemView) -> bool {
    &&& slots(after) == slots(img) + 1
    &&& header_of(after).key_count == header_of(img).key_count
    &&& item_at(after, slots(img)) == node
    &&& item_at(after, last) == ItemView { next: slots(img) as u32, ..item_at(img, last) }
    &&& forall|q: int|
        0 <= q < slots(img) && q != last ==> #[trigger] item_at(after, q) == item_at(img, q)
}

/// Writing a storable record over a slot replaces the record, and keeps
/// the file whole if the record keeps its next slot.
pub proof fn lemma_replaced(img: Seq<u8>, at: u32, item: ItemView)
    requires
        well_formed(img),
        at < slots(img),
        item.storable(),
        item.next == item_at(img, at as int).next,
    ensures
        well_formed(write_at(img, offset(at as int), item.encode())),
        replaced(img, write_at(img, offset(at as int), item.encode()), at as int, item),
{
    let after = write_at(img, offset(at as int), item.encode());
    lemma_overwrite_well_formed(img, at as int, item);
    lemma_item_round_trip(item);
    lemma_put_record(img, at as int, item.encode(), at as int);
    assert forall|q: int| 0 <= q < slots(img) && q != at implies #[trigger] item_at(after, q)
        == item_at(img, q) by {
        lemma_put_record(img, at as int, item.encode(), q);
    }
}

/// Appending a storable record behind the last slot of a chain extends the
/// file, and keeps it whole.
pub proof fn lemma_appended(img: Seq<u8>, last: u32, node: ItemView)
    requires
        well_formed(img),
        last < slots(img),
        State::new_slot(header_of(img)) is Some,
        node.next == 0,
        node.storable(),
        item_at(img, last as int).storable(),
    ensures
        well_formed(appended(img, last, node)),
        extended(img, appended(img, last, node), last as int, node),
{
    let after = appended(img, last, node);
    lemma_append_well_formed(img, last, node);
    lemma_item_round_trip(node);
    lemma_item_round_trip(ItemView { next: slots(img) as u32, ..item_at(img, last as int) });
    assert forall|q: int| 0 <= q < slots(img) && q != last implies #[trigger] item_at(after, q)
        == item_at(img, q) by {
        assert(record_at(after, q) == record_at(img, q));
    }
    let header = Header { heap_size: (header_of(img).heap_size + 1) as u32, ..header_of(img) };
    let img2 = write_at(
        write_at(img, offset(slots(img)), node.encode()),
        offset(last as int),
        (ItemView { next: slots(img) as u32, ..item_at(img, last as int) }).encode(),
    );
    lemma_put_header(img2, header, 0);
}

/// Replacing a record changes no walk for a key that neither the old nor
/// the new record holds, if the record keeps its next slot.
pub proof fn lemma_replaced_frame(
    img: Seq<u8>,
    after: Seq<u8>,
    at: u32,
    item: ItemView,
    other: Seq<char>,
    pos: u32,
)
    requires
        well_formed(img),
        at < slots(img),
        pos < slots(img),
        replaced(img, after, at as int, item),
        item.next == item_at(img, at as int).next,
        item.key != other,
        item_at(img, at as int).key != other,
    ensures
        walk(after, Kind::Get, other, pos) == walk(img, Kind::Get, other, pos),
        hit(walk(img, Kind::Get, other, pos)) != Some(at),
{
    assert forall|q: int| pos <= q < slots(after) implies #[trigger] alike(
        after,
        Kind::Get,
        img,
        Kind::Get,
        other,
        q,
    ) by {
        if q != at {
            assert(item_at(after, q) == item_at(img, q));
        }
    }
    lemma_walk_alike(after, Kind::Get, img, Kind::Get, other, pos);
    lemma_walk(img, Kind::Get, other, pos);
}

/// After the slot where the walk of an insert stopped was given a record
/// for the key, a lookup of the key stops at that slot.
pub proof fn lemma_replaced_found(
    img: Seq<u8>,
    after: Seq<u8>,
    key: Seq<char>,
    item: ItemView,
    pos: u32,
    at: u32,
)
    requires
        well_formed(img),
        pos < slots(img),
        walk(img, Kind::Insert, key, pos) == Stop::Hit(at),
        replaced(img, after, at as int, item),
        item.key == key,
    ensures
        walk(after, Kind::Get, key, pos) == Stop::Hit(at),
    decreases slots(img) - pos,
{
    lemma_walk(img, Kind::Insert, key, pos);
    if pos != at {
        assert(item_at(after, pos as int) == item_at(img, pos as int));
        assert(link_ok(img, pos as int));
        lemma_replaced_found(img, after, key, item, item_at(img, pos as int).next, at);
    }
}

/// After a record for the key was appended behind the slot where the walk
/// of an insert ended, a lookup of the key stops at the new slot.
pub proof fn lemma_extended_found(
    img: Seq<u8>,
    after: Seq<u8>,
    key: Seq<char>,
    node: ItemView,
    pos: u32,
    last: u32,
)
    requires
        well_formed(img),
        pos < slots(img),
        slots(img) <= u32::MAX,
        walk(img, Kind::Insert, key, pos) == Stop::End(last),
        extended(img, after, last as int, node),
        node.key == key,
    ensures
        walk(after, Kind::Get, key, pos) == Stop::Hit(slots(img) as u32),
    decreases slots(img) - pos,
{
    lemma_walk(img, Kind::Insert, key, pos);
    assert(link_ok(img, pos as int));
    if pos != last {
        assert(item_at(after, pos as int) == item_at(img, pos as int));
        lemma_extended_found(img, after, key, node, item_at(img, pos as int).next, last);
    } else {
        let fresh = slots(img) as u32;
        assert(walk(after, Kind::Get, key, fresh) == Stop::Hit(fresh));
    }
}

/// Extending a chain changes no lookup of a key that the new record does
/// not hold.
pub proof fn lemma_extended_frame(
    img: Seq<u8>,
    after: Seq<u8>,
    last: u32,
    node: ItemView,
    other: Seq<char>,
    pos: u32,
)
    requires
        well_formed(img),
        last < slots(img),
        pos < slots(img),
        slots(img) <= u32::MAX,
        extended(img, after, last as int, node),
        node.next == 0,
        node.key != other,
        item_at(img, last as int).next == 0,
    ensures
        hit(walk(after, Kind::Get, other, pos)) == hit(walk(img, Kind::Get, other, pos)),
        hit(walk(img, Kind::Get, other, pos)) matches Some(q) ==> q < slots(img) && item_at(
            after,
            q as int,
        ).value == item_at(img, q as int).value,
    decreases slots(img) - pos,
{
    assert(link_ok(img, pos as int));
    let here = item_at(img, pos as int);
    if pos != last {
        assert(item_at(after, pos as int) == here);
        if !answers(Kind::Get, here, other) && pos < here.next < slots(img) {
            lemma_extended_frame(img, after, last, node, other, here.next);
        }
    } else {
        let fresh = slots(img) as u32;
        if !answers(Kind::Get, here, other) {
            assert(walk(after, Kind::Get, other, fresh) == Stop::End(fresh));
        }
    }
}

/// A lookup finds what an insert stored.
pub proof fn lemma_lookup_inserted(img: Seq<u8>, key: Seq<char>, value: Seq<char>)
    requires
        faithful(img),
        (ItemView { key, value, next: 0 }).storable(),
        inserted(img, key, value) is Some,
    ensures
        lookup(inserted(img, key, value)->0, key) == Some(value),
{
    let home = home_of(img, key);
    let after = inserted(img, key, value)->0;
    lemma_home_slot(key, header_of(img).key_count);
    lemma_walk(img, Kind::Insert, key, home);
    match walk(img, Kind::Insert, key, home) {
        Stop::Hit(at) => {
            let item = ItemView { key, value, next: item_at(img, at as int).next };
            lemma_replaced(img, at, item);
            lemma_replaced_found(img, after, key, item, home, at);
        },
        Stop::End(last) => {
            let node = ItemView { key, value, next: 0 };
            assert(sound(img, last as int));
            lemma_appended(img, last, node);
            lemma_extended_found(img, after, key, node, home, last);
        },
    }
}

/// An insert changes no lookup of another key, unless that is the empty
/// key.
pub proof fn lemma_insert_keeps_others(
    img: Seq<u8>,
    key: Seq<char>,
    value: Seq<char>,
    other: Seq<char>,
)
    requires
        faithful(img),
        (ItemView { key, value, next: 0 }).storable(),
        inserted(img, key, value) is Some,
        other != key,
        other.len() > 0,
    ensures
        lookup(inserted(img, key, value)->0, other) == lookup(img, other),
{
    let home = home_of(img, key);
    let from = home_of(img, other);
    let after = inserted(img, key, value)->0;
    lemma_home_slot(key, header_of(img).key_count);
    lemma_home_slot(other, header_of(img).key_count);
    lemma_walk(img, Kind::Insert, key, home);
    lemma_walk(img, Kind::Get, other, from);
    match walk(img, Kind::Insert, key, home) {
        Stop::Hit(at) => {
            let item = ItemView { key, value, next: item_at(img, at as int).next };
            lemma_replaced(img, at, item);
            lemma_replaced_frame(img, after, at, item, other, from);
        },
        Stop::End(last) => {
            let node = ItemView { key, value, next: 0 };
            assert(sound(img, last as int));
            lemma_appended(img, last, node);
            lemma_extended_frame(img, after, last, node, other, from);
        },
    }
}

/// After a removal a lookup does not find the key, unless it is the empty
/// key.
pub proof fn lemma_lookup_removed(img: Seq<u8>, key: Seq<char>)
    requires
        faithful(img),
        removed(img, key) is Some,
        key.len() > 0,
    ensures
        lookup(removed(img, key)->0, key) is None,
{
    let home = home_of(img, key);
    let after = removed(img, key)->0;
    lemma_home_slot(key, header_of(img).key_count);
    lemma_walk(img, Kind::Remove, key, home);
    lemma_walk_remove(img, key, home);
    let at = hit(walk(img, Kind::Remove, key, home))->0;
    let tomb = ItemView { next: item_at(img, at as int).next, ..ItemView::empty() };
    lemma_empty_storable(tomb.next);
    lemma_replaced(img, at, tomb);
    lemma_walk(after, Kind::Get, key, home);
    if let Stop::Hit(q) = walk(after, Kind::Get, key, home) {
        assert(item_at(after, q as int) == item_at(img, q as int));
        assert(sound(img, q as int));
    }
}

/// A removal changes no lookup of another key, unless that is the empty
/// key.
pub proof fn lemma_remove_keeps_others(img: Seq<u8>, key: Seq<char>, other: Seq<char>)
    requires
        well_formed(img),
        removed(img, key) is Some,
        other != key,
        other.len() > 0,
    ensures
        lookup(removed(img, key)->0, other) == lookup(img, other),
{
    let home = home_of(img, key);
    let from = home_of(img, other);
    let after = removed(img, key)->0;
    lemma_home_slot(key, header_of(img).key_count);
    lemma_home_slot(other, header_of(img).key_count);
    lemma_walk(img, Kind::Remove, key, home);
    let at = hit(walk(img, Kind::Remove, key, home))->0;
    let tomb = ItemView { next: item_at(img, at as int).next, ..ItemView::empty() };
    lemma_empty_storable(tomb.next);
    lemma_replaced(img, at, tomb);
    lemma_replaced_frame(img, after, at, tomb, other, from);
    lemma_walk(img, Kind::Get, other, from);
}

/// A new file is faithful.
pub proof fn lemma_fresh_faithful(key_count: u32)
    requires
        key_count >= 1,
    ensures
        faithful(fresh_image(key_count)),
{
    let img = fresh_image(key_count);
    lemma_fresh_image(key_count);
    assert forall|pos: int| 0 <= pos < slots(img) implies #[trigger] sound(img, pos) by {
        assert(item_at(img, pos).is_empty());
        lemma_empty_storable(0);
        assert(item_at(img, pos).key =~= Seq::<char>::empty());
        assert(item_at(img, pos).value =~= Seq::<char>::empty());
    }
}

/// A record that was sound before stays sound when the slot where the
/// walk of an insert stopped is given a record for the key.
proof fn lemma_replaced_sound(
    img: Seq<u8>,
    after: Seq<u8>,
    key: Seq<char>,
    item: ItemView,
    at: u32,
    q: int,
)
    requires
        faithful(img),
        walk(img, Kind::Insert, key, home_of(img, key)) == Stop::Hit(at),
        at < slots(img),
        replaced(img, after, at as int, item),
        item.key == key,
        item.storable(),
        item.next == item_at(img, at as int).next,
        key.len() > 0,
        0 <= q < slots(img),
    ensures
        sound(after, q),
{
    let home = home_of(img, key);
    lemma_home_slot(key, header_of(img).key_count);
    assert(sound(img, q));
    if q == at {
        lemma_replaced_found(img, after, key, item, home, at);
    } else {
        let held = item_at(img, q).key;
        assert(item_at(after, q) == item_at(img, q));
        if held.len() > 0 {
            let from = home_of(img, held);
            lemma_home_slot(held, header_of(img).key_count);
            if held == key {
                lemma_walk_insert(img, key, home, q as u32);
            } else {
                assert(sound(img, at as int));
                lemma_walk(img, Kind::Insert, key, home);
                lemma_replaced_frame(img, after, at, item, held, from);
            }
        }
    }
}

/// A record that was sound before stays sound when a record for the key is
/// appended behind the slot where the walk of an insert ended, and the new
/// record is sound.
proof fn lemma_extended_sound(
    img: Seq<u8>,
    after: Seq<u8>,
    key: Seq<char>,
    node: ItemView,
    last: u32,
    q: int,
)
    requires
        faithful(img),
        slots(img) <= u32::MAX,
        walk(img, Kind::Insert, key, home_of(img, key)) == Stop::End(last),
        last < slots(img),
        extended(img, after, last as int, node),
        node.key == key,
        node.next == 0,
        node.storable(),
        key.len() > 0,
        0 <= q <= slots(img),
    ensures
        sound(after, q),
{
    let home = home_of(img, key);
    lemma_home_slot(key, header_of(img).key_count);
    lemma_walk(img, Kind::Insert, key, home);
    if q == slots(img) {
        lemma_extended_found(img, after, key, node, home, last);
    } else {
        assert(sound(img, q));
        assert(sound(img, last as int));
        let held = item_at(img, q).key;
        assert(item_at(after, q).key == held);
        assert(item_at(after, q).value == item_at(img, q).value);
        if held.len() > 0 {
            let from = home_of(img, held);
            lemma_home_slot(held, header_of(img).key_count);
            if held == key {
                lemma_walk_insert(img, key, home, q as u32);
            } else {
                lemma_extended_frame(img, after, last, node, held, from);
            }
        }
    }
}

/// A lookup on a new file finds nothing, unless the key is empty.
pub proof fn lemma_fresh_lookup(key_count: u32, key: Seq<char>)
    requires
        key_count >= 1,
        key.len() > 0,
    ensures
        lookup(fresh_image(key_count), key) is None,
{
    let img = fresh_image(key_count);
    lemma_fresh_image(key_count);
    lemma_home_slot(key, key_count);
    lemma_walk(img, Kind::Get, key, home_of(img, key));
    if let Stop::Hit(pos) = walk(img, Kind::Get, key, home_of(img, key)) {
        assert(item_at(img, pos as int).is_empty());
    }
}

/// A lookup of the empty key on a new file finds the empty value: an
/// unused slot cannot be told from one that holds the empty key with the
/// empty value.
pub proof fn lemma_fresh_lookup_empty_key(key_count: u32)
    requires
        key_count >= 1,
    ensures
        lookup(fresh_image(key_count), Seq::empty()) == Some(Seq::<char>::empty()),
{
    let img = fresh_image(key_count);
    let key = Seq::<char>::empty();
    lemma_fresh_image(key_count);
    lemma_home_slot(key, key_count);
    let home = home_of(img, key);
    assert(item_at(img, home as int).is_empty());
    assert(item_at(img, home as int).key =~= key);
    assert(item_at(img, home as int).value =~= Seq::<char>::empty());
}

/// An insert of storable texts under a key that is not empty keeps a
/// faithful file faithful.
pub proof fn lemma_insert_faithful(img: Seq<u8>, key: Seq<char>, value: Seq<char>)
    requires
        faithful(img),
        (ItemView { key, value, next: 0 }).storable(),
        key.len() > 0,
        inserted(img, key, value) is Some,
    ensures
        faithful(inserted(img, key, value)->0),
{
    let home = home_of(img, key);
    let after = inserted(img, key, value)->0;
    lemma_home_slot(key, header_of(img).key_count);
    lemma_walk(img, Kind::Insert, key, home);
    match walk(img, Kind::Insert, key, home) {
        Stop::Hit(at) => {
            let item = ItemView { key, value, next: item_at(img, at as int).next };
            lemma_replaced(img, at, item);
            assert forall|q: int| 0 <= q < slots(after) implies #[trigger] sound(after, q) by {
                lemma_replaced_sound(img, after, key, item, at, q);
            }
        },
        Stop::End(last) => {
            let node = ItemView { key, value, next: 0 };
            assert(sound(img, last as int));
            lemma_appended(img, last, node);
            assert forall|q: int| 0 <= q < slots(after) implies #[trigger] sound(after, q) by {
                lemma_extended_sound(img, after, key, node, last, q);
            }
        },
    }
}

/// A removal keeps a faithful file faithful.
pub proof fn lemma_remove_faithful(img: Seq<u8>, key: Seq<char>)
    requires
        faithful(img),
        removed(img, key) is Some,
    ensures
        faithful(removed(img, key)->0),
{
    let home = home_of(img, key);
    let after = removed(img, key)->0;
    lemma_home_slot(key, header_of(img).key_count);
    lemma_walk(img, Kind::Remove, key, home);
    lemma_walk_remove(img, key, home);
    let at = hit(walk(img, Kind::Remove, key, home))->0;
    let tomb = ItemView { next: item_at(img, at as int).next, ..ItemView::empty() };
    lemma_empty_storable(tomb.next);
    lemma_replaced(img, at, tomb);
    assert forall|q: int| 0 <= q < slots(after) implies #[trigger] sound(after, q) by {
        assert(sound(img, q));
        let held = item_at(after, q).key;
        if q != at && held.len() > 0 {
            assert(item_at(after, q) == item_at(img, q));
            let from = home_of(img, held);
            lemma_home_slot(held, header_of(img).key_count);
            if held != key {
                lemma_replaced_frame(img, after, at, tomb, held, from);
            }
        }
    }
}

/// Two writers never both commit against one snapshot of a slot. Of two
/// operations that saw the same record in a slot and mean to write over
/// it, the one that takes the lock first commits; the other then finds the
/// slot changed, writes nothing and starts its walk again. (Unless the
/// first wrote the very bytes that were there.)
pub proof fn lemma_second_writer_conflicts(first: State, second: State, img: Seq<u8>)
    requires
        first.phase == Phase::Verify,
        second.phase == Phase::Verify,
        first.pos == second.pos,
        first.seen == second.seen,
        first.seen == record_at(img, first.pos as int),
        first.write.len() == 1284,
        first.write != first.seen,
        offset(first.pos as int) + 1284 <= usize::MAX,
    ensures
        ({
            let read = ActionView::ReadItem { pos: first.pos };
            let (_, found) = perform_on(Some(img), read);
            let (committing, write) = first.step(found);
            let (after, _) = perform_on(Some(img), write);
            let (_, changed) = perform_on(after, read);
            &&& write == ActionView::WriteItem { pos: first.pos, bytes: first.write }
            &&& after == Some(write_at(img, offset(first.pos as int), first.write))
            &&& second.step(changed) == second.release(After::Retry)
        }),
{
    lemma_put_record(img, first.pos as int, first.write, first.pos as int);
}

/// An append that lost the race leaves an orphan and nothing else. Where
/// another operation has appended behind slot `last` since the walk saw
/// it, the new node of this operation is written behind the heap, but then
/// `last` is found changed: the operation starts again, the header still
/// counts the heap as the winner left it, and so the next append writes
/// over the orphan.
pub proof fn lemma_second_append_conflicts(s: State, img: Seq<u8>, winner: ItemView)
    requires
        well_formed(img),
        s.phase == Phase::AppendVerify,
        s.pos < slots(img),
        s.seen == record_at(img, s.pos as int),
        s.write.len() == 1284,
        item_at(img, s.pos as int).next == 0,
        item_at(img, s.pos as int).storable(),
        State::new_slot(header_of(img)) is Some,
        winner.next == 0,
        winner.storable(),
    ensures
        ({
            let won = appended(img, s.pos, winner);
            let orphaned = write_at(won, offset(slots(won)), s.write);
            let (_, changed) = perform_on(Some(orphaned), ActionView::ReadItem { pos: s.pos });
            &&& s.step(changed) == s.release(After::Retry)
            &&& header_of(orphaned) == header_of(won)
            &&& slots(won) == slots(img) + 1
            &&& forall|q: int| 0 <= q < slots(won) ==> record_at(orphaned, q) == record_at(won, q)
        }),
{
    let won = appended(img, s.pos, winner);
    let orphaned = write_at(won, offset(slots(won)), s.write);
    lemma_appended(img, s.pos, winner);
    lemma_put_record(won, slots(won), s.write, s.pos as int);
    assert forall|q: int| 0 <= q < slots(won) implies record_at(orphaned, q) == record_at(
        won,
        q,
    ) by {
        lemma_put_record(won, slots(won), s.write, q);
    }
    assert(item_at(won, s.pos as int).next != 0);
}

} // verus!
