//! The bytes of the file, as a sequence in memory.
//!
//! The file is a header of 16 bytes and, from offset 16 on, one record of
//! 1284 bytes for each slot. Reads past the end give zeros. An image in
//! memory stands in for the file: [`perform`] does to it what a host does
//! to the file on disk.

use crate::file::{lemma_empty_record, lemma_header_round_trip, read_u32, Header, ItemView};
use vstd::slice::*;
use crate::protocol::{fresh_header, Action, ActionView, Event, EventView};
use vstd::prelude::*;

verus! {

/// What `n` bytes read at `off` are: the bytes of the file, and zeros past
/// its end.
pub open spec fn read_at(img: Seq<u8>, off: int, n: int) -> Seq<u8> {
    Seq::new(
        n as nat,
        |i: int|
            if 0 <= off + i < img.len() {
                img[off + i]
            } else {
                0u8
            },
    )
}

/// The file after `data` was written at `off`. A gap between the end of
/// the file and `off` is filled with zeros.
pub open spec fn write_at(img: Seq<u8>, off: int, data: Seq<u8>) -> Seq<u8> {
    Seq::new(
        if img.len() >= off + data.len() {
            img.len()
        } else {
            (off + data.len()) as nat
        },
        |i: int|
            if off <= i < off + data.len() {
                data[i - off]
            } else if i < img.len() {
                img[i]
            } else {
                0u8
            },
    )
}

/// The byte offset of slot `pos`.
pub open spec fn offset(pos: int) -> int {
    16 + 1284 * pos
}

/// The header of the file.
pub open spec fn header_of(img: Seq<u8>) -> Header {
    Header::decode(read_at(img, 0, 16))
}

/// The number of slots of the file: home slots and heap.
pub open spec fn slots(img: Seq<u8>) -> int {
    header_of(img).key_count + header_of(img).heap_size
}

/// The bytes of slot `pos`.
pub open spec fn record_at(img: Seq<u8>, pos: int) -> Seq<u8> {
    read_at(img, offset(pos), 1284)
}

/// The record in slot `pos`.
pub open spec fn item_at(img: Seq<u8>, pos: int) -> ItemView {
    ItemView::decode(record_at(img, pos))
}

/// The record in slot `pos` ends its chain or goes on to a later slot of
/// the file.
pub open spec fn link_ok(img: Seq<u8>, pos: int) -> bool {
    let next = item_at(img, pos).next;
    next == 0 || pos < next < slots(img)
}

/// The file is whole: it has a header with at least one home slot, it is
/// long enough for the slots that its header counts, and the next slot of
/// every record is 0 or a later slot of the file. (Bytes behind the last
/// slot are what an append that lost a race left there.)
pub open spec fn well_formed(img: Seq<u8>) -> bool {
    &&& header_of(img).key_count >= 1
    &&& img.len() >= offset(slots(img))
    &&& forall|pos: int| 0 <= pos < slots(img) ==> #[trigger] link_ok(img, pos)
}

/// A new file with `key_count` home slots: its header, and unused slots.
pub open spec fn fresh_image(key_count: u32) -> Seq<u8> {
    fresh_header(key_count).encode() + Seq::new((1284 * key_count) as nat, |i: int| 0u8)
}

/// What a read gives back of what was written: the data where it was
/// written, and what was there before elsewhere.
pub proof fn lemma_read_write(img: Seq<u8>, off: int, data: Seq<u8>, at: int, n: int)
    requires
        0 <= off,
        0 <= at,
        0 <= n,
    ensures
        write_at(img, off, data).len() >= img.len(),
        write_at(img, off, data).len() >= off + data.len(),
        write_at(img, off, data).len() == img.len() || write_at(img, off, data).len() == off
            + data.len(),
        at == off && n == data.len() ==> read_at(write_at(img, off, data), at, n) == data,
        at + n <= off || off + data.len() <= at ==> read_at(write_at(img, off, data), at, n)
            == read_at(img, at, n),
{
    let after = write_at(img, off, data);
    if at == off && n == data.len() {
        assert(read_at(after, at, n) =~= data);
    }
    if at + n <= off || off + data.len() <= at {
        assert(read_at(after, at, n) =~= read_at(img, at, n));
    }
}

/// Writing a record leaves the header and every other record as they were.
pub proof fn lemma_put_record(img: Seq<u8>, pos: int, record: Seq<u8>, other: int)
    requires
        0 <= pos,
        0 <= other,
        record.len() == 1284,
    ensures
        header_of(write_at(img, offset(pos), record)) == header_of(img),
        record_at(write_at(img, offset(pos), record), pos) == record,
        other != pos ==> record_at(write_at(img, offset(pos), record), other) == record_at(
            img,
            other,
        ),
{
    lemma_read_write(img, offset(pos), record, 0, 16);
    lemma_read_write(img, offset(pos), record, offset(pos), 1284);
    lemma_read_write(img, offset(pos), record, offset(other), 1284);
}

/// Writing the header leaves every record as it was.
pub proof fn lemma_put_header(img: Seq<u8>, header: Header, other: int)
    requires
        0 <= other,
    ensures
        header_of(write_at(img, 0, header.encode())) == header,
        record_at(write_at(img, 0, header.encode()), other) == record_at(img, other),
{
    lemma_header_round_trip(header);
    lemma_read_write(img, 0, header.encode(), 0, 16);
    lemma_read_write(img, 0, header.encode(), offset(other), 1284);
}

/// A new file is whole, and all its slots are unused.
pub proof fn lemma_fresh_image(key_count: u32)
    requires
        key_count >= 1,
    ensures
        well_formed(fresh_image(key_count)),
        header_of(fresh_image(key_count)) == fresh_header(key_count),
        forall|pos: int|
            0 <= pos < key_count ==> (#[trigger] item_at(fresh_image(key_count), pos)).is_empty(),
{
    let img = fresh_image(key_count);
    let header = fresh_header(key_count);
    lemma_header_round_trip(header);
    assert(read_at(img, 0, 16) =~= header.encode());
    lemma_empty_record();
    assert forall|pos: int| 0 <= pos < key_count implies (#[trigger] item_at(img, pos)).is_empty() by {
        assert(record_at(img, pos) =~= Seq::new(1284, |i: int| 0u8));
    }
}

/// Whether `bytes` are a whole file.
pub fn is_well_formed(bytes: &[u8]) -> (r: bool)
    ensures
        r == well_formed(bytes@),
{
    if bytes.len() < 16 {
        return false;
    }
    let header = Header::from_slice(slice_subrange(bytes, 0, 16));
    assert(read_at(bytes@, 0, 16) =~= bytes@.subrange(0, 16));
    if header.key_count == 0 {
        return false;
    }
    let total: u64 = header.key_count as u64 + header.heap_size as u64;
    if 16 + 1284 * total > bytes.len() as u64 {
        return false;
    }
    let mut pos: u64 = 0;
    while pos < total
        invariant
            pos <= total,
            total == slots(bytes@),
            offset(total as int) <= bytes@.len() <= usize::MAX,
            forall|q: int| 0 <= q < pos ==> #[trigger] link_ok(bytes@, q),
        decreases total - pos,
    {
        assert(16 + 1284 * pos + 1284 <= bytes@.len());
        let at: usize = (16 + 1284 * pos + 1280) as usize;
        assert(at == offset(pos as int) + 1280);
        let next = read_u32(bytes, at);
        assert(record_at(bytes@, pos as int).subrange(1280, 1284) =~= bytes@.subrange(
            at as int,
            at + 4,
        ));
        if !(next == 0 || (pos < next as u64 && (next as u64) < total)) {
            assert(!link_ok(bytes@, pos as int));
            return false;
        }
        pos += 1;
    }
    true
}

/// What a file holds: its bytes, or nothing where it does not exist.
pub open spec fn disk(image: Option<Vec<u8>>) -> Option<Seq<u8>> {
    match image {
        Some(bytes) => Some(bytes@),
        None => None,
    }
}

/// What an image in memory makes of an action: the image afterwards, and
/// the event that answers the action. A file that does not exist can only
/// be created; a write fails where the image would outgrow what memory can
/// address; the lock is always free.
pub open spec fn perform_on(img: Option<Seq<u8>>, a: ActionView) -> (Option<Seq<u8>>, EventView) {
    match (a, img) {
        (ActionView::Create { header, slots }, None) => if header.len() == 16 && offset(
            slots as int,
        ) <= usize::MAX {
            (Some(header + Seq::new((1284 * slots) as nat, |i: int| 0u8)), EventView::Done)
        } else {
            (None, EventView::Failed)
        },
        (ActionView::Create { .. }, Some(_)) => (img, EventView::Done),
        (ActionView::ReadHeader, Some(bytes)) => (img, EventView::Data(read_at(bytes, 0, 16))),
        (ActionView::ReadItem { pos }, Some(bytes)) => (
            img,
            EventView::Data(record_at(bytes, pos as int)),
        ),
        (ActionView::Lock, Some(_)) => (img, EventView::Done),
        (ActionView::Unlock, Some(_)) => (img, EventView::Done),
        (ActionView::WriteItem { pos, bytes: data }, Some(bytes)) => if offset(pos as int)
            + data.len() <= usize::MAX {
            (Some(write_at(bytes, offset(pos as int), data)), EventView::Done)
        } else {
            (img, EventView::Failed)
        },
        (ActionView::WriteHeader { bytes: data }, Some(bytes)) => (
            Some(write_at(bytes, 0, data)),
            EventView::Done,
        ),
        _ => (img, EventView::Failed),
    }
}

fn read(image: &Vec<u8>, off: u64, n: usize) -> (data: Vec<u8>)
    requires
        off + n <= u64::MAX,
    ensures
        data@ == read_at(image@, off as int, n as int),
{
    let mut data: Vec<u8> = Vec::new();
    let mut i: usize = 0;
    while i < n
        invariant
            i <= n,
            off + n <= u64::MAX,
            data@ == read_at(image@, off as int, i as int),
        decreases n - i,
    {
        let at: u64 = off + i as u64;
        let byte: u8 = if at < image.len() as u64 {
            image[at as usize]
        } else {
            0u8
        };
        data.push(byte);
        i += 1;
        assert(data@ =~= read_at(image@, off as int, i as int));
    }
    data
}

fn write(image: &mut Vec<u8>, off: usize, data: &Vec<u8>)
    requires
        off + data@.len() <= usize::MAX,
    ensures
        final(image)@ == write_at(old(image)@, off as int, data@),
{
    while image.len() < off
        invariant
            image@.len() <= off || image@.len() == old(image)@.len(),
            image@.len() >= old(image)@.len(),
            forall|j: int| 0 <= j < old(image)@.len() ==> image@[j] == old(image)@[j],
            forall|j: int| old(image)@.len() <= j < image@.len() ==> image@[j] == 0,
        decreases off - image@.len(),
    {
        image.push(0u8);
    }
    let ghost filled = image@;
    let mut i: usize = 0;
    while i < data.len()
        invariant
            i <= data@.len(),
            off + data@.len() <= usize::MAX,
            off <= filled.len(),
            filled.len() == off || filled.len() == old(image)@.len(),
            filled.len() >= old(image)@.len(),
            forall|j: int| 0 <= j < old(image)@.len() ==> filled[j] == old(image)@[j],
            forall|j: int| old(image)@.len() <= j < filled.len() ==> filled[j] == 0,
            image@.len() >= filled.len(),
            image@.len() >= off + i,
            image@.len() == filled.len() || image@.len() == off + i,
            forall|j: int| 0 <= j < off ==> image@[j] == filled[j],
            forall|j: int| off <= j < off + i ==> image@[j] == data@[j - off],
            forall|j: int| off + i <= j < image@.len() ==> image@[j] == filled[j],
        decreases data@.len() - i,
    {
        if off + i < image.len() {
            image.set(off + i, data[i]);
        } else {
            image.push(data[i]);
        }
        i += 1;
    }
    let ghost want = write_at(old(image)@, off as int, data@);
    assert(image@.len() == want.len());
    assert forall|k: int| 0 <= k < want.len() implies image@[k] == want[k] by {
        if k < off {
            assert(image@[k] == filled[k]);
        } else if k < off + data@.len() {
            assert(image@[k] == data@[k - off]);
        } else {
            assert(image@[k] == filled[k]);
        }
    }
    assert(image@ =~= want);
}

/// Performs `action` on an image in memory and says what came of it.
pub fn perform(image: &mut Option<Vec<u8>>, action: Action) -> (ev: Event)
    ensures
        (disk(*final(image)), ev@) == perform_on(disk(*old(image)), action@),
{
    match action {
        Action::Create { header, slots } => {
            if image.is_some() {
                return Event::Done;
            }
            let size: u64 = 16 + 1284 * (slots as u64);
            if header.len() != 16 || size > usize::MAX as u64 {
                return Event::Failed;
            }
            let mut bytes = header;
            let ghost head = bytes@;
            let count: usize = 1284 * (slots as usize);
            let mut i: usize = 0;
            while i < count
                invariant
                    i <= count,
                    bytes@ == head + Seq::new(i as nat, |j: int| 0u8),
                decreases count - i,
            {
                bytes.push(0u8);
                i += 1;
                assert(bytes@ =~= head + Seq::new(i as nat, |j: int| 0u8));
            }
            *image = Some(bytes);
            Event::Done
        },
        Action::ReadHeader => match image {
            Some(bytes) => Event::Data(read(bytes, 0, 16)),
            None => Event::Failed,
        },
        Action::ReadItem { pos } => match image {
            Some(bytes) => Event::Data(read(bytes, 16 + 1284 * (pos as u64), 1284)),
            None => Event::Failed,
        },
        Action::Lock => match image {
            Some(_) => Event::Done,
            None => Event::Failed,
        },
        Action::Unlock => match image {
            Some(_) => Event::Done,
            None => Event::Failed,
        },
        Action::WriteItem { pos, bytes: data } => match image {
            Some(bytes) => {
                let off: u64 = 16 + 1284 * (pos as u64);
                if data.len() as u64 > u64::MAX - off || off + data.len() as u64 > usize::MAX as u64 {
                    return Event::Failed;
                }
                write(bytes, off as usize, &data);
                Event::Done
            },
            None => Event::Failed,
        },
        Action::WriteHeader { bytes: data } => match image {
            Some(bytes) => {
                assert(data@.len() <= usize::MAX) by {
                    vstd::std_specs::vec::axiom_spec_len(&data);
                }
                write(bytes, 0, &data);
                Event::Done
            },
            None => Event::Failed,
        },
        Action::Finish { .. } => Event::Failed,
    }
}

} // verus!
