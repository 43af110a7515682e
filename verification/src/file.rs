//! The binary layout of the backing file: a 16-byte header followed by
//! fixed-size records.
//!
//! Every integer is stored little-endian. A record holds a key field of 256
//! bytes, a value field of 1024 bytes and the slot index of the next record
//! of its chain; both text fields are zero-padded and end at their first
//! zero byte.

use vstd::prelude::*;
use vstd::slice::*;
use vstd::string::*;
use vstd::utf8::*;

verus! {

/// Bytes in one record.
pub const ITEM_SIZE: u32 = 1284;

/// Bytes in the header.
pub const HEADER_SIZE: usize = 16;

/// Bytes in the key field of a record.
pub const KEY_SIZE: usize = 256;

/// Bytes in the value field of a record.
pub const VALUE_SIZE: usize = 1024;

/// The integer that four little-endian bytes stand for.
pub open spec fn u32_from_le(b: Seq<u8>) -> u32
    recommends
        b.len() == 4,
{
    (b[0] + 256 * b[1] + 65536 * b[2] + 16777216 * b[3]) as u32
}

/// The four little-endian bytes of an integer.
pub open spec fn u32_to_le(x: u32) -> Seq<u8> {
    seq![
        (x % 256) as u8,
        (x / 256 % 256) as u8,
        (x / 65536 % 256) as u8,
        (x / 16777216 % 256) as u8,
    ]
}

/// Unpacking an integer and packing its four bytes gives the integer back.
pub proof fn lemma_u32_le_round_trip(x: u32)
    ensures
        u32_to_le(x).len() == 4,
        u32_from_le(u32_to_le(x)) == x,
{
}

/// Packing four bytes and unpacking the integer gives the bytes back.
pub proof fn lemma_u32_le_bytes_round_trip(b: Seq<u8>)
    requires
        b.len() == 4,
    ensures
        u32_to_le(u32_from_le(b)) == b,
{
    let x = u32_from_le(b);
    let (b0, b1, b2, b3) = (b[0] as int, b[1] as int, b[2] as int, b[3] as int);
    assert(x == b0 + 256 * (b1 + 256 * (b2 + 256 * b3)));
    assert(x % 256 == b0 && x / 256 == b1 + 256 * (b2 + 256 * b3));
    assert(x / 256 % 256 == b1 && x / 65536 == b2 + 256 * b3);
    assert(x / 65536 % 256 == b2 && x / 16777216 == b3);
    assert(u32_to_le(x) =~= b);
}

/// Reads the little-endian integer in the four bytes at `at`.
pub fn read_u32(b: &[u8], at: usize) -> (x: u32)
    requires
        at + 4 <= b@.len(),
    ensures
        x == u32_from_le(b@.subrange(at as int, at + 4)),
{
    let b0: u32 = b[at] as u32;
    let b1: u32 = b[at + 1] as u32;
    let b2: u32 = b[at + 2] as u32;
    let b3: u32 = b[at + 3] as u32;
    let x: u32 = b0 | (b1 << 8) | (b2 << 16) | (b3 << 24);
    assert(x == b0 + 256 * b1 + 65536 * b2 + 16777216 * b3) by (bit_vector)
        requires
            x == b0 | (b1 << 8) | (b2 << 16) | (b3 << 24),
            b0 < 256,
            b1 < 256,
            b2 < 256,
            b3 < 256,
    ;
    x
}

fn u32_bytes(x: u32) -> (b: [u8; 4])
    ensures
        b@ == u32_to_le(x),
{
    let b0: u8 = (x & 0xff) as u8;
    let b1: u8 = ((x >> 8) & 0xff) as u8;
    let b2: u8 = ((x >> 16) & 0xff) as u8;
    let b3: u8 = ((x >> 24) & 0xff) as u8;
    assert(b0 == x % 256 && b1 == x / 256 % 256 && b2 == x / 65536 % 256 && b3 == x / 16777216
        % 256) by (bit_vector)
        requires
            b0 == (x & 0xff) as u8,
            b1 == ((x >> 8) & 0xff) as u8,
            b2 == ((x >> 16) & 0xff) as u8,
            b3 == ((x >> 24) & 0xff) as u8,
    ;
    let b: [u8; 4] = [b0, b1, b2, b3];
    assert(b@ =~= u32_to_le(x));
    b
}

/// The first 16 bytes of the file.
#[derive(Debug, Clone, Copy, PartialEq, Eq, Structural)]
pub struct Header {
    /// Reserved, always 0.
    pub version: u32,
    /// Number of home slots, fixed when the file is created.
    pub key_count: u32,
    /// The size of a record, kept for readers of later layouts.
    pub val_size: u32,
    /// Number of records appended after the home slots.
    pub heap_size: u32,
}

impl Header {
    /// The header that 16 bytes stand for.
    pub open spec fn decode(b: Seq<u8>) -> Header
        recommends
            b.len() == 16,
    {
        Header {
            version: u32_from_le(b.subrange(0, 4)),
            key_count: u32_from_le(b.subrange(4, 8)),
            val_size: u32_from_le(b.subrange(8, 12)),
            heap_size: u32_from_le(b.subrange(12, 16)),
        }
    }

    /// The 16 bytes that stand for the header.
    pub open spec fn encode(self) -> Seq<u8> {
        u32_to_le(self.version) + u32_to_le(self.key_count) + u32_to_le(self.val_size)
            + u32_to_le(self.heap_size)
    }

    /// Reads a header from its 16 bytes.
    pub fn from(b: [u8; 16]) -> (h: Header)
        ensures
            h == Header::decode(b@),
    {
        Header::from_slice(b.as_slice())
    }

    /// Reads a header from a slice of 16 bytes.
    pub fn from_slice(s: &[u8]) -> (h: Header)
        requires
            s@.len() == 16,
        ensures
            h == Header::decode(s@),
    {
        Header {
            version: read_u32(s, 0),
            key_count: read_u32(s, 4),
            val_size: read_u32(s, 8),
            heap_size: read_u32(s, 12),
        }
    }

    /// Writes the header as its 16 bytes.
    pub fn as_bytes(&self) -> (b: [u8; 16])
        ensures
            b@ == self.encode(),
    {
        let version = u32_bytes(self.version);
        let key_count = u32_bytes(self.key_count);
        let val_size = u32_bytes(self.val_size);
        let heap_size = u32_bytes(self.heap_size);
        let mut b: [u8; 16] = [0u8; 16];
        let mut i: usize = 0;
        while i < 4
            invariant
                i <= 4,
                forall|j: int| 0 <= j < i ==> b@[j] == version@[j],
                forall|j: int| 0 <= j < i ==> b@[4 + j] == key_count@[j],
                forall|j: int| 0 <= j < i ==> b@[8 + j] == val_size@[j],
                forall|j: int| 0 <= j < i ==> b@[12 + j] == heap_size@[j],
            decreases 4 - i,
        {
            b[i] = version[i];
            b[4 + i] = key_count[i];
            b[8 + i] = val_size[i];
            b[12 + i] = heap_size[i];
            i += 1;
        }
        assert(b@ =~= self.encode());
        b
    }

    /// Counts one more record in the heap.
    pub fn inc_heap(&mut self)
        requires
            old(self).heap_size < u32::MAX,
        ensures
            *final(self) == (Header { heap_size: (old(self).heap_size + 1) as u32, ..*old(self) }),
    {
        self.heap_size += 1;
    }
}

/// Encoding a header and decoding the bytes gives the header back.
pub proof fn lemma_header_round_trip(h: Header)
    ensures
        h.encode().len() == 16,
        Header::decode(h.encode()) == h,
{
    let b = h.encode();
    lemma_u32_le_round_trip(h.version);
    lemma_u32_le_round_trip(h.key_count);
    lemma_u32_le_round_trip(h.val_size);
    lemma_u32_le_round_trip(h.heap_size);
    assert(b.subrange(0, 4) =~= u32_to_le(h.version));
    assert(b.subrange(4, 8) =~= u32_to_le(h.key_count));
    assert(b.subrange(8, 12) =~= u32_to_le(h.val_size));
    assert(b.subrange(12, 16) =~= u32_to_le(h.heap_size));
}

/// Decoding 16 bytes and encoding the header gives the bytes back.
pub proof fn lemma_header_bytes_round_trip(b: Seq<u8>)
    requires
        b.len() == 16,
    ensures
        Header::decode(b).encode() == b,
{
    lemma_u32_le_bytes_round_trip(b.subrange(0, 4));
    lemma_u32_le_bytes_round_trip(b.subrange(4, 8));
    lemma_u32_le_bytes_round_trip(b.subrange(8, 12));
    lemma_u32_le_bytes_round_trip(b.subrange(12, 16));
    assert(Header::decode(b).encode() =~= b);
}

/// What `String::from_utf8_lossy` makes of bytes that are not valid UTF-8:
/// the text with U+FFFD in place of each invalid sequence.
pub uninterp spec fn utf8_lossy(bytes: Seq<u8>) -> Seq<char>;

/// The text that bytes are read as: their characters where they are valid
/// UTF-8, and the lossy reading otherwise.
pub open spec fn lossy_text(bytes: Seq<u8>) -> Seq<char> {
    if valid_utf8(bytes) {
        decode_utf8(bytes)
    } else {
        utf8_lossy(bytes)
    }
}

/// `String::from_utf8_lossy`, with the result owned. Trusted: valid UTF-8
/// is decoded as it stands, and for other bytes the result is the one that
/// `utf8_lossy` names.
#[verifier::external_body]
fn string_from_utf8_lossy(bytes: &[u8]) -> (s: String)
    ensures
        valid_utf8(bytes@) ==> s@ == decode_utf8(bytes@),
        !valid_utf8(bytes@) ==> s@ == utf8_lossy(bytes@),
{
    String::from_utf8_lossy(bytes).into_owned()
}

/// The index of the first zero byte at or after `from`, or the length where
/// there is none.
pub open spec fn zero_index_from(b: Seq<u8>, from: int) -> int
    decreases b.len() - from,
{
    if 0 <= from < b.len() && b[from] != 0 {
        zero_index_from(b, from + 1)
    } else {
        from
    }
}

/// The index of the first zero byte, or the length where there is none.
pub open spec fn zero_index(b: Seq<u8>) -> int {
    zero_index_from(b, 0)
}

/// `n` is where a zero-terminated text in `b` ends: no byte before `n` is
/// zero, and `n` is the length or the place of a zero byte.
pub open spec fn ends_at(b: Seq<u8>, n: int) -> bool {
    &&& 0 <= n <= b.len()
    &&& forall|j: int| 0 <= j < n ==> b[j] != 0
    &&& n < b.len() ==> b[n] == 0
}

proof fn lemma_zero_index_from(b: Seq<u8>, from: int)
    requires
        0 <= from <= b.len(),
        forall|j: int| 0 <= j < from ==> b[j] != 0,
    ensures
        ends_at(b, zero_index_from(b, from)),
    decreases b.len() - from,
{
    if from < b.len() && b[from] != 0 {
        lemma_zero_index_from(b, from + 1);
    }
}

/// `zero_index` is the one place where the text in `b` ends.
pub proof fn lemma_zero_index(b: Seq<u8>, n: int)
    ensures
        ends_at(b, zero_index(b)),
        ends_at(b, n) ==> n == zero_index(b),
{
    lemma_zero_index_from(b, 0);
    let z = zero_index(b);
    if ends_at(b, n) {
        if n < z {
            assert(b[n] == 0);
        } else if z < n {
            assert(b[z] == 0);
        }
    }
}

/// The bytes of a field before its first zero byte.
pub open spec fn c_string(field: Seq<u8>) -> Seq<u8> {
    field.take(zero_index(field))
}

/// A field of `width` bytes that holds `raw`: its first `width` bytes, then
/// zeros.
pub open spec fn padded(raw: Seq<u8>, width: int) -> Seq<u8> {
    Seq::new(
        width as nat,
        |i: int|
            if i < raw.len() {
                raw[i]
            } else {
                0u8
            },
    )
}

/// What is left of `raw` once it has been stored in a field of `width`
/// bytes: it is cut at its first zero byte or at `width`, whichever comes
/// first.
pub open spec fn stored(raw: Seq<u8>, width: int) -> Seq<u8> {
    if zero_index(raw) <= width {
        raw.take(zero_index(raw))
    } else {
        raw.take(width)
    }
}

/// Reading a field back gives what `stored` says was kept of the bytes
/// written to it.
pub proof fn lemma_field_round_trip(raw: Seq<u8>, width: int)
    requires
        0 <= width,
    ensures
        c_string(padded(raw, width)) == stored(raw, width),
{
    let field = padded(raw, width);
    let z = zero_index(raw);
    lemma_zero_index(raw, 0);
    let n = if z <= width {
        z
    } else {
        width
    };
    assert(ends_at(field, n));
    lemma_zero_index(field, n);
    assert(field.take(n) =~= raw.take(n));
}

/// A record as the contracts see it.
pub struct ItemView {
    pub key: Seq<char>,
    pub value: Seq<char>,
    pub next: u32,
}

impl ItemView {
    /// The record that 1284 bytes stand for.
    pub open spec fn decode(b: Seq<u8>) -> ItemView
        recommends
            b.len() == 1284,
    {
        ItemView {
            key: lossy_text(c_string(b.subrange(0, 256))),
            value: lossy_text(c_string(b.subrange(256, 1280))),
            next: u32_from_le(b.subrange(1280, 1284)),
        }
    }

    /// The 1284 bytes that stand for the record. Bytes of the key beyond
    /// 256 and of the value beyond 1024 are dropped.
    pub open spec fn encode(self) -> Seq<u8> {
        padded(encode_utf8(self.key), 256) + padded(encode_utf8(self.value), 1024) + u32_to_le(
            self.next,
        )
    }

    /// The record of an unused slot.
    pub open spec fn empty() -> ItemView {
        ItemView { key: Seq::empty(), value: Seq::empty(), next: 0 }
    }

    /// Whether the record is the one of an unused slot.
    pub open spec fn is_empty(self) -> bool {
        self.key.len() == 0 && self.value.len() == 0 && self.next == 0
    }

    /// Whether the text fits its fields and comes back from them unchanged:
    /// at most 256 bytes of key and 1024 of value, and no zero byte in
    /// either.
    pub open spec fn storable(self) -> bool {
        &&& encode_utf8(self.key).len() <= 256
        &&& encode_utf8(self.value).len() <= 1024
        &&& zero_index(encode_utf8(self.key)) == encode_utf8(self.key).len()
        &&& zero_index(encode_utf8(self.value)) == encode_utf8(self.value).len()
    }
}

/// A node of a chain: a key, its value, and the slot of the next node.
#[derive(Debug, Clone, PartialEq, Eq)]
pub struct Item {
    /// The key, as text.
    pub key: String,
    /// The value, as text.
    pub value: String,
    /// The slot index of the next node of the chain, or 0 for none.
    pub next: u32,
}

impl View for Item {
    type V = ItemView;

    open spec fn view(&self) -> ItemView {
        ItemView { key: self.key@, value: self.value@, next: self.next }
    }
}

/// Whether two byte strings are the same.
pub fn same_bytes(a: &[u8], b: &[u8]) -> (r: bool)
    ensures
        r == (a@ == b@),
{
    if a.len() != b.len() {
        return false;
    }
    let mut i: usize = 0;
    while i < a.len()
        invariant
            i <= a@.len(),
            a@.len() == b@.len(),
            forall|j: int| 0 <= j < i ==> a@[j] == b@[j],
        decreases a@.len() - i,
    {
        if a[i] != b[i] {
            return false;
        }
        i += 1;
    }
    assert(a@ =~= b@);
    true
}

/// Two texts are the same exactly when their UTF-8 bytes are.
pub proof fn lemma_utf8_injective(a: Seq<char>, b: Seq<char>)
    ensures
        (encode_utf8(a) == encode_utf8(b)) == (a == b),
{
    encode_utf8_decode_utf8(a);
    encode_utf8_decode_utf8(b);
}

impl Item {
    /// A node for `key` and `value` with no next node.
    pub fn new(key: &str, value: &str) -> (item: Item)
        ensures
            item@ == (ItemView { key: key@, value: value@, next: 0 }),
    {
        Item { key: key.to_owned(), value: value.to_owned(), next: 0u32 }
    }

    /// The node of an unused slot.
    pub fn empty() -> (item: Item)
        ensures
            item@ == ItemView::empty(),
    {
        Item { key: String::new(), value: String::new(), next: 0u32 }
    }

    /// Reads a node from the 1284 bytes of a record.
    pub fn from(bytes: [u8; 1284]) -> (item: Item)
        ensures
            item@ == ItemView::decode(bytes@),
    {
        Item::from_slice(bytes.as_slice())
    }

    /// Reads a node from a slice of 1284 bytes.
    pub fn from_slice(s: &[u8]) -> (item: Item)
        requires
            s@.len() == 1284,
        ensures
            item@ == ItemView::decode(s@),
    {
        let key_field = slice_subrange(s, 0, 256);
        let value_field = slice_subrange(s, 256, 1280);
        let key_len = Item::find_null_byte(key_field);
        let value_len = Item::find_null_byte(value_field);
        proof {
            lemma_zero_index(key_field@, 0);
            lemma_zero_index(value_field@, 0);
        }
        let key = string_from_utf8_lossy(slice_subrange(key_field, 0, key_len));
        let value = string_from_utf8_lossy(slice_subrange(value_field, 0, value_len));
        let next = read_u32(s, 1280);
        Item { key, value, next }
    }

    /// The index of the first zero byte, or the length where there is none.
    pub fn find_null_byte(bytes: &[u8]) -> (n: usize)
        ensures
            n == zero_index(bytes@),
    {
        let mut i: usize = 0;
        while i < bytes.len()
            invariant
                i <= bytes@.len(),
                forall|j: int| 0 <= j < i ==> bytes@[j] != 0,
            decreases bytes@.len() - i,
        {
            if bytes[i] == 0u8 {
                proof {
                    lemma_zero_index(bytes@, i as int);
                }
                return i;
            }
            i += 1;
        }
        proof {
            lemma_zero_index(bytes@, i as int);
        }
        i
    }

    /// Writes the node as the 1284 bytes of a record. Text beyond the width
    /// of its field is dropped.
    pub fn as_bytes(&self) -> (b: [u8; 1284])
        ensures
            b@ == self@.encode(),
    {
        let mut b: [u8; 1284] = [0u8; 1284];
        let key = self.key.as_str().as_bytes();
        let value = self.value.as_str().as_bytes();
        let next = u32_bytes(self.next);
        let mut i: usize = 0;
        while i < 256 && i < key.len()
            invariant
                i <= 256,
                i <= key@.len(),
                forall|j: int| 0 <= j < i ==> b@[j] == key@[j],
                forall|j: int| i <= j < 1284 ==> b@[j] == 0,
            decreases 256 - i,
        {
            b[i] = key[i];
            i += 1;
        }
        let mut i: usize = 0;
        while i < 1024 && i < value.len()
            invariant
                i <= 1024,
                i <= value@.len(),
                b@.subrange(0, 256) == padded(key@, 256),
                forall|j: int| 0 <= j < i ==> b@[256 + j] == value@[j],
                forall|j: int| 256 + i <= j < 1284 ==> b@[j] == 0,
            decreases 1024 - i,
        {
            b[256 + i] = value[i];
            i += 1;
            assert(b@.subrange(0, 256) =~= padded(key@, 256));
        }
        let mut i: usize = 0;
        while i < 4
            invariant
                i <= 4,
                b@.subrange(0, 256) == padded(key@, 256),
                b@.subrange(256, 1280) == padded(value@, 1024),
                forall|j: int| 0 <= j < i ==> b@[1280 + j] == next@[j],
            decreases 4 - i,
        {
            b[1280 + i] = next[i];
            i += 1;
            assert(b@.subrange(0, 256) =~= padded(key@, 256));
            assert(b@.subrange(256, 1280) =~= padded(value@, 1024));
        }
        assert(b@ =~= b@.subrange(0, 256) + b@.subrange(256, 1280) + next@);
        b
    }

    /// Whether the node is the one of an unused slot.
    pub fn is_empty(&self) -> (r: bool)
        ensures
            r == self@.is_empty(),
    {
        self.key.as_str().is_empty() && self.value.as_str().is_empty() && self.next == 0u32
    }

    /// The slot of the next node of the chain, if there is one.
    pub fn get_next(&self) -> (next: Option<u32>)
        ensures
            next == (if self.next == 0 {
                None
            } else {
                Some(self.next)
            }),
    {
        if self.next == 0u32 {
            Option::None
        } else {
            Option::Some(self.next)
        }
    }

    /// Whether the node holds `key`.
    pub fn is_key(&self, key: &str) -> (r: bool)
        ensures
            r == (self@.key == key@),
    {
        proof {
            lemma_utf8_injective(self.key@, key@);
        }
        same_bytes(self.key.as_str().as_bytes(), key.as_bytes())
    }

    /// The value of the node.
    pub fn get_val(self) -> (value: String)
        ensures
            value@ == self@.value,
    {
        self.value
    }

    /// The same key and value with another next node: `None` is stored
    /// as 0.
    pub fn with_next(&self, next: Option<u32>) -> (item: Item)
        ensures
            item@ == (ItemView {
                next: match next {
                    Some(n) => n,
                    None => 0,
                },
                ..self@
            }),
    {
        let n = match next {
            Some(n) => n,
            None => 0,
        };
        Item { key: self.key.clone(), value: self.value.clone(), next: n }
    }
}

/// No byte of the UTF-8 encoding of a scalar other than 0 is zero, and the
/// encoding of 0 is one zero byte.
proof fn lemma_scalar_bytes(scalar: u32)
    by (bit_vector)
    ensures
        leading_byte_width_1(0) == 0,
        1 <= scalar <= 0x7f ==> leading_byte_width_1(scalar) != 0,
        leading_byte_width_2(scalar) != 0,
        leading_byte_width_3(scalar) != 0,
        leading_byte_width_4(scalar) != 0,
        last_continuation_byte(scalar) != 0,
        second_last_continuation_byte(scalar) != 0,
        third_last_continuation_byte(scalar) != 0,
{
}

/// The UTF-8 bytes of two texts in a row are those of the first, then
/// those of the second.
pub proof fn lemma_encode_concat(a: Seq<char>, b: Seq<char>)
    ensures
        encode_utf8(a + b) == encode_utf8(a) + encode_utf8(b),
    decreases a.len(),
{
    if a.len() == 0 {
        assert(a + b =~= b);
        assert(encode_utf8(a) + encode_utf8(b) =~= encode_utf8(b));
    } else {
        lemma_encode_concat(a.drop_first(), b);
        assert((a + b).drop_first() =~= a.drop_first() + b);
        assert(encode_utf8(a + b) =~= encode_utf8(a) + encode_utf8(b));
    }
}

/// A text without the character U+0000 has UTF-8 bytes without a zero
/// byte.
pub proof fn lemma_no_nul_no_zero(text: Seq<char>)
    requires
        forall|j: int| 0 <= j < text.len() ==> text[j] != '\0',
    ensures
        zero_index(encode_utf8(text)) == encode_utf8(text).len(),
    decreases text.len(),
{
    let raw = encode_utf8(text);
    if text.len() > 0 {
        let head = encode_scalar(text[0] as u32);
        let tail = encode_utf8(text.drop_first());
        assert(text[0] as u32 != 0) by {
            char_u32_cast(text[0], text[0] as u32);
            char_u32_cast('\0', 0);
        }
        char_is_scalar(text[0]);
        lemma_scalar_bytes(text[0] as u32);
        assert(raw =~= head + tail);
        assert forall|j: int| 0 <= j < text.drop_first().len() implies text.drop_first()[j]
            != '\0' by {
            assert(text.drop_first()[j] == text[j + 1]);
        }
        lemma_no_nul_no_zero(text.drop_first());
        lemma_zero_index(tail, 0);
        assert forall|i: int| 0 <= i < raw.len() implies raw[i] != 0 by {
            if i >= head.len() {
                assert(raw[i] == tail[i - head.len()]);
            } else {
                assert(raw[i] == head[i]);
            }
        }
    }
    lemma_zero_index(raw, raw.len() as int);
}

/// A text with the character U+0000 is kept up to the first one: the
/// bytes before the first zero byte of its UTF-8 encoding are the encoding
/// of the text before its first U+0000.
pub proof fn lemma_cut_at_nul(text: Seq<char>, n: int)
    requires
        0 <= n < text.len(),
        text[n] == '\0',
        forall|j: int| 0 <= j < n ==> text[j] != '\0',
    ensures
        c_string(encode_utf8(text)) == encode_utf8(text.take(n)),
        lossy_text(c_string(encode_utf8(text))) == text.take(n),
{
    let before = text.take(n);
    let rest = text.skip(n);
    let raw = encode_utf8(text);
    let head = encode_utf8(before);
    let tail = encode_utf8(rest);
    assert(text =~= before + rest);
    lemma_encode_concat(before, rest);
    lemma_no_nul_no_zero(before);
    lemma_zero_index(head, 0);
    lemma_scalar_bytes(0);
    assert(rest[0] == '\0');
    assert(tail[0] == 0) by {
        assert(encode_scalar(rest[0] as u32) =~= seq![0u8]);
    }
    assert(raw[head.len() as int] == tail[0]);
    assert forall|j: int| 0 <= j < head.len() implies raw[j] != 0 by {
        assert(raw[j] == head[j]);
    }
    lemma_zero_index(raw, head.len() as int);
    assert(raw.take(head.len() as int) =~= head);
    encode_utf8_valid_utf8(before);
    encode_utf8_decode_utf8(before);
}

/// What reading a record back gives: of each text the bytes that `stored`
/// keeps, read lossily, and the same next slot.
pub proof fn lemma_item_decode_encode(v: ItemView)
    ensures
        v.encode().len() == 1284,
        ItemView::decode(v.encode()) == (ItemView {
            key: lossy_text(stored(encode_utf8(v.key), 256)),
            value: lossy_text(stored(encode_utf8(v.value), 1024)),
            next: v.next,
        }),
{
    let b = v.encode();
    assert(b.subrange(0, 256) =~= padded(encode_utf8(v.key), 256));
    assert(b.subrange(256, 1280) =~= padded(encode_utf8(v.value), 1024));
    assert(b.subrange(1280, 1284) =~= u32_to_le(v.next));
    lemma_field_round_trip(encode_utf8(v.key), 256);
    lemma_field_round_trip(encode_utf8(v.value), 1024);
    lemma_u32_le_round_trip(v.next);
}

/// A record whose texts fit their fields and hold no zero byte comes back
/// from its bytes unchanged.
pub proof fn lemma_item_round_trip(v: ItemView)
    requires
        v.storable(),
    ensures
        ItemView::decode(v.encode()) == v,
{
    lemma_item_decode_encode(v);
    let k = encode_utf8(v.key);
    let w = encode_utf8(v.value);
    assert(stored(k, 256) =~= k);
    assert(stored(w, 1024) =~= w);
    encode_utf8_valid_utf8(v.key);
    encode_utf8_valid_utf8(v.value);
    encode_utf8_decode_utf8(v.key);
    encode_utf8_decode_utf8(v.value);
}

/// A text with a zero byte among the bytes that fit its field comes back
/// as the bytes before the first zero byte.
pub proof fn lemma_item_zero_byte(v: ItemView)
    ensures
        zero_index(encode_utf8(v.key)) <= 256 ==> ItemView::decode(v.encode()).key == lossy_text(
            c_string(encode_utf8(v.key)),
        ),
        zero_index(encode_utf8(v.value)) <= 1024 ==> ItemView::decode(v.encode()).value
            == lossy_text(c_string(encode_utf8(v.value))),
{
    lemma_item_decode_encode(v);
}

/// A text longer than its field, with no zero byte among the bytes that
/// fit, comes back as the bytes that fit: 256 of a key, 1024 of a value.
pub proof fn lemma_item_truncation(v: ItemView)
    ensures
        zero_index(encode_utf8(v.key)) > 256 ==> ItemView::decode(v.encode()).key == lossy_text(
            encode_utf8(v.key).take(256),
        ),
        zero_index(encode_utf8(v.value)) > 1024 ==> ItemView::decode(v.encode()).value
            == lossy_text(encode_utf8(v.value).take(1024)),
{
    lemma_item_decode_encode(v);
}

/// A key with the character U+0000 comes back as the text before the
/// first one, if that text fits the field; and so does a value.
pub proof fn lemma_item_nul(v: ItemView, n: int, m: int)
    ensures
        0 <= n < v.key.len() && v.key[n] == '\0' && (forall|j: int|
            0 <= j < n ==> v.key[j] != '\0') && encode_utf8(v.key.take(n)).len() <= 256
            ==> ItemView::decode(v.encode()).key == v.key.take(n),
        0 <= m < v.value.len() && v.value[m] == '\0' && (forall|j: int|
            0 <= j < m ==> v.value[j] != '\0') && encode_utf8(v.value.take(m)).len() <= 1024
            ==> ItemView::decode(v.encode()).value == v.value.take(m),
{
    lemma_item_decode_encode(v);
    lemma_zero_index(encode_utf8(v.key), 0);
    lemma_zero_index(encode_utf8(v.value), 0);
    if 0 <= n < v.key.len() && v.key[n] == '\0' && (forall|j: int|
        0 <= j < n ==> v.key[j] != '\0') {
        lemma_cut_at_nul(v.key, n);
        assert(c_string(encode_utf8(v.key)).len() == zero_index(encode_utf8(v.key)));
    }
    if 0 <= m < v.value.len() && v.value[m] == '\0' && (forall|j: int|
        0 <= j < m ==> v.value[j] != '\0') {
        lemma_cut_at_nul(v.value, m);
        assert(c_string(encode_utf8(v.value)).len() == zero_index(encode_utf8(v.value)));
    }
}

/// Texts that fit their fields and hold no character U+0000 are storable.
pub proof fn lemma_storable(v: ItemView)
    requires
        encode_utf8(v.key).len() <= 256,
        encode_utf8(v.value).len() <= 1024,
        forall|j: int| 0 <= j < v.key.len() ==> v.key[j] != '\0',
        forall|j: int| 0 <= j < v.value.len() ==> v.value[j] != '\0',
    ensures
        v.storable(),
{
    lemma_no_nul_no_zero(v.key);
    lemma_no_nul_no_zero(v.value);
}

/// The record of an unused slot is 1284 zero bytes, and 1284 zero bytes
/// read back as that record.
pub proof fn lemma_empty_record()
    ensures
        ItemView::empty().encode() == Seq::new(1284, |i: int| 0u8),
        ItemView::decode(Seq::new(1284, |i: int| 0u8)).is_empty(),
{
    let zeros = Seq::new(1284, |i: int| 0u8);
    let v = ItemView::empty();
    assert(encode_utf8(v.key) =~= Seq::<u8>::empty()) by {
        reveal_with_fuel(encode_utf8, 1);
    }
    assert(v.encode() =~= zeros);
    lemma_item_decode_encode(v);
    assert(stored(Seq::<u8>::empty(), 256) =~= Seq::<u8>::empty());
    assert(stored(Seq::<u8>::empty(), 1024) =~= Seq::<u8>::empty());
    assert(valid_utf8(Seq::<u8>::empty()));
    assert(decode_utf8(Seq::<u8>::empty()) =~= Seq::<char>::empty());
}

} // verus!
