//! One operation of the table as a state machine over its file.
//!
//! An [`Operation`] never touches the file. It names the next thing to do
//! with it as an [`Action`]; its host performs the action and hands back
//! what happened as an [`Event`]. Walking a chain takes no lock. A change
//! is committed under the exclusive lock, and only if the record that the
//! walk saw is still there; otherwise the walk starts again from the home
//! slot. The lock is released on every path that took it.

use crate::file::{same_bytes, Header, Item, ItemView};
use crate::Error;
use vstd::prelude::*;
use vstd::slice::*;
use vstd::string::*;
use vstd::utf8::*;

verus! {

/// The number of home slots that a new file gets.
pub const DEFAULT_KEY_COUNT: u32 = 256;

/// One round of the hash: `b + (total << 6) + (total << 16) - total`,
/// modulo 2^32.
pub open spec fn hash_step(total: u32, b: u8) -> u32 {
    ((b + total * 64 + total * 65536 - total) % 0x1_0000_0000) as u32
}

/// The hash of a byte string: the rounds over its bytes in order, from 0.
pub open spec fn hash_bytes(bytes: Seq<u8>) -> u32
    decreases bytes.len(),
{
    if bytes.len() == 0 {
        0
    } else {
        hash_step(hash_bytes(bytes.drop_last()), bytes.last())
    }
}

/// The home slot of a key in a table of `key_count` home slots.
pub open spec fn home_slot(key: Seq<char>, key_count: u32) -> u32 {
    (hash_bytes(encode_utf8(key)) % key_count) as u32
}

/// The home slot of `key` in a table of `key_count` home slots.
pub fn hash_slot(key: &str, key_count: u32) -> (slot: u32)
    requires
        key_count >= 1,
    ensures
        slot == home_slot(key@, key_count),
        slot < key_count,
{
    let bytes = key.as_bytes();
    let mut total: u32 = 0;
    let mut i: usize = 0;
    while i < bytes.len()
        invariant
            i <= bytes@.len(),
            total == hash_bytes(bytes@.take(i as int)),
        decreases bytes@.len() - i,
    {
        let t: u64 = total as u64;
        let sum: u64 = bytes[i] as u64 + t * 64 + t * 65536 - t;
        proof {
            assert(bytes@.take(i + 1).drop_last() =~= bytes@.take(i as int));
        }
        total = (sum % 0x1_0000_0000) as u32;
        i += 1;
    }
    assert(bytes@.take(i as int) =~= bytes@);
    total % key_count
}

/// What an operation is for.
#[derive(Debug, Clone, Copy, PartialEq, Eq, Structural)]
pub enum Kind {
    /// Look a key up.
    Get,
    /// Create a key or overwrite its value.
    Insert,
    /// Remove a key.
    Remove,
}

/// Where an operation stands: the action that it waits for.
#[derive(Debug, Clone, Copy, PartialEq, Eq, Structural)]
pub enum Phase {
    /// The file is being created, if it was missing.
    Create,
    /// The header is being read.
    Header,
    /// A record of the chain is being read.
    Walk,
    /// The exclusive lock is being taken.
    Lock,
    /// Locked: the target slot is being read again.
    Verify,
    /// Locked: the target slot is being written.
    Write,
    /// Locked: the header is being read again, for the place of a new node.
    AppendHeader,
    /// Locked: the new node is being written behind the heap.
    AppendNode,
    /// Locked: the last node of the chain is being read again.
    AppendVerify,
    /// Locked: the last node is being written, linked to the new node.
    AppendLink,
    /// Locked: the header is being written, with one more heap record.
    AppendCommit,
    /// The lock is being released.
    Release,
    /// The operation has ended.
    Finished,
}

/// What follows the release of the lock.
#[derive(Debug, Clone, Copy, PartialEq, Eq, Structural)]
pub enum After {
    /// The change is on disk: the operation ends well.
    Commit,
    /// The slot had changed: the walk starts again from the home slot.
    Retry,
    /// A read or write failed under the lock: the operation ends in `IO`.
    Fail,
}

/// How an operation ended.
#[derive(Debug, Clone, PartialEq, Eq)]
pub enum Reply {
    /// The value of the key that was looked up.
    Value(String),
    /// The change was committed.
    Done,
    /// The operation failed.
    Failed(Error),
}

/// A [`Reply`] as the contracts see it.
pub enum ReplyView {
    Value(Seq<char>),
    Done,
    Failed(Error),
}

impl View for Reply {
    type V = ReplyView;

    open spec fn view(&self) -> ReplyView {
        match self {
            Reply::Value(s) => ReplyView::Value(s@),
            Reply::Done => ReplyView::Done,
            Reply::Failed(e) => ReplyView::Failed(*e),
        }
    }
}

/// What the host is to do next.
#[derive(Debug, Clone, PartialEq, Eq)]
pub enum Action {
    /// Create the file if it does not exist, and only then write `header`
    /// and after it `slots` records of 1284 zero bytes. Answer `Done` both
    /// when the file was there and when it was written in full.
    Create { header: Vec<u8>, slots: u32 },
    /// Read the 16 bytes at offset 0 into a zeroed buffer. Answer `Data`
    /// with the whole buffer.
    ReadHeader,
    /// Read the 1284 bytes of slot `pos`, at offset `16 + 1284 * pos`, into
    /// a zeroed buffer. Answer `Data` with the whole buffer.
    ReadItem { pos: u32 },
    /// Take the exclusive lock on the whole file, waiting for it.
    Lock,
    /// Write `bytes` at the offset of slot `pos`.
    WriteItem { pos: u32, bytes: Vec<u8> },
    /// Write `bytes` at offset 0.
    WriteHeader { bytes: Vec<u8> },
    /// Release the lock.
    Unlock,
    /// Nothing more: the operation ended with `reply`.
    Finish { reply: Reply },
}

/// An [`Action`] as the contracts see it.
pub enum ActionView {
    Create { header: Seq<u8>, slots: u32 },
    ReadHeader,
    ReadItem { pos: u32 },
    Lock,
    WriteItem { pos: u32, bytes: Seq<u8> },
    WriteHeader { bytes: Seq<u8> },
    Unlock,
    Finish { reply: ReplyView },
}

impl View for Action {
    type V = ActionView;

    open spec fn view(&self) -> ActionView {
        match self {
            Action::Create { header, slots } => ActionView::Create {
                header: header@,
                slots: *slots,
            },
            Action::ReadHeader => ActionView::ReadHeader,
            Action::ReadItem { pos } => ActionView::ReadItem { pos: *pos },
            Action::Lock => ActionView::Lock,
            Action::WriteItem { pos, bytes } => ActionView::WriteItem { pos: *pos, bytes: bytes@ },
            Action::WriteHeader { bytes } => ActionView::WriteHeader { bytes: bytes@ },
            Action::Unlock => ActionView::Unlock,
            Action::Finish { reply } => ActionView::Finish { reply: reply@ },
        }
    }
}

/// What came of the last action.
#[derive(Debug, Clone, PartialEq, Eq)]
pub enum Event {
    /// The action was done; it had nothing to hand back.
    Done,
    /// The bytes that were read.
    Data(Vec<u8>),
    /// The action failed.
    Failed,
}

/// An [`Event`] as the contracts see it.
pub enum EventView {
    Done,
    Data(Seq<u8>),
    Failed,
}

impl View for Event {
    type V = EventView;

    open spec fn view(&self) -> EventView {
        match self {
            Event::Done => EventView::Done,
            Event::Data(b) => EventView::Data(b@),
            Event::Failed => EventView::Failed,
        }
    }
}

/// Whether a walk for `key` stops at a slot that holds `item`: the slot
/// holds the key, or the walk is one of an insert and the slot is unused.
pub open spec fn answers(kind: Kind, item: ItemView, key: Seq<char>) -> bool {
    item.key == key || (kind == Kind::Insert && item.is_empty())
}

/// The header of a new file with `key_count` home slots.
pub open spec fn fresh_header(key_count: u32) -> Header {
    Header { version: 0, key_count, val_size: 1284, heap_size: 0 }
}

/// The state of an operation as the contracts see it.
pub struct State {
    /// What the operation is for.
    pub kind: Kind,
    /// The key.
    pub key: Seq<char>,
    /// The value to store; empty unless the operation is an insert.
    pub value: Seq<char>,
    /// The number of home slots to create a missing file with.
    pub key_count: u32,
    /// The action that the operation waits for.
    pub phase: Phase,
    /// The home slot of the key.
    pub home: u32,
    /// The slot that is being read, or that the change goes to.
    pub pos: u32,
    /// The record that the walk saw at `pos`.
    pub seen: Seq<u8>,
    /// The record to write: over `pos`, or as the new node of the heap.
    pub write: Seq<u8>,
    /// Whether the change appends a node behind `pos`.
    pub append: bool,
    /// The slot of the new node of an append.
    pub fresh: u32,
    /// The header to write once the new node is linked.
    pub header: Header,
    /// What follows the release of the lock.
    pub after: After,
}

impl State {
    /// The state in which an operation starts, waiting for its file to be
    /// created.
    pub open spec fn initial(kind: Kind, key: Seq<char>, value: Seq<char>, key_count: u32) -> State {
        State {
            kind,
            key,
            value,
            key_count,
            phase: Phase::Create,
            home: 0,
            pos: 0,
            seen: Seq::empty(),
            write: Seq::empty(),
            append: false,
            fresh: 0,
            header: fresh_header(key_count),
            after: After::Fail,
        }
    }

    /// The first action of an operation.
    pub open spec fn first(self) -> ActionView {
        ActionView::Create { header: fresh_header(self.key_count).encode(), slots: self.key_count }
    }

    /// The operation ends with `reply`.
    pub open spec fn finish(self, reply: ReplyView) -> (State, ActionView) {
        (State { phase: Phase::Finished, ..self }, ActionView::Finish { reply })
    }

    /// The lock is released, and `after` follows.
    pub open spec fn release(self, after: After) -> (State, ActionView) {
        (State { phase: Phase::Release, after, ..self }, ActionView::Unlock)
    }

    /// The walk goes to slot `pos`.
    pub open spec fn visit(self, pos: u32) -> (State, ActionView) {
        (State { phase: Phase::Walk, pos, ..self }, ActionView::ReadItem { pos })
    }

    /// The walk has found where the change goes: the lock is taken.
    pub open spec fn lock(self, seen: Seq<u8>, write: ItemView, append: bool) -> (
        State,
        ActionView,
    ) {
        (State { phase: Phase::Lock, seen, write: write.encode(), append, ..self }, ActionView::Lock)
    }

    /// After the file was created: the header is read.
    pub open spec fn on_create(self, ev: EventView) -> (State, ActionView) {
        match ev {
            EventView::Done => (State { phase: Phase::Header, ..self }, ActionView::ReadHeader),
            _ => self.finish(ReplyView::Failed(Error::IO)),
        }
    }

    /// After the header was read: the walk starts at the home slot of the
    /// key. A header without home slots is a failure.
    pub open spec fn on_header(self, ev: EventView) -> (State, ActionView) {
        match ev {
            EventView::Data(b) => if b.len() == 16 && Header::decode(b).key_count >= 1 {
                let home = home_slot(self.key, Header::decode(b).key_count);
                State { home, ..self }.visit(home)
            } else {
                self.finish(ReplyView::Failed(Error::IO))
            },
            _ => self.finish(ReplyView::Failed(Error::IO)),
        }
    }

    /// After a record of the chain was read. A slot that answers the walk
    /// ends a lookup with its value, and is where an insert or a removal
    /// writes: the key and value, or the record of an unused slot, each
    /// with the next slot that the record had. Otherwise the walk follows
    /// the chain; at its end a lookup or removal has not found the key, and
    /// an insert appends a node.
    pub open spec fn on_walk(self, ev: EventView) -> (State, ActionView) {
        match ev {
            EventView::Data(b) => if b.len() == 1284 {
                let item = ItemView::decode(b);
                if answers(self.kind, item, self.key) {
                    match self.kind {
                        Kind::Get => self.finish(ReplyView::Value(item.value)),
                        Kind::Insert => self.lock(
                            b,
                            ItemView { key: self.key, value: self.value, next: item.next },
                            false,
                        ),
                        Kind::Remove => self.lock(
                            b,
                            ItemView { next: item.next, ..ItemView::empty() },
                            false,
                        ),
                    }
                } else if item.next != 0 {
                    self.visit(item.next)
                } else if self.kind == Kind::Insert {
                    self.lock(b, ItemView { key: self.key, value: self.value, next: 0 }, true)
                } else {
                    self.finish(ReplyView::Failed(Error::NotFound))
                }
            } else {
                self.finish(ReplyView::Failed(Error::IO))
            },
            _ => self.finish(ReplyView::Failed(Error::IO)),
        }
    }

    /// After the lock was taken: the target slot is read again, or, for an
    /// append, the header.
    pub open spec fn on_lock(self, ev: EventView) -> (State, ActionView) {
        match ev {
            EventView::Done => if self.append {
                (State { phase: Phase::AppendHeader, ..self }, ActionView::ReadHeader)
            } else {
                (State { phase: Phase::Verify, ..self }, ActionView::ReadItem { pos: self.pos })
            },
            _ => self.finish(ReplyView::Failed(Error::IO)),
        }
    }

    /// After the target slot was read again: it is written if it still
    /// holds, byte for byte, what the walk saw.
    pub open spec fn on_verify(self, ev: EventView) -> (State, ActionView) {
        match ev {
            EventView::Data(b) => if b == self.seen {
                (
                    State { phase: Phase::Write, ..self },
                    ActionView::WriteItem { pos: self.pos, bytes: self.write },
                )
            } else {
                self.release(After::Retry)
            },
            _ => self.release(After::Fail),
        }
    }

    /// After a write that completes the change.
    pub open spec fn on_write(self, ev: EventView) -> (State, ActionView) {
        match ev {
            EventView::Done => self.release(After::Commit),
            _ => self.release(After::Fail),
        }
    }

    /// The slot of the next record of the heap, if a slot index can hold
    /// it and the heap count can grow.
    pub open spec fn new_slot(h: Header) -> Option<u32> {
        if h.key_count + h.heap_size <= u32::MAX && h.heap_size < u32::MAX {
            Some((h.key_count + h.heap_size) as u32)
        } else {
            None
        }
    }

    /// After the header was read under the lock: the new node is written
    /// behind the heap, whatever the last node of the chain holds by now.
    pub open spec fn on_append_header(self, ev: EventView) -> (State, ActionView) {
        match ev {
            EventView::Data(b) => if b.len() == 16 && State::new_slot(Header::decode(b)) is Some {
                let header = Header::decode(b);
                let fresh = State::new_slot(header)->0;
                (
                    State {
                        phase: Phase::AppendNode,
                        fresh,
                        header: Header { heap_size: (header.heap_size + 1) as u32, ..header },
                        ..self
                    },
                    ActionView::WriteItem { pos: fresh, bytes: self.write },
                )
            } else {
                self.release(After::Fail)
            },
            _ => self.release(After::Fail),
        }
    }

    /// After the new node was written: the last node of the chain is read
    /// again.
    pub open spec fn on_append_node(self, ev: EventView) -> (State, ActionView) {
        match ev {
            EventView::Done => (
                State { phase: Phase::AppendVerify, ..self },
                ActionView::ReadItem { pos: self.pos },
            ),
            _ => self.release(After::Fail),
        }
    }

    /// After the last node was read again: if it still holds what the walk
    /// saw, it is written with the new node as its next. If not, the new
    /// node stays where it is, linked from nowhere, and the heap count
    /// stays as it was.
    pub open spec fn on_append_verify(self, ev: EventView) -> (State, ActionView) {
        match ev {
            EventView::Data(b) => if b == self.seen && b.len() == 1284 {
                (
                    State { phase: Phase::AppendLink, ..self },
                    ActionView::WriteItem {
                        pos: self.pos,
                        bytes: ItemView { next: self.fresh, ..ItemView::decode(b) }.encode(),
                    },
                )
            } else {
                self.release(After::Retry)
            },
            _ => self.release(After::Fail),
        }
    }

    /// After the last node was linked: the header is written with one more
    /// heap record.
    pub open spec fn on_append_link(self, ev: EventView) -> (State, ActionView) {
        match ev {
            EventView::Done => (
                State { phase: Phase::AppendCommit, ..self },
                ActionView::WriteHeader { bytes: self.header.encode() },
            ),
            _ => self.release(After::Fail),
        }
    }

    /// After the lock was released.
    pub open spec fn on_release(self, ev: EventView) -> (State, ActionView) {
        match ev {
            EventView::Done => match self.after {
                After::Commit => self.finish(ReplyView::Done),
                After::Retry => self.visit(self.home),
                After::Fail => self.finish(ReplyView::Failed(Error::IO)),
            },
            _ => self.finish(ReplyView::Failed(Error::IO)),
        }
    }

    /// The next state and action, given what came of the last action. An
    /// event that cannot answer that action counts as its failure, and so
    /// does any event after the end.
    pub open spec fn step(self, ev: EventView) -> (State, ActionView) {
        match self.phase {
            Phase::Create => self.on_create(ev),
            Phase::Header => self.on_header(ev),
            Phase::Walk => self.on_walk(ev),
            Phase::Lock => self.on_lock(ev),
            Phase::Verify => self.on_verify(ev),
            Phase::Write => self.on_write(ev),
            Phase::AppendHeader => self.on_append_header(ev),
            Phase::AppendNode => self.on_append_node(ev),
            Phase::AppendVerify => self.on_append_verify(ev),
            Phase::AppendLink => self.on_append_link(ev),
            Phase::AppendCommit => self.on_write(ev),
            Phase::Release => self.on_release(ev),
            Phase::Finished => self.finish(ReplyView::Failed(Error::IO)),
        }
    }

    /// Whether the operation holds the lock while it waits.
    pub open spec fn locked(self) -> bool {
        match self.phase {
            Phase::Verify
            | Phase::Write
            | Phase::AppendHeader
            | Phase::AppendNode
            | Phase::AppendVerify
            | Phase::AppendLink
            | Phase::AppendCommit
            | Phase::Release => true,
            _ => false,
        }
    }
}

/// Whether an action changes the file.
pub open spec fn writes(a: ActionView) -> bool {
    a is WriteItem || a is WriteHeader
}

/// The lock discipline. An operation asks for the lock only when it does
/// not hold it; it writes only while it holds the lock; once it holds the
/// lock, nothing follows but actions under the lock and then its release;
/// and it ends only when the lock is released or was never held.
pub proof fn lemma_lock_discipline(s: State, ev: EventView)
    ensures
        ({
            let (next, action) = s.step(ev);
            &&& action is Lock <==> next.phase == Phase::Lock
            &&& action is Lock ==> !s.locked()
            &&& action is Unlock <==> next.phase == Phase::Release
            &&& writes(action) ==> next.locked() && next.phase != Phase::Release
            &&& s.locked() && s.phase != Phase::Release ==> next.locked()
            &&& action is Finish <==> next.phase == Phase::Finished
        }),
{
}

/// A lookup never takes the lock and never writes.
pub proof fn lemma_lookup_reads_only(s: State, ev: EventView)
    requires
        s.kind == Kind::Get,
        !s.locked(),
        s.phase != Phase::Lock,
    ensures
        ({
            let (next, action) = s.step(ev);
            &&& next.kind == Kind::Get
            &&& !next.locked()
            &&& next.phase != Phase::Lock
            &&& action is ReadHeader || action is ReadItem || action is Finish
        }),
{
}

/// A conflict writes nothing: where the record read under the lock is not,
/// byte for byte, the one that the walk saw, the lock is released, and the
/// walk then starts again at the home slot.
pub proof fn lemma_conflict_restarts(s: State, now: Seq<u8>)
    requires
        s.phase == Phase::Verify || s.phase == Phase::AppendVerify,
        now != s.seen,
    ensures
        s.step(EventView::Data(now)) == s.release(After::Retry),
        s.release(After::Retry).0.step(EventView::Done) == s.release(After::Retry).0.visit(s.home),
{
}

/// A removal or lookup that meets the end of the chain ends in `NotFound`
/// at once: it asks for no lock and writes nothing.
pub proof fn lemma_miss_ends(s: State, record: Seq<u8>)
    requires
        s.phase == Phase::Walk,
        s.kind != Kind::Insert,
        record.len() == 1284,
        ItemView::decode(record).key != s.key,
        ItemView::decode(record).next == 0,
    ensures
        s.step(EventView::Data(record)) == s.finish(ReplyView::Failed(Error::NotFound)),
{
}

/// One operation in flight.
pub struct Operation {
    kind: Kind,
    key: String,
    value: String,
    key_count: u32,
    phase: Phase,
    home: u32,
    pos: u32,
    seen: Vec<u8>,
    write: Vec<u8>,
    append: bool,
    fresh: u32,
    header: Header,
    after: After,
}

impl View for Operation {
    type V = State;

    closed spec fn view(&self) -> State {
        State {
            kind: self.kind,
            key: self.key@,
            value: self.value@,
            key_count: self.key_count,
            phase: self.phase,
            home: self.home,
            pos: self.pos,
            seen: self.seen@,
            write: self.write@,
            append: self.append,
            fresh: self.fresh,
            header: self.header,
            after: self.after,
        }
    }
}

impl Operation {
    /// An operation of `kind` on `key`, which creates a missing file with
    /// `key_count` home slots. `value` is what an insert stores.
    pub fn new(kind: Kind, key: &str, value: &str, key_count: u32) -> (op: Operation)
        ensures
            op@ == State::initial(kind, key@, value@, key_count),
    {
        Operation {
            kind,
            key: key.to_owned(),
            value: value.to_owned(),
            key_count,
            phase: Phase::Create,
            home: 0,
            pos: 0,
            seen: Vec::new(),
            write: Vec::new(),
            append: false,
            fresh: 0,
            header: Header { version: 0, key_count, val_size: 1284, heap_size: 0 },
            after: After::Fail,
        }
    }

    /// A lookup of `key`.
    pub fn get(key: &str) -> (op: Operation)
        ensures
            op@ == State::initial(Kind::Get, key@, Seq::empty(), DEFAULT_KEY_COUNT),
    {
        proof {
            reveal_strlit("");
            assert(""@ =~= Seq::<char>::empty());
        }
        Operation::new(Kind::Get, key, "", DEFAULT_KEY_COUNT)
    }

    /// An insert of `value` under `key`.
    pub fn insert(key: &str, value: &str) -> (op: Operation)
        ensures
            op@ == State::initial(Kind::Insert, key@, value@, DEFAULT_KEY_COUNT),
    {
        Operation::new(Kind::Insert, key, value, DEFAULT_KEY_COUNT)
    }

    /// A removal of `key`.
    pub fn remove(key: &str) -> (op: Operation)
        ensures
            op@ == State::initial(Kind::Remove, key@, Seq::empty(), DEFAULT_KEY_COUNT),
    {
        proof {
            reveal_strlit("");
            assert(""@ =~= Seq::<char>::empty());
        }
        Operation::new(Kind::Remove, key, "", DEFAULT_KEY_COUNT)
    }

    /// The action that creates a missing file with `key_count` home slots.
    pub fn create(key_count: u32) -> (action: Action)
        ensures
            action@ == (ActionView::Create {
                header: fresh_header(key_count).encode(),
                slots: key_count,
            }),
    {
        let header = Header { version: 0, key_count, val_size: 1284, heap_size: 0 };
        let bytes = header.as_bytes();
        Action::Create { header: slice_to_vec(bytes.as_slice()), slots: key_count }
    }

    /// The first action of the operation.
    pub fn start(&self) -> (action: Action)
        ensures
            action@ == self@.first(),
    {
        Operation::create(self.key_count)
    }

    /// Whether the operation has ended.
    pub fn is_finished(&self) -> (r: bool)
        ensures
            r == (self@.phase == Phase::Finished),
    {
        self.phase == Phase::Finished
    }

    fn finish(&mut self, reply: Reply) -> (action: Action)
        ensures
            (final(self)@, action@) == old(self)@.finish(reply@),
    {
        self.phase = Phase::Finished;
        Action::Finish { reply }
    }

    fn release(&mut self, after: After) -> (action: Action)
        ensures
            (final(self)@, action@) == old(self)@.release(after),
    {
        self.phase = Phase::Release;
        self.after = after;
        Action::Unlock
    }

    fn visit(&mut self, pos: u32) -> (action: Action)
        ensures
            (final(self)@, action@) == old(self)@.visit(pos),
    {
        self.phase = Phase::Walk;
        self.pos = pos;
        Action::ReadItem { pos }
    }

    fn lock(&mut self, seen: Vec<u8>, write: &Item, append: bool) -> (action: Action)
        ensures
            (final(self)@, action@) == old(self)@.lock(seen@, write@, append),
    {
        let bytes = write.as_bytes();
        self.phase = Phase::Lock;
        self.seen = seen;
        self.write = slice_to_vec(bytes.as_slice());
        self.append = append;
        Action::Lock
    }

    fn on_create(&mut self, ev: Event) -> (action: Action)
        ensures
            (final(self)@, action@) == old(self)@.on_create(ev@),
    {
        match ev {
            Event::Done => {
                self.phase = Phase::Header;
                Action::ReadHeader
            },
            _ => self.finish(Reply::Failed(Error::IO)),
        }
    }

    fn on_header(&mut self, ev: Event) -> (action: Action)
        ensures
            (final(self)@, action@) == old(self)@.on_header(ev@),
    {
        match ev {
            Event::Data(b) => {
                if b.len() == 16 {
                    let header = Header::from_slice(b.as_slice());
                    if header.key_count >= 1 {
                        let home = hash_slot(self.key.as_str(), header.key_count);
                        self.home = home;
                        return self.visit(home);
                    }
                }
                self.finish(Reply::Failed(Error::IO))
            },
            _ => self.finish(Reply::Failed(Error::IO)),
        }
    }

    fn on_walk(&mut self, ev: Event) -> (action: Action)
        ensures
            (final(self)@, action@) == old(self)@.on_walk(ev@),
    {
        match ev {
            Event::Data(b) => {
                if b.len() != 1284 {
                    return self.finish(Reply::Failed(Error::IO));
                }
                let item = Item::from_slice(b.as_slice());
                let hit = item.is_key(self.key.as_str()) || (self.kind == Kind::Insert
                    && item.is_empty());
                if hit {
                    match self.kind {
                        Kind::Get => self.finish(Reply::Value(item.get_val())),
                        Kind::Insert => {
                            let write = Item {
                                key: self.key.clone(),
                                value: self.value.clone(),
                                next: item.next,
                            };
                            self.lock(b, &write, false)
                        },
                        Kind::Remove => {
                            let write = Item::empty().with_next(item.get_next());
                            self.lock(b, &write, false)
                        },
                    }
                } else if item.next != 0 {
                    self.visit(item.next)
                } else if self.kind == Kind::Insert {
                    let write = Item::new(self.key.as_str(), self.value.as_str());
                    self.lock(b, &write, true)
                } else {
                    self.finish(Reply::Failed(Error::NotFound))
                }
            },
            _ => self.finish(Reply::Failed(Error::IO)),
        }
    }

    fn on_lock(&mut self, ev: Event) -> (action: Action)
        ensures
            (final(self)@, action@) == old(self)@.on_lock(ev@),
    {
        match ev {
            Event::Done => {
                if self.append {
                    self.phase = Phase::AppendHeader;
                    Action::ReadHeader
                } else {
                    self.phase = Phase::Verify;
                    Action::ReadItem { pos: self.pos }
                }
            },
            _ => self.finish(Reply::Failed(Error::IO)),
        }
    }

    fn on_verify(&mut self, ev: Event) -> (action: Action)
        ensures
            (final(self)@, action@) == old(self)@.on_verify(ev@),
    {
        match ev {
            Event::Data(b) => {
                if same_bytes(b.as_slice(), self.seen.as_slice()) {
                    self.phase = Phase::Write;
                    Action::WriteItem { pos: self.pos, bytes: self.write.clone() }
                } else {
                    self.release(After::Retry)
                }
            },
            _ => self.release(After::Fail),
        }
    }

    fn on_write(&mut self, ev: Event) -> (action: Action)
        ensures
            (final(self)@, action@) == old(self)@.on_write(ev@),
    {
        match ev {
            Event::Done => self.release(After::Commit),
            _ => self.release(After::Fail),
        }
    }

    fn on_append_header(&mut self, ev: Event) -> (action: Action)
        ensures
            (final(self)@, action@) == old(self)@.on_append_header(ev@),
    {
        match ev {
            Event::Data(b) => {
                if b.len() == 16 {
                    let mut header = Header::from_slice(b.as_slice());
                    if header.heap_size < u32::MAX {
                        if let Some(pos) = header.key_count.checked_add(header.heap_size) {
                            header.inc_heap();
                            self.phase = Phase::AppendNode;
                            self.fresh = pos;
                            self.header = header;
                            return Action::WriteItem { pos, bytes: self.write.clone() };
                        }
                    }
                }
                self.release(After::Fail)
            },
            _ => self.release(After::Fail),
        }
    }

    fn on_append_node(&mut self, ev: Event) -> (action: Action)
        ensures
            (final(self)@, action@) == old(self)@.on_append_node(ev@),
    {
        match ev {
            Event::Done => {
                self.phase = Phase::AppendVerify;
                Action::ReadItem { pos: self.pos }
            },
            _ => self.release(After::Fail),
        }
    }

    fn on_append_verify(&mut self, ev: Event) -> (action: Action)
        ensures
            (final(self)@, action@) == old(self)@.on_append_verify(ev@),
    {
        match ev {
            Event::Data(b) => {
                if b.len() == 1284 && same_bytes(b.as_slice(), self.seen.as_slice()) {
                    let linked = Item::from_slice(b.as_slice()).with_next(Some(self.fresh));
                    let bytes = linked.as_bytes();
                    self.phase = Phase::AppendLink;
                    Action::WriteItem { pos: self.pos, bytes: slice_to_vec(bytes.as_slice()) }
                } else {
                    self.release(After::Retry)
                }
            },
            _ => self.release(After::Fail),
        }
    }

    fn on_append_link(&mut self, ev: Event) -> (action: Action)
        ensures
            (final(self)@, action@) == old(self)@.on_append_link(ev@),
    {
        match ev {
            Event::Done => {
                let bytes = self.header.as_bytes();
                self.phase = Phase::AppendCommit;
                Action::WriteHeader { bytes: slice_to_vec(bytes.as_slice()) }
            },
            _ => self.release(After::Fail),
        }
    }

    fn on_release(&mut self, ev: Event) -> (action: Action)
        ensures
            (final(self)@, action@) == old(self)@.on_release(ev@),
    {
        match ev {
            Event::Done => match self.after {
                After::Commit => self.finish(Reply::Done),
                After::Retry => {
                    let home = self.home;
                    self.visit(home)
                },
                After::Fail => self.finish(Reply::Failed(Error::IO)),
            },
            _ => self.finish(Reply::Failed(Error::IO)),
        }
    }

    /// Takes what came of the last action and gives the next action.
    pub fn step(&mut self, ev: Event) -> (action: Action)
        ensures
            (final(self)@, action@) == old(self)@.step(ev@),
    {
        match self.phase {
            Phase::Create => self.on_create(ev),
            Phase::Header => self.on_header(ev),
            Phase::Walk => self.on_walk(ev),
            Phase::Lock => self.on_lock(ev),
            Phase::Verify => self.on_verify(ev),
            Phase::Write => self.on_write(ev),
            Phase::AppendHeader => self.on_append_header(ev),
            Phase::AppendNode => self.on_append_node(ev),
            Phase::AppendVerify => self.on_append_verify(ev),
            Phase::AppendLink => self.on_append_link(ev),
            Phase::AppendCommit => self.on_write(ev),
            Phase::Release => self.on_release(ev),
            Phase::Finished => self.finish(Reply::Failed(Error::IO)),
        }
    }
}

} // verus!
