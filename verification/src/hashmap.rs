//! The hash table over an image of its file.
//!
//! A [`FileHashMap`] keeps the bytes of its file in memory and runs each
//! operation of [`crate::protocol`] against them, as a host would against
//! the file on disk. The contracts say which slot a walk of the chain
//! reaches and what the file holds afterwards. [`FileHashMap::image`] hands
//! the bytes out to be stored, and [`FileHashMap::open`] takes them up
//! again.

use crate::chain::{
    can_grow, inserted, lemma_home_slot, lemma_outcome_well_formed, lemma_walk, lookup, outcome,
    removed, started, walk, home_of, Stop,
};
use crate::file::{lemma_header_round_trip, lemma_item_decode_encode, Header, ItemView};
use crate::image::{
    disk, fresh_image, header_of, is_well_formed, item_at, lemma_fresh_image, lemma_put_record, lemma_read_write,
    link_ok, offset, perform, perform_on, record_at, slots, well_formed, write_at,
};
use crate::protocol::{
    fresh_header, hash_slot, home_slot, ActionView, After, Event, Kind, Operation, Phase, Reply,
    ReplyView, State, Action, DEFAULT_KEY_COUNT,
};
use crate::Error;
use vstd::prelude::*;

verus! {

/// How far a phase is from the end, at most: each action leads to a phase
/// of lower rank, or from one slot of a walk to a later one.
spec fn rank(phase: Phase) -> int {
    match phase {
        Phase::Create => 13,
        Phase::Header => 12,
        Phase::Walk => 11,
        Phase::Lock => 10,
        Phase::Verify => 9,
        Phase::Write => 8,
        Phase::AppendHeader => 9,
        Phase::AppendNode => 8,
        Phase::AppendVerify => 7,
        Phase::AppendLink => 6,
        Phase::AppendCommit => 5,
        Phase::Release => 4,
        Phase::Finished => 0,
    }
}

/// The slots that a walk has still before it.
spec fn left(s: State, img: Seq<u8>) -> int {
    if s.phase == Phase::Walk {
        slots(img) - s.pos
    } else {
        0
    }
}

/// The walk is over, and the operation holds what the walk on `img` comes
/// to: the slot where it stopped, the record seen there, and the record to
/// write.
spec fn planned(s: State, img: Seq<u8>) -> bool {
    let item = item_at(img, s.pos as int);
    &&& s.home == home_of(img, s.key)
    &&& s.pos < slots(img)
    &&& s.seen == record_at(img, s.pos as int)
    &&& s.kind != Kind::Get
    &&& match walk(img, s.kind, s.key, home_of(img, s.key)) {
        Stop::Hit(p) => s.pos == p && !s.append && s.write == (if s.kind == Kind::Insert {
            ItemView { key: s.key, value: s.value, next: item.next }
        } else {
            ItemView { next: item.next, ..ItemView::empty() }
        }).encode(),
        Stop::End(p) => s.pos == p && s.append && s.kind == Kind::Insert && s.write == (ItemView {
            key: s.key,
            value: s.value,
            next: 0,
        }).encode(),
    }
}

/// The header with one more heap record.
spec fn bumped(h: Header) -> Header {
    Header { heap_size: (h.heap_size + 1) as u32, ..h }
}

/// The image once the new node stands behind the heap.
spec fn node_written(s: State, img: Seq<u8>) -> Seq<u8> {
    write_at(img, offset(slots(img)), s.write)
}

/// The image once the last node of the chain leads to the new node.
spec fn node_linked(s: State, img: Seq<u8>) -> Seq<u8> {
    write_at(
        node_written(s, img),
        offset(s.pos as int),
        ItemView { next: slots(img) as u32, ..item_at(img, s.pos as int) }.encode(),
    )
}

/// The operation is about to append, the file can grow, and the operation
/// holds the place of the new node and the header to write.
spec fn appending(s: State, img: Seq<u8>) -> bool {
    &&& planned(s, img)
    &&& s.append
    &&& can_grow(img)
    &&& s.fresh == slots(img)
    &&& s.header == bumped(header_of(img))
}

/// What holds between the actions of an operation that runs alone on an
/// image that was whole, `img`, when it started.
#[verifier::opaque]
spec fn inv(s: State, a: ActionView, cur: Option<Seq<u8>>, img: Seq<u8>, s0: State) -> bool {
    let end = outcome(img, s0.kind, s0.key, s0.value);
    &&& s.kind == s0.kind
    &&& s.key == s0.key
    &&& s.value == s0.value
    &&& s.key_count == s0.key_count
    &&& s0.key_count >= 1
    &&& well_formed(img)
    &&& img.len() <= usize::MAX
    &&& match s.phase {
        Phase::Create => a == s.first() && (match cur {
            Some(bytes) => bytes == img,
            None => img == fresh_image(s.key_count) && offset(s.key_count as int) <= usize::MAX,
        }),
        Phase::Header => a == ActionView::ReadHeader && cur == Some(img),
        Phase::Walk => {
            &&& a == ActionView::ReadItem { pos: s.pos }
            &&& cur == Some(img)
            &&& s.home == home_of(img, s.key)
            &&& s.pos < slots(img)
            &&& walk(img, s.kind, s.key, s.pos) == walk(img, s.kind, s.key, s.home)
        },
        Phase::Lock => a == ActionView::Lock && cur == Some(img) && planned(s, img),
        Phase::Verify => a == (ActionView::ReadItem { pos: s.pos }) && cur == Some(img) && planned(
            s,
            img,
        ) && !s.append,
        Phase::Write => a == (ActionView::WriteItem { pos: s.pos, bytes: s.write }) && cur == Some(
            img,
        ) && planned(s, img) && !s.append,
        Phase::AppendHeader => a == ActionView::ReadHeader && cur == Some(img) && planned(s, img)
            && s.append,
        Phase::AppendNode => {
            &&& a == ActionView::WriteItem { pos: s.fresh, bytes: s.write }
            &&& cur == Some(img)
            &&& planned(s, img)
            &&& s.append
            &&& State::new_slot(header_of(img)) is Some
            &&& s.fresh == slots(img)
            &&& s.header == bumped(header_of(img))
        },
        Phase::AppendVerify => {
            &&& a == ActionView::ReadItem { pos: s.pos }
            &&& cur == Some(node_written(s, img))
            &&& appending(s, img)
        },
        Phase::AppendLink => {
            &&& a == ActionView::WriteItem {
                pos: s.pos,
                bytes: ItemView { next: s.fresh, ..item_at(img, s.pos as int) }.encode(),
            }
            &&& cur == Some(node_written(s, img))
            &&& appending(s, img)
        },
        Phase::AppendCommit => {
            &&& a == ActionView::WriteHeader { bytes: s.header.encode() }
            &&& cur == Some(node_linked(s, img))
            &&& appending(s, img)
        },
        Phase::Release => {
            &&& a == ActionView::Unlock
            &&& cur == Some(end.0)
            &&& s.after != After::Retry
            &&& s.after == After::Commit ==> end.1 == ReplyView::Done
            &&& s.after == After::Fail ==> end.1 == ReplyView::Failed(Error::IO)
        },
        Phase::Finished => a == (ActionView::Finish { reply: end.1 }) && cur == Some(end.0),
    }
}

/// One action of an operation that runs alone keeps `inv`, and brings the
/// operation nearer to its end.
#[verifier::opaque]
spec fn advances(s: State, a: ActionView, cur: Option<Seq<u8>>, img: Seq<u8>, s0: State) -> bool {
    let (cur2, ev) = perform_on(cur, a);
    let (s2, a2) = s.step(ev);
    &&& inv(s2, a2, cur2, img, s0)
    &&& (a2 is Finish) == (s2.phase == Phase::Finished)
    &&& rank(s2.phase) < rank(s.phase) || (rank(s2.phase) == rank(s.phase) && 0 <= left(s2, img) < left(
        s,
        img,
    ))
}

proof fn lemma_step_create(
    s: State,
    a: ActionView,
    cur: Option<Seq<u8>>,
    img: Seq<u8>,
    s0: State,
)
    requires
        inv(s, a, cur, img, s0),
        s.phase == Phase::Create,
    ensures
        advances(s, a, cur, img, s0),
{
    reveal(inv);
    reveal(advances);
    lemma_header_round_trip(fresh_header(s.key_count));
    if cur is None {
        lemma_fresh_image(s.key_count);
    }
}

proof fn lemma_step_header(
    s: State,
    a: ActionView,
    cur: Option<Seq<u8>>,
    img: Seq<u8>,
    s0: State,
)
    requires
        inv(s, a, cur, img, s0),
        s.phase == Phase::Header,
    ensures
        advances(s, a, cur, img, s0),
{
    reveal(inv);
    reveal(advances);
    lemma_home_slot(s.key, header_of(img).key_count);
}

proof fn lemma_step_walk(
    s: State,
    a: ActionView,
    cur: Option<Seq<u8>>,
    img: Seq<u8>,
    s0: State,
)
    requires
        inv(s, a, cur, img, s0),
        s.phase == Phase::Walk,
    ensures
        advances(s, a, cur, img, s0),
{
    reveal(inv);
    reveal(advances);
    lemma_walk(img, s.kind, s.key, s.pos);
    lemma_walk(img, s.kind, s.key, s.home);
    assert(link_ok(img, s.pos as int));
}

proof fn lemma_step_lock(
    s: State,
    a: ActionView,
    cur: Option<Seq<u8>>,
    img: Seq<u8>,
    s0: State,
)
    requires
        inv(s, a, cur, img, s0),
        s.phase == Phase::Lock,
    ensures
        advances(s, a, cur, img, s0),
{
    reveal(inv);
    reveal(advances);
}

proof fn lemma_step_verify(
    s: State,
    a: ActionView,
    cur: Option<Seq<u8>>,
    img: Seq<u8>,
    s0: State,
)
    requires
        inv(s, a, cur, img, s0),
        s.phase == Phase::Verify,
    ensures
        advances(s, a, cur, img, s0),
{
    reveal(inv);
    reveal(advances);
}

proof fn lemma_step_write(
    s: State,
    a: ActionView,
    cur: Option<Seq<u8>>,
    img: Seq<u8>,
    s0: State,
)
    requires
        inv(s, a, cur, img, s0),
        s.phase == Phase::Write,
    ensures
        advances(s, a, cur, img, s0),
{
    reveal(inv);
    reveal(advances);
    assert(offset(s.pos as int) + 1284 <= img.len()) by (nonlinear_arith)
        requires
            0 <= s.pos < slots(img),
            img.len() >= offset(slots(img)),
    ;
    lemma_item_decode_encode(ItemView { key: s.key, value: s.value, next: 0 });
    lemma_item_decode_encode(ItemView::empty());
}

proof fn lemma_step_append_header(
    s: State,
    a: ActionView,
    cur: Option<Seq<u8>>,
    img: Seq<u8>,
    s0: State,
)
    requires
        inv(s, a, cur, img, s0),
        s.phase == Phase::AppendHeader,
    ensures
        advances(s, a, cur, img, s0),
{
    reveal(inv);
    reveal(advances);
}

proof fn lemma_step_append_node(
    s: State,
    a: ActionView,
    cur: Option<Seq<u8>>,
    img: Seq<u8>,
    s0: State,
)
    requires
        inv(s, a, cur, img, s0),
        s.phase == Phase::AppendNode,
    ensures
        advances(s, a, cur, img, s0),
{
    reveal(inv);
    reveal(advances);
    lemma_item_decode_encode(ItemView { key: s.key, value: s.value, next: 0 });
}

proof fn lemma_step_append_verify(
    s: State,
    a: ActionView,
    cur: Option<Seq<u8>>,
    img: Seq<u8>,
    s0: State,
)
    requires
        inv(s, a, cur, img, s0),
        s.phase == Phase::AppendVerify,
    ensures
        advances(s, a, cur, img, s0),
{
    reveal(inv);
    reveal(advances);
    lemma_item_decode_encode(ItemView { key: s.key, value: s.value, next: 0 });
    lemma_put_record(img, slots(img), s.write, s.pos as int);
}

proof fn lemma_step_append_link(
    s: State,
    a: ActionView,
    cur: Option<Seq<u8>>,
    img: Seq<u8>,
    s0: State,
)
    requires
        inv(s, a, cur, img, s0),
        s.phase == Phase::AppendLink,
    ensures
        advances(s, a, cur, img, s0),
{
    reveal(inv);
    reveal(advances);
    assert(offset(s.pos as int) + 1284 <= img.len()) by (nonlinear_arith)
        requires
            0 <= s.pos < slots(img),
            img.len() >= offset(slots(img)),
    ;
    lemma_item_decode_encode(ItemView { next: s.fresh, ..item_at(img, s.pos as int) });
    lemma_read_write(img, offset(slots(img)), s.write, 0, 0);
}

proof fn lemma_step_append_commit(
    s: State,
    a: ActionView,
    cur: Option<Seq<u8>>,
    img: Seq<u8>,
    s0: State,
)
    requires
        inv(s, a, cur, img, s0),
        s.phase == Phase::AppendCommit,
    ensures
        advances(s, a, cur, img, s0),
{
    reveal(inv);
    reveal(advances);
}

proof fn lemma_step_release(
    s: State,
    a: ActionView,
    cur: Option<Seq<u8>>,
    img: Seq<u8>,
    s0: State,
)
    requires
        inv(s, a, cur, img, s0),
        s.phase == Phase::Release,
    ensures
        advances(s, a, cur, img, s0),
{
    reveal(inv);
    reveal(advances);
}

proof fn lemma_run_step(s: State, a: ActionView, cur: Option<Seq<u8>>, img: Seq<u8>, s0: State)
    requires
        inv(s, a, cur, img, s0),
        s.phase != Phase::Finished,
    ensures
        advances(s, a, cur, img, s0),
{
    match s.phase {
        Phase::Create => lemma_step_create(s, a, cur, img, s0),
        Phase::Header => lemma_step_header(s, a, cur, img, s0),
        Phase::Walk => lemma_step_walk(s, a, cur, img, s0),
        Phase::Lock => lemma_step_lock(s, a, cur, img, s0),
        Phase::Verify => lemma_step_verify(s, a, cur, img, s0),
        Phase::Write => lemma_step_write(s, a, cur, img, s0),
        Phase::AppendHeader => lemma_step_append_header(s, a, cur, img, s0),
        Phase::AppendNode => lemma_step_append_node(s, a, cur, img, s0),
        Phase::AppendVerify => lemma_step_append_verify(s, a, cur, img, s0),
        Phase::AppendLink => lemma_step_append_link(s, a, cur, img, s0),
        Phase::AppendCommit => lemma_step_append_commit(s, a, cur, img, s0),
        Phase::Release => lemma_step_release(s, a, cur, img, s0),
        Phase::Finished => {},
    }
}

proof fn lemma_run_start(s: State, cur: Option<Seq<u8>>)
    requires
        s == State::initial(s.kind, s.key, s.value, s.key_count),
        s.key_count >= 1,
        match cur {
            Some(img) => well_formed(img) && img.len() <= usize::MAX,
            None => offset(s.key_count as int) <= usize::MAX,
        },
    ensures
        inv(s, s.first(), cur, started(cur, s.key_count), s),
        well_formed(started(cur, s.key_count)),
{
    reveal(inv);
    lemma_fresh_image(s.key_count);
}

proof fn lemma_run_end(s: State, a: ActionView, cur: Option<Seq<u8>>, img: Seq<u8>, s0: State)
    requires
        inv(s, a, cur, img, s0),
        s.phase == Phase::Finished,
    ensures
        a == (ActionView::Finish { reply: outcome(img, s0.kind, s0.key, s0.value).1 }),
        cur == Some(outcome(img, s0.kind, s0.key, s0.value).0),
{
    reveal(inv);
}

/// Runs an operation to its end on an image in memory.
fn run(image: &mut Option<Vec<u8>>, op: Operation) -> (reply: Reply)
    requires
        op@ == State::initial(op@.kind, op@.key, op@.value, op@.key_count),
        op@.key_count >= 1,
        match disk(*old(image)) {
            Some(img) => well_formed(img),
            None => offset(op@.key_count as int) <= usize::MAX,
        },
    ensures
        disk(*final(image)) == Some(
            outcome(
                started(disk(*old(image)), op@.key_count),
                op@.kind,
                op@.key,
                op@.value,
            ).0,
        ),
        reply@ == outcome(
            started(disk(*old(image)), op@.key_count),
            op@.kind,
            op@.key,
            op@.value,
        ).1,
        well_formed(disk(*final(image))->0),
{
    let ghost s0 = op@;
    let ghost img = started(disk(*image), op@.key_count);
    proof {
        if let Some(bytes) = &*image {
            vstd::std_specs::vec::axiom_spec_len(bytes);
        }
        lemma_run_start(s0, disk(*image));
        lemma_outcome_well_formed(img, s0.kind, s0.key, s0.value);
    }
    let mut state = op;
    let mut action = state.start();
    loop
        invariant
            s0 == op@,
            img == started(disk(*old(image)), s0.key_count),
            inv(state@, action@, disk(*image), img, s0),
            well_formed(outcome(img, s0.kind, s0.key, s0.value).0),
            (action@ is Finish) == (state@.phase == Phase::Finished),
        decreases rank(state@.phase), left(state@, img),
    {
        match action {
            Action::Finish { reply } => {
                proof {
                    lemma_run_end(state@, action@, disk(*image), img, s0);
                }
                return reply;
            },
            other => {
                proof {
                    lemma_run_step(state@, other@, disk(*image), img, s0);
                    reveal(advances);
                }
                let ev = perform(image, other);
                action = state.step(ev);
            },
        }
    }
}

/// The hash table of one file, over an image of the file in memory.
///
/// The file is created on first use. An image is whole at all times (see
/// [`well_formed`]).
pub struct FileHashMap {
    filename: &'static str,
    image: Option<Vec<u8>>,
}

impl View for FileHashMap {
    type V = Option<Seq<u8>>;

    /// The bytes of the file, or `None` before the file exists.
    closed spec fn view(&self) -> Option<Seq<u8>> {
        disk(self.image)
    }
}

impl FileHashMap {
    #[verifier::type_invariant]
    spec fn whole(&self) -> bool {
        match self.image {
            Some(bytes) => well_formed(bytes@),
            None => true,
        }
    }

    /// The table of the file `filename`. The file does not exist yet.
    pub fn new(filename: &'static str) -> (map: FileHashMap)
        ensures
            map@ is None,
            map.spec_filename() == filename,
    {
        FileHashMap { filename, image: None }
    }

    /// The table of the file `filename` that holds `bytes`. `IO` where the
    /// bytes are not a whole file.
    pub fn open(filename: &'static str, bytes: Vec<u8>) -> (res: Result<FileHashMap, Error>)
        ensures
            well_formed(bytes@) ==> (res matches Ok(map) && map@ == Some(bytes@)
                && map.spec_filename() == filename),
            !well_formed(bytes@) ==> (res matches Err(e) && e == Error::IO),
    {
        if is_well_formed(bytes.as_slice()) {
            Ok(FileHashMap { filename, image: Some(bytes) })
        } else {
            Err(Error::IO)
        }
    }

    /// The name of the file.
    pub closed spec fn spec_filename(&self) -> &'static str {
        self.filename
    }

    /// The name of the file.
    pub fn filename(&self) -> (name: &'static str)
        ensures
            name == self.spec_filename(),
    {
        self.filename
    }

    /// The home slot of `s` in a table of `key_count` home slots.
    pub fn hash(s: &str, key_count: u32) -> (slot: u64)
        requires
            key_count >= 1,
        ensures
            slot == home_slot(s@, key_count),
            slot < key_count,
    {
        hash_slot(s, key_count) as u64
    }

    /// Creates the file with `key_count` unused home slots, unless it
    /// exists. Fails with `IO` where memory cannot address the image.
    pub fn init_file_once(&mut self, key_count: u32) -> (res: Result<(), Error>)
        requires
            key_count >= 1,
        ensures
            final(self).spec_filename() == old(self).spec_filename(),
            final(self)@ matches Some(img) ==> well_formed(img),
            old(self)@ is Some || offset(key_count as int) <= usize::MAX ==> res is Ok,
            old(self)@ is Some ==> final(self)@ == old(self)@,
            old(self)@ is None && res is Ok ==> final(self)@ == Some(fresh_image(key_count)),
            old(self)@ is None && offset(key_count as int) > usize::MAX ==> final(self)@ is None,
            res is Err ==> res == Err::<(), Error>(Error::IO),
    {
        proof {
            use_type_invariant(&*self);
            lemma_header_round_trip(fresh_header(key_count));
            lemma_fresh_image(key_count);
        }
        let mut image: Option<Vec<u8>> = None;
        core::mem::swap(&mut self.image, &mut image);
        let ev = perform(&mut image, Operation::create(key_count));
        self.image = image;
        proof {
            use_type_invariant(&*self);
        }
        match ev {
            Event::Done => Ok(()),
            _ => Err(Error::IO),
        }
    }

    /// Removes the file.
    pub fn delete_file(&mut self)
        ensures
            final(self)@ is None,
            final(self).spec_filename() == old(self).spec_filename(),
    {
        self.image = None;
    }

    /// A copy of the bytes of the file, or `None` before the file exists.
    pub fn image(&self) -> (bytes: Option<Vec<u8>>)
        ensures
            disk(bytes) == self@,
    {
        match &self.image {
            Some(bytes) => Some(bytes.clone()),
            None => None,
        }
    }

    fn execute(&mut self, op: Operation) -> (reply: Reply)
        requires
            op@ == State::initial(op@.kind, op@.key, op@.value, DEFAULT_KEY_COUNT),
        ensures
            final(self).spec_filename() == old(self).spec_filename(),
            final(self)@ matches Some(img) ==> well_formed(img),
            final(self)@ == Some(
                outcome(started(old(self)@, DEFAULT_KEY_COUNT), op@.kind, op@.key, op@.value).0,
            ),
            reply@ == outcome(
                started(old(self)@, DEFAULT_KEY_COUNT),
                op@.kind,
                op@.key,
                op@.value,
            ).1,
    {
        proof {
            use_type_invariant(&*self);
        }
        let mut image: Option<Vec<u8>> = None;
        core::mem::swap(&mut self.image, &mut image);
        let reply = run(&mut image, op);
        self.image = image;
        proof {
            use_type_invariant(&*self);
        }
        reply
    }

    /// The value of `key`. The file is created first if it does not exist.
    ///
    /// `Ok` with the value of the first record of the key's chain that
    /// holds the key, and `NotFound` where the chain holds none.
    pub fn get(&mut self, key: &str) -> (res: Result<String, Error>)
        ensures
            final(self).spec_filename() == old(self).spec_filename(),
            final(self)@ matches Some(img) ==> well_formed(img),
            final(self)@ == Some(started(old(self)@, DEFAULT_KEY_COUNT)),
            match lookup(started(old(self)@, DEFAULT_KEY_COUNT), key@) {
                Some(value) => res matches Ok(s) && s@ == value,
                None => res == Err::<String, Error>(Error::NotFound),
            },
    {
        match self.execute(Operation::get(key)) {
            Reply::Value(value) => Ok(value),
            Reply::Failed(e) => Err(e),
            Reply::Done => Err(Error::IO),
        }
    }

    /// Stores `value` under `key`, whether or not the key was there. The
    /// file is created first if it does not exist.
    ///
    /// `Ok` with the file as [`inserted`] says. `IO`, with the file
    /// unchanged, where a new record is needed and the file cannot grow.
    pub fn insert(&mut self, key: &str, val: &str) -> (res: Result<(), Error>)
        ensures
            final(self).spec_filename() == old(self).spec_filename(),
            final(self)@ matches Some(img) ==> well_formed(img),
            match inserted(started(old(self)@, DEFAULT_KEY_COUNT), key@, val@) {
                Some(after) => res is Ok && final(self)@ == Some(after),
                None => res == Err::<(), Error>(Error::IO) && final(self)@ == Some(
                    started(old(self)@, DEFAULT_KEY_COUNT),
                ),
            },
    {
        match self.execute(Operation::insert(key, val)) {
            Reply::Done => Ok(()),
            Reply::Failed(e) => Err(e),
            Reply::Value(_) => Err(Error::IO),
        }
    }

    /// Removes `key`. The file is created first if it does not exist.
    ///
    /// `Ok` with the file as [`removed`] says. `NotFound`, with the file
    /// unchanged, where the chain of the key does not hold it.
    pub fn remove(&mut self, key: &str) -> (res: Result<(), Error>)
        ensures
            final(self).spec_filename() == old(self).spec_filename(),
            final(self)@ matches Some(img) ==> well_formed(img),
            match removed(started(old(self)@, DEFAULT_KEY_COUNT), key@) {
                Some(after) => res is Ok && final(self)@ == Some(after),
                None => res == Err::<(), Error>(Error::NotFound) && final(self)@ == Some(
                    started(old(self)@, DEFAULT_KEY_COUNT),
                ),
            },
    {
        match self.execute(Operation::remove(key)) {
            Reply::Done => Ok(()),
            Reply::Failed(e) => Err(e),
            Reply::Value(_) => Err(Error::IO),
        }
    }
}

} // verus!
