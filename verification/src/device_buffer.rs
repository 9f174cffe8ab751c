//! Growable, append-only device buffers.
//!
//! A [`DeviceBuffer`] is the bookkeeping for one buffer that lives on the
//! device: how many bytes are allocated, how many entries have been appended.
//! Appending never touches the device. It returns an [`Upload`], the one
//! operation the device must carry out, and the laws at the end of this file
//! say what that operation does to the device's memory.

use crate::bytes::{cast_words, is_image};
use vstd::prelude::*;

verus! {

/// The two kinds of draw primitive, each packed into a buffer of its own.
#[derive(Clone, Copy, Debug, PartialEq, Eq, Structural)]
pub enum BufferClass {
    /// Rectangle instances: x, y, width, height, colour index, fixed flag.
    Rect,
    /// Palette entries: red, green, blue, alpha.
    Color,
}

impl BufferClass {
    /// Number of 32-bit words in one entry of this class.
    pub open spec fn spec_words(self) -> nat {
        match self {
            BufferClass::Rect => 6,
            BufferClass::Color => 4,
        }
    }

    /// Number of bytes from one entry to the next: four per word.
    pub open spec fn spec_stride(self) -> nat {
        match self {
            BufferClass::Rect => 24,
            BufferClass::Color => 16,
        }
    }

    /// Number of bytes that `count` entries occupy: `count` strides.
    pub open spec fn spec_span(self, count: nat) -> nat {
        match self {
            BufferClass::Rect => 24 * count,
            BufferClass::Color => 16 * count,
        }
    }

    /// A batch `len` words long is a whole number of entries.
    pub open spec fn spec_whole(self, len: nat) -> bool {
        match self {
            BufferClass::Rect => len % 6 == 0,
            BufferClass::Color => len % 4 == 0,
        }
    }

    /// Number of whole entries in a batch `len` words long.
    pub open spec fn spec_batch(self, len: nat) -> nat {
        match self {
            BufferClass::Rect => len / 6,
            BufferClass::Color => len / 4,
        }
    }

    /// Number of whole entries in `bytes` bytes.
    pub open spec fn spec_entries(self, bytes: nat) -> nat {
        match self {
            BufferClass::Rect => bytes / 24,
            BufferClass::Color => bytes / 16,
        }
    }

    /// The byte measures above are the products and the quotient that their
    /// names say.
    pub proof fn lemma_measures(self, n: nat)
        ensures
            self.spec_stride() == 4 * self.spec_words(),
            self.spec_span(n) == n * self.spec_stride(),
            self.spec_entries(n) == n / self.spec_stride(),
            self.spec_entries(self.spec_span(n)) == n,
            self.spec_batch(n) == n / self.spec_words(),
            self.spec_whole(n) <==> n % self.spec_words() == 0,
    {
        match self {
            BufferClass::Rect => {
                assert(n * 24 == 24 * n);
            },
            BufferClass::Color => {
                assert(n * 16 == 16 * n);
            },
        }
    }

    /// A batch of whole entries, `len` words long, takes four bytes per word
    /// and one stride per entry.
    pub proof fn lemma_batch_bytes(self, len: nat)
        requires
            self.spec_whole(len),
        ensures
            4 * len == self.spec_span(self.spec_batch(len)),
            self.spec_entries(4 * len) == self.spec_batch(len),
    {
    }

    /// Number of 32-bit words in one entry of this class.
    pub fn words(self) -> (n: usize)
        ensures
            n == self.spec_words(),
    {
        match self {
            BufferClass::Rect => 6,
            BufferClass::Color => 4,
        }
    }

    /// Number of whole entries in a batch `len` words long.
    pub fn batch_entries(self, len: usize) -> (n: usize)
        ensures
            n == self.spec_batch(len as nat),
    {
        match self {
            BufferClass::Rect => len / 6,
            BufferClass::Color => len / 4,
        }
    }

    /// Number of bytes from one entry to the next.
    pub fn stride_bytes(self) -> (n: u64)
        ensures
            n == self.spec_stride(),
    {
        match self {
            BufferClass::Rect => 24,
            BufferClass::Color => 16,
        }
    }

    /// Number of bytes that `count` entries occupy.
    pub fn span_bytes(self, count: u32) -> (n: u64)
        ensures
            n == self.spec_span(count as nat),
    {
        match self {
            BufferClass::Rect => count as u64 * 24,
            BufferClass::Color => count as u64 * 16,
        }
    }
}

/// Why an append was refused.
#[derive(Clone, Copy, Debug, PartialEq, Eq, Structural)]
pub enum BufferError {
    /// The buffer would hold more entries than one draw call can address.
    TooManyEntries,
}

/// The mathematical state of a device buffer.
pub struct BufferState {
    pub class: BufferClass,
    /// Bytes allocated on the device.
    pub capacity: nat,
    /// Entries appended so far.
    pub count: nat,
}

impl BufferState {
    /// Bytes from one entry to the next.
    pub open spec fn stride(self) -> nat {
        self.class.spec_stride()
    }

    /// Bytes occupied by the entries appended so far.
    pub open spec fn used(self) -> nat {
        self.class.spec_span(self.count)
    }

    /// The allocation covers every entry, and the counters fit the machine.
    pub open spec fn valid(self) -> bool {
        &&& self.used() <= self.capacity
        &&& self.capacity % 4 == 0
        &&& self.count <= u32::MAX
        &&& self.capacity <= u64::MAX
    }

    /// State of a buffer created for exactly `entries` entries.
    pub open spec fn created(class: BufferClass, entries: nat) -> BufferState {
        BufferState { class, capacity: class.spec_span(entries), count: entries }
    }

    /// Bytes that must be allocated to hold `entries` more entries.
    pub open spec fn needed(self, entries: nat) -> nat {
        self.class.spec_span(self.count + entries)
    }

    /// Appending `entries` entries does not fit the current allocation.
    pub open spec fn grows(self, entries: nat) -> bool {
        self.needed(entries) > self.capacity
    }

    /// State after appending `entries` entries: in place where they fit, else
    /// in a new allocation of twice the bytes needed.
    pub open spec fn append(self, entries: nat) -> BufferState {
        BufferState {
            class: self.class,
            capacity: if self.grows(entries) {
                2 * self.needed(entries)
            } else {
                self.capacity
            },
            count: self.count + entries,
        }
    }

    /// The operation that appends `data` (a whole number of entries) to a
    /// buffer in this state.
    pub open spec fn upload(self, data: Seq<u8>) -> UploadView {
        let entries = self.class.spec_entries(data.len());
        if self.grows(entries) {
            UploadView::Grow {
                size: 2 * self.needed(entries),
                copy_size: self.capacity,
                offset: self.used(),
                data,
            }
        } else {
            UploadView::Write { offset: self.used(), data }
        }
    }

    /// State after appending each batch of `batches` in turn, a batch being
    /// given by its number of entries.
    pub open spec fn append_all(self, batches: Seq<nat>) -> BufferState
        decreases batches.len(),
    {
        if batches.len() == 0 {
            self
        } else {
            self.append_all(batches.drop_last()).append(batches.last())
        }
    }

    /// Device memory `mem` belongs to a buffer in this state and holds
    /// `entries` as the bytes of the entries appended so far.
    pub open spec fn holds(self, mem: Seq<u8>, entries: Seq<u8>) -> bool {
        &&& mem.len() == self.capacity
        &&& entries.len() == self.used()
        &&& mem.subrange(0, self.used() as int) == entries
    }
}

/// One operation on a device buffer, as the device is asked to carry it out.
#[derive(Clone, Debug, PartialEq, Eq)]
pub enum Upload {
    /// Allocate `size` bytes and fill them with `data`.
    Create { size: u64, data: Vec<u8> },
    /// Write `data` at byte `offset` of the existing allocation.
    Write { offset: u64, data: Vec<u8> },
    /// Allocate `size` bytes, copy the first `copy_size` bytes of the
    /// existing allocation to the start of the new one, write `data` at byte
    /// `offset` of the new one, and use the new one from now on.
    Grow { size: u64, copy_size: u64, offset: u64, data: Vec<u8> },
}

/// An [`Upload`] as a mathematical value.
pub enum UploadView {
    Create { size: nat, data: Seq<u8> },
    Write { offset: nat, data: Seq<u8> },
    Grow { size: nat, copy_size: nat, offset: nat, data: Seq<u8> },
}

impl View for Upload {
    type V = UploadView;

    open spec fn view(&self) -> UploadView {
        match self {
            Upload::Create { size, data } => UploadView::Create { size: *size as nat, data: data@ },
            Upload::Write { offset, data } => UploadView::Write {
                offset: *offset as nat,
                data: data@,
            },
            Upload::Grow { size, copy_size, offset, data } => UploadView::Grow {
                size: *size as nat,
                copy_size: *copy_size as nat,
                offset: *offset as nat,
                data: data@,
            },
        }
    }
}

/// `mem` with `data` written over the bytes from `offset` on.
#[verifier::opaque]
pub open spec fn write_at(mem: Seq<u8>, offset: int, data: Seq<u8>) -> Seq<u8> {
    Seq::new(
        mem.len(),
        |i: int|
            if offset <= i < offset + data.len() {
                data[i - offset]
            } else {
                mem[i]
            },
    )
}

impl UploadView {
    /// The bytes written by the operation.
    pub open spec fn data(self) -> Seq<u8> {
        match self {
            UploadView::Create { data, .. } => data,
            UploadView::Write { data, .. } => data,
            UploadView::Grow { data, .. } => data,
        }
    }

    /// The operation puts the buffer into a new allocation.
    pub open spec fn replaces_storage(self) -> bool {
        !(self is Write)
    }

    /// Every offset and size is a multiple of four bytes, the granularity at
    /// which a device copies and writes, and every range lies inside its
    /// allocation.
    pub open spec fn well_formed(self, old_capacity: nat) -> bool {
        match self {
            UploadView::Create { size, data } => size == data.len() && size % 4 == 0,
            UploadView::Write { offset, data } => {
                &&& offset % 4 == 0
                &&& data.len() % 4 == 0
                &&& offset + data.len() <= old_capacity
            },
            UploadView::Grow { size, copy_size, offset, data } => {
                &&& size % 4 == 0
                &&& copy_size % 4 == 0
                &&& offset % 4 == 0
                &&& data.len() % 4 == 0
                &&& copy_size <= old_capacity
                &&& copy_size <= size
                &&& offset + data.len() <= size
            },
        }
    }

    /// Memory of the buffer after the operation, where `mem` is its memory
    /// before and `fresh` is what a new allocation happens to hold.
    pub open spec fn run(self, mem: Seq<u8>, fresh: Seq<u8>) -> Seq<u8> {
        match self {
            UploadView::Create { size, data } => write_at(fresh, 0, data),
            UploadView::Write { offset, data } => write_at(mem, offset as int, data),
            UploadView::Grow { size, copy_size, offset, data } => write_at(
                write_at(fresh, 0, mem.subrange(0, copy_size as int)),
                offset as int,
                data,
            ),
        }
    }
}

/// Bookkeeping for one growable buffer on the device.
#[derive(Clone, Copy, Debug, PartialEq, Eq)]
pub struct DeviceBuffer {
    class: BufferClass,
    capacity_bytes: u64,
    logical_count: u32,
}

impl View for DeviceBuffer {
    type V = BufferState;

    closed spec fn view(&self) -> BufferState {
        BufferState {
            class: self.class,
            capacity: self.capacity_bytes as nat,
            count: self.logical_count as nat,
        }
    }
}

impl DeviceBuffer {
    /// Starts a buffer of `class` sized exactly for `batch`, a whole number
    /// of entries given word by word.
    ///
    /// Fails, and only then, when the batch has more entries than a buffer
    /// may hold.
    pub fn create(class: BufferClass, batch: &Vec<u32>) -> (r: Result<
        (DeviceBuffer, Upload),
        BufferError,
    >)
        requires
            class.spec_whole(batch@.len()),
        ensures
            r is Ok <==> class.spec_batch(batch@.len()) <= u32::MAX,
            r matches Ok((buffer, upload)) ==> {
                &&& buffer@ == BufferState::created(class, class.spec_batch(batch@.len()))
                &&& buffer@.valid()
                &&& upload@ == (UploadView::Create {
                    size: 4 * batch@.len(),
                    data: upload@.data(),
                })
                &&& is_image(upload@.data(), batch@)
                &&& upload@.well_formed(0)
            },
            r matches Err(e) ==> e == BufferError::TooManyEntries,
    {
        let entries: usize = class.batch_entries(batch.len());
        if entries > u32::MAX as usize {
            return Err(BufferError::TooManyEntries);
        }
        proof {
            class.lemma_batch_bytes(batch@.len());
        }
        let size: u64 = class.span_bytes(entries as u32);
        let data: Vec<u8> = cast_words(batch.as_slice());
        assert(data@.len() == 4 * batch@.len());
        let buffer = DeviceBuffer { class, capacity_bytes: size, logical_count: entries as u32 };
        let upload = Upload::Create { size, data };
        assert(upload@.data() == data@);
        Ok((buffer, upload))
    }

    /// Bookkeeping for a buffer that exists on the device already, with
    /// `capacity_bytes` allocated and `logical_count` entries in it; none
    /// where the allocation would not cover the entries or is not a whole
    /// number of words.
    pub fn from_parts(class: BufferClass, capacity_bytes: u64, logical_count: u32) -> (r: Option<
        DeviceBuffer,
    >)
        ensures
            r is Some <==> (BufferState {
                class,
                capacity: capacity_bytes as nat,
                count: logical_count as nat,
            }).valid(),
            r matches Some(buffer) ==> buffer@ == (BufferState {
                class,
                capacity: capacity_bytes as nat,
                count: logical_count as nat,
            }),
    {
        if class.span_bytes(logical_count) <= capacity_bytes && capacity_bytes % 4 == 0 {
            Some(DeviceBuffer { class, capacity_bytes, logical_count })
        } else {
            None
        }
    }

    /// The class of primitive this buffer holds.
    pub fn class(&self) -> (c: BufferClass)
        ensures
            c == self@.class,
    {
        self.class
    }

    /// Bytes allocated on the device.
    pub fn capacity_bytes(&self) -> (n: u64)
        ensures
            n == self@.capacity,
    {
        self.capacity_bytes
    }

    /// Entries appended so far.
    pub fn logical_count(&self) -> (n: u32)
        ensures
            n == self@.count,
    {
        self.logical_count
    }

    /// Bytes from one entry to the next.
    pub fn stride_bytes(&self) -> (n: u64)
        ensures
            n == self@.stride(),
    {
        self.class.stride_bytes()
    }

    /// Appends `batch`, a whole number of entries given word by word, and
    /// returns the operation that puts it on the device: a write behind the
    /// last entry where the batch fits, else a move into an allocation twice
    /// the size now needed.
    ///
    /// Fails, and only then, when the buffer would pass the largest count of
    /// entries; the buffer is then unchanged.
    pub fn append(&mut self, batch: &Vec<u32>) -> (r: Result<Upload, BufferError>)
        requires
            old(self)@.valid(),
            old(self)@.class.spec_whole(batch@.len()),
        ensures
            r is Ok <==> old(self)@.count + old(self)@.class.spec_batch(batch@.len())
                <= u32::MAX,
            r matches Ok(upload) ==> {
                &&& final(self)@ == old(self)@.append(old(self)@.class.spec_batch(batch@.len()))
                &&& final(self)@.valid()
                &&& upload@ == old(self)@.upload(upload@.data())
                &&& is_image(upload@.data(), batch@)
                &&& upload@.well_formed(old(self)@.capacity)
            },
            r matches Err(e) ==> e == BufferError::TooManyEntries && *final(self) == *old(self),
    {
        let entries: usize = self.class.batch_entries(batch.len());
        if entries > (u32::MAX - self.logical_count) as usize {
            return Err(BufferError::TooManyEntries);
        }
        let new_count: u32 = self.logical_count + entries as u32;
        let offset: u64 = self.class.span_bytes(self.logical_count);
        let needed: u64 = self.class.span_bytes(new_count);
        let data: Vec<u8> = cast_words(batch.as_slice());
        proof {
            self.class.lemma_batch_bytes(batch@.len());
            lemma_append_valid(self@, entries as nat);
            lemma_upload_shape(self@, entries as nat, data@);
        }
        if needed <= self.capacity_bytes {
            self.logical_count = new_count;
            Ok(Upload::Write { offset, data })
        } else {
            let size: u64 = needed * 2;
            let copy_size: u64 = self.capacity_bytes;
            self.capacity_bytes = size;
            self.logical_count = new_count;
            Ok(Upload::Grow { size, copy_size, offset, data })
        }
    }
}

/// The operation that appends `n` whole entries, written out: a write behind
/// the last entry, or a move into twice the bytes needed; either way inside
/// its allocation and on four-byte boundaries.
pub proof fn lemma_upload_shape(s: BufferState, n: nat, data: Seq<u8>)
    requires
        s.valid(),
        s.count + n <= u32::MAX,
        data.len() == s.class.spec_span(n),
    ensures
        s.class.spec_entries(data.len()) == n,
        s.needed(n) == s.used() + data.len(),
        2 * s.needed(n) <= u64::MAX,
        s.grows(n) ==> s.upload(data) == (UploadView::Grow {
            size: 2 * s.needed(n),
            copy_size: s.capacity,
            offset: s.used(),
            data,
        }),
        !s.grows(n) ==> s.upload(data) == (UploadView::Write { offset: s.used(), data }),
        s.upload(data).well_formed(s.capacity),
{
    s.class.lemma_measures(n);
    let k = s.count + n;
    match s.class {
        BufferClass::Rect => {
            assert((2 * (24 * k)) % 4 == 0) by (nonlinear_arith);
            assert((24 * s.count) % 4 == 0) by (nonlinear_arith);
            assert((24 * n) % 4 == 0) by (nonlinear_arith);
        },
        BufferClass::Color => {
            assert((2 * (16 * k)) % 4 == 0) by (nonlinear_arith);
            assert((16 * s.count) % 4 == 0) by (nonlinear_arith);
            assert((16 * n) % 4 == 0) by (nonlinear_arith);
        },
    }
}

/// An append keeps the allocation large enough: where the new count of
/// entries fits the machine, the state after the append is valid again.
pub proof fn lemma_append_valid(s: BufferState, entries: nat)
    requires
        s.valid(),
        s.count + entries <= u32::MAX,
    ensures
        s.append(entries).valid(),
        s.append(entries).used() == s.needed(entries),
{
    let k = s.count + entries;
    match s.class {
        BufferClass::Rect => {
            assert((2 * (24 * k)) % 4 == 0) by (nonlinear_arith);
        },
        BufferClass::Color => {
            assert((2 * (16 * k)) % 4 == 0) by (nonlinear_arith);
        },
    }
}

/// The count of entries after a run of appends is the sum of what was
/// appended, so it never goes down along the run.
pub proof fn lemma_append_all_count(s: BufferState, batches: Seq<nat>, i: int)
    requires
        0 <= i <= batches.len(),
    ensures
        s.append_all(batches.take(i)).count <= s.append_all(batches).count,
        s.append_all(batches).class == s.class,
    decreases batches.len(),
{
    if batches.len() == 0 {
        assert(batches.take(i) =~= batches);
    } else if i == batches.len() {
        assert(batches.take(i) =~= batches);
        lemma_append_all_count(s, batches.drop_last(), 0);
    } else {
        assert(batches.take(i) =~= batches.drop_last().take(i));
        lemma_append_all_count(s, batches.drop_last(), i);
    }
}

/// Whatever batches are appended, in whatever sizes, the allocation covers
/// the entries at every point of the run: after each of its appends
/// `capacity >= count * stride`.
pub proof fn lemma_capacity_covers_entries(s: BufferState, batches: Seq<nat>, i: int)
    requires
        s.valid(),
        s.append_all(batches).count <= u32::MAX,
        0 <= i <= batches.len(),
    ensures
        s.append_all(batches.take(i)).valid(),
        s.append_all(batches.take(i)).capacity >= s.append_all(batches.take(i)).count
            * s.stride(),
    decreases i,
{
    let prefix = batches.take(i);
    lemma_append_all_count(s, batches, i);
    if i > 0 {
        lemma_capacity_covers_entries(s, batches, i - 1);
        assert(prefix.drop_last() =~= batches.take(i - 1));
        lemma_append_valid(s.append_all(prefix.drop_last()), prefix.last());
    }
    let t = s.append_all(prefix);
    lemma_append_all_count(s, prefix, 0);
    t.class.lemma_measures(t.count);
}

/// A buffer that grows is given at least twice the bytes that its entries
/// need at that moment.
pub proof fn lemma_growth_doubles(s: BufferState, entries: nat)
    requires
        s.grows(entries),
    ensures
        s.append(entries).capacity >= 2 * s.needed(entries),
        s.append(entries).capacity >= 2 * ((s.count + entries) * s.stride()),
{
    s.class.lemma_measures(s.count + entries);
}

/// After a buffer has grown, as many entries again as it then holds can be
/// appended before it grows once more.
pub proof fn lemma_growth_leaves_room(s: BufferState, entries: nat, more: nat)
    requires
        s.grows(entries),
        more <= s.count + entries,
    ensures
        !s.append(entries).grows(more),
{
}

/// Writing `data` at `offset` leaves the bytes before `offset` as they were
/// and puts `data` right behind them.
pub proof fn lemma_write_at(mem: Seq<u8>, offset: int, data: Seq<u8>)
    requires
        0 <= offset,
        offset + data.len() <= mem.len(),
    ensures
        write_at(mem, offset, data).len() == mem.len(),
        write_at(mem, offset, data).subrange(0, offset) == mem.subrange(0, offset),
        write_at(mem, offset, data).subrange(0, offset + data.len()) == mem.subrange(0, offset)
            + data,
{
    reveal(write_at);
    let after = write_at(mem, offset, data);
    assert(after.subrange(0, offset) =~= mem.subrange(0, offset));
    assert(after.subrange(0, offset + data.len()) =~= mem.subrange(0, offset) + data);
}

/// A created buffer holds exactly the batch it was created for.
pub proof fn lemma_create_holds(class: BufferClass, entries: nat, data: Seq<u8>, fresh: Seq<u8>)
    requires
        data.len() == class.spec_span(entries),
        fresh.len() == data.len(),
    ensures
        BufferState::created(class, entries).holds(
            (UploadView::Create { size: data.len(), data }).run(Seq::empty(), fresh),
            data,
        ),
{
    lemma_write_at(fresh, 0, data);
    assert(fresh.subrange(0, 0) + data =~= data);
}

/// Moving a buffer into a new allocation and writing behind its entries
/// keeps the entries and puts the new bytes right behind them.
proof fn lemma_grow_keeps(
    mem: Seq<u8>,
    fresh: Seq<u8>,
    capacity: int,
    used: int,
    data: Seq<u8>,
)
    requires
        0 <= used <= capacity == mem.len(),
        capacity <= fresh.len(),
        used + data.len() <= fresh.len(),
    ensures
        ({
            let after = write_at(write_at(fresh, 0, mem.subrange(0, capacity)), used, data);
            &&& after.len() == fresh.len()
            &&& after.subrange(0, used) == mem.subrange(0, used)
            &&& after.subrange(0, used + data.len()) == mem.subrange(0, used) + data
        }),
{
    let kept = mem.subrange(0, capacity);
    let moved = write_at(fresh, 0, kept);
    lemma_write_at(fresh, 0, kept);
    assert(fresh.subrange(0, 0) + kept =~= kept);
    assert(moved.subrange(0, used) =~= moved.subrange(0, capacity).subrange(0, used));
    assert(kept.subrange(0, used) =~= mem.subrange(0, used));
    lemma_write_at(moved, used, data);
}

/// No append loses data. Let `mem` be the memory of a buffer in state `s`,
/// holding `entries`; let `data` be a batch of `n` whole entries and `fresh`
/// what the new allocation holds, should the buffer grow. After the operation
/// that `s.upload(data)` names, the buffer's memory has the size that the new
/// state records, the bytes of the old entries are where they were and what
/// they were, and the batch follows them directly.
pub proof fn lemma_upload_keeps_entries(
    s: BufferState,
    n: nat,
    mem: Seq<u8>,
    entries: Seq<u8>,
    data: Seq<u8>,
    fresh: Seq<u8>,
)
    requires
        s.valid(),
        s.count + n <= u32::MAX,
        s.holds(mem, entries),
        data.len() == s.class.spec_span(n),
        fresh.len() == s.append(n).capacity,
    ensures
        s.append(n).holds(s.upload(data).run(mem, fresh), entries + data),
        s.upload(data).run(mem, fresh).subrange(0, s.used() as int) == mem.subrange(
            0,
            s.used() as int,
        ),
{
    lemma_upload_shape(s, n, data);
    lemma_append_valid(s, n);
    let used = s.used() as int;
    if s.grows(n) {
        lemma_grow_keeps(mem, fresh, s.capacity as int, used, data);
    } else {
        lemma_write_at(mem, used, data);
    }
}

} // verus!
