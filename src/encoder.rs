//! A growable byte sink with the name-compression table of a DNS message.

use vstd::prelude::*;
use vstd::utf8::encode_utf8;
use crate::error::{ProtoError, ProtoResult};
use crate::wire::{u16_bytes, u32_bytes, i32_bytes, character_data};

verus! {

/// Relies on `Vec::capacity`, which is never below the length.
#[verifier::external_body]
fn vec_capacity(v: &Vec<u8>) -> (r: usize)
    ensures
        r >= v@.len(),
{
    v.capacity()
}

/// How records are to be written.
#[derive(Clone, Copy, Debug, PartialEq, Eq, Structural)]
pub enum EncodeMode {
    /// Canonical form of all data, as signatures are computed over it.
    Signing,
    /// The form in which the data came.
    Normal,
}

/// The labels of a name suffix, as text.
pub open spec fn labels_view(labels: Seq<String>) -> Seq<Seq<char>> {
    labels.map_values(|l: String| l@)
}

/// `buf` grown by `data.len()` zero bytes, with `data` written from `pos` on.
pub open spec fn written(buf: Seq<u8>, pos: int, data: Seq<u8>) -> Seq<u8> {
    Seq::new(
        (buf.len() + data.len()) as nat,
        |i: int|
            if pos <= i < pos + data.len() {
                data[i - pos]
            } else if i < buf.len() {
                buf[i]
            } else {
                0u8
            },
    )
}

/// Writing at the end of a buffer appends.
pub proof fn lemma_written_at_end(buf: Seq<u8>, data: Seq<u8>)
    ensures
        written(buf, buf.len() as int, data) == buf + data,
{
    assert(written(buf, buf.len() as int, data) =~= buf + data);
}

/// The label sequence of the `i`-th entry of a compression table.
spec fn key_of(entries: Seq<(Vec<String>, u16)>, i: int) -> Seq<Seq<char>> {
    labels_view(entries[i].0@)
}

/// The entries of a compression table have distinct keys, and are exactly the
/// entries of `table`.
spec fn table_wf(entries: Seq<(Vec<String>, u16)>, table: Map<Seq<Seq<char>>, u16>) -> bool {
    &&& forall|i: int, j: int|
        0 <= i < j < entries.len() ==> key_of(entries, i) != key_of(entries, j)
    &&& forall|i: int|
        0 <= i < entries.len() ==> table.contains_key(#[trigger] key_of(entries, i))
            && table[key_of(entries, i)] == entries[i].1
    &&& forall|k: Seq<Seq<char>>|
        table.contains_key(k) ==> exists|i: int|
            0 <= i < entries.len() && #[trigger] key_of(entries, i) == k
}

/// Offsets at or above this do not fit a compression pointer.
pub const MAX_POINTER_OFFSET: usize = 0x3FFF;

/// Encodes DNS messages and resource records into a byte buffer.
pub struct BinEncoder<'a> {
    buffer: &'a mut Vec<u8>,
    position: usize,
    name_pointers: Vec<(Vec<String>, u16)>,
    table: Ghost<Map<Seq<Seq<char>>, u16>>,
    mode: EncodeMode,
    canonical_names: bool,
}

impl<'a> BinEncoder<'a> {
    /// The buffer as written so far.
    pub closed spec fn bytes(&self) -> Seq<u8> {
        self.buffer@
    }

    /// The absolute position at which the next byte is written.
    pub closed spec fn position(&self) -> nat {
        self.position as nat
    }

    /// The compression table: each stored label sequence and its offset.
    pub closed spec fn pointers(&self) -> Map<Seq<Seq<char>>, u16> {
        self.table@
    }

    /// The encoding mode.
    pub closed spec fn spec_mode(&self) -> EncodeMode {
        self.mode
    }

    /// Whether names are written in canonical form.
    pub closed spec fn canonical(&self) -> bool {
        self.canonical_names
    }


    /// The table's entries have distinct keys and are exactly the entries of
    /// `pointers()`.
    pub closed spec fn wf(&self) -> bool {
        table_wf(self.name_pointers@, self.table@)
    }

    /// The write position lies within the buffer, so that a write can start there.
    pub open spec fn writable(&self) -> bool {
        self.position() <= self.bytes().len()
    }

    /// `after` is `self` with `data` written at the position, which moves past it.
    pub open spec fn wrote(&self, after: &Self, data: Seq<u8>) -> bool {
        &&& after.wf()
        &&& after.writable()
        &&& after.bytes() == written(self.bytes(), self.position() as int, data)
        &&& after.position() == self.position() + data.len()
        &&& after.pointers() == self.pointers()
        &&& after.spec_mode() == self.spec_mode()
        &&& after.canonical() == self.canonical()
    }

    /// Creates an encoder that writes into `buf` from its start.
    pub fn new(buf: &'a mut Vec<u8>) -> (r: Self)
        ensures
            r.wf(),
            r.bytes() == old(buf)@,
            r.position() == 0,
            r.pointers() == Map::<Seq<Seq<char>>, u16>::empty(),
            r.spec_mode() == EncodeMode::Normal,
            !r.canonical(),
    {
        Self::with_offset(buf, 0, EncodeMode::Normal)
    }

    /// Creates an encoder in the given mode; in `Signing` mode the canonical
    /// form of all data is written.
    pub fn with_mode(buf: &'a mut Vec<u8>, mode: EncodeMode) -> (r: Self)
        ensures
            r.wf(),
            r.bytes() == old(buf)@,
            r.position() == 0,
            r.pointers() == Map::<Seq<Seq<char>>, u16>::empty(),
            r.spec_mode() == mode,
            !r.canonical(),
    {
        Self::with_offset(buf, 0, mode)
    }

    /// Creates an encoder that writes into `buf` from `offset` on; writes need
    /// the offset to lie within the buffer.
    pub fn with_offset(buf: &'a mut Vec<u8>, offset: u32, mode: EncodeMode) -> (r: Self)
        ensures
            r.wf(),
            r.bytes() == old(buf)@,
            r.position() == offset,
            r.pointers() == Map::<Seq<Seq<char>>, u16>::empty(),
            r.spec_mode() == mode,
            !r.canonical(),
    {
        BinEncoder {
            buffer: buf,
            position: offset as usize,
            name_pointers: Vec::new(),
            table: Ghost(Map::empty()),
            mode,
            canonical_names: false,
        }
    }

    /// Returns the buffer that was written.
    pub fn into_bytes(self) -> (r: &'a Vec<u8>)
        ensures
            r@ == self.bytes(),
    {
        self.buffer
    }

    /// Returns the length of the buffer.
    pub fn len(&self) -> (r: usize)
        ensures
            r == self.bytes().len(),
    {
        self.buffer.len()
    }

    /// Returns `true` if the buffer is empty.
    pub fn is_empty(&self) -> (r: bool)
        ensures
            r == (self.bytes().len() == 0),
    {
        self.buffer.is_empty()
    }

    /// Returns the current write position, in 32 bits.
    pub fn offset(&self) -> (r: u32)
        ensures
            r == #[verifier::truncate] (self.position() as u32),
    {
        #[verifier::truncate] (self.position as u32)
    }

    /// Returns the encoding mode.
    pub fn mode(&self) -> (r: EncodeMode)
        ensures
            r == self.spec_mode(),
    {
        self.mode
    }

    /// Sets whether names are written in canonical form.
    pub fn set_canonical_names(&mut self, canonical_names: bool)
        requires
            old(self).wf(),
        ensures
            final(self).wf(),
            final(self).canonical() == canonical_names,
            final(self).bytes() == old(self).bytes(),
            final(self).position() == old(self).position(),
            final(self).pointers() == old(self).pointers(),
            final(self).spec_mode() == old(self).spec_mode(),
    {
        self.canonical_names = canonical_names;
    }

    /// Returns `true` if names are written in canonical form.
    pub fn is_canonical_names(&self) -> (r: bool)
        ensures
            r == self.canonical(),
    {
        self.canonical_names
    }

    /// Emits one byte.
    pub fn emit(&mut self, b: u8)
        requires
            old(self).wf(),
            old(self).writable(),
        ensures
            old(self).wrote(final(self), seq![b]),
    {
        self.emit_u8(b);
    }

    /// Stores the current position as the offset of `labels`, when it fits a
    /// compression pointer; the name is expected to be written from there.
    pub fn store_label_pointer(&mut self, labels: Vec<String>)
        requires
            old(self).wf(),
        ensures
            final(self).wf(),
            final(self).pointers() == if old(self).position() < MAX_POINTER_OFFSET {
                old(self).pointers().insert(labels_view(labels@), old(self).position() as u16)
            } else {
                old(self).pointers()
            },
            final(self).bytes() == old(self).bytes(),
            final(self).position() == old(self).position(),
            final(self).spec_mode() == old(self).spec_mode(),
            final(self).canonical() == old(self).canonical(),
    {
        if self.position < MAX_POINTER_OFFSET {
            let offset = self.position as u16;
            let ghost k = labels_view(labels@);
            let mut i: usize = 0;
            while i < self.name_pointers.len()
                invariant
                    self.wf(),
                    *self == *old(self),
                    0 <= i <= self.name_pointers@.len(),
                    forall|j: int| 0 <= j < i ==> key_of(self.name_pointers@, j) != k,
                    k == labels_view(labels@),
                    offset == old(self).position as u16,
                    old(self).position < MAX_POINTER_OFFSET,
                decreases self.name_pointers@.len() - i,
            {
                if labels_eq(self.name_pointers[i].0.as_slice(), labels.as_slice()) {
                    self.name_pointers.set(i, (labels, offset));
                    self.table = Ghost(self.table@.insert(k, offset));
                    assert forall|j: int| 0 <= j < self.name_pointers@.len() implies #[trigger] key_of(self.name_pointers@, j)
                        == key_of(old(self).name_pointers@, j) by {}
                    assert forall|j: int| 0 <= j < self.name_pointers@.len() implies self.table@.contains_key(
                        #[trigger] key_of(self.name_pointers@, j),
                    ) && self.table@[key_of(self.name_pointers@, j)] == self.name_pointers@[j].1 by {
                        if j < i {
                            assert(key_of(old(self).name_pointers@, j) != key_of(old(self).name_pointers@, i as int));
                        } else if j > i {
                            assert(key_of(old(self).name_pointers@, i as int) != key_of(old(self).name_pointers@, j));
                        }
                    }
                    assert forall|k2: Seq<Seq<char>>| self.table@.contains_key(k2) implies exists|j: int|
                        0 <= j < self.name_pointers@.len() && #[trigger] key_of(self.name_pointers@, j) == k2 by {
                        if k2 == k {
                            assert(key_of(self.name_pointers@, i as int) == k2);
                        } else {
                            let j = choose|j: int| 0 <= j < old(self).name_pointers@.len() && key_of(old(self).name_pointers@, j) == k2;
                            assert(key_of(self.name_pointers@, j) == k2);
                        }
                    }
                    return;
                }
                i = i + 1;
            }
            self.name_pointers.push((labels, offset));
            self.table = Ghost(self.table@.insert(k, offset));
            let ghost n = self.name_pointers@.len() - 1;
            assert(key_of(self.name_pointers@, n) == k);
            assert forall|j: int| 0 <= j < n implies #[trigger] key_of(self.name_pointers@, j) == key_of(old(self).name_pointers@, j) by {}
            assert forall|k2: Seq<Seq<char>>| self.table@.contains_key(k2) implies exists|j: int|
                0 <= j < self.name_pointers@.len() && #[trigger] key_of(self.name_pointers@, j) == k2 by {
                if k2 != k {
                    let j = choose|j: int| 0 <= j < old(self).name_pointers@.len() && key_of(old(self).name_pointers@, j) == k2;
                    assert(key_of(self.name_pointers@, j) == k2);
                }
            }
        }
    }

    /// Looks up the offset stored for exactly the labels `labels`.
    pub fn get_label_pointer(&self, labels: &[String]) -> (r: Option<u16>)
        requires
            self.wf(),
        ensures
            r == if self.pointers().contains_key(labels_view(labels@)) {
                Some(self.pointers()[labels_view(labels@)])
            } else {
                None::<u16>
            },
    {
        let ghost k = labels_view(labels@);
        let mut i: usize = 0;
        while i < self.name_pointers.len()
            invariant
                self.wf(),
                0 <= i <= self.name_pointers@.len(),
                forall|j: int| 0 <= j < i ==> key_of(self.name_pointers@, j) != k,
                k == labels_view(labels@),
            decreases self.name_pointers@.len() - i,
        {
            if labels_eq(self.name_pointers[i].0.as_slice(), labels) {
                assert(key_of(self.name_pointers@, i as int) == k);
                return Some(self.name_pointers[i].1);
            }
            i = i + 1;
        }
        None
    }

    /// Emits a character-string: one length byte, then the UTF-8 bytes of
    /// `char_data`, which may be at most 255 bytes long.
    pub fn emit_character_data(&mut self, char_data: &str) -> (r: ProtoResult<()>)
        requires
            old(self).wf(),
            encode_utf8(char_data@).len() <= 255 ==> old(self).writable(),
        ensures
            encode_utf8(char_data@).len() > 255 ==> r == Err::<(), ProtoError>(
                ProtoError::CharacterDataTooLong(encode_utf8(char_data@).len() as usize),
            ) && *final(self) == *old(self),
            encode_utf8(char_data@).len() <= 255 ==> r is Ok && old(self).wrote(
                final(self),
                character_data(char_data@),
            ),
    {
        let char_bytes = char_data.as_bytes();
        if char_bytes.len() > 255 {
            return Err(ProtoError::CharacterDataTooLong(char_bytes.len()));
        }
        let ghost start = *self;
        self.emit_u8(char_bytes.len() as u8);
        let ghost mid = *self;
        self.emit_vec(char_bytes);
        proof {
            lemma_written_twice(start.bytes(), start.position() as int, seq![char_bytes@.len() as u8], char_bytes@);
        }
        assert(seq![char_bytes@.len() as u8] + char_bytes@ =~= character_data(char_data@));
        Ok(())
    }

    /// Emits one byte.
    pub fn emit_u8(&mut self, data: u8)
        requires
            old(self).wf(),
            old(self).writable(),
        ensures
            old(self).wrote(final(self), seq![data]),
    {
        let b = [data];
        assert(b@ =~= seq![data]);
        self.put(&b);
    }

    /// Emits a `u16` in network byte order.
    pub fn emit_u16(&mut self, data: u16)
        requires
            old(self).wf(),
            old(self).writable(),
        ensures
            old(self).wrote(final(self), u16_bytes(data)),
    {
        let b = [(data / 256) as u8, (data % 256) as u8];
        assert(b@ =~= u16_bytes(data));
        self.put(&b);
    }

    /// Emits an `i32` in network byte order.
    pub fn emit_i32(&mut self, data: i32)
        requires
            old(self).wf(),
            old(self).writable(),
        ensures
            old(self).wrote(final(self), i32_bytes(data)),
    {
        self.emit_u32(#[verifier::truncate] (data as u32));
    }

    /// Emits a `u32` in network byte order.
    pub fn emit_u32(&mut self, data: u32)
        requires
            old(self).wf(),
            old(self).writable(),
        ensures
            old(self).wrote(final(self), u32_bytes(data)),
    {
        let b = [
            (data / 0x100_0000) as u8,
            ((data / 0x1_0000) % 256) as u8,
            ((data / 256) % 256) as u8,
            (data % 256) as u8,
        ];
        assert(b@ =~= u32_bytes(data));
        self.put(&b);
    }

    /// Emits the bytes of `data` as they are.
    pub fn emit_vec(&mut self, data: &[u8])
        requires
            old(self).wf(),
            old(self).writable(),
        ensures
            old(self).wrote(final(self), data@),
    {
        self.put(data);
    }

    /// Writes `data` at the position, growing the buffer by its length.
    fn put(&mut self, data: &[u8])
        requires
            old(self).wf(),
            old(self).writable(),
        ensures
            old(self).wrote(final(self), data@),
    {
        let start = self.position;
        self.grow(data.len());
        let total = self.buffer.len();
        let mut i: usize = 0;
        while i < data.len()
            invariant
                self.wf(),
                self.writable(),
                self.position == start,
                start + data@.len() <= self.buffer@.len(),
                total == self.buffer@.len(),
                self.buffer@.len() == old(self).buffer@.len() + data@.len(),
                self.name_pointers == old(self).name_pointers,
                self.table == old(self).table,
                self.mode == old(self).mode,
                self.canonical_names == old(self).canonical_names,
                0 <= i <= data@.len(),
                forall|j: int| 0 <= j < self.buffer@.len() ==> #[trigger] self.buffer@[j] == if start <= j < start + i {
                    data@[j - start]
                } else if j < old(self).buffer@.len() {
                    old(self).buffer@[j]
                } else {
                    0u8
                },
            decreases data@.len() - i,
        {
            self.buffer.set(start + i, data[i]);
            i = i + 1;
        }
        self.position = start + data.len();
        assert(self.buffer@ =~= written(old(self).buffer@, start as int, data@));
    }

    /// Returns the room left in the buffer before it must reallocate.
    fn remaining_capacity(&self) -> usize {
        vec_capacity(self.buffer) - self.buffer.len()
    }

    /// Grows the buffer's capacity by at least 512 bytes, and at least `len`.
    fn reserve(&mut self, len: usize)
        ensures
            final(self).buffer@ == old(self).buffer@,
            final(self).position == old(self).position,
            final(self).name_pointers == old(self).name_pointers,
            final(self).table == old(self).table,
            final(self).mode == old(self).mode,
            final(self).canonical_names == old(self).canonical_names,
    {
        if len < 512 {
            self.buffer.reserve(512)
        } else {
            self.buffer.reserve(len)
        }
    }

    /// Grows the buffer by `len` zero bytes.
    fn grow(&mut self, len: usize)
        requires
            old(self).wf(),
            old(self).writable(),
        ensures
            final(self).wf(),
            final(self).writable(),
            final(self).buffer@ == old(self).buffer@ + Seq::new(len as nat, |i: int| 0u8),
            final(self).position == old(self).position,
            final(self).name_pointers == old(self).name_pointers,
            final(self).table == old(self).table,
            final(self).mode == old(self).mode,
            final(self).canonical_names == old(self).canonical_names,
    {
        if self.remaining_capacity() < len {
            self.reserve(len);
        }
        let mut i: usize = 0;
        while i < len
            invariant
                self.wf(),
                self.writable(),
                self.buffer@ == old(self).buffer@ + Seq::new(i as nat, |j: int| 0u8),
                self.position == old(self).position,
                self.name_pointers == old(self).name_pointers,
                self.table == old(self).table,
                self.mode == old(self).mode,
                self.canonical_names == old(self).canonical_names,
                0 <= i <= len,
            decreases len - i,
        {
            self.buffer.push(0);
            i = i + 1;
            assert(self.buffer@ =~= old(self).buffer@ + Seq::new(i as nat, |j: int| 0u8));
        }
    }
}

/// Two writes, one after the other, are one write of both.
proof fn lemma_written_twice(buf: Seq<u8>, pos: int, a: Seq<u8>, b: Seq<u8>)
    requires
        0 <= pos <= buf.len(),
    ensures
        written(written(buf, pos, a), pos + a.len(), b) == written(buf, pos, a + b),
{
    assert(written(written(buf, pos, a), pos + a.len(), b) =~= written(buf, pos, a + b));
}



/// Compares two label sequences, label by label.
fn labels_eq(a: &[String], b: &[String]) -> (r: bool)
    ensures
        r == (labels_view(a@) == labels_view(b@)),
{
    if a.len() != b.len() {
        assert(labels_view(a@).len() != labels_view(b@).len());
        return false;
    }
    let mut i: usize = 0;
    while i < a.len()
        invariant
            a@.len() == b@.len(),
            0 <= i <= a@.len(),
            forall|j: int| 0 <= j < i ==> a@[j]@ == b@[j]@,
        decreases a@.len() - i,
    {
        if a[i] != b[i] {
            assert(labels_view(a@)[i as int] != labels_view(b@)[i as int]);
            return false;
        }
        i = i + 1;
    }
    assert(labels_view(a@) =~= labels_view(b@));
    true
}

} // verus!
