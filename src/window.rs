use vstd::prelude::*;
use vstd::slice::slice_subrange;
use vstd::utf8::{decode_utf8, valid_utf8};

verus! {

/// Byte order of a fixed-width integer.
#[derive(Debug, Clone, Copy, PartialEq, Eq, Structural)]
pub enum Endianness {
    Big,
    Little,
}

/// Why a window operation or a box search failed.
#[derive(Debug, Clone, Copy, PartialEq, Eq, Structural)]
pub enum InputError {
    /// The read, seek or skip would go past the window's limit.
    EndOfData,
    /// The bytes read as a string are not UTF-8.
    InvalidText,
    /// A box declares a size smaller than its own header.
    InvalidBoxSize,
    /// The search used up the window without finding the box.
    NotFound,
    /// The search ran into the window's limit inside a box: the box was not
    /// found, and the cause is end of data.
    Truncated,
}

/// `256` to the power `n`.
pub open spec fn pow256(n: nat) -> nat
    decreases n,
{
    if n == 0 {
        1
    } else {
        256 * pow256((n - 1) as nat)
    }
}

/// The unsigned integer that `b` encodes, most significant byte first.
pub open spec fn be_value(b: Seq<u8>) -> nat
    decreases b.len(),
{
    if b.len() == 0 {
        0
    } else {
        (be_value(b.drop_last()) * 256 + b.last()) as nat
    }
}

/// The unsigned integer that `b` encodes, least significant byte first.
pub open spec fn le_value(b: Seq<u8>) -> nat
    decreases b.len(),
{
    if b.len() == 0 {
        0
    } else {
        (le_value(b.drop_first()) * 256 + b[0]) as nat
    }
}

/// The unsigned integer that `b` encodes in byte order `bo`.
pub open spec fn value_of(b: Seq<u8>, bo: Endianness) -> nat {
    match bo {
        Endianness::Big => be_value(b),
        Endianness::Little => le_value(b),
    }
}

/// What a window is: the whole backing store, where the window starts in it
/// (`offset`), its length (`limit`) and the read position relative to its
/// start (`cursor`).
pub struct WindowView {
    pub data: Seq<u8>,
    pub offset: nat,
    pub limit: nat,
    pub cursor: nat,
}

impl WindowView {
    /// The cursor stays within the window, and the window within the store.
    pub open spec fn wf(self) -> bool {
        &&& self.cursor <= self.limit
        &&& self.offset + self.limit <= self.data.len()
        &&& self.data.len() <= u64::MAX
        &&& self.data.len() <= usize::MAX
    }

    /// Bytes left between the cursor and the limit.
    pub open spec fn remaining(self) -> int {
        self.limit - self.cursor
    }

    /// The `n` bytes of the store that start at the cursor.
    pub open spec fn ahead(self, n: nat) -> Seq<u8> {
        self.data.subrange(
            (self.offset + self.cursor) as int,
            (self.offset + self.cursor + n) as int,
        )
    }

    /// The same window with the cursor at `pos`.
    pub open spec fn at(self, pos: int) -> WindowView {
        WindowView { cursor: pos as nat, ..self }
    }

    /// The window of `len` bytes that starts at the cursor, with its own
    /// cursor at 0.
    pub open spec fn section_of(self, len: nat) -> WindowView {
        WindowView { data: self.data, offset: self.offset + self.cursor, limit: len, cursor: 0 }
    }
}

/// A bounded, cursor-based view over a byte range of a backing store.
/// Windows derived from one another share the store and keep their own
/// offset, limit and cursor.
pub struct Input<'f> {
    data: &'f [u8],
    offset: u64,
    limit: u64,
    cursor: u64,
}

impl<'f> View for Input<'f> {
    type V = WindowView;

    closed spec fn view(&self) -> WindowView {
        WindowView {
            data: self.data@,
            offset: self.offset as nat,
            limit: self.limit as nat,
            cursor: self.cursor as nat,
        }
    }
}

/// Relies on `std::str::from_utf8`: `Some` exactly when the bytes are UTF-8,
/// holding the characters they encode.
#[verifier::external_body]
fn utf8_text(b: &[u8]) -> (r: Option<&str>)
    ensures
        r.is_some() == valid_utf8(b@),
        r matches Some(s) ==> s@ == decode_utf8(b@),
{
    std::str::from_utf8(b).ok()
}

/// Reads the `n` bytes of `data` that start at `start` as an unsigned integer
/// in byte order `bo`.
fn decode_uint(data: &[u8], start: usize, n: usize, bo: &Endianness) -> (r: u64)
    requires
        start + n <= data@.len(),
        start + n <= usize::MAX,
        n <= 8,
    ensures
        r == value_of(data@.subrange(start as int, start + n), *bo),
        r < pow256(n as nat),
{
    proof {
        reveal_with_fuel(pow256, 9);
    }
    let mut v: u64 = 0;
    match bo {
        Endianness::Big => {
            let mut i: usize = 0;
            while i < n
                invariant
                    i <= n <= 8,
                    start + n <= data@.len(),
                    start + n <= usize::MAX,
                    v == be_value(data@.subrange(start as int, start + i)),
                    v < pow256(i as nat),
                    pow256(8) == 0x1_0000_0000_0000_0000,
                decreases n - i,
            {
                proof {
                    lemma_pow256_monotone(i as nat, 7);
                    let s = data@.subrange(start as int, start + i + 1);
                    assert(s.drop_last() =~= data@.subrange(start as int, start + i));
                }
                v = v * 256 + data[start + i] as u64;
                i = i + 1;
            }
        },
        Endianness::Little => {
            let mut i: usize = n;
            while i > 0
                invariant
                    i <= n <= 8,
                    start + n <= data@.len(),
                    start + n <= usize::MAX,
                    v == le_value(data@.subrange(start + i, start + n)),
                    v < pow256((n - i) as nat),
                    pow256(8) == 0x1_0000_0000_0000_0000,
                decreases i,
            {
                proof {
                    lemma_pow256_monotone((n - i) as nat, 7);
                    let s = data@.subrange(start + i - 1, start + n);
                    assert(s.drop_first() =~= data@.subrange(start + i, start + n));
                }
                v = v * 256 + data[start + i - 1] as u64;
                i = i - 1;
            }
            assert(data@.subrange(start + i, start + n) =~= data@.subrange(start as int, start + n));
        },
    }
    v
}

proof fn lemma_pow256_monotone(a: nat, b: nat)
    requires
        a <= b,
    ensures
        pow256(a) <= pow256(b),
    decreases b,
{
    if a < b {
        lemma_pow256_monotone(a, (b - 1) as nat);
    }
}

/// A section is a view of its parent: reading from the section at any
/// position reads the bytes that the parent holds at the same place, counted
/// from where the section was taken.
pub proof fn lemma_section_reads_same(v: WindowView, len: nat, i: nat, n: nat)
    requires
        v.wf(),
        len <= v.remaining(),
        i + n <= len,
    ensures
        v.section_of(len).wf(),
        v.section_of(len).limit == len,
        v.section_of(len).at(i as int).ahead(n) == v.at(v.cursor + i as int).ahead(n),
{
}

impl<'f> Input<'f> {
    /// A window over the whole of `data`, with the cursor at 0.
    pub fn create(data: &'f [u8]) -> (r: Input<'f>)
        ensures
            r@ == (WindowView { data: data@, offset: 0, limit: data@.len(), cursor: 0 }),
            r@.wf(),
    {
        Input { data, offset: 0, limit: data.len() as u64, cursor: 0 }
    }

    /// Reads `n` bytes at the cursor as an unsigned integer in byte order `bo`.
    fn read_uint(&mut self, n: u64, bo: &Endianness) -> (r: Result<u64, InputError>)
        requires
            old(self)@.wf(),
            n <= 8,
        ensures
            final(self)@.wf(),
            old(self)@.remaining() >= n ==> r is Ok && final(self)@ == old(self)@.at(
                old(self)@.cursor + n,
            ),
            old(self)@.remaining() < n ==> r == Err::<u64, InputError>(InputError::EndOfData)
                && final(self)@ == old(self)@,
            r matches Ok(v) ==> v == value_of(old(self)@.ahead(n as nat), *bo) && v < pow256(
                n as nat,
            ),
    {
        if n > self.limit - self.cursor {
            return Err(InputError::EndOfData);
        }
        let start = (self.offset + self.cursor) as usize;
        let v = decode_uint(self.data, start, n as usize, bo);
        self.cursor = self.cursor + n;
        Ok(v)
    }

    /// Reads a 32-bit unsigned integer in byte order `bo` and moves the cursor
    /// past it. Fails with `EndOfData`, moving nothing, where fewer than 4
    /// bytes remain.
    pub fn read_u32(&mut self, bo: &Endianness) -> (r: Result<u32, InputError>)
        requires
            old(self)@.wf(),
        ensures
            final(self)@.wf(),
            old(self)@.remaining() >= 4 ==> r is Ok && final(self)@ == old(self)@.at(
                old(self)@.cursor + 4int,
            ),
            r matches Ok(x) ==> x == value_of(old(self)@.ahead(4), *bo),
            old(self)@.remaining() < 4 ==> r == Err::<u32, InputError>(InputError::EndOfData)
                && final(self)@ == old(self)@,
    {
        proof {
            reveal_with_fuel(pow256, 5);
        }
        let r = self.read_uint(4, bo);
        assert(pow256(4) == 0x1_0000_0000);
        match r {
            Ok(v) => Ok(v as u32),
            Err(e) => Err(e),
        }
    }

    /// Reads a 64-bit unsigned integer in byte order `bo` and moves the cursor
    /// past it. Fails with `EndOfData`, moving nothing, where fewer than 8
    /// bytes remain.
    pub fn read_u64(&mut self, bo: &Endianness) -> (r: Result<u64, InputError>)
        requires
            old(self)@.wf(),
        ensures
            final(self)@.wf(),
            old(self)@.remaining() >= 8 ==> r is Ok && final(self)@ == old(self)@.at(
                old(self)@.cursor + 8int,
            ),
            r matches Ok(x) ==> x == value_of(old(self)@.ahead(8), *bo),
            old(self)@.remaining() < 8 ==> r == Err::<u64, InputError>(InputError::EndOfData)
                && final(self)@ == old(self)@,
    {
        self.read_uint(8, bo)
    }

    /// Reads `len` bytes as UTF-8 text and moves the cursor past them. Fails,
    /// moving nothing, with `EndOfData` where fewer than `len` bytes remain
    /// and with `InvalidText` where the bytes are not UTF-8.
    pub fn read_string(&mut self, len: u64) -> (r: Result<String, InputError>)
        requires
            old(self)@.wf(),
        ensures
            final(self)@.wf(),
            old(self)@.remaining() < len ==> r == Err::<String, InputError>(InputError::EndOfData)
                && final(self)@ == old(self)@,
            old(self)@.remaining() >= len && !valid_utf8(old(self)@.ahead(len as nat)) ==> r
                == Err::<String, InputError>(InputError::InvalidText) && final(self)@ == old(
                self,
            )@,
            old(self)@.remaining() >= len && valid_utf8(old(self)@.ahead(len as nat)) ==> r
                is Ok && final(self)@ == old(self)@.at(old(self)@.cursor + len),
            r matches Ok(s) ==> s@ == decode_utf8(old(self)@.ahead(len as nat)),
    {
        if len > self.limit - self.cursor {
            return Err(InputError::EndOfData);
        }
        let start = (self.offset + self.cursor) as usize;
        let bytes = slice_subrange(self.data, start, start + len as usize);
        match utf8_text(bytes) {
            Some(text) => {
                self.cursor = self.cursor + len;
                Ok(text.to_owned())
            },
            None => Err(InputError::InvalidText),
        }
    }

    /// Moves the cursor to `pos`, which must lie before the limit; otherwise
    /// fails with `EndOfData` and moves nothing.
    pub fn seek(&mut self, pos: u64) -> (r: Result<(), InputError>)
        requires
            old(self)@.wf(),
        ensures
            final(self)@.wf(),
            pos < old(self)@.limit ==> r is Ok && final(self)@ == old(self)@.at(pos as int),
            pos >= old(self)@.limit ==> r == Err::<(), InputError>(InputError::EndOfData)
                && final(self)@ == old(self)@,
    {
        if pos >= self.limit {
            return Err(InputError::EndOfData);
        }
        self.cursor = pos;
        Ok(())
    }

    /// Skips `len` bytes: the same as seeking to the cursor plus `len`.
    pub fn ff(&mut self, len: u64) -> (r: Result<(), InputError>)
        requires
            old(self)@.wf(),
        ensures
            final(self)@.wf(),
            old(self)@.cursor + len < old(self)@.limit ==> r is Ok && final(self)@ == old(
                self,
            )@.at(old(self)@.cursor + len),
            old(self)@.cursor + len >= old(self)@.limit ==> r == Err::<(), InputError>(
                InputError::EndOfData,
            ) && final(self)@ == old(self)@,
    {
        if len >= self.limit - self.cursor {
            return Err(InputError::EndOfData);
        }
        self.seek(self.cursor + len)
    }

    /// A window of `len` bytes over the same store, starting at the cursor,
    /// with its own cursor at 0. This window is left as it was.
    pub fn section(&mut self, len: u64) -> (r: Input<'f>)
        requires
            old(self)@.wf(),
            len <= old(self)@.remaining(),
        ensures
            final(self)@ == old(self)@,
            r@ == old(self)@.section_of(len as nat),
            r@.wf(),
    {
        Input { data: self.data, offset: self.offset + self.cursor, limit: len, cursor: 0 }
    }

    /// The cursor, relative to the start of the window.
    pub fn position(&self) -> (r: u64)
        ensures
            r == self@.cursor,
    {
        self.cursor
    }

    /// The length of the window.
    pub fn limit(&self) -> (r: u64)
        ensures
            r == self@.limit,
    {
        self.limit
    }
}

} // verus!
