use vstd::prelude::*;
use vstd::arithmetic::div_mod::lemma_fundamental_div_mod_converse;
use vstd::utf8::{decode_utf8, decode_utf8_encode_utf8, encode_utf8, valid_utf8};
use crate::window::{be_value, Endianness, Input, InputError, WindowView};

verus! {

/// A box header as read from the wire.
pub struct BoxHeader {
    /// The declared size of the whole box, header included.
    pub size: u64,
    /// The four-character type tag.
    pub box_type: String,
    /// Whether the size came from the 64-bit large-size field.
    pub large: bool,
}

/// What a box header says.
pub struct HeaderView {
    pub size: nat,
    pub box_type: Seq<char>,
    pub large: bool,
}

impl View for BoxHeader {
    type V = HeaderView;

    open spec fn view(&self) -> HeaderView {
        HeaderView { size: self.size as nat, box_type: self.box_type@, large: self.large }
    }
}

/// Whether the header bytes `b` use the large-size form: the 32-bit size
/// field holds the sentinel 1.
pub open spec fn is_large(b: Seq<u8>) -> bool {
    be_value(b.subrange(0, 4)) == 1
}

/// The length of the header that starts with the bytes `b`.
pub open spec fn header_len(b: Seq<u8>) -> nat {
    if is_large(b) {
        16
    } else {
        8
    }
}

/// The header that the bytes `b` encode.
pub open spec fn decode_header(b: Seq<u8>) -> HeaderView {
    HeaderView {
        size: if is_large(b) {
            be_value(b.subrange(8, 16))
        } else {
            be_value(b.subrange(0, 4))
        },
        box_type: decode_utf8(b.subrange(4, 8)),
        large: is_large(b),
    }
}

/// The `n` bytes that encode `v`, most significant first.
pub open spec fn be_bytes(v: nat, n: nat) -> Seq<u8>
    decreases n,
{
    if n == 0 {
        Seq::empty()
    } else {
        be_bytes(v / 256, (n - 1) as nat).push((v % 256) as u8)
    }
}

/// The bytes of the header `h` on the wire.
pub open spec fn encode_header(h: HeaderView) -> Seq<u8> {
    if h.large {
        be_bytes(1, 4) + encode_utf8(h.box_type) + be_bytes(h.size, 8)
    } else {
        be_bytes(h.size, 4) + encode_utf8(h.box_type)
    }
}

/// Whether `b` is exactly one well-formed header: 8 bytes in the plain form,
/// 16 in the large form, with a UTF-8 type tag.
pub open spec fn valid_header(b: Seq<u8>) -> bool {
    &&& b.len() == 8 || b.len() == 16
    &&& b.len() == header_len(b)
    &&& valid_utf8(b.subrange(4, 8))
}

/// The type tag bytes of the header at the cursor of `v`.
pub open spec fn tag_of(v: WindowView) -> Seq<u8> {
    v.ahead(8).subrange(4, 8)
}

/// The header bytes at the cursor of `v`.
pub open spec fn header_bytes(v: WindowView) -> Seq<u8> {
    v.ahead(header_len(v.ahead(8)))
}

/// Reading a header at the cursor of `v`: the header, or why it fails.
pub open spec fn header_result(v: WindowView) -> Result<HeaderView, InputError> {
    if v.remaining() < 8 {
        Err(InputError::EndOfData)
    } else if !valid_utf8(tag_of(v)) {
        Err(InputError::InvalidText)
    } else if is_large(v.ahead(8)) && v.remaining() < 16 {
        Err(InputError::EndOfData)
    } else {
        Ok(decode_header(header_bytes(v)))
    }
}

/// The type tag of an extended-type box.
pub open spec fn uuid_tag() -> Seq<char> {
    seq!['u', 'u', 'i', 'd']
}

/// One step of a box search, taken at a box boundary.
pub enum Step {
    /// The box matches: the window over its payload.
    Found(WindowView),
    /// The search stops with this error.
    Failed(InputError),
    /// The box does not match: the search goes on at this position.
    Next(int),
}

/// Skipping `len` bytes from the cursor of `v`: a box that ends exactly at
/// the limit leaves nothing more to search, one that ends past it is cut off.
pub open spec fn skip(v: WindowView, len: int) -> Step {
    if v.cursor + len == v.limit {
        Step::Failed(InputError::NotFound)
    } else if v.cursor + len > v.limit {
        Step::Failed(InputError::Truncated)
    } else {
        Step::Next(v.cursor + len)
    }
}

/// Looking at the box whose header starts at the cursor of `v`, for a box of
/// type `name`, further told apart by its extended type `uuid` if one is
/// given.
pub open spec fn step(v: WindowView, name: Seq<char>, uuid: Option<(u64, u64)>) -> Step {
    match header_result(v) {
        Err(InputError::EndOfData) => Step::Failed(InputError::Truncated),
        Err(e) => Step::Failed(e),
        Ok(h) => {
            let hl: int = if h.large {
                16
            } else {
                8
            };
            if h.size < hl {
                Step::Failed(InputError::InvalidBoxSize)
            } else {
                let payload = h.size - hl;
                let p = v.at(v.cursor + hl);
                if h.box_type != name {
                    skip(p, payload)
                } else {
                    match uuid {
                        None => if payload <= p.remaining() {
                            Step::Found(p.section_of(payload as nat))
                        } else {
                            Step::Failed(InputError::Truncated)
                        },
                        Some(u) => if payload < 16 {
                            Step::Failed(InputError::InvalidBoxSize)
                        } else if p.remaining() < 16 {
                            Step::Failed(InputError::Truncated)
                        } else {
                            let q = p.at(p.cursor + 16int);
                            let rest = payload - 16;
                            if be_value(p.ahead(8)) == u.0 && be_value(p.at(p.cursor + 8int).ahead(8))
                                == u.1 {
                                if rest <= q.remaining() {
                                    Step::Found(q.section_of(rest as nat))
                                } else {
                                    Step::Failed(InputError::Truncated)
                                }
                            } else {
                                skip(q, rest)
                            }
                        },
                    }
                }
            }
        },
    }
}

/// The outcome of searching the boxes from the cursor of `v` to its limit:
/// the window over the first matching box's payload, or why there is none.
pub open spec fn scan_from(v: WindowView, name: Seq<char>, uuid: Option<(u64, u64)>) -> Result<
    WindowView,
    InputError,
>
    decreases v.limit - v.cursor,
{
    if v.cursor >= v.limit {
        Err(InputError::NotFound)
    } else {
        match step(v, name, uuid) {
            Step::Found(w) => Ok(w),
            Step::Failed(e) => Err(e),
            Step::Next(n) => if v.cursor < n <= v.limit {
                scan_from(v.at(n), name, uuid)
            } else {
                Err(InputError::NotFound)
            },
        }
    }
}


proof fn lemma_be_bytes_value(s: Seq<u8>)
    ensures
        be_bytes(be_value(s), s.len()) == s,
    decreases s.len(),
{
    if s.len() == 0 {
        assert(be_bytes(0, 0) =~= s);
    } else {
        let x = be_value(s.drop_last());
        let v = be_value(s);
        lemma_fundamental_div_mod_converse(v as int, 256, x as int, s.last() as int);
        lemma_be_bytes_value(s.drop_last());
        assert(be_bytes(v, s.len()) =~= s);
    }
}

/// Decoding a well-formed header and encoding it again gives back the same
/// bytes, in the plain and in the large form.
pub proof fn lemma_header_round_trip(b: Seq<u8>)
    requires
        valid_header(b),
    ensures
        encode_header(decode_header(b)) == b,
{
    let size_field = b.subrange(0, 4);
    let tag = b.subrange(4, 8);
    lemma_be_bytes_value(size_field);
    decode_utf8_encode_utf8(tag);
    if is_large(b) {
        let large_field = b.subrange(8, 16);
        lemma_be_bytes_value(large_field);
        assert(encode_header(decode_header(b)) =~= b);
    } else {
        assert(encode_header(decode_header(b)) =~= b);
    }
}

/// A box whose type is not the one searched for is passed over whole: the
/// search goes on right after the box's declared size, and the bytes of its
/// payload, never read, do not change what the step does.
pub proof fn lemma_skip_sibling(
    v: WindowView,
    w: WindowView,
    name: Seq<char>,
    uuid: Option<(u64, u64)>,
)
    requires
        v.wf(),
        header_result(v) is Ok,
        header_result(v)->Ok_0.box_type != name,
        header_result(v)->Ok_0.size >= (if header_result(v)->Ok_0.large {
            16int
        } else {
            8int
        }),
        v.cursor + header_result(v)->Ok_0.size < v.limit,
        w.offset == v.offset,
        w.limit == v.limit,
        w.cursor == v.cursor,
        w.data.len() == v.data.len(),
        forall|i: int|
            0 <= i < v.data.len() && !(v.offset + v.cursor + (if header_result(v)->Ok_0.large {
                16int
            } else {
                8int
            }) <= i < v.offset + v.cursor + header_result(v)->Ok_0.size as int) ==> #[trigger] w.data[i]
                == v.data[i],
    ensures
        step(v, name, uuid) == Step::Next(v.cursor + header_result(v)->Ok_0.size as int),
        step(w, name, uuid) == step(v, name, uuid),
        scan_from(v, name, uuid) == scan_from(
            v.at(v.cursor + header_result(v)->Ok_0.size as int),
            name,
            uuid,
        ),
{
    let h = header_result(v)->Ok_0;
    let hl: int = if h.large {
        16
    } else {
        8
    };
    assert(w.ahead(8) =~= v.ahead(8));
    assert(v.ahead(8).subrange(0, 4) =~= header_bytes(v).subrange(0, 4));
    assert(header_len(v.ahead(8)) == hl);
    assert(header_bytes(w) =~= header_bytes(v));
    assert(header_result(w) == header_result(v));
}

/// A `uuid` box whose extended type is not the one searched for is passed
/// over whole, UUID included: the search goes on at the next box.
pub proof fn lemma_uuid_mismatch_continues(v: WindowView, u: (u64, u64))
    requires
        v.wf(),
        header_result(v) is Ok,
        header_result(v)->Ok_0.box_type == uuid_tag(),
        header_result(v)->Ok_0.size >= 16 + (if header_result(v)->Ok_0.large {
            16int
        } else {
            8int
        }),
        v.cursor + header_result(v)->Ok_0.size < v.limit,
        ({
            let p = v.at(
                v.cursor + if header_result(v)->Ok_0.large {
                    16int
                } else {
                    8int
                },
            );
            be_value(p.ahead(8)) != u.0 || be_value(p.at(p.cursor + 8int).ahead(8)) != u.1
        }),
    ensures
        step(v, uuid_tag(), Some(u)) == Step::Next(v.cursor + header_result(v)->Ok_0.size as int),
        scan_from(v, uuid_tag(), Some(u)) == scan_from(
            v.at(v.cursor + header_result(v)->Ok_0.size as int),
            uuid_tag(),
            Some(u),
        ),
{
}

impl<'f> Input<'f> {
    /// Reads the box header at the cursor: the 32-bit size, the type tag and,
    /// where the size is 1, the 64-bit large size. On success the cursor
    /// stands at the start of the payload.
    pub fn read_box_header(&mut self) -> (r: Result<BoxHeader, InputError>)
        requires
            old(self)@.wf(),
        ensures
            final(self)@.wf(),
            final(self)@.data == old(self)@.data,
            final(self)@.offset == old(self)@.offset,
            final(self)@.limit == old(self)@.limit,
            r is Ok == header_result(old(self)@) is Ok,
            r matches Ok(h) ==> header_result(old(self)@) == Ok::<HeaderView, InputError>(h@)
                && final(self)@ == old(self)@.at(
                old(self)@.cursor + if h.large {
                    16int
                } else {
                    8int
                },
            ),
            r matches Err(e) ==> header_result(old(self)@) == Err::<HeaderView, InputError>(e),
    {
        let ghost v = self@;
        proof {
            let c = v.cursor;
            if v.remaining() >= 8 {
                assert(v.ahead(8).subrange(0, 4) =~= v.ahead(4));
                assert(v.at(c + 4int).ahead(4) =~= tag_of(v));
            }
        }
        let size32 = match self.read_u32(&Endianness::Big) {
            Ok(s) => s,
            Err(e) => return Err(e),
        };
        let box_type = match self.read_string(4) {
            Ok(t) => t,
            Err(e) => return Err(e),
        };
        if size32 == 1 {
            let ghost w = self@;
            let size = match self.read_u64(&Endianness::Big) {
                Ok(s) => s,
                Err(e) => return Err(e),
            };
            proof {
                let b = header_bytes(v);
                assert(b =~= v.ahead(16));
                assert(b.subrange(0, 4) =~= v.ahead(4));
                assert(b.subrange(4, 8) =~= tag_of(v));
                assert(b.subrange(8, 16) =~= w.ahead(8));
            }
            Ok(BoxHeader { size, box_type, large: true })
        } else {
            proof {
                let b = header_bytes(v);
                assert(b =~= v.ahead(8));
                assert(b.subrange(0, 4) =~= v.ahead(4));
                assert(b.subrange(4, 8) =~= tag_of(v));
            }
            Ok(BoxHeader { size: size32 as u64, box_type, large: false })
        }
    }

    /// Takes one step of a box search at the box whose header starts at the
    /// cursor: the window over its payload where it matches, `None` with the
    /// cursor on the next box where it does not.
    fn scan_step(&mut self, wanted: &String, uuid: Option<(u64, u64)>) -> (r: Result<
        Option<Input<'f>>,
        InputError,
    >)
        requires
            old(self)@.wf(),
            old(self)@.cursor < old(self)@.limit,
        ensures
            final(self)@.wf(),
            final(self)@.data == old(self)@.data,
            final(self)@.offset == old(self)@.offset,
            final(self)@.limit == old(self)@.limit,
            match step(old(self)@, wanted@, uuid) {
                Step::Found(w) => r matches Ok(Some(x)) && x@ == w && x@.wf(),
                Step::Failed(e) => r == Err::<Option<Input<'f>>, InputError>(e),
                Step::Next(n) => r matches Ok(None) && final(self)@ == old(self)@.at(n),
            },
    {
        let header = match self.read_box_header() {
            Ok(h) => h,
            Err(InputError::EndOfData) => return Err(InputError::Truncated),
            Err(e) => return Err(e),
        };
        let hl: u64 = if header.large {
            16
        } else {
            8
        };
        if header.size < hl {
            return Err(InputError::InvalidBoxSize);
        }
        let mut payload = header.size - hl;
        if header.box_type == *wanted {
            match uuid {
                None => {
                    if payload > self.limit() - self.position() {
                        return Err(InputError::Truncated);
                    }
                    return Ok(Some(self.section(payload)));
                },
                Some(u) => {
                    if payload < 16 {
                        return Err(InputError::InvalidBoxSize);
                    }
                    let msb = match self.read_u64(&Endianness::Big) {
                        Ok(x) => x,
                        Err(_) => return Err(InputError::Truncated),
                    };
                    let lsb = match self.read_u64(&Endianness::Big) {
                        Ok(x) => x,
                        Err(_) => return Err(InputError::Truncated),
                    };
                    payload = payload - 16;
                    if u.0 == msb && u.1 == lsb {
                        if payload > self.limit() - self.position() {
                            return Err(InputError::Truncated);
                        }
                        return Ok(Some(self.section(payload)));
                    }
                },
            }
        }
        let left = self.limit() - self.position();
        if payload == left {
            return Err(InputError::NotFound);
        }
        if payload > left {
            return Err(InputError::Truncated);
        }
        match self.ff(payload) {
            Ok(()) => Ok(None),
            Err(_) => Err(InputError::Truncated),
        }
    }

    /// Searches the boxes from the cursor to the limit for the first one of
    /// type `name` (and, where `uuid` is given, of that extended type), and
    /// returns the window over its payload.
    fn quicktime_scan_for_box(&mut self, name: &str, uuid: Option<(u64, u64)>) -> (r: Result<
        Input<'f>,
        InputError,
    >)
        requires
            old(self)@.wf(),
        ensures
            final(self)@.wf(),
            final(self)@.data == old(self)@.data,
            final(self)@.offset == old(self)@.offset,
            final(self)@.limit == old(self)@.limit,
            r is Ok == scan_from(old(self)@, name@, uuid) is Ok,
            r matches Ok(w) ==> scan_from(old(self)@, name@, uuid) == Ok::<WindowView, InputError>(
                w@,
            ) && w@.wf(),
            r matches Err(e) ==> scan_from(old(self)@, name@, uuid) == Err::<
                WindowView,
                InputError,
            >(e),
    {
        let ghost start = self@;
        let wanted = name.to_owned();
        loop
            invariant
                old(self)@ == start,
                self@.wf(),
                self@.data == start.data,
                self@.offset == start.offset,
                self@.limit == start.limit,
                wanted@ == name@,
                scan_from(self@, name@, uuid) == scan_from(start, name@, uuid),
            decreases self@.limit - self@.cursor,
        {
            if self.position() >= self.limit() {
                return Err(InputError::NotFound);
            }
            let ghost v = self@;
            match self.scan_step(&wanted, uuid) {
                Ok(Some(w)) => return Ok(w),
                Ok(None) => {},
                Err(e) => return Err(e),
            }
            assert(v.cursor < self@.cursor);
        }
    }

    /// Searches the boxes from the cursor to the limit for the first one of
    /// type `box_name`, and returns the window over its payload.
    pub fn quicktime_search_box(&mut self, box_name: &str) -> (r: Result<Input<'f>, InputError>)
        requires
            old(self)@.wf(),
        ensures
            final(self)@.wf(),
            r is Ok == scan_from(old(self)@, box_name@, None) is Ok,
            r matches Ok(w) ==> scan_from(old(self)@, box_name@, None) == Ok::<
                WindowView,
                InputError,
            >(w@) && w@.wf(),
            r matches Err(e) ==> scan_from(old(self)@, box_name@, None) == Err::<
                WindowView,
                InputError,
            >(e),
    {
        self.quicktime_scan_for_box(box_name, None)
    }

    /// Searches the boxes from the cursor to the limit for the first `uuid`
    /// box whose extended type is `box_uuid` (most and least significant
    /// halves), and returns the window over the rest of its payload.
    pub fn quicktime_search_uuid_box(&mut self, box_uuid: (u64, u64)) -> (r: Result<
        Input<'f>,
        InputError,
    >)
        requires
            old(self)@.wf(),
        ensures
            final(self)@.wf(),
            r is Ok == scan_from(old(self)@, uuid_tag(), Some(box_uuid)) is Ok,
            r matches Ok(w) ==> scan_from(old(self)@, uuid_tag(), Some(box_uuid)) == Ok::<
                WindowView,
                InputError,
            >(w@) && w@.wf(),
            r matches Err(e) ==> scan_from(old(self)@, uuid_tag(), Some(box_uuid)) == Err::<
                WindowView,
                InputError,
            >(e),
    {
        proof {
            reveal_strlit("uuid");
            assert("uuid"@ =~= uuid_tag());
        }
        self.quicktime_scan_for_box("uuid", Some(box_uuid))
    }
}

} // verus!
