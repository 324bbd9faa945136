use vstd::prelude::*;

verus! {

/// Bytes that start every header on the wire ("TREX").
pub const MAGIC: [u8; 4] = [0x54u8, 0x52u8, 0x45u8, 0x58u8];

/// Largest payload of a single firmware chunk.
pub const CHUNK_SIZE: usize = 4096;

/// Length of a BLAKE3 digest.
pub const HASH_LEN: usize = 32;

/// A BLAKE3 digest.
pub type Hash = [u8; 32];

/// The type byte that follows the magic.
#[derive(Clone, Copy, Debug, PartialEq, Eq, Structural)]
pub enum HeaderType {
    Validate,
    Chunk,
    Apply,
    Reset,
    Invalid(u8),
}

/// The type a byte stands for: the four known codes, anything else kept as
/// an invalid type with its code.
pub open spec fn header_type_of(b: u8) -> HeaderType {
    if b == 0 {
        HeaderType::Validate
    } else if b == 1 {
        HeaderType::Chunk
    } else if b == 2 {
        HeaderType::Apply
    } else if b == 3 {
        HeaderType::Reset
    } else {
        HeaderType::Invalid(b)
    }
}

/// The byte a type is written as.
pub open spec fn header_type_byte(t: HeaderType) -> u8 {
    match t {
        HeaderType::Validate => 0,
        HeaderType::Chunk => 1,
        HeaderType::Apply => 2,
        HeaderType::Reset => 3,
        HeaderType::Invalid(b) => b,
    }
}

impl From<u8> for HeaderType {
    fn from(b: u8) -> (t: HeaderType)
        ensures
            t == header_type_of(b),
    {
        if b == 0 {
            HeaderType::Validate
        } else if b == 1 {
            HeaderType::Chunk
        } else if b == 2 {
            HeaderType::Apply
        } else if b == 3 {
            HeaderType::Reset
        } else {
            HeaderType::Invalid(b)
        }
    }
}

impl vstd::std_specs::convert::FromSpecImpl<u8> for HeaderType {
    open spec fn obeys_from_spec() -> bool {
        true
    }

    open spec fn from_spec(b: u8) -> HeaderType {
        header_type_of(b)
    }
}

impl From<HeaderType> for u8 {
    fn from(t: HeaderType) -> (b: u8)
        ensures
            b == header_type_byte(t),
    {
        match t {
            HeaderType::Validate => 0,
            HeaderType::Chunk => 1,
            HeaderType::Apply => 2,
            HeaderType::Reset => 3,
            HeaderType::Invalid(b) => b,
        }
    }
}

impl vstd::std_specs::convert::FromSpecImpl<HeaderType> for u8 {
    open spec fn obeys_from_spec() -> bool {
        true
    }

    open spec fn from_spec(t: HeaderType) -> u8 {
        header_type_byte(t)
    }
}

/// Every byte survives the trip through `HeaderType` and back.
pub proof fn law_header_type_byte_roundtrip(b: u8)
    ensures
        header_type_byte(header_type_of(b)) == b,
{
}

/// Every type that is not a catch-all for a known code survives the trip
/// through its byte and back.
pub proof fn law_header_type_roundtrip(t: HeaderType)
    requires
        t matches HeaderType::Invalid(b) ==> b > 3,
    ensures
        header_type_of(header_type_byte(t)) == t,
{
}

/// A header of the firmware-update protocol.
#[derive(Clone, Copy, Debug)]
pub enum Header {
    Validate,
    Chunk { offset: usize, size: usize },
    Apply { size: usize, hash: Hash },
    Reset,
    Invalid(u8),
}

/// The mathematical value of a header: the digest is a sequence of bytes.
pub enum SpecHeader {
    Validate,
    Chunk { offset: usize, size: usize },
    Apply { size: usize, hash: Seq<u8> },
    Reset,
    Invalid(u8),
}

impl View for Header {
    type V = SpecHeader;

    open spec fn view(&self) -> SpecHeader {
        match *self {
            Header::Validate => SpecHeader::Validate,
            Header::Chunk { offset, size } => SpecHeader::Chunk { offset, size },
            Header::Apply { size, hash } => SpecHeader::Apply { size, hash: hash@ },
            Header::Reset => SpecHeader::Reset,
            Header::Invalid(t) => SpecHeader::Invalid(t),
        }
    }
}

/// Byte `i` of the magic.
pub open spec fn magic_byte(i: int) -> u8 {
    if i == 0 {
        0x54
    } else if i == 1 {
        0x52
    } else if i == 2 {
        0x45
    } else {
        0x58
    }
}

/// The magic as a sequence.
pub open spec fn magic_seq() -> Seq<u8> {
    seq![0x54u8, 0x52u8, 0x45u8, 0x58u8]
}

/// The four little-endian bytes of a 32-bit word.
pub open spec fn le32(w: u32) -> Seq<u8> {
    seq![
        (w % 256) as u8,
        ((w / 256) % 256) as u8,
        ((w / 65536) % 256) as u8,
        (w / 16777216) as u8,
    ]
}

/// The 32-bit word whose little-endian bytes start `b`.
pub open spec fn le32_value(b: Seq<u8>) -> int {
    b[0] + b[1] * 256 + b[2] * 65536 + b[3] * 16777216
}

/// The bytes that a serializer writes for a header. A word is written as
/// its low 32 bits; an invalid header writes the magic alone.
pub open spec fn encode_header(h: SpecHeader) -> Seq<u8> {
    magic_seq() + match h {
        SpecHeader::Validate => seq![0u8],
        SpecHeader::Chunk { offset, size } => seq![1u8] + le32(offset as u32) + le32(size as u32),
        SpecHeader::Apply { size, hash } => seq![2u8] + le32(size as u32) + hash,
        SpecHeader::Reset => seq![3u8],
        SpecHeader::Invalid(_) => Seq::<u8>::empty(),
    }
}

/// How many bytes follow the type byte of a header.
pub open spec fn body_len(t: u8) -> nat {
    if t == 1 {
        8
    } else if t == 2 {
        36
    } else {
        0
    }
}

/// The header made of a type byte and the body that follows it.
pub open spec fn decode_header(t: u8, body: Seq<u8>) -> SpecHeader {
    if t == 0 {
        SpecHeader::Validate
    } else if t == 1 {
        let offset = le32_value(body.subrange(0, 4));
        let size = le32_value(body.subrange(4, 8));
        if size > CHUNK_SIZE {
            SpecHeader::Invalid(0)
        } else {
            SpecHeader::Chunk { offset: offset as usize, size: size as usize }
        }
    } else if t == 2 {
        SpecHeader::Apply { size: le32_value(body.subrange(0, 4)) as usize, hash: body.subrange(4, 36) }
    } else if t == 3 {
        SpecHeader::Reset
    } else {
        SpecHeader::Invalid(t)
    }
}

/// How far the magic has been matched after reading `s`, from 0 to 4.
/// A byte that breaks the match resets it to 0 and is not looked at again;
/// once all four bytes have matched the scan is done.
pub open spec fn magic_progress(s: Seq<u8>) -> nat
    decreases s.len(),
{
    if s.len() == 0 {
        0
    } else {
        let p = magic_progress(s.drop_last());
        if p >= 4 {
            4
        } else if s.last() == magic_byte(p as int) {
            p + 1
        } else {
            0
        }
    }
}

/// The position just after the first complete magic in `s`, if any.
pub open spec fn magic_end(s: Seq<u8>) -> Option<nat>
    decreases s.len(),
{
    if s.len() == 0 {
        None
    } else {
        match magic_end(s.drop_last()) {
            Some(m) => Some(m),
            None => if magic_progress(s) == 4 {
                Some(s.len())
            } else {
                None
            },
        }
    }
}

/// The first header in a byte stream: the number of bytes up to and
/// including it, and the header; `None` while the stream does not yet hold
/// a complete one.
pub open spec fn sync_spec(s: Seq<u8>) -> Option<(nat, SpecHeader)> {
    match magic_end(s) {
        Some(m) => if m < s.len() && m + 1 + body_len(s[m as int]) <= s.len() {
            let end = m + 1 + body_len(s[m as int]);
            Some((end, decode_header(s[m as int], s.subrange(m + 1 as int, end as int))))
        } else {
            None
        },
        None => None,
    }
}

} // verus!

verus! {

/// Decoding the little-endian bytes of a word gives the word back.
pub proof fn lemma_le32_roundtrip(w: u32)
    ensures
        le32(w).len() == 4,
        le32_value(le32(w)) == w,
{
    let x = w as int;
    assert(x % 256 + ((x / 256) % 256) * 256 + ((x / 65536) % 256) * 65536 + (x / 16777216) * 16777216 == x)
        by (nonlinear_arith)
        requires
            0 <= x < 0x1_0000_0000,
    ;
}

/// The magic progress never exceeds four.
pub proof fn lemma_magic_progress_bound(s: Seq<u8>)
    ensures
        magic_progress(s) <= 4,
        magic_end(s) is None ==> magic_progress(s) < 4,
        magic_end(s) matches Some(m) ==> m <= s.len(),
    decreases s.len(),
{
    if s.len() > 0 {
        lemma_magic_progress_bound(s.drop_last());
    }
}

/// Once the magic has been found, later bytes do not move it.
pub proof fn lemma_magic_end_extend(s: Seq<u8>, t: Seq<u8>)
    requires
        magic_end(s) is Some,
    ensures
        magic_end(s + t) == magic_end(s),
    decreases t.len(),
{
    if t.len() == 0 {
        assert(s + t =~= s);
    } else {
        lemma_magic_end_extend(s, t.drop_last());
        assert((s + t).drop_last() =~= s + t.drop_last());
    }
}

/// Once a stream holds a complete header, later bytes do not change which
/// header it is or where it ends.
pub proof fn lemma_sync_extend(s: Seq<u8>, t: Seq<u8>)
    requires
        sync_spec(s) is Some,
    ensures
        sync_spec(s + t) == sync_spec(s),
{
    lemma_magic_end_extend(s, t);
    let m = magic_end(s)->0;
    let end = m + 1 + body_len(s[m as int]);
    assert((s + t)[m as int] == s[m as int]);
    assert((s + t).subrange(m + 1 as int, end as int) =~= s.subrange(m + 1 as int, end as int));
}

/// Bytes other than the first magic byte leave the scan at its start.
pub proof fn lemma_noise_scan(g: Seq<u8>)
    requires
        forall|i: int| 0 <= i < g.len() ==> g[i] != 0x54u8,
    ensures
        magic_progress(g) == 0,
        magic_end(g) is None,
    decreases g.len(),
{
    if g.len() > 0 {
        lemma_noise_scan(g.drop_last());
    }
}

/// After a scan at its start, the magic is found right at its end.
pub proof fn lemma_magic_found(g: Seq<u8>)
    requires
        magic_progress(g) == 0,
        magic_end(g) is None,
    ensures
        magic_end(g + magic_seq()) == Some((g.len() + 4) as nat),
{
    let m = magic_seq();
    let s1 = g + m.subrange(0, 1);
    let s2 = g + m.subrange(0, 2);
    let s3 = g + m.subrange(0, 3);
    let s4 = g + m;
    assert(s1.drop_last() =~= g);
    assert(s2.drop_last() =~= s1);
    assert(s3.drop_last() =~= s2);
    assert(s4.drop_last() =~= s3);
    assert(s1.last() == 0x54u8);
    assert(s2.last() == 0x52u8);
    assert(s3.last() == 0x45u8);
    assert(s4.last() == 0x58u8);
    assert(magic_progress(s1) == 1);
    assert(magic_end(s1) is None);
    assert(magic_progress(s2) == 2);
    assert(magic_end(s2) is None);
    assert(magic_progress(s3) == 3);
    assert(magic_end(s3) is None);
    assert(magic_progress(s4) == 4);
}

/// A header that the protocol can carry: not the invalid marker, words that
/// fit in 32 bits, a chunk no larger than `CHUNK_SIZE`, a full digest.
pub open spec fn is_transmittable(h: SpecHeader) -> bool {
    match h {
        SpecHeader::Validate => true,
        SpecHeader::Chunk { offset, size } => offset <= u32::MAX && size <= CHUNK_SIZE,
        SpecHeader::Apply { size, hash } => size <= u32::MAX && hash.len() == HASH_LEN,
        SpecHeader::Reset => true,
        SpecHeader::Invalid(_) => false,
    }
}

/// A receiver that meets a serialized header after bytes of noise (none of
/// them the first magic byte) reads back exactly that header, ending where
/// the header ends, whatever follows it.
pub proof fn law_sync_after_noise(g: Seq<u8>, h: SpecHeader, rest: Seq<u8>)
    requires
        is_transmittable(h),
        forall|i: int| 0 <= i < g.len() ==> g[i] != 0x54u8,
    ensures
        sync_spec(g + encode_header(h) + rest) == Some(((g.len() + encode_header(h).len()) as nat, h)),
{
    lemma_noise_scan(g);
    lemma_magic_found(g);
    let e = encode_header(h);
    let tail = e.subrange(4, e.len() as int);
    assert(e =~= magic_seq() + tail);
    let x = g + e;
    assert(x =~= (g + magic_seq()) + tail);
    lemma_magic_end_extend(g + magic_seq(), tail);
    let m = (g.len() + 4) as nat;
    assert(magic_end(x) == Some(m));
    match h {
        SpecHeader::Chunk { offset, size } => {
            lemma_le32_roundtrip(offset as u32);
            lemma_le32_roundtrip(size as u32);
            let body = x.subrange(m + 1 as int, m + 9 as int);
            assert(body.subrange(0, 4) =~= le32(offset as u32));
            assert(body.subrange(4, 8) =~= le32(size as u32));
        },
        SpecHeader::Apply { size, hash } => {
            lemma_le32_roundtrip(size as u32);
            let body = x.subrange(m + 1 as int, m + 37 as int);
            assert(body.subrange(0, 4) =~= le32(size as u32));
            assert(body.subrange(4, 36) =~= hash);
        },
        _ => {},
    }
    assert(sync_spec(x) == Some(((g.len() + e.len()) as nat, h)));
    lemma_sync_extend(x, rest);
}

/// A receiver reads back exactly the header that a serializer wrote.
pub proof fn law_header_roundtrip(h: SpecHeader)
    requires
        is_transmittable(h),
    ensures
        sync_spec(encode_header(h)) == Some((encode_header(h).len(), h)),
{
    let g = Seq::<u8>::empty();
    let r = Seq::<u8>::empty();
    law_sync_after_noise(g, h, r);
    assert(g + encode_header(h) + r =~= encode_header(h));
}

} // verus!

verus! {

/// Writes headers in the wire format; the bytes are collected in order and
/// handed to the transport by the caller.
pub struct HeaderSerializer {
    out: Vec<u8>,
}

impl View for HeaderSerializer {
    type V = Seq<u8>;

    closed spec fn view(&self) -> Seq<u8> {
        self.out@
    }
}

impl HeaderSerializer {
    pub fn new() -> (s: HeaderSerializer)
        ensures
            s@ == Seq::<u8>::empty(),
    {
        HeaderSerializer { out: Vec::new() }
    }

    fn write(&mut self, buf: &[u8])
        ensures
            final(self)@ == old(self)@ + buf@,
    {
        let mut i: usize = 0;
        while i < buf.len()
            invariant
                i <= buf.len(),
                self@ == old(self)@ + buf@.subrange(0, i as int),
            decreases buf.len() - i,
        {
            self.out.push(buf[i]);
            i = i + 1;
            assert(buf@.subrange(0, i as int) =~= buf@.subrange(0, i - 1 as int).push(buf@[i - 1]));
        }
        assert(buf@.subrange(0, i as int) =~= buf@);
    }

    fn write_byte(&mut self, v: u8)
        ensures
            final(self)@ == old(self)@.push(v),
    {
        self.out.push(v);
    }

    fn write_word(&mut self, v: usize)
        ensures
            final(self)@ == old(self)@ + le32(v as u32),
    {
        let w = v as u32;
        self.out.push((w % 256) as u8);
        self.out.push(((w / 256) % 256) as u8);
        self.out.push(((w / 65536) % 256) as u8);
        self.out.push((w / 16777216) as u8);
        assert(self@ =~= old(self)@ + le32(v as u32));
    }

    /// Appends the wire form of `header`: the magic, then the type byte and
    /// the fields; an invalid header writes the magic alone.
    pub fn write_header(&mut self, header: Header)
        ensures
            final(self)@ == old(self)@ + encode_header(header@),
    {
        self.write(&MAGIC);
        assert(MAGIC@ =~= magic_seq());
        let ghost start = self@;
        match header {
            Header::Validate => {
                self.write_byte(HeaderType::Validate.into());
            },
            Header::Chunk { offset, size } => {
                self.write_byte(HeaderType::Chunk.into());
                self.write_word(offset);
                self.write_word(size);
            },
            Header::Apply { size, hash } => {
                self.write_byte(HeaderType::Apply.into());
                self.write_word(size);
                self.write(&hash);
            },
            Header::Reset => {
                self.write_byte(HeaderType::Reset.into());
            },
            Header::Invalid(_) => {},
        }
        assert(self@ =~= old(self)@ + encode_header(header@));
    }

    /// The bytes written so far.
    pub fn as_bytes(&self) -> (b: &[u8])
        ensures
            b@ == self@,
    {
        self.out.as_slice()
    }

    /// Hands out the bytes written so far.
    pub fn into_bytes(self) -> (b: Vec<u8>)
        ensures
            b@ == self@,
    {
        self.out
    }
}

} // verus!

verus! {

/// Where a receiver stands between two headers.
enum Phase {
    /// Matching the magic; the number of bytes matched so far (4: the type
    /// byte comes next).
    Magic(usize),
    /// Collecting the fields of a header of the given type.
    Body(u8, Vec<u8>),
}

/// Reads headers from a byte stream, skipping whatever precedes the magic.
/// The stream is fed in as it arrives; a header is handed out as soon as its
/// last byte has been read, and not one byte further is consumed.
pub struct HeaderDeserializer {
    phase: Phase,
    /// The bytes read since the last header.
    seen: Ghost<Seq<u8>>,
}

impl View for HeaderDeserializer {
    type V = Seq<u8>;

    closed spec fn view(&self) -> Seq<u8> {
        self.seen@
    }
}

fn read_word(buf: &Vec<u8>, at: usize) -> (w: usize)
    requires
        at + 4 <= buf.len(),
    ensures
        w == le32_value(buf@.subrange(at as int, at + 4)),
{
    let b0 = buf[at] as u32;
    let b1 = buf[at + 1] as u32;
    let b2 = buf[at + 2] as u32;
    let b3 = buf[at + 3] as u32;
    (b0 + b1 * 256 + b2 * 65536 + b3 * 16777216) as usize
}

/// Builds the header of type `t` from its fields.
fn read_header(t: u8, body: &Vec<u8>) -> (h: Header)
    requires
        body.len() == body_len(t),
    ensures
        h@ == decode_header(t, body@),
{
    match HeaderType::from(t) {
        HeaderType::Validate => Header::Validate,
        HeaderType::Chunk => {
            let offset = read_word(body, 0);
            let size = read_word(body, 4);
            if size > CHUNK_SIZE {
                Header::Invalid(0)
            } else {
                Header::Chunk { offset, size }
            }
        },
        HeaderType::Apply => {
            let size = read_word(body, 0);
            let mut hash: Hash = [0u8; 32];
            let mut i: usize = 0;
            while i < 32
                invariant
                    i <= 32,
                    body.len() == 36,
                    forall|j: int| 0 <= j < i ==> hash@[j] == body@[4 + j],
                decreases 32 - i,
            {
                hash[i] = body[4 + i];
                i = i + 1;
            }
            assert(hash@ =~= body@.subrange(4, 36));
            Header::Apply { size, hash }
        },
        HeaderType::Reset => Header::Reset,
        HeaderType::Invalid(t) => Header::Invalid(t),
    }
}

impl HeaderDeserializer {
    /// The link between the receiver's state and the bytes it has read.
    pub closed spec fn wf(&self) -> bool {
        let s = self.seen@;
        &&& sync_spec(s) is None
        &&& match self.phase {
            Phase::Magic(p) => {
                &&& p <= 4
                &&& p < 4 ==> magic_end(s) is None && magic_progress(s) == p
                &&& p == 4 ==> magic_end(s) == Some(s.len())
            },
            Phase::Body(t, buf) => {
                &&& magic_end(s) matches Some(m)
                &&& m < s.len()
                &&& s[m as int] == t
                &&& buf.len() < body_len(t)
                &&& buf@ =~= s.subrange(m + 1 as int, s.len() as int)
            },
        }
    }

    pub fn new() -> (d: HeaderDeserializer)
        ensures
            d.wf(),
            d@ == Seq::<u8>::empty(),
    {
        HeaderDeserializer { phase: Phase::Magic(0), seen: Ghost(Seq::empty()) }
    }

    /// Reads one byte. Returns the header that this byte completes, if any;
    /// the receiver then starts over.
    pub fn feed(&mut self, byte: u8) -> (res: Option<Header>)
        requires
            old(self).wf(),
        ensures
            final(self).wf(),
            ({
                let s = old(self)@.push(byte);
                match res {
                    Some(h) => sync_spec(s) == Some((s.len(), h@)) && final(self)@ == Seq::<u8>::empty(),
                    None => sync_spec(s) is None && final(self)@ == s,
                }
            }),
    {
        let ghost s0 = self.seen@;
        let ghost s = s0.push(byte);
        assert(s.drop_last() =~= s0);
        proof {
            lemma_magic_progress_bound(s0);
        }
        let mut phase = Phase::Magic(0);
        std::mem::swap(&mut phase, &mut self.phase);
        match phase {
            Phase::Magic(p) => {
                if p < 4 {
                    let np = if byte == MAGIC[p] { p + 1 } else { 0 };
                    assert(MAGIC@[p as int] == magic_byte(p as int));
                    self.phase = Phase::Magic(np);
                    self.seen = Ghost(s);
                    None
                } else {
                    let t = byte;
                    let bl: usize = if t == 1 { 8 } else if t == 2 { 36 } else { 0 };
                    if bl == 0 {
                        let body: Vec<u8> = Vec::new();
                        let h = read_header(t, &body);
                        assert(body@ =~= s.subrange(s0.len() + 1 as int, s0.len() + 1 as int));
                        self.phase = Phase::Magic(0);
                        self.seen = Ghost(Seq::empty());
                        Some(h)
                    } else {
                        self.phase = Phase::Body(t, Vec::new());
                        self.seen = Ghost(s);
                        assert(Seq::<u8>::empty() =~= s.subrange(s0.len() + 1 as int, s.len() as int));
                        None
                    }
                }
            },
            Phase::Body(t, buf) => {
                let mut buf = buf;
                buf.push(byte);
                let ghost m = magic_end(s0)->0;
                proof {
                    lemma_magic_end_extend(s0, seq![byte]);
                    assert(s0 + seq![byte] =~= s);
                }
                assert(buf@ =~= s.subrange(m + 1 as int, s.len() as int));
                let bl: usize = if t == 1 { 8 } else { 36 };
                if buf.len() == bl {
                    let h = read_header(t, &buf);
                    self.phase = Phase::Magic(0);
                    self.seen = Ghost(Seq::empty());
                    Some(h)
                } else {
                    self.phase = Phase::Body(t, buf);
                    self.seen = Ghost(s);
                    None
                }
            },
        }
    }

    /// Reads from `input` up to and including the end of the first header
    /// it completes. Returns how many bytes were consumed and that header;
    /// when `input` completes none, all of it is consumed.
    pub fn sync(&mut self, input: &[u8]) -> (res: (usize, Option<Header>))
        requires
            old(self).wf(),
        ensures
            final(self).wf(),
            res.0 <= input.len(),
            ({
                let s = old(self)@ + input@.subrange(0, res.0 as int);
                match res.1 {
                    Some(h) => res.0 > 0 && sync_spec(s) == Some((s.len(), h@))
                        && final(self)@ == Seq::<u8>::empty(),
                    None => res.0 == input.len() && sync_spec(s) is None && final(self)@ == s,
                }
            }),
    {
        let mut i: usize = 0;
        while i < input.len()
            invariant
                self.wf(),
                i <= input.len(),
                self@ == old(self)@ + input@.subrange(0, i as int),
                sync_spec(self@) is None,
            decreases input.len() - i,
        {
            let ghost before = self@;
            let r = self.feed(input[i]);
            i = i + 1;
            assert(before.push(input@[i - 1]) =~= old(self)@ + input@.subrange(0, i as int));
            if r.is_some() {
                return (i, r);
            }
        }
        (i, None)
    }
}

} // verus!

verus! {

/// A chunk header that announces more than `CHUNK_SIZE` bytes is read back
/// as the invalid header with code 0.
pub proof fn law_oversized_chunk_rejected(offset: usize, size: usize)
    requires
        offset <= u32::MAX,
        CHUNK_SIZE < size <= u32::MAX,
    ensures
        sync_spec(encode_header(SpecHeader::Chunk { offset, size })) == Some(
            (13nat, SpecHeader::Invalid(0)),
        ),
{
    let g = Seq::<u8>::empty();
    lemma_magic_found(g);
    let e = encode_header(SpecHeader::Chunk { offset, size });
    let tail = e.subrange(4, e.len() as int);
    assert(e =~= (g + magic_seq()) + tail);
    lemma_magic_end_extend(g + magic_seq(), tail);
    lemma_le32_roundtrip(offset as u32);
    lemma_le32_roundtrip(size as u32);
    let body = e.subrange(5, 13);
    assert(body.subrange(0, 4) =~= le32(offset as u32));
    assert(body.subrange(4, 8) =~= le32(size as u32));
}

} // verus!
