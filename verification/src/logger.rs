use vstd::prelude::*;

verus! {

/// The largest log frame that is forwarded; larger ones are dropped.
pub const MAX_FRAME_SIZE: usize = 512;

/// The bytes of a log frame so far; `None` once the frame outgrew
/// `MAX_FRAME_SIZE` (it will be dropped, its bytes no longer matter).
pub open spec fn frame_ingest(f: Option<Seq<u8>>, b: Seq<u8>) -> Option<Seq<u8>> {
    match f {
        None => None,
        Some(s) => if s.len() + b.len() <= MAX_FRAME_SIZE {
            Some(s + b)
        } else {
            None
        },
    }
}

/// Feeding a frame in two pieces is the same as feeding it at once.
pub proof fn law_frame_ingest_concat(f: Option<Seq<u8>>, a: Seq<u8>, b: Seq<u8>)
    ensures
        frame_ingest(frame_ingest(f, a), b) == frame_ingest(f, a + b),
{
    if let Some(s) = f {
        assert(s + a + b =~= s + (a + b));
    }
}

/// The fixed-size buffer that collects the encoded bytes of one log frame.
pub struct FrameSink {
    frame: [u8; 512],
    ptr: usize,
    broken: bool,
}

impl View for FrameSink {
    type V = Option<Seq<u8>>;

    closed spec fn view(&self) -> Option<Seq<u8>> {
        if self.broken {
            None
        } else {
            Some(self.frame@.subrange(0, self.ptr as int))
        }
    }
}

impl FrameSink {
    #[verifier::type_invariant]
    closed spec fn inv(self) -> bool {
        self.ptr <= MAX_FRAME_SIZE
    }

    /// An empty frame.
    pub fn new() -> (s: FrameSink)
        ensures
            s@ == Some(Seq::<u8>::empty()),
    {
        let s = FrameSink { frame: [0u8; 512], ptr: 0, broken: false };
        assert(s.frame@.subrange(0, 0) =~= Seq::<u8>::empty());
        s
    }

    /// Starts a new, empty frame.
    pub fn reset(&mut self)
        ensures
            final(self)@ == Some(Seq::<u8>::empty()),
    {
        self.ptr = 0;
        self.broken = false;
        assert(self.frame@.subrange(0, 0) =~= Seq::<u8>::empty());
    }

    /// Appends encoded bytes; a frame that would outgrow the buffer is
    /// marked broken and keeps nothing more.
    pub fn ingress_bytes(&mut self, buf: &[u8])
        ensures
            final(self)@ == frame_ingest(old(self)@, buf@),
    {
        proof {
            use_type_invariant(&*self);
        }
        if self.broken {
            return;
        }
        let ptr = self.ptr;
        if MAX_FRAME_SIZE - ptr < buf.len() {
            self.broken = true;
            return;
        }
        let ghost before = self.frame@;
        let mut i: usize = 0;
        while i < buf.len()
            invariant
                ptr + buf.len() <= MAX_FRAME_SIZE,
                i <= buf.len(),
                self.ptr == ptr,
                !self.broken,
                self.frame@.subrange(0, ptr as int) == before.subrange(0, ptr as int),
                self.frame@.subrange(ptr as int, ptr + i) == buf@.subrange(0, i as int),
            decreases buf.len() - i,
        {
            let ghost f0 = self.frame@;
            self.frame[ptr + i] = buf[i];
            assert(self.frame@.subrange(0, ptr as int) =~= f0.subrange(0, ptr as int));
            assert(self.frame@.subrange(ptr as int, ptr + i + 1) =~= f0.subrange(ptr as int, ptr + i).push(buf@[i as int]));
            assert(buf@.subrange(0, i + 1) =~= buf@.subrange(0, i as int).push(buf@[i as int]));
            i = i + 1;
        }
        self.ptr = ptr + buf.len();
        assert(self.frame@.subrange(0, self.ptr as int) =~= self.frame@.subrange(0, ptr as int) + self.frame@.subrange(ptr as int, self.ptr as int));
        assert(buf@.subrange(0, i as int) =~= buf@);
    }

    /// The frame's bytes, if it is not broken.
    pub fn bytes(&self) -> (b: Option<Vec<u8>>)
        ensures
            match b {
                Some(v) => self@ == Some(v@),
                None => self@ is None,
            },
    {
        proof {
            use_type_invariant(self);
        }
        if self.broken {
            return None;
        }
        let mut v: Vec<u8> = Vec::new();
        let mut i: usize = 0;
        while i < self.ptr
            invariant
                self.ptr <= MAX_FRAME_SIZE,
                i <= self.ptr,
                v@ == self.frame@.subrange(0, i as int),
            decreases self.ptr - i,
        {
            v.push(self.frame[i]);
            i = i + 1;
            assert(self.frame@.subrange(0, i as int) =~= self.frame@.subrange(0, i - 1 as int).push(self.frame@[i - 1]));
        }
        Some(v)
    }

    /// The number of bytes collected.
    pub fn len(&self) -> (n: usize)
        ensures
            self@ matches Some(s) ==> n == s.len(),
    {
        proof {
            use_type_invariant(self);
        }
        self.ptr
    }

    pub fn is_broken(&self) -> (b: bool)
        ensures
            b == (self@ is None),
    {
        self.broken
    }
}

#[verifier::external_type_specification]
#[verifier::external_body]
pub struct ExEncoder(defmt::Encoder);

pub assume_specification[ defmt::Encoder::new ]() -> defmt::Encoder;

/// How many bytes of `s` are not zero.
pub open spec fn nonzero_count(s: Seq<u8>) -> nat
    decreases s.len(),
{
    if s.len() == 0 {
        0
    } else {
        nonzero_count(s.drop_last()) + if s.last() != 0 {
            1nat
        } else {
            0nat
        }
    }
}

/// No byte of `s` is zero (zero separates frames on the wire).
pub open spec fn has_no_zero(s: Seq<u8>) -> bool {
    forall|i: int| 0 <= i < s.len() ==> s[i] != 0u8
}

/// The state of defmt's rzCOBS encoder, field for field as defmt's source
/// keeps it: the length of the current run, the bit mask of zero bytes in
/// it, and whether any frame was started yet.
pub struct EncoderState {
    pub run: u8,
    pub zeros: u8,
    pub started: bool,
}

/// The state of a new encoder.
pub open spec fn initial_encoder_state() -> EncoderState {
    EncoderState { run: 0, zeros: 0, started: false }
}

/// What the encoder emits when a frame starts: a separator 0x00 before the
/// very first frame, nothing afterwards.
pub open spec fn start_frame_output(s: EncoderState) -> Seq<u8> {
    if s.started {
        Seq::empty()
    } else {
        seq![0u8]
    }
}

/// The code byte that finishes a pending run when a frame ends: none for
/// an empty run; for a run shorter than 7, the zero mask with the unused
/// high bits set (below bit 7); otherwise the run length past 7 with bit 7
/// set.
pub open spec fn pending_code(s: EncoderState) -> Seq<u8> {
    if s.run == 0 {
        Seq::empty()
    } else if s.run <= 6 {
        seq![((s.zeros | (0xFFu8 << s.run)) & 0x7Fu8) as u8]
    } else {
        seq![(((s.run - 7) as u8) | 0x80u8) as u8]
    }
}

/// What the encoder emits when a frame ends: the pending code byte, if
/// any, then the separator 0x00.
pub open spec fn end_frame_output(s: EncoderState) -> Seq<u8> {
    pending_code(s) + seq![0u8]
}

/// The end of a frame holds exactly one separator, at its end: the pending
/// code byte is never 0x00.
pub proof fn law_frame_end_has_one_separator(s: EncoderState)
    ensures
        1 <= end_frame_output(s).len() <= 2,
        end_frame_output(s).last() == 0u8,
        has_no_zero(end_frame_output(s).drop_last()),
{
    let r = s.run;
    let z = s.zeros;
    if 1 <= r <= 6 {
        assert(((z | (0xFFu8 << r)) & 0x7Fu8) != 0u8) by (bit_vector)
            requires
                1 <= r <= 6,
        ;
    }
    if r > 6 {
        assert((((r - 7) as u8) | 0x80u8) != 0u8) by (bit_vector)
            requires
                r > 6,
        ;
    }
    assert(end_frame_output(s).drop_last() =~= pending_code(s));
}

/// What defmt's rzCOBS encoder does with frame data, starting from run
/// length `run` and zero mask `zeros`: the run length and zero mask after
/// it, and the bytes it emits.
pub uninterp spec fn rzcobs_write(run: u8, zeros: u8, data: Seq<u8>) -> (u8, u8, Seq<u8>);

/// `after` is `before` with the encoding of `data` appended, as the encoder
/// in state `s` emits it; those bytes contain no separator and at least
/// every nonzero byte of the data.
pub open spec fn adds_frame_data(before: Option<Seq<u8>>, after: Option<Seq<u8>>, s: EncoderState, data: Seq<u8>) -> bool {
    let out = rzcobs_write(s.run, s.zeros, data).2;
    &&& after == frame_ingest(before, out)
    &&& has_no_zero(out)
    &&& out.len() >= nonzero_count(data)
}

/// defmt's log frame encoder, with its state alongside.
pub struct LogEncoder {
    inner: defmt::Encoder,
    state: Ghost<EncoderState>,
}

impl LogEncoder {
    /// The encoder's state.
    pub closed spec fn state(&self) -> EncoderState {
        self.state@
    }

    /// A new encoder (`defmt::Encoder::new` sets all three fields to their
    /// initial values).
    pub fn new() -> (e: LogEncoder)
        ensures
            e.state() == initial_encoder_state(),
    {
        LogEncoder { inner: defmt::Encoder::new(), state: Ghost(initial_encoder_state()) }
    }
}

/// Calls `defmt::Encoder::start_frame`, whose closure appends the encoded
/// bytes to `sink`. Claimed, from defmt's rzCOBS source: it emits one 0x00
/// unless a frame was started before, then marks the encoder started.
#[verifier::external_body]
fn encoder_start_frame(encoder: &mut LogEncoder, sink: &mut FrameSink)
    ensures
        final(sink)@ == frame_ingest(old(sink)@, start_frame_output(old(encoder).state())),
        final(encoder).state() == (EncoderState { started: true, ..old(encoder).state() }),
{
    encoder.inner.start_frame(|b| sink.ingress_bytes(b))
}

/// Calls `defmt::Encoder::write` on `data`, whose closure appends the
/// encoded bytes to `sink`. Claimed, from defmt's rzCOBS source: the bytes
/// and the new run length and zero mask are the named function of the old
/// run length, zero mask and `data`; the bytes contain no 0x00 (zero data
/// bytes become nonzero code bytes) and hold every nonzero data byte.
#[verifier::external_body]
fn encoder_write(encoder: &mut LogEncoder, data: &[u8], sink: &mut FrameSink)
    ensures
        adds_frame_data(old(sink)@, final(sink)@, old(encoder).state(), data@),
        final(encoder).state() == (EncoderState {
            run: rzcobs_write(old(encoder).state().run, old(encoder).state().zeros, data@).0,
            zeros: rzcobs_write(old(encoder).state().run, old(encoder).state().zeros, data@).1,
            started: old(encoder).state().started,
        }),
{
    encoder.inner.write(data, |b| sink.ingress_bytes(b))
}

/// Calls `defmt::Encoder::end_frame`, whose closure appends the encoded
/// bytes to `sink`. Claimed, from defmt's rzCOBS source: it emits the
/// pending code byte, if any, then 0x00, and clears the run.
#[verifier::external_body]
fn encoder_end_frame(encoder: &mut LogEncoder, sink: &mut FrameSink)
    ensures
        final(sink)@ == frame_ingest(old(sink)@, end_frame_output(old(encoder).state())),
        final(encoder).state() == (EncoderState { run: 0, zeros: 0, started: old(encoder).state().started }),
{
    encoder.inner.end_frame(|b| sink.ingress_bytes(b))
}

/// Encodes log frames and keeps each one whole until it is released: a
/// frame that outgrows `MAX_FRAME_SIZE`, or that does not fit in the room
/// left in the log pipe, is dropped rather than sent in part, and counted.
pub struct TcpEncoder {
    encoder: LogEncoder,
    taken: bool,
    sink: FrameSink,
    dropped: u32,
}

/// A count one up, wrapping around at `u32::MAX`.
pub open spec fn count_up(n: u32) -> u32 {
    if n == u32::MAX {
        0
    } else {
        (n + 1) as u32
    }
}

impl TcpEncoder {
    /// Whether a frame is being encoded (between `acquire` and `release`).
    pub closed spec fn is_taken(&self) -> bool {
        self.taken
    }

    /// The encoded bytes of the current frame; `None` once it is broken.
    pub closed spec fn frame(&self) -> Option<Seq<u8>> {
        self.sink@
    }

    /// The state of the frame encoder.
    pub closed spec fn encoder_state(&self) -> EncoderState {
        self.encoder.state()
    }

    /// How many frames were dropped (wrapping around at `u32::MAX`).
    pub closed spec fn dropped_count(&self) -> u32 {
        self.dropped
    }

    pub fn new() -> (e: TcpEncoder)
        ensures
            !e.is_taken(),
            e.frame() == Some(Seq::<u8>::empty()),
            e.encoder_state() == initial_encoder_state(),
            e.dropped_count() == 0,
    {
        TcpEncoder { encoder: LogEncoder::new(), taken: false, sink: FrameSink::new(), dropped: 0 }
    }

    /// How many frames were dropped so far.
    pub fn dropped_frames(&self) -> (n: u32)
        ensures
            n == self.dropped_count(),
    {
        self.dropped
    }

    /// Starts a frame (the logger may not be taken already). The frame
    /// starts with the separator before the very first frame, else empty.
    pub fn acquire(&mut self)
        requires
            !old(self).is_taken(),
        ensures
            final(self).is_taken(),
            final(self).dropped_count() == old(self).dropped_count(),
            final(self).frame() == Some(start_frame_output(old(self).encoder_state())),
            final(self).encoder_state() == (EncoderState { started: true, ..old(self).encoder_state() }),
    {
        self.taken = true;
        self.sink.reset();
        encoder_start_frame(&mut self.encoder, &mut self.sink);
        assert(Seq::<u8>::empty() + start_frame_output(old(self).encoder_state()) =~= start_frame_output(
            old(self).encoder_state(),
        ));
    }

    /// Encodes part of the current frame: the frame grows by the encoder's
    /// output for `bytes`; if still whole, it keeps its old bytes and grows
    /// without a separator, by at least one byte per nonzero byte of `bytes`.
    pub fn write(&mut self, bytes: &[u8])
        requires
            old(self).is_taken(),
        ensures
            final(self).is_taken(),
            final(self).dropped_count() == old(self).dropped_count(),
            adds_frame_data(old(self).frame(), final(self).frame(), old(self).encoder_state(), bytes@),
            final(self).encoder_state() == (EncoderState {
                run: rzcobs_write(old(self).encoder_state().run, old(self).encoder_state().zeros, bytes@).0,
                zeros: rzcobs_write(old(self).encoder_state().run, old(self).encoder_state().zeros, bytes@).1,
                started: old(self).encoder_state().started,
            }),
            final(self).frame() matches Some(s) ==> (old(self).frame() matches Some(o) && s.len() >= o.len()
                + nonzero_count(bytes@) && s.subrange(0, o.len() as int) == o && has_no_zero(
                s.subrange(o.len() as int, s.len() as int),
            )),
    {
        encoder_write(&mut self.encoder, bytes, &mut self.sink);
        proof {
            let out = rzcobs_write(old(self).encoder.state().run, old(self).encoder.state().zeros, bytes@).2;
            if let Some(s) = self.sink@ {
                let o = old(self).sink@->0;
                assert(s.subrange(0, o.len() as int) =~= o);
                assert(s.subrange(o.len() as int, s.len() as int) =~= out);
            }
        }
    }

    /// Ends the current frame and hands it out if it is whole and fits in
    /// `free_capacity` bytes; a frame handed out ends with the separator.
    /// `None` means the frame is dropped, and the drop is counted.
    pub fn release(&mut self, free_capacity: usize) -> (res: Option<Vec<u8>>)
        requires
            old(self).is_taken(),
        ensures
            !final(self).is_taken(),
            final(self).frame() == frame_ingest(old(self).frame(), end_frame_output(old(self).encoder_state())),
            final(self).encoder_state() == (EncoderState { run: 0, zeros: 0, started: old(self).encoder_state().started }),
            match final(self).frame() {
                None => res is None,
                Some(s) => if s.len() > free_capacity {
                    res is None
                } else {
                    res matches Some(v) && v@ == s
                },
            },
            res matches Some(v) ==> v@.len() > 0 && v@.last() == 0u8,
            res is None ==> final(self).dropped_count() == count_up(old(self).dropped_count()),
            res is Some ==> final(self).dropped_count() == old(self).dropped_count(),
    {
        encoder_end_frame(&mut self.encoder, &mut self.sink);
        proof {
            let out = end_frame_output(old(self).encoder.state());
            if let Some(s) = self.sink@ {
                let o = old(self).sink@->0;
                assert(s.last() == (o + out).last());
            }
        }
        let res = if self.sink.is_broken() || self.sink.len() > free_capacity {
            None
        } else {
            self.sink.bytes()
        };
        if res.is_none() {
            if self.dropped == u32::MAX {
                self.dropped = 0;
            } else {
                self.dropped = self.dropped + 1;
            }
        }
        self.taken = false;
        res
    }
}

} // verus!
