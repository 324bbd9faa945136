use vstd::prelude::*;

use crate::flash::{apply_frame, chunk_count, chunk_data, chunk_frame, chunk_frames_stream, flash_stream};
use crate::manager::{
    chunk_decision, hash_decision, header_decision, padded_block, Action, FirmwareManager, SpecAction, Warning,
};
use crate::protocol::{encode_header, law_header_roundtrip, law_sync_after_noise, HASH_LEN, lemma_magic_progress_bound, lemma_sync_extend, sync_spec, HeaderDeserializer, SpecHeader, CHUNK_SIZE};

verus! {

/// The mathematical state of an update session: the bytes read since the
/// last header, whether the running firmware is validated, and the chunk
/// whose data is being read (offset, size, data so far).
pub struct SessionView {
    pub seen: Seq<u8>,
    pub validated: bool,
    pub chunk: Option<(usize, usize, Seq<u8>)>,
}

/// A session waiting for a header, with the given validation state.
pub open spec fn idle_session(validated: bool) -> SessionView {
    SessionView { seen: Seq::empty(), validated, chunk: None }
}

/// What the device does on receiving one byte of the update connection:
/// while a chunk's data is being read the byte belongs to it; otherwise it
/// goes to the header receiver, and a completed header is decided on.
pub open spec fn session_step(v: SessionView, b: u8) -> (SessionView, Option<SpecAction>) {
    match v.chunk {
        Some((offset, size, data)) => {
            let d = data.push(b);
            if d.len() >= size {
                (
                    SessionView { seen: v.seen, validated: v.validated, chunk: None },
                    Some(chunk_decision(v.validated, offset, d)),
                )
            } else {
                (SessionView { seen: v.seen, validated: v.validated, chunk: Some((offset, size, d)) }, None)
            }
        },
        None => {
            let s = v.seen.push(b);
            match sync_spec(s) {
                None => (SessionView { seen: s, validated: v.validated, chunk: None }, None),
                Some((_, h)) => {
                    let validated = v.validated || h is Validate;
                    match h {
                        SpecHeader::Chunk { offset, size } => if size == 0 {
                            (idle_session(validated), Some(chunk_decision(validated, offset, Seq::empty())))
                        } else {
                            (
                                SessionView {
                                    seen: Seq::empty(),
                                    validated,
                                    chunk: Some((offset, size, Seq::empty())),
                                },
                                None,
                            )
                        },
                        _ => (idle_session(validated), Some(header_decision(v.validated, h))),
                    }
                },
            }
        },
    }
}

/// No action or one.
pub open spec fn option_seq(a: Option<SpecAction>) -> Seq<SpecAction> {
    match a {
        Some(a) => seq![a],
        None => Seq::empty(),
    }
}

/// What the device does on receiving a run of bytes: the state after them
/// and the actions decided, in order.
pub open spec fn session_run(v: SessionView, bytes: Seq<u8>) -> (SessionView, Seq<SpecAction>)
    decreases bytes.len(),
{
    if bytes.len() == 0 {
        (v, Seq::empty())
    } else {
        let (v1, acts) = session_run(v, bytes.drop_last());
        let (v2, a) = session_step(v1, bytes.last());
        (v2, acts + option_seq(a))
    }
}

struct PendingChunk {
    offset: usize,
    size: usize,
    data: Vec<u8>,
}

/// The device side of an update connection: it reads headers and chunk
/// data from the incoming bytes and decides what the device does.
pub struct UpdateSession {
    decoder: HeaderDeserializer,
    manager: FirmwareManager,
    chunk: Option<PendingChunk>,
}

impl View for UpdateSession {
    type V = SessionView;

    closed spec fn view(&self) -> SessionView {
        SessionView {
            seen: self.decoder@,
            validated: self.manager.is_validated(),
            chunk: match self.chunk {
                Some(c) => Some((c.offset, c.size, c.data@)),
                None => None,
            },
        }
    }
}

impl UpdateSession {
    pub closed spec fn wf(&self) -> bool {
        &&& self.decoder.wf()
        &&& self.chunk matches Some(c) ==> c.data.len() < c.size <= CHUNK_SIZE && self.decoder@
            == Seq::<u8>::empty()
    }

    /// A session for a device whose firmware is validated or not.
    pub fn new(manager: FirmwareManager) -> (s: UpdateSession)
        ensures
            s.wf(),
            s@ == idle_session(manager.is_validated()),
    {
        UpdateSession { decoder: HeaderDeserializer::new(), manager, chunk: None }
    }

    pub fn validated(&self) -> (v: bool)
        ensures
            v == self@.validated,
    {
        self.manager.validated()
    }

    /// Receives one byte; returns what the device must do, if anything.
    pub fn receive(&mut self, byte: u8) -> (res: Option<Action>)
        requires
            old(self).wf(),
        ensures
            final(self).wf(),
            (final(self)@, match res {
                Some(a) => Some(a@),
                None => None,
            }) == session_step(old(self)@, byte),
    {
        let mut pending: Option<PendingChunk> = None;
        std::mem::swap(&mut pending, &mut self.chunk);
        match pending {
            Some(c) => {
                let mut c = c;
                c.data.push(byte);
                if c.data.len() >= c.size {
                    let a = self.manager.on_chunk(c.offset, c.data.as_slice());
                    Some(a)
                } else {
                    self.chunk = Some(c);
                    None
                }
            },
            None => {
                let ghost s = self.decoder@.push(byte);
                match self.decoder.feed(byte) {
                    None => None,
                    Some(h) => {
                        let ghost old_validated = self.manager.is_validated();
                        let a = self.manager.on_header(&h);
                        match a {
                            Action::ReadChunk { offset, size } => {
                                assert(h@ matches SpecHeader::Chunk { size: sz, .. } && sz <= CHUNK_SIZE);
                                if size == 0 {
                                    let empty: Vec<u8> = Vec::new();
                                    assert(empty@ =~= Seq::<u8>::empty());
                                    Some(self.manager.on_chunk(offset, empty.as_slice()))
                                } else {
                                    self.chunk = Some(PendingChunk { offset, size, data: Vec::new() });
                                    None
                                }
                            },
                            other => Some(other),
                        }
                    },
                }
            },
        }
    }

    /// Receives a run of bytes; returns the actions, in order.
    pub fn receive_all(&mut self, bytes: &[u8]) -> (acts: Vec<Action>)
        requires
            old(self).wf(),
        ensures
            final(self).wf(),
            (final(self)@, acts@.map_values(|a: Action| a@)) == session_run(old(self)@, bytes@),
    {
        let mut acts: Vec<Action> = Vec::new();
        let mut i: usize = 0;
        while i < bytes.len()
            invariant
                self.wf(),
                i <= bytes.len(),
                (self@, acts@.map_values(|a: Action| a@)) == session_run(old(self)@, bytes@.subrange(0, i as int)),
            decreases bytes.len() - i,
        {
            let ghost prev = acts@;
            let r = self.receive(bytes[i]);
            assert(bytes@.subrange(0, i + 1).drop_last() =~= bytes@.subrange(0, i as int));
            match r {
                Some(a) => {
                    acts.push(a);
                },
                None => {},
            }
            i = i + 1;
            assert(acts@.map_values(|a: Action| a@) =~= prev.map_values(|a: Action| a@) + option_seq(
                match r {
                    Some(a) => Some(a@),
                    None => None,
                },
            ));
        }
        assert(bytes@.subrange(0, i as int) =~= bytes@);
        acts
    }

    /// Decides, once the written image has been hashed to `local`, whether
    /// the update announced with `expected` is applied.
    pub fn hash_computed(&self, local: &[u8; 32], expected: &[u8; 32]) -> (a: Action)
        ensures
            a@ == hash_decision(local@, expected@),
    {
        self.manager.on_hash(local, expected)
    }
}

} // verus!

verus! {

/// Running a session over two runs of bytes is running it over the first,
/// then over the second from where the first left it.
pub proof fn lemma_session_run_append(v: SessionView, a: Seq<u8>, b: Seq<u8>)
    ensures
        session_run(v, a + b) == ({
            let (v1, x) = session_run(v, a);
            let (v2, y) = session_run(v1, b);
            (v2, x + y)
        }),
    decreases b.len(),
{
    if b.len() == 0 {
        assert(a + b =~= a);
        let (v1, x) = session_run(v, a);
        assert(x + Seq::<SpecAction>::empty() =~= x);
    } else {
        lemma_session_run_append(v, a, b.drop_last());
        assert((a + b).drop_last() =~= a + b.drop_last());
        assert((a + b).last() == b.last());
        let (v1, x) = session_run(v, a);
        let (w, y0) = session_run(v1, b.drop_last());
        let (w2, o) = session_step(w, b.last());
        assert(x + y0 + option_seq(o) =~= x + (y0 + option_seq(o)));
    }
}

/// The first header of a stream is not complete in any shorter prefix.
proof fn lemma_sync_prefix_none(e: Seq<u8>, k: int)
    requires
        sync_spec(e) matches Some((n, _)) && n == e.len(),
        0 <= k < e.len(),
    ensures
        sync_spec(e.subrange(0, k)) is None,
{
    let p = e.subrange(0, k);
    if sync_spec(p) is Some {
        lemma_sync_extend(p, e.subrange(k, e.len() as int));
        assert(p + e.subrange(k, e.len() as int) =~= e);
    }
}

/// Where a session is after a complete header that it received idle.
pub open spec fn header_outcome(validated: bool, h: SpecHeader) -> (SessionView, Seq<SpecAction>) {
    match h {
        SpecHeader::Chunk { offset, size } => if size == 0 {
            (idle_session(validated), seq![chunk_decision(validated, offset, Seq::empty())])
        } else {
            (SessionView { seen: Seq::empty(), validated, chunk: Some((offset, size, Seq::empty())) }, Seq::empty())
        },
        _ => (idle_session(validated || h is Validate), seq![header_decision(validated, h)]),
    }
}

proof fn lemma_session_header_prefix(validated: bool, e: Seq<u8>, h: SpecHeader, k: int)
    requires
        sync_spec(e) == Some((e.len(), h)),
        0 <= k < e.len(),
    ensures
        session_run(idle_session(validated), e.subrange(0, k)) == (
            SessionView { seen: e.subrange(0, k), validated, chunk: None },
            Seq::<SpecAction>::empty(),
        ),
    decreases k,
{
    if k == 0 {
        assert(e.subrange(0, 0) =~= Seq::<u8>::empty());
    } else {
        lemma_session_header_prefix(validated, e, h, k - 1);
        let p = e.subrange(0, k);
        assert(p.drop_last() =~= e.subrange(0, k - 1));
        assert(e.subrange(0, k - 1).push(e[k - 1]) =~= p);
        lemma_sync_prefix_none(e, k);
        assert(Seq::<SpecAction>::empty() + option_seq(None) =~= Seq::<SpecAction>::empty());
    }
}

/// An idle session that receives the bytes of a header decides on it at
/// its last byte and on nothing before.
proof fn lemma_session_header(validated: bool, e: Seq<u8>, h: SpecHeader)
    requires
        sync_spec(e) == Some((e.len(), h)),
    ensures
        session_run(idle_session(validated), e) == header_outcome(validated, h),
{
    lemma_magic_progress_bound(e);
    let k = e.len() - 1;
    lemma_session_header_prefix(validated, e, h, k);
    assert(e.drop_last() =~= e.subrange(0, k));
    assert(e.subrange(0, k).push(e[k]) =~= e);
    let (v2, a) = session_step(SessionView { seen: e.subrange(0, k), validated, chunk: None }, e[k]);
    assert(Seq::<SpecAction>::empty() + option_seq(a) =~= option_seq(a));
}

proof fn lemma_session_chunk_prefix(validated: bool, offset: usize, d: Seq<u8>, k: int)
    requires
        0 <= k < d.len(),
        d.len() <= usize::MAX,
    ensures
        session_run(
            SessionView { seen: Seq::empty(), validated, chunk: Some((offset, d.len() as usize, Seq::empty())) },
            d.subrange(0, k),
        ) == (
            SessionView { seen: Seq::empty(), validated, chunk: Some((offset, d.len() as usize, d.subrange(0, k))) },
            Seq::<SpecAction>::empty(),
        ),
    decreases k,
{
    if k == 0 {
        assert(d.subrange(0, 0) =~= Seq::<u8>::empty());
    } else {
        lemma_session_chunk_prefix(validated, offset, d, k - 1);
        let p = d.subrange(0, k);
        assert(p.drop_last() =~= d.subrange(0, k - 1));
        assert(d.subrange(0, k - 1).push(d[k - 1]) =~= p);
        assert(Seq::<SpecAction>::empty() + option_seq(None) =~= Seq::<SpecAction>::empty());
    }
}

/// A session reading a chunk's data decides on the chunk at its last byte
/// and on nothing before.
proof fn lemma_session_chunk_data(validated: bool, offset: usize, d: Seq<u8>)
    requires
        0 < d.len() <= usize::MAX,
    ensures
        session_run(
            SessionView { seen: Seq::empty(), validated, chunk: Some((offset, d.len() as usize, Seq::empty())) },
            d,
        ) == (idle_session(validated), seq![chunk_decision(validated, offset, d)]),
{
    let k = d.len() - 1;
    lemma_session_chunk_prefix(validated, offset, d, k);
    assert(d.drop_last() =~= d.subrange(0, k));
    assert(d.subrange(0, k).push(d[k]) =~= d);
    assert(Seq::<SpecAction>::empty() + seq![chunk_decision(validated, offset, d)] =~= seq![chunk_decision(validated, offset, d)]);
}

} // verus!

verus! {

/// The writes of the first `n` chunks of an image, each a full block at
/// its offset.
pub open spec fn chunk_writes(object: Seq<u8>, n: nat) -> Seq<SpecAction>
    decreases n,
{
    if n == 0 {
        Seq::empty()
    } else {
        chunk_writes(object, (n - 1) as nat).push(
            SpecAction::WriteFirmware {
                offset: ((n - 1) * 4096) as usize,
                block: padded_block(chunk_data(object, (n - 1) as nat)),
            },
        )
    }
}

proof fn lemma_session_chunk_frame(object: Seq<u8>, i: nat)
    requires
        object.len() <= u32::MAX,
        i < chunk_count(object.len()),
    ensures
        session_run(idle_session(true), chunk_frame(object, i)) == (
            idle_session(true),
            seq![SpecAction::WriteFirmware { offset: (i * 4096) as usize, block: padded_block(chunk_data(object, i)) }],
        ),
{
    let d = chunk_data(object, i);
    let h = SpecHeader::Chunk { offset: (i * 4096) as usize, size: d.len() as usize };
    let e = encode_header(h);
    law_header_roundtrip(h);
    lemma_session_header(true, e, h);
    lemma_session_run_append(idle_session(true), e, d);
    lemma_session_chunk_data(true, (i * 4096) as usize, d);
    assert(Seq::<SpecAction>::empty() + seq![chunk_decision(true, (i * 4096) as usize, d)] =~= seq![chunk_decision(true, (i * 4096) as usize, d)]);
}

proof fn lemma_session_chunk_frames(object: Seq<u8>, n: nat)
    requires
        object.len() <= u32::MAX,
        n <= chunk_count(object.len()),
    ensures
        session_run(idle_session(true), chunk_frames_stream(object, n)) == (idle_session(true), chunk_writes(object, n)),
    decreases n,
{
    if n > 0 {
        lemma_session_chunk_frames(object, (n - 1) as nat);
        lemma_session_run_append(idle_session(true), chunk_frames_stream(object, (n - 1) as nat), chunk_frame(object, (n - 1) as nat));
        lemma_session_chunk_frame(object, (n - 1) as nat);
    }
}

/// A validated device that receives everything the host sends to flash an
/// image writes every chunk of the image, in order, as a full block at its
/// offset, then asks for the written image to be hashed against the
/// image's digest; it ends ready for the next header. (Words travel as 32
/// bits, so the image must be smaller than 4 GiB.)
pub proof fn law_flash_session(object: Seq<u8>, digest: Seq<u8>)
    requires
        object.len() <= u32::MAX,
        digest.len() == HASH_LEN,
    ensures
        session_run(idle_session(true), flash_stream(object, digest)) == (
            idle_session(true),
            chunk_writes(object, chunk_count(object.len())).push(
                SpecAction::HashFirmware { length: object.len() as u32, expected: digest },
            ),
        ),
{
    let n = chunk_count(object.len());
    lemma_session_chunk_frames(object, n);
    let a = SpecHeader::Apply { size: object.len() as usize, hash: digest };
    law_header_roundtrip(a);
    lemma_session_header(true, apply_frame(object, digest), a);
    lemma_session_run_append(idle_session(true), chunk_frames_stream(object, n), apply_frame(object, digest));
    assert(chunk_writes(object, n) + seq![header_decision(true, a)] =~= chunk_writes(object, n).push(
        SpecAction::HashFirmware { length: object.len() as u32, expected: digest },
    ));
}

/// A device whose firmware is not validated writes nothing of what the
/// host sends to flash an image: each chunk is refused, and so is the
/// apply request.
pub proof fn law_flash_session_unvalidated(object: Seq<u8>, digest: Seq<u8>)
    requires
        object.len() <= u32::MAX,
        digest.len() == HASH_LEN,
    ensures
        session_run(idle_session(false), flash_stream(object, digest)).0 == idle_session(false),
        forall|i: int| 0 <= i < session_run(idle_session(false), flash_stream(object, digest)).1.len()
            ==> #[trigger] session_run(idle_session(false), flash_stream(object, digest)).1[i] is Warn,
{
    lemma_session_unvalidated_frames(object, chunk_count(object.len()));
    let n = chunk_count(object.len());
    let a = SpecHeader::Apply { size: object.len() as usize, hash: digest };
    law_header_roundtrip(a);
    lemma_session_header(false, apply_frame(object, digest), a);
    lemma_session_run_append(idle_session(false), chunk_frames_stream(object, n), apply_frame(object, digest));
}

proof fn lemma_session_unvalidated_frames(object: Seq<u8>, n: nat)
    requires
        object.len() <= u32::MAX,
        n <= chunk_count(object.len()),
    ensures
        session_run(idle_session(false), chunk_frames_stream(object, n)).0 == idle_session(false),
        session_run(idle_session(false), chunk_frames_stream(object, n)).1.len() == n,
        forall|i: int| 0 <= i < n ==> #[trigger] session_run(idle_session(false), chunk_frames_stream(object, n)).1[i]
            == SpecAction::Warn(Warning::ChunkNotValidated),
    decreases n,
{
    if n > 0 {
        let m = (n - 1) as nat;
        lemma_session_unvalidated_frames(object, m);
        lemma_session_run_append(idle_session(false), chunk_frames_stream(object, m), chunk_frame(object, m));
        let d = chunk_data(object, m);
        let h = SpecHeader::Chunk { offset: (m * 4096) as usize, size: d.len() as usize };
        let e = encode_header(h);
        law_header_roundtrip(h);
        lemma_session_header(false, e, h);
        lemma_session_run_append(idle_session(false), e, d);
        lemma_session_chunk_data(false, (m * 4096) as usize, d);
        assert(Seq::<SpecAction>::empty() + seq![chunk_decision(false, (m * 4096) as usize, d)] =~= seq![SpecAction::Warn(Warning::ChunkNotValidated)]);
    }
}

} // verus!

verus! {

proof fn lemma_chunk_writes_index(object: Seq<u8>, n: nat, i: nat)
    requires
        i < n,
    ensures
        chunk_writes(object, n).len() == n,
        chunk_writes(object, n)[i as int] == (SpecAction::WriteFirmware {
            offset: (i * 4096) as usize,
            block: padded_block(chunk_data(object, i)),
        }),
    decreases n,
{
    if i < n - 1 {
        lemma_chunk_writes_index(object, (n - 1) as nat, i);
    } else {
        if n > 1 {
            lemma_chunk_writes_index(object, (n - 1) as nat, 0);
        } else {
            assert(chunk_writes(object, 0) == Seq::<SpecAction>::empty());
        }
    }
}

/// The blocks a validated device writes for a flashed image hold the image:
/// block `i`, written at offset `i * CHUNK_SIZE`, holds at position `k` the
/// image's byte `i * CHUNK_SIZE + k`, and zero past the image's end.
pub proof fn law_written_blocks_hold_image(object: Seq<u8>, i: nat, k: nat)
    requires
        object.len() <= usize::MAX,
        i < chunk_count(object.len()),
        k < CHUNK_SIZE,
    ensures
        chunk_writes(object, chunk_count(object.len()))[i as int] matches SpecAction::WriteFirmware {
            offset,
            block,
        } && offset == i * CHUNK_SIZE && block.len() == CHUNK_SIZE && block[k as int] == (if i * CHUNK_SIZE + k
            < object.len() {
            object[i * CHUNK_SIZE + k]
        } else {
            0u8
        }),
{
    lemma_chunk_writes_index(object, chunk_count(object.len()), i);
    let d = chunk_data(object, i);
    assert(padded_block(d).len() == CHUNK_SIZE);
    if k < d.len() {
        assert(padded_block(d)[k as int] == d[k as int]);
    } else {
        assert(padded_block(d)[k as int] == 0u8);
    }
}

} // verus!

verus! {

/// An action that changes the device's firmware or boot state.
pub open spec fn changes_firmware(a: SpecAction) -> bool {
    a is WriteFirmware || a is HashFirmware || a is ApplyUpdate || a is MarkBooted
}

/// Whatever bytes arrive, a device whose firmware was not validated and
/// that is still not validated afterwards (it received no validate header)
/// has written, hashed, applied and marked nothing.
pub proof fn law_nothing_changes_before_validation(v: SessionView, bytes: Seq<u8>)
    requires
        !v.validated,
    ensures
        !session_run(v, bytes).0.validated ==> forall|i: int|
            0 <= i < session_run(v, bytes).1.len() ==> !changes_firmware(#[trigger] session_run(v, bytes).1[i]),
    decreases bytes.len(),
{
    if bytes.len() > 0 {
        let prev = bytes.drop_last();
        law_nothing_changes_before_validation(v, prev);
        let (v1, acts) = session_run(v, prev);
        lemma_validated_monotone(v, prev);
        let (v2, a) = session_step(v1, bytes.last());
        if !v2.validated {
            assert(!v1.validated);
            assert forall|i: int| 0 <= i < (acts + option_seq(a)).len() implies !changes_firmware(
                #[trigger] (acts + option_seq(a))[i],
            ) by {
                if i < acts.len() {
                    assert((acts + option_seq(a))[i] == acts[i]);
                }
            }
        }
    }
}

/// Once validated, a session stays validated.
proof fn lemma_validated_monotone(v: SessionView, bytes: Seq<u8>)
    ensures
        v.validated ==> session_run(v, bytes).0.validated,
    decreases bytes.len(),
{
    if bytes.len() > 0 {
        lemma_validated_monotone(v, bytes.drop_last());
    }
}

/// A waiting device that receives a reset header, after any noise that
/// holds no first magic byte, asks for exactly one reset, whether or not its
/// firmware is validated, and waits for the next header as before.
pub proof fn law_reset_header_resets(validated: bool, noise: Seq<u8>)
    requires
        forall|i: int| 0 <= i < noise.len() ==> noise[i] != 0x54u8,
    ensures
        session_run(idle_session(validated), noise + encode_header(SpecHeader::Reset)) == (
            idle_session(validated),
            seq![SpecAction::Reset],
        ),
{
    let e = noise + encode_header(SpecHeader::Reset);
    law_sync_after_noise(noise, SpecHeader::Reset, Seq::empty());
    assert(e + Seq::<u8>::empty() =~= e);
    lemma_session_header(validated, e, SpecHeader::Reset);
    assert(validated || SpecHeader::Reset is Validate <==> validated);
}

} // verus!
