use vstd::prelude::*;

use crate::digest::{blake3_digest, blake3_hash};
use crate::image::{elf32_load_segments, elf_objectcopy, flatten_segments, validate_object, validate_spec, FlashConf, ImageError};
use crate::protocol::{encode_header, law_sync_after_noise, sync_spec, Header, HeaderSerializer, SpecHeader, CHUNK_SIZE, HASH_LEN};

verus! {

/// How many chunks an image of `len` bytes is sent in.
pub open spec fn chunk_count(len: nat) -> nat {
    ((len + 4095) / 4096) as nat
}

/// The bytes of chunk `i` of an image.
pub open spec fn chunk_data(object: Seq<u8>, i: nat) -> Seq<u8> {
    let start: int = (i * 4096) as int;
    let end: int = if start + 4096 < object.len() {
        start + 4096
    } else {
        object.len() as int
    };
    object.subrange(start as int, end)
}

/// What the host sends for chunk `i` of an image: the chunk header with the
/// chunk's offset and size, then the chunk's bytes.
pub open spec fn chunk_frame(object: Seq<u8>, i: nat) -> Seq<u8> {
    encode_header(SpecHeader::Chunk { offset: (i * 4096) as usize, size: chunk_data(object, i).len() as usize })
        + chunk_data(object, i)
}

/// What the host sends after the chunks: the apply header with the image's
/// size and digest.
pub open spec fn apply_frame(object: Seq<u8>, digest: Seq<u8>) -> Seq<u8> {
    encode_header(SpecHeader::Apply { size: object.len() as usize, hash: digest })
}

/// The frames that flash `object`: one per chunk, in order, then the apply
/// frame with `digest`.
pub open spec fn is_flash_sequence(frames: Seq<Seq<u8>>, object: Seq<u8>, digest: Seq<u8>) -> bool {
    &&& frames.len() == chunk_count(object.len()) + 1
    &&& forall|i: int| 0 <= i < chunk_count(object.len()) ==> #[trigger] frames[i] == chunk_frame(object, i as nat)
    &&& frames[chunk_count(object.len()) as int] == apply_frame(object, digest)
}

/// The byte sequences of a list of frames.
pub open spec fn frames_view(frames: Seq<Vec<u8>>) -> Seq<Seq<u8>> {
    frames.map_values(|f: Vec<u8>| f@)
}

/// What the host sends to flash an image, in order: one frame per chunk of
/// `CHUNK_SIZE` bytes (the last may be shorter), then the apply frame with
/// the image's BLAKE3 digest.
pub fn flash_frames(object: &[u8]) -> (frames: Vec<Vec<u8>>)
    ensures
        is_flash_sequence(frames_view(frames@), object@, blake3_digest(object@)),
{
    let hash = blake3_hash(object);
    let len = object.len();
    let mut frames: Vec<Vec<u8>> = Vec::new();
    let mut offset: usize = 0;
    let mut i: usize = 0;
    while offset < len
        invariant
            len == object@.len(),
            offset <= len,
            offset == i * 4096 || (offset == len && len < i * 4096),
            i == 0 || (i - 1) * 4096 < len,
            frames.len() == i,
            forall|k: int| 0 <= k < i ==> #[trigger] frames@[k]@ == chunk_frame(object@, k as nat),
        decreases len - offset,
    {
        let size = if len - offset > CHUNK_SIZE { CHUNK_SIZE } else { len - offset };
        let mut ser = HeaderSerializer::new();
        ser.write_header(Header::Chunk { offset, size });
        let mut frame = ser.into_bytes();
        let mut j: usize = 0;
        while j < size
            invariant
                j <= size,
                offset + size <= len,
                len == object@.len(),
                frame@ == encode_header(SpecHeader::Chunk { offset, size }) + object@.subrange(offset as int, offset + j),
            decreases size - j,
        {
            frame.push(object[offset + j]);
            j = j + 1;
            assert(object@.subrange(offset as int, offset + j) =~= object@.subrange(offset as int, offset + j - 1).push(object@[offset + j - 1]));
        }
        assert(chunk_data(object@, i as nat) =~= object@.subrange(offset as int, offset + size));
        frames.push(frame);
        i = i + 1;
        offset = offset + size;
    }
    assert(i == chunk_count(object@.len()));
    let mut ser = HeaderSerializer::new();
    ser.write_header(Header::Apply { size: len, hash });
    frames.push(ser.into_bytes());
    assert(forall|k: int| 0 <= k < i ==> #[trigger] frames_view(frames@)[k] == frames@[k]@);
    frames
}

/// Prepares flashing an ELF file: flattens it, checks it against the
/// configuration, and builds the frames to send (see `flash_frames`).
pub fn flash_plan(elf: &[u8], flash_conf: &FlashConf) -> (res: Result<Vec<Vec<u8>>, ImageError>)
    ensures
        match elf32_load_segments(elf@) {
            Err(msg) => res matches Err(ImageError::Parse(m)) && m@ == msg,
            Ok(segs) => match flatten_segments(segs) {
                Err(e) => res matches Err(e2) && e2 == e,
                Ok((base, object)) => match validate_spec(base, object.len() as usize, flash_conf.base, flash_conf.max_size) {
                    Err(e) => res matches Err(e2) && e2 == e,
                    Ok(_) => res matches Ok(frames) && is_flash_sequence(frames_view(frames@), object, blake3_digest(object)),
                },
            },
        },
{
    let (base, object) = match elf_objectcopy(elf) {
        Ok(r) => r,
        Err(e) => {
            return Err(e);
        },
    };
    let size = object.len();
    match validate_object(base, size, flash_conf) {
        Ok(()) => {},
        Err(e) => {
            return Err(e);
        },
    }
    Ok(flash_frames(object.as_slice()))
}

/// What the device reads back of the frames the host sends: each chunk
/// frame is read as the chunk header the host built, and the chunk's bytes
/// follow it exactly; the apply frame is read as the apply header with the
/// image's size and digest. (Words travel as 32 bits, so the image must be
/// smaller than 4 GiB.)
pub proof fn law_flash_frames_read_back(object: Seq<u8>, digest: Seq<u8>, i: nat)
    requires
        object.len() <= u32::MAX,
        digest.len() == HASH_LEN,
        i < chunk_count(object.len()),
    ensures
        sync_spec(chunk_frame(object, i)) == Some((13nat, SpecHeader::Chunk {
            offset: (i * 4096) as usize,
            size: chunk_data(object, i).len() as usize,
        })),
        chunk_frame(object, i).subrange(13, chunk_frame(object, i).len() as int) == chunk_data(object, i),
        sync_spec(apply_frame(object, digest)) == Some((41nat, SpecHeader::Apply {
            size: object.len() as usize,
            hash: digest,
        })),
{
    let g = Seq::<u8>::empty();
    let h = SpecHeader::Chunk { offset: (i * 4096) as usize, size: chunk_data(object, i).len() as usize };
    let d = chunk_data(object, i);
    law_sync_after_noise(g, h, d);
    assert(g + encode_header(h) + d =~= chunk_frame(object, i));
    assert(chunk_frame(object, i).subrange(13, chunk_frame(object, i).len() as int) =~= d);
    let a = SpecHeader::Apply { size: object.len() as usize, hash: digest };
    law_sync_after_noise(g, a, g);
    assert(g + encode_header(a) + g =~= apply_frame(object, digest));
}

/// The bytes of the first `n` chunk frames of an image, back to back.
pub open spec fn chunk_frames_stream(object: Seq<u8>, n: nat) -> Seq<u8>
    decreases n,
{
    if n == 0 {
        Seq::empty()
    } else {
        chunk_frames_stream(object, (n - 1) as nat) + chunk_frame(object, (n - 1) as nat)
    }
}

/// Everything the host sends to flash an image: the chunk frames, then the
/// apply frame.
pub open spec fn flash_stream(object: Seq<u8>, digest: Seq<u8>) -> Seq<u8> {
    chunk_frames_stream(object, chunk_count(object.len())) + apply_frame(object, digest)
}

/// The bytes of a list of frames, back to back.
pub open spec fn concat_frames(frames: Seq<Seq<u8>>) -> Seq<u8>
    decreases frames.len(),
{
    if frames.len() == 0 {
        Seq::empty()
    } else {
        concat_frames(frames.drop_last()) + frames.last()
    }
}

proof fn lemma_concat_chunk_frames(frames: Seq<Seq<u8>>, object: Seq<u8>, digest: Seq<u8>, k: nat)
    requires
        is_flash_sequence(frames, object, digest),
        k <= chunk_count(object.len()),
    ensures
        concat_frames(frames.subrange(0, k as int)) == chunk_frames_stream(object, k),
    decreases k,
{
    if k == 0 {
        assert(frames.subrange(0, 0) =~= Seq::<Seq<u8>>::empty());
    } else {
        lemma_concat_chunk_frames(frames, object, digest, (k - 1) as nat);
        assert(frames.subrange(0, k as int).drop_last() =~= frames.subrange(0, k - 1));
        assert(frames[k - 1] == chunk_frame(object, (k - 1) as nat));
    }
}

/// Sending the frames of a flash sequence one after the other puts exactly
/// the flash stream of the image on the wire.
pub proof fn law_flash_frames_concat(frames: Seq<Seq<u8>>, object: Seq<u8>, digest: Seq<u8>)
    requires
        is_flash_sequence(frames, object, digest),
    ensures
        concat_frames(frames) == flash_stream(object, digest),
{
    let n = chunk_count(object.len());
    lemma_concat_chunk_frames(frames, object, digest, n);
    assert(frames.drop_last() =~= frames.subrange(0, n as int));
}

} // verus!
