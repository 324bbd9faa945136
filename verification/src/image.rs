use vstd::prelude::*;

use object::read::elf::{ElfFile32, ProgramHeader};
use object::{Endianness, Object, ObjectSegment};


verus! {

/// A loadable segment of an ELF image: its physical (load) address and its
/// bytes.
pub struct Segment {
    pub lma: u64,
    pub data: Vec<u8>,
}

/// Why an image cannot be flattened or does not fit the target.
#[derive(Debug, PartialEq, Eq)]
pub enum ImageError {
    /// The input is not a 32-bit ELF file whose segments can be read; the
    /// ELF reader's message.
    Parse(String),
    /// No segment holds any bytes.
    NoLoadableSegments,
    /// The image does not fit in memory.
    TooLarge,
    /// The image starts elsewhere than the configuration expects.
    BaseMismatch { was: u64, expected: u64 },
    /// The image is larger than the configuration allows.
    SizeTooLarge { size: usize, max: u64 },
}

#[verifier::external_type_specification]
#[verifier::external_body]
pub struct ExPathBuf(std::path::PathBuf);

/// What the host needs to know about the image to flash.
pub struct FlashConf {
    /// Where the executable is read from.
    pub path: std::path::PathBuf,
    /// The base address the image must start at, if any.
    pub base: Option<u64>,
    /// The largest image the target partition takes, if any.
    pub max_size: Option<u64>,
}

/// The arguments of a flashing command.
pub struct FlashArgs {
    /// Path to the executable.
    pub path: std::path::PathBuf,
    /// Base offset to optionally check against.
    pub base: Option<u64>,
    /// Length of the active partition to optionally check against.
    pub max_size: Option<u64>,
}

impl From<FlashArgs> for FlashConf {
    fn from(v: FlashArgs) -> (c: FlashConf)
        ensures
            c.path == v.path,
            c.base == v.base,
            c.max_size == v.max_size,
    {
        FlashConf { path: v.path, base: v.base, max_size: v.max_size }
    }
}

impl vstd::std_specs::convert::FromSpecImpl<FlashArgs> for FlashConf {
    open spec fn obeys_from_spec() -> bool {
        true
    }

    open spec fn from_spec(v: FlashArgs) -> FlashConf {
        FlashConf { path: v.path, base: v.base, max_size: v.max_size }
    }
}

/// Where the target listens.
pub struct NetConf {
    pub host: String,
    pub firmware_port: u16,
    pub logger_port: u16,
}

/// A segment as its address and bytes.
pub open spec fn segment_view(s: Segment) -> (u64, Seq<u8>) {
    (s.lma, s.data@)
}

/// Segments as their addresses and bytes.
pub open spec fn segments_view(v: Seq<Segment>) -> Seq<(u64, Seq<u8>)> {
    v.map_values(|s: Segment| segment_view(s))
}

/// The loadable segments (address and bytes, in file order) of a 32-bit
/// ELF file, as the `object` crate reads them; where it fails, the message
/// of its error.
pub uninterp spec fn elf32_load_segments(data: Seq<u8>) -> Result<Seq<(u64, Seq<u8>)>, Seq<char>>;

/// Parses `data` with `object::read::elf::ElfFile32::parse` and reads each
/// loadable segment's physical address (`p_paddr`) and bytes
/// (`ObjectSegment::data`); an error of either becomes its message (its
/// `Display`). Claimed: the result is the named function of `data`, and
/// each address, being a 32-bit word, is below 2^32.
#[verifier::external_body]
fn load_segments(data: &[u8]) -> (res: Result<Vec<Segment>, String>)
    ensures
        match res {
            Ok(v) => elf32_load_segments(data@) == Ok::<Seq<(u64, Seq<u8>)>, Seq<char>>(segments_view(v@)),
            Err(m) => elf32_load_segments(data@) == Err::<Seq<(u64, Seq<u8>)>, Seq<char>>(m@),
        },
        res matches Ok(v) ==> forall|i: int| 0 <= i < v.len() ==> v@[i].lma <= u32::MAX,
{
    let file = match ElfFile32::<Endianness>::parse(data) {
        Ok(file) => file,
        Err(e) => return Err(format!("{}", e)),
    };
    let endian = file.endian();
    let mut segs = Vec::new();
    for seg in file.segments() {
        let lma: u64 = seg.elf_program_header().p_paddr(endian).into();
        match seg.data() {
            Ok(d) => segs.push(Segment { lma, data: d.to_vec() }),
            Err(e) => return Err(format!("{}", e)),
        }
    }
    Ok(segs)
}

/// The lowest address and the highest end address of the segments that
/// hold bytes, if any does.
pub open spec fn image_bounds(s: Seq<(u64, Seq<u8>)>) -> Option<(int, int)>
    decreases s.len(),
{
    if s.len() == 0 {
        None
    } else {
        let rest = image_bounds(s.drop_last());
        let lma = s.last().0 as int;
        let len = s.last().1.len() as int;
        if len == 0 {
            rest
        } else {
            match rest {
                None => Some((lma, lma + len)),
                Some((lo, hi)) => Some(
                    (if lma < lo { lma } else { lo }, if lma + len > hi { lma + len } else { hi }),
                ),
            }
        }
    }
}

/// The byte at `addr` of the image: that of the last segment covering it
/// (later segments overwrite earlier ones), 0 where none does.
pub open spec fn image_byte(s: Seq<(u64, Seq<u8>)>, addr: int) -> u8
    decreases s.len(),
{
    if s.len() == 0 {
        0
    } else {
        let lma = s.last().0 as int;
        let d = s.last().1;
        if lma <= addr < lma + d.len() {
            d[addr - lma]
        } else {
            image_byte(s.drop_last(), addr)
        }
    }
}

/// The flat image of a list of segments: its base address and its bytes
/// from the lowest segment address to the highest segment end.
pub open spec fn flatten_segments(s: Seq<(u64, Seq<u8>)>) -> Result<(u64, Seq<u8>), ImageError> {
    match image_bounds(s) {
        None => Err(ImageError::NoLoadableSegments),
        Some((lo, hi)) => if hi > u64::MAX || hi - lo > usize::MAX {
            Err(ImageError::TooLarge)
        } else {
            Ok((lo as u64, Seq::new((hi - lo) as nat, |i: int| image_byte(s, lo + i))))
        },
    }
}

proof fn lemma_bounds_ordered(s: Seq<(u64, Seq<u8>)>)
    ensures
        image_bounds(s) matches Some((lo, hi)) ==> 0 <= lo < hi,
    decreases s.len(),
{
    if s.len() > 0 {
        lemma_bounds_ordered(s.drop_last());
    }
}

proof fn lemma_bounds_prefix(s: Seq<(u64, Seq<u8>)>, k: int)
    requires
        0 <= k <= s.len(),
    ensures
        image_bounds(s.subrange(0, k)) matches Some((a, b)) ==> (image_bounds(s) matches Some((
            a2,
            b2,
        )) && a2 <= a && b <= b2),
        image_bounds(s) is None ==> image_bounds(s.subrange(0, k)) is None,
    decreases s.len() - k,
{
    if k < s.len() {
        lemma_bounds_prefix(s, k + 1);
        assert(s.subrange(0, k + 1).drop_last() =~= s.subrange(0, k));
    } else {
        assert(s.subrange(0, k) =~= s);
    }
}

proof fn lemma_bounds_contain(s: Seq<(u64, Seq<u8>)>, k: int)
    requires
        0 <= k < s.len(),
        s[k].1.len() > 0,
    ensures
        image_bounds(s) matches Some((lo, hi)) && lo <= s[k].0 && s[k].0 + s[k].1.len() <= hi,
{
    lemma_bounds_prefix(s, k + 1);
    assert(s.subrange(0, k + 1).drop_last() =~= s.subrange(0, k));
    assert(s.subrange(0, k + 1).last() == s[k]);
}

fn image_bounds_exec(segs: &Vec<Segment>) -> (res: Result<(u64, u64), ImageError>)
    ensures
        match res {
            Ok((lo, hi)) => image_bounds(segments_view(segs@)) == Some((lo as int, hi as int)),
            Err(e) => {
                ||| e == ImageError::NoLoadableSegments && image_bounds(segments_view(segs@)) is None
                ||| e == ImageError::TooLarge && (image_bounds(segments_view(segs@)) matches Some((
                    lo,
                    hi,
                )) && hi > u64::MAX)
            },
        },
{
    let ghost sv = segments_view(segs@);
    let mut have = false;
    let mut lo: u64 = 0;
    let mut hi: u64 = 0;
    let mut i: usize = 0;
    while i < segs.len()
        invariant
            i <= segs.len(),
            sv == segments_view(segs@),
            !have ==> image_bounds(sv.subrange(0, i as int)) is None,
            have ==> image_bounds(sv.subrange(0, i as int)) == Some((lo as int, hi as int)),
        decreases segs.len() - i,
    {
        assert(sv.subrange(0, i + 1).drop_last() =~= sv.subrange(0, i as int));
        assert(sv.subrange(0, i + 1).last() == sv[i as int]);
        let lma = segs[i].lma;
        let len = segs[i].data.len();
        if len > 0 {
            if lma > u64::MAX - (len as u64) {
                proof {
                    lemma_bounds_prefix(sv, i + 1);
                }
                return Err(ImageError::TooLarge);
            }
            let end = lma + len as u64;
            if !have {
                lo = lma;
                hi = end;
                have = true;
            } else {
                if lma < lo {
                    lo = lma;
                }
                if end > hi {
                    hi = end;
                }
            }
        }
        i = i + 1;
    }
    assert(sv.subrange(0, i as int) =~= sv);
    if !have {
        Err(ImageError::NoLoadableSegments)
    } else {
        Ok((lo, hi))
    }
}

/// Lays the segments out in one flat image from the lowest segment address
/// to the highest segment end: empty segments are left out, gaps are zero,
/// and where segments overlap the later one wins.
pub fn image_from_segments(segs: &Vec<Segment>) -> (res: Result<(u64, Vec<u8>), ImageError>)
    ensures
        match res {
            Ok((base, out)) => flatten_segments(segments_view(segs@)) == Ok::<(u64, Seq<u8>), ImageError>((base, out@)),
            Err(e) => flatten_segments(segments_view(segs@)) == Err::<(u64, Seq<u8>), ImageError>(e),
        },
{
    let ghost sv = segments_view(segs@);
    let (base, end) = match image_bounds_exec(segs) {
        Ok(b) => b,
        Err(e) => {
            return Err(e);
        },
    };
    proof {
        lemma_bounds_ordered(sv);
    }
    let span = end - base;
    if span > usize::MAX as u64 {
        return Err(ImageError::TooLarge);
    }
    let len = span as usize;
    let mut out: Vec<u8> = Vec::new();
    let mut i: usize = 0;
    while i < len
        invariant
            i <= len,
            out.len() == i,
            forall|j: int| 0 <= j < i ==> out@[j] == 0u8,
        decreases len - i,
    {
        out.push(0u8);
        i = i + 1;
    }
    assert(out@ =~= Seq::new(len as nat, |j: int| image_byte(sv.subrange(0, 0), base + j)));
    let mut k: usize = 0;
    while k < segs.len()
        invariant
            k <= segs.len(),
            sv == segments_view(segs@),
            image_bounds(sv) == Some((base as int, end as int)),
            len == end - base,
            out.len() == len,
            forall|j: int| 0 <= j < len ==> out@[j] == image_byte(sv.subrange(0, k as int), base + j),
        decreases segs.len() - k,
    {
        let ghost prev = out@;
        assert(sv.subrange(0, k + 1).drop_last() =~= sv.subrange(0, k as int));
        assert(sv.subrange(0, k + 1).last() == sv[k as int]);
        let data = &segs[k].data;
        let n = data.len();
        if n > 0 {
            proof {
                lemma_bounds_contain(sv, k as int);
            }
            let off = (segs[k].lma - base) as usize;
            let mut j: usize = 0;
            while j < n
                invariant
                    j <= n,
                    n == data.len(),
                    off + n <= len,
                    out.len() == len,
                    forall|x: int| 0 <= x < len ==> out@[x] == (if off <= x < off + j {
                        data@[x - off]
                    } else {
                        prev[x]
                    }),
                decreases n - j,
            {
                out.set(off + j, data[j]);
                j = j + 1;
            }
        }
        k = k + 1;
    }
    assert(sv.subrange(0, k as int) =~= sv);
    assert(out@ =~= Seq::new(len as nat, |j: int| image_byte(sv, base + j)));
    Ok((base, out))
}

} // verus!

verus! {

/// `res` is the flat image of the ELF file `data`: the reader's error, or
/// the flattening of the segments it read.
pub open spec fn is_objectcopy_of(data: Seq<u8>, res: Result<(u64, Vec<u8>), ImageError>) -> bool {
    match elf32_load_segments(data) {
        Err(msg) => res matches Err(ImageError::Parse(m)) && m@ == msg,
        Ok(segs) => match flatten_segments(segs) {
            Ok((base, image)) => res matches Ok((b, out)) && b == base && out@ == image,
            Err(e) => res matches Err(e2) && e2 == e,
        },
    }
}

/// Copies the loadable segments of a 32-bit ELF file, at their physical
/// addresses, into one flat image; returns its base address and its bytes.
pub fn elf_objectcopy(data: &[u8]) -> (res: Result<(u64, Vec<u8>), ImageError>)
    ensures
        is_objectcopy_of(data@, res),
{
    match load_segments(data) {
        Err(m) => Err(ImageError::Parse(m)),
        Ok(segs) => image_from_segments(&segs),
    }
}

/// The check of an image against the flash configuration.
pub open spec fn validate_spec(base: u64, size: usize, conf_base: Option<u64>, conf_max_size: Option<
    u64,
>) -> Result<(), ImageError> {
    if conf_base matches Some(b) && base != b {
        Err(ImageError::BaseMismatch { was: base, expected: conf_base->0 })
    } else if conf_max_size matches Some(m) && size > (m as usize) {
        Err(ImageError::SizeTooLarge { size, max: conf_max_size->0 })
    } else {
        Ok(())
    }
}

/// Checks an image against the configured base address and maximum size.
pub fn validate_object(base: u64, size: usize, flash_conf: &FlashConf) -> (res: Result<(), ImageError>)
    ensures
        res == validate_spec(base, size, flash_conf.base, flash_conf.max_size),
        flash_conf.base is Some && base != flash_conf.base->0 ==> res == Err::<(), ImageError>(
            ImageError::BaseMismatch { was: base, expected: flash_conf.base->0 },
        ),
        res is Ok <==> (flash_conf.base is Some ==> base == flash_conf.base->0) && (flash_conf.max_size is Some
            ==> size <= (flash_conf.max_size->0 as usize)),
{
    if let Some(conf_base) = flash_conf.base {
        if base != conf_base {
            return Err(ImageError::BaseMismatch { was: base, expected: conf_base });
        }
    }
    if let Some(conf_max_size) = flash_conf.max_size {
        if size > conf_max_size as usize {
            return Err(ImageError::SizeTooLarge { size, max: conf_max_size });
        }
    }
    Ok(())
}

/// With a base address configured, only an image that starts exactly
/// there passes; any other start is refused with the address found and the
/// one expected, whatever the size.
pub proof fn law_validate_pins_base(base: u64, size: usize, conf_base: u64, conf_max_size: Option<u64>)
    ensures
        validate_spec(base, size, Some(conf_base), conf_max_size) is Ok ==> base == conf_base,
        base != conf_base ==> validate_spec(base, size, Some(conf_base), conf_max_size) == Err::<(), ImageError>(
            ImageError::BaseMismatch { was: base, expected: conf_base },
        ),
{
}

/// With a maximum size configured, an image that passes is no larger than
/// it, and one that starts where configured but is larger is refused with
/// its size and the maximum.
pub proof fn law_validate_bounds_size(base: u64, size: usize, conf_base: Option<u64>, max: u64)
    ensures
        validate_spec(base, size, conf_base, Some(max)) is Ok ==> size <= (max as usize),
        (conf_base is None || conf_base == Some(base)) && size > (max as usize) ==> validate_spec(
            base,
            size,
            conf_base,
            Some(max),
        ) == Err::<(), ImageError>(ImageError::SizeTooLarge { size, max }),
{
}

/// Without a configured base or maximum size every image passes; where the
/// image starts at the configured base and fits the configured maximum, it
/// passes too.
pub proof fn law_validate_accepts_conforming(base: u64, size: usize, conf_base: Option<u64>, conf_max_size: Option<
    u64,
>)
    requires
        conf_base is None || conf_base == Some(base),
        conf_max_size is None || size <= (conf_max_size->0 as usize),
    ensures
        validate_spec(base, size, conf_base, conf_max_size) == Ok::<(), ImageError>(()),
{
}

} // verus!
