use vstd::prelude::*;

use crate::protocol::{CHUNK_SIZE, Header, SpecHeader};

verus! {

/// Why a request was not carried out.
#[derive(Clone, Copy, Debug, PartialEq, Eq, Structural)]
pub enum Warning {
    /// A chunk arrived before the running firmware was validated.
    ChunkNotValidated,
    /// An apply request arrived before the running firmware was validated.
    ApplyNotValidated,
    /// The digest of the written image differs from the announced one.
    HashMismatch,
    /// A header with an unknown type (or an oversized chunk) arrived.
    InvalidHeader(u8),
}

/// What the device does next, as decided by the firmware manager.
#[derive(Debug)]
pub enum Action {
    /// Nothing to do; wait for the next header.
    Nothing,
    /// Mark the running firmware as booted in the boot state.
    MarkBooted,
    /// Read the `size` data bytes that follow a chunk header, then hand them
    /// to `on_chunk` with `offset`.
    ReadChunk { offset: usize, size: usize },
    /// Write `block` (always `CHUNK_SIZE` bytes) at `offset` of the update
    /// partition.
    WriteFirmware { offset: usize, block: Vec<u8> },
    /// Hash the first `length` bytes of the update partition and hand the
    /// digest to `on_hash` together with `expected`.
    HashFirmware { length: u32, expected: [u8; 32] },
    /// Mark the update partition for swapping and reset into it.
    ApplyUpdate,
    /// Reset the device.
    Reset,
    /// Log the warning and wait for the next header.
    Warn(Warning),
}

/// The mathematical value of an action: blocks and digests are sequences.
pub enum SpecAction {
    Nothing,
    MarkBooted,
    ReadChunk { offset: usize, size: usize },
    WriteFirmware { offset: usize, block: Seq<u8> },
    HashFirmware { length: u32, expected: Seq<u8> },
    ApplyUpdate,
    Reset,
    Warn(Warning),
}

impl View for Action {
    type V = SpecAction;

    open spec fn view(&self) -> SpecAction {
        match self {
            Action::Nothing => SpecAction::Nothing,
            Action::MarkBooted => SpecAction::MarkBooted,
            Action::ReadChunk { offset, size } => SpecAction::ReadChunk { offset: *offset, size: *size },
            Action::WriteFirmware { offset, block } => SpecAction::WriteFirmware { offset: *offset, block: block@ },
            Action::HashFirmware { length, expected } => SpecAction::HashFirmware {
                length: *length,
                expected: expected@,
            },
            Action::ApplyUpdate => SpecAction::ApplyUpdate,
            Action::Reset => SpecAction::Reset,
            Action::Warn(w) => SpecAction::Warn(*w),
        }
    }
}

/// What a header asks of a device whose firmware is `validated` or not.
pub open spec fn header_decision(validated: bool, h: SpecHeader) -> SpecAction {
    match h {
        SpecHeader::Validate => if validated {
            SpecAction::Nothing
        } else {
            SpecAction::MarkBooted
        },
        SpecHeader::Chunk { offset, size } => SpecAction::ReadChunk { offset, size },
        SpecHeader::Apply { size, hash } => if validated {
            SpecAction::HashFirmware { length: size as u32, expected: hash }
        } else {
            SpecAction::Warn(Warning::ApplyNotValidated)
        },
        SpecHeader::Reset => SpecAction::Reset,
        SpecHeader::Invalid(t) => SpecAction::Warn(Warning::InvalidHeader(t)),
    }
}

/// A chunk's data padded with zeros to a full chunk.
pub open spec fn padded_block(data: Seq<u8>) -> Seq<u8> {
    data + Seq::new((CHUNK_SIZE - data.len()) as nat, |i: int| 0u8)
}

/// What the device does with the data of a chunk.
pub open spec fn chunk_decision(validated: bool, offset: usize, data: Seq<u8>) -> SpecAction {
    if validated {
        SpecAction::WriteFirmware { offset, block: padded_block(data) }
    } else {
        SpecAction::Warn(Warning::ChunkNotValidated)
    }
}

/// Whether the written image may be applied.
pub open spec fn hash_decision(local: Seq<u8>, expected: Seq<u8>) -> SpecAction {
    if local == expected {
        SpecAction::ApplyUpdate
    } else {
        SpecAction::Warn(Warning::HashMismatch)
    }
}

/// The decisions of the device-side firmware update service: it only
/// writes and applies firmware once the running firmware was validated.
pub struct FirmwareManager {
    validated: bool,
}

impl FirmwareManager {
    pub closed spec fn is_validated(&self) -> bool {
        self.validated
    }

    /// A manager for a device whose boot state is `swap_pending` (the
    /// running firmware was just swapped in and awaits validation) or not.
    pub fn new(swap_pending: bool) -> (m: FirmwareManager)
        ensures
            m.is_validated() == !swap_pending,
    {
        let validated = if swap_pending {
            false
        } else {
            true
        };
        FirmwareManager { validated }
    }

    pub fn validated(&self) -> (v: bool)
        ensures
            v == self.is_validated(),
    {
        self.validated
    }

    /// Decides what a received header asks of the device.
    pub fn on_header(&mut self, header: &Header) -> (a: Action)
        ensures
            final(self).is_validated() == (old(self).is_validated() || header is Validate),
            a@ == header_decision(old(self).is_validated(), header@),
            header is Reset ==> a is Reset,
            a is Reset ==> header is Reset,
    {
        match *header {
            Header::Validate => {
                if !self.validated {
                    self.validated = true;
                    Action::MarkBooted
                } else {
                    Action::Nothing
                }
            },
            Header::Chunk { offset, size } => Action::ReadChunk { offset, size },
            Header::Apply { size, hash } => {
                if !self.validated {
                    Action::Warn(Warning::ApplyNotValidated)
                } else {
                    Action::HashFirmware { length: size as u32, expected: hash }
                }
            },
            Header::Reset => Action::Reset,
            Header::Invalid(t) => Action::Warn(Warning::InvalidHeader(t)),
        }
    }

    /// Decides what to do with the data of a chunk once it has been read:
    /// the data padded with zeros to a full chunk is written, if the running
    /// firmware is validated.
    pub fn on_chunk(&self, offset: usize, data: &[u8]) -> (a: Action)
        requires
            data.len() <= CHUNK_SIZE,
        ensures
            a@ == chunk_decision(self.is_validated(), offset, data@),
    {
        if !self.validated {
            return Action::Warn(Warning::ChunkNotValidated);
        }
        let mut block: Vec<u8> = Vec::new();
        let mut i: usize = 0;
        while i < CHUNK_SIZE
            invariant
                i <= CHUNK_SIZE,
                data.len() <= CHUNK_SIZE,
                block.len() == i,
                forall|j: int| 0 <= j < i ==> block@[j] == (if j < data.len() { data@[j] } else { 0u8 }),
            decreases CHUNK_SIZE - i,
        {
            if i < data.len() {
                block.push(data[i]);
            } else {
                block.push(0u8);
            }
            i = i + 1;
        }
        assert(block@ =~= padded_block(data@));
        Action::WriteFirmware { offset, block }
    }

    /// Decides whether a written image whose digest is `local` may be
    /// applied for an apply request that announced `expected`.
    pub fn on_hash(&self, local: &[u8; 32], expected: &[u8; 32]) -> (a: Action)
        ensures
            a@ == hash_decision(local@, expected@),
    {
        let mut i: usize = 0;
        while i < 32
            invariant
                i <= 32,
                forall|j: int| 0 <= j < i ==> local@[j] == expected@[j],
            decreases 32 - i,
        {
            if local[i] != expected[i] {
                return Action::Warn(Warning::HashMismatch);
            }
            i = i + 1;
        }
        assert(local@ =~= expected@);
        Action::ApplyUpdate
    }
}

/// A reset header resets the device whatever its validation state; it is
/// the only header that does.
pub proof fn law_reset_always_resets(validated: bool, h: SpecHeader)
    ensures
        header_decision(validated, SpecHeader::Reset) == SpecAction::Reset,
        header_decision(validated, h) is Reset <==> h is Reset,
{
}

} // verus!
