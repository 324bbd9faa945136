use vstd::prelude::*;

use std::collections::BTreeMap;

use defmt_decoder::{Location, Table};

verus! {

/// What the host's stream decoder gave for the log bytes received so far.
#[derive(Clone, Copy, Debug, PartialEq, Eq, Structural)]
pub enum DecodeOutcome {
    /// A complete frame.
    Frame,
    /// The bytes end inside a frame.
    UnexpectedEof,
    /// The bytes do not form a frame.
    Malformed,
}

/// What the log viewer does next.
#[derive(Clone, Copy, Debug, PartialEq, Eq, Structural)]
pub enum DecodeStep {
    /// Print the frame and decode on.
    Forward,
    /// Wait for more bytes from the target.
    AwaitData,
    /// Skip the broken frame and decode on.
    SkipFrame,
    /// Stop with an error: the encoding cannot find the next frame.
    Abort,
}

/// The step for each decoder outcome.
pub open spec fn decode_step_spec(outcome: DecodeOutcome, can_recover: bool) -> DecodeStep {
    match outcome {
        DecodeOutcome::Frame => DecodeStep::Forward,
        DecodeOutcome::UnexpectedEof => DecodeStep::AwaitData,
        DecodeOutcome::Malformed => if can_recover {
            DecodeStep::SkipFrame
        } else {
            DecodeStep::Abort
        },
    }
}

/// Decides what to do with a decoder outcome: a malformed frame is skipped
/// when the log encoding can recover from it (a framed encoding), and ends
/// the viewer otherwise.
pub fn decode_step(outcome: DecodeOutcome, can_recover: bool) -> (s: DecodeStep)
    ensures
        s == decode_step_spec(outcome, can_recover),
        outcome == DecodeOutcome::Frame ==> s == DecodeStep::Forward,
        outcome == DecodeOutcome::UnexpectedEof ==> s == DecodeStep::AwaitData,
        outcome == DecodeOutcome::Malformed ==> (s == DecodeStep::SkipFrame <==> can_recover) && (s
            == DecodeStep::Abort <==> !can_recover),
{
    match outcome {
        DecodeOutcome::Frame => DecodeStep::Forward,
        DecodeOutcome::UnexpectedEof => DecodeStep::AwaitData,
        DecodeOutcome::Malformed => if can_recover {
            DecodeStep::SkipFrame
        } else {
            DecodeStep::Abort
        },
    }
}

/// Every index in `indices` is among `known`.
pub open spec fn covers(indices: Seq<u64>, known: Seq<u64>) -> bool {
    forall|i: int| 0 <= i < indices.len() ==> known.contains(#[trigger] indices[i])
}

/// Every index in `indices` has an entry among `keys`.
pub open spec fn has_every_location(keys: Set<u64>, indices: Seq<u64>) -> bool {
    forall|i: int| 0 <= i < indices.len() ==> keys.contains(#[trigger] indices[i])
}

/// Whether the source locations read from the image cover every log
/// message index of its table; only then are locations shown.
pub fn locations_cover(indices: &Vec<u64>, known: &Vec<u64>) -> (b: bool)
    ensures
        b == covers(indices@, known@),
{
    let mut i: usize = 0;
    while i < indices.len()
        invariant
            i <= indices.len(),
            forall|j: int| 0 <= j < i ==> known@.contains(#[trigger] indices@[j]),
        decreases indices.len() - i,
    {
        let idx = indices[i];
        let mut found = false;
        let mut k: usize = 0;
        while k < known.len()
            invariant
                k <= known.len(),
                found == (exists|m: int| 0 <= m < k && known@[m] == idx),
            decreases known.len() - k,
        {
            if known[k] == idx {
                found = true;
            }
            k = k + 1;
        }
        if !found {
            assert(!known@.contains(indices@[i as int]));
            return false;
        }
        i = i + 1;
    }
    true
}

#[verifier::external_type_specification]
#[verifier::external_body]
pub struct ExTable(defmt_decoder::Table);

#[verifier::external_type_specification]
#[verifier::external_body]
pub struct ExLocation(defmt_decoder::Location);

/// What the log viewer needs to know of a firmware image's defmt table: the
/// indices of its log messages, the indices it has source locations for,
/// and whether its encoding can recover from a malformed frame; `None`
/// where the image holds no defmt table; the reader's message where
/// reading fails.
pub uninterp spec fn defmt_table_summary(elf: Seq<u8>) -> Result<Option<(Seq<u64>, Seq<u64>, bool)>, Seq<char>>;

/// The named summary of `elf` is the one that `t` lists.
spec fn summary_of(elf: Seq<u8>, t: LogTable) -> bool {
    defmt_table_summary(elf) == Ok::<Option<(Seq<u64>, Seq<u64>, bool)>, Seq<char>>(
        Some((t.indices@, t.known@, t.can_recover)),
    )
}

/// A defmt table read from an image, with its source locations and what
/// the viewer decides on.
struct LogTable {
    table: Table,
    locations: BTreeMap<u64, Location>,
    indices: Vec<u64>,
    known: Vec<u64>,
    can_recover: bool,
}

/// Reads the defmt table of an image with `defmt_decoder::Table::parse`
/// and its source locations with `Table::get_locations`, and lists the
/// table's message indices (`Table::indices`), the indices that have a
/// location (the keys of the locations) and `Encoding::can_recover` of the
/// table's encoding; an error of either read becomes its message. Claimed:
/// the listed values are the named function of `elf`.
#[verifier::external_body]
fn read_log_table(elf: &[u8]) -> (r: Result<Option<LogTable>, String>)
    ensures
        match r {
            Err(m) => defmt_table_summary(elf@) == Err::<Option<(Seq<u64>, Seq<u64>, bool)>, Seq<char>>(m@),
            Ok(None) => defmt_table_summary(elf@) == Ok::<Option<(Seq<u64>, Seq<u64>, bool)>, Seq<char>>(None),
            Ok(Some(t)) => summary_of(elf@, t) && t.locations@.dom() == t.known@.to_set(),
        },
{
    let table = match Table::parse(elf) {
        Ok(Some(table)) => table,
        Ok(None) => return Ok(None),
        Err(e) => return Err(format!("{}", e)),
    };
    let locations = match table.get_locations(elf) {
        Ok(locations) => locations,
        Err(e) => return Err(format!("{}", e)),
    };
    let indices: Vec<u64> = table.indices().map(|idx| idx as u64).collect();
    let known: Vec<u64> = locations.keys().copied().collect();
    let can_recover = table.encoding().can_recover();
    Ok(Some(LogTable { table, locations, indices, known, can_recover }))
}

/// What the log viewer works with: the defmt table, the source locations
/// if they cover every message, and whether decoding can recover from a
/// malformed frame.
pub struct LogView {
    pub table: Table,
    pub locations: Option<BTreeMap<u64, Location>>,
    pub can_recover: bool,
}

/// Sets the log viewer up from a firmware image: its defmt table (an image
/// without one is an error), its source locations (kept only if they cover
/// every log message), and whether a malformed frame can be skipped.
pub fn log_view_setup(elf: &[u8]) -> (r: Result<LogView, String>)
    ensures
        match defmt_table_summary(elf@) {
            Err(m) => r matches Err(e) && e@ == m,
            Ok(None) => r matches Err(e) && e@ == ".defmt data not found"@,
            Ok(Some((indices, known, can_recover))) => r matches Ok(v) && v.can_recover == can_recover && (
            v.locations is Some <==> covers(indices, known)) && (v.locations matches Some(l) ==> l@.dom()
                == known.to_set() && has_every_location(l@.dom(), indices)),
        },
{
    match read_log_table(elf) {
        Err(m) => Err(m),
        Ok(None) => {
            let m = ".defmt data not found".to_owned();
            assert(m@ == ".defmt data not found"@);
            Err(m)
        },
        Ok(Some(t)) => {
            let covered = locations_cover(&t.indices, &t.known);
            let locations = if covered {
                Some(t.locations)
            } else {
                None
            };
            let v = LogView { table: t.table, locations, can_recover: t.can_recover };
            Ok(v)
        },
    }
}

/// Decoding goes by the outcome alone, but for a malformed frame: every
/// complete frame is forwarded and an unfinished one waits for data,
/// whatever the encoding; a malformed frame is skipped exactly when the
/// encoding can recover, and ends the viewer otherwise; nothing else is
/// forwarded.
pub proof fn law_decode_step(outcome: DecodeOutcome, c1: bool, c2: bool)
    ensures
        decode_step_spec(DecodeOutcome::Frame, c1) == DecodeStep::Forward,
        decode_step_spec(DecodeOutcome::UnexpectedEof, c1) == DecodeStep::AwaitData,
        outcome != DecodeOutcome::Malformed ==> decode_step_spec(outcome, c1) == decode_step_spec(outcome, c2),
        decode_step_spec(outcome, c1) == DecodeStep::Forward <==> outcome == DecodeOutcome::Frame,
        decode_step_spec(DecodeOutcome::Malformed, c1) == (if c1 {
            DecodeStep::SkipFrame
        } else {
            DecodeStep::Abort
        }),
{
}

/// Locations whose keys are the indices that have one, and that cover the
/// table's messages, hold a location for every message.
pub proof fn law_kept_locations_cover_messages(keys: Set<u64>, indices: Seq<u64>, known: Seq<u64>)
    requires
        keys == known.to_set(),
        covers(indices, known),
    ensures
        has_every_location(keys, indices),
{
    assert forall|i: int| 0 <= i < indices.len() implies keys.contains(#[trigger] indices[i]) by {
        assert(known.contains(indices[i]));
        assert(known.to_set().contains(indices[i]));
    }
}

} // verus!
