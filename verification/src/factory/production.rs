//! Production: extractors mine one ore per 60 ticks with a free output;
//! processors turn one ore into one plate in 120 ticks of work.
use vstd::prelude::*;

use crate::factory::{Item, Kind, Slots, Structure};

verus! {

/// Ticks an extractor needs per ore.
pub const EXTRACTION_TICKS: u32 = 60;

/// Work ticks a processor needs per plate.
pub const PROCESSING_TICKS: u32 = 120;

/// Work counters within their ranges.
pub open spec fn counters_valid(s: Structure) -> bool {
    s.progress < EXTRACTION_TICKS && s.remaining <= PROCESSING_TICKS
}

/// An extractor's step: with a free output it counts a tick, and on the
/// sixtieth it puts out one ore and counts it as extracted.
pub open spec fn extracted_step(s: Structure, extracted: u64) -> Option<(Structure, u64)> {
    if s.slots.output is Some {
        Some((s, extracted))
    } else if s.progress + 1 == EXTRACTION_TICKS {
        if extracted + 1 > u64::MAX {
            None
        } else {
            Some(
                (
                    Structure {
                        slots: Slots { input: s.slots.input, in_process: s.slots.in_process, output: Some(Item::Ore) },
                        progress: 0,
                        ..s
                    },
                    (extracted + 1) as u64,
                ),
            )
        }
    } else {
        Some((Structure { progress: (s.progress + 1) as u32, ..s }, extracted))
    }
}

/// A processor's work on its batch: a tick of work, and a finished batch
/// moves to a free output as a plate.
pub open spec fn worked(s: Structure) -> Structure {
    if s.slots.in_process is Some {
        let left = if s.remaining > 0 {
            (s.remaining - 1) as u32
        } else {
            0u32
        };
        if left == 0 && s.slots.output is None {
            Structure {
                slots: Slots { input: s.slots.input, in_process: None, output: Some(Item::Plate) },
                remaining: 0,
                ..s
            }
        } else {
            Structure { remaining: left, ..s }
        }
    } else {
        s
    }
}

/// A processor starting a new batch from a queued ore, once its batch slot
/// is free.
pub open spec fn started(s: Structure) -> Structure {
    if s.slots.in_process is None && s.slots.input == Some(Item::Ore) {
        Structure {
            slots: Slots { input: None, in_process: Some(Item::Ore), output: s.slots.output },
            remaining: PROCESSING_TICKS,
            ..s
        }
    } else {
        s
    }
}

/// One production step of `s`, with the extracted count, or `None` when
/// that count would overflow.
pub open spec fn produced(s: Structure, extracted: u64) -> Option<(Structure, u64)> {
    match s.kind {
        Kind::Extractor => extracted_step(s, extracted),
        Kind::Processor => Some((started(worked(s)), extracted)),
        _ => Some((s, extracted)),
    }
}

/// Runs one production step of `s`; `None` when the extracted count would
/// overflow.
pub fn produce(s: Structure, extracted: u64) -> (r: Option<(Structure, u64)>)
    requires
        counters_valid(s),
    ensures
        r == produced(s, extracted),
        r matches Some(p) ==> counters_valid(p.0),
        r matches Some(p) ==> p.0.slots.count() + extracted == s.slots.count() + p.1,
{
    let mut s = s;
    match s.kind {
        Kind::Extractor => {
            if s.slots.output.is_none() {
                s.progress = s.progress + 1;
                if s.progress == EXTRACTION_TICKS {
                    let count = match extracted.checked_add(1) {
                        Some(c) => c,
                        None => {
                            return None;
                        },
                    };
                    s.slots.output = Some(Item::Ore);
                    s.progress = 0;
                    return Some((s, count));
                }
            }
            Some((s, extracted))
        },
        Kind::Processor => {
            if s.slots.in_process.is_some() {
                if s.remaining > 0 {
                    s.remaining = s.remaining - 1;
                }
                if s.remaining == 0 && s.slots.output.is_none() {
                    s.slots.in_process = None;
                    s.slots.output = Some(Item::Plate);
                }
            }
            if s.slots.in_process.is_none() && s.slots.input == Some(Item::Ore) {
                s.slots.input = None;
                s.slots.in_process = Some(Item::Ore);
                s.remaining = PROCESSING_TICKS;
            }
            Some((s, extracted))
        },
        _ => Some((s, extracted)),
    }
}

} // verus!
