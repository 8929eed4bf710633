//! The log of conventional firmware: every record carries one SHA-1 digest
//! of fixed length, and no record declares algorithms.

use crate::bytes::{fits, le_u32_at, read_bytes, read_u32, read_u64};
use crate::eventlog::{
    header_at, prepend, truncated, DecodeError, Framing, Terminator, STOP_ONES, STOP_ZEROS,
};
use crate::registry::{event_type_label, event_type_name};
use vstd::prelude::*;

verus! {

/// The length of the digest of every record.
pub const SHA1_DIGEST_SIZE: usize = 20;

/// One measured event.
#[derive(Clone, Debug)]
pub struct BiosEventlogEntry {
    /// The register that the event extends.
    pub pcr_index: u32,
    /// The label of the event type.
    pub event_type: String,
    /// The SHA-1 digest of what was measured.
    pub digest: Vec<u8>,
    /// The data of the event, uninterpreted.
    pub event_data: Vec<u8>,
}

/// What a `BiosEventlogEntry` holds.
pub struct BiosEntryView {
    pub pcr_index: u32,
    pub event_type: Seq<char>,
    pub digest: Seq<u8>,
    pub event_data: Seq<u8>,
}

impl View for BiosEventlogEntry {
    type V = BiosEntryView;

    open spec fn view(&self) -> BiosEntryView {
        BiosEntryView {
            pcr_index: self.pcr_index,
            event_type: self.event_type@,
            digest: self.digest@,
            event_data: self.event_data@,
        }
    }
}

/// The views of the entries of `entries`, in order.
pub open spec fn bios_entry_views(entries: Seq<BiosEventlogEntry>) -> Seq<BiosEntryView> {
    Seq::new(entries.len(), |i: int| entries[i]@)
}

/// A decoded log: its entries in the order of the buffer.
#[derive(Clone, Debug)]
pub struct BiosEventlog {
    pub log: Vec<BiosEventlogEntry>,
}

impl View for BiosEventlog {
    type V = Seq<BiosEntryView>;

    open spec fn view(&self) -> Seq<BiosEntryView> {
        bios_entry_views(self.log@)
    }
}

/// The framing of the stop flag, which this log shares.
pub open spec fn stop_flag() -> Framing {
    Framing { terminator: Terminator::StopFlag, reserved_header: true }
}

/// The entry of the record that starts at `at` with the register index
/// `register` and the event type `event_type`, and the place where the
/// record ends: from `at + 8` on, the digest, the length of the data and
/// the data.
pub open spec fn bios_record_at(data: Seq<u8>, at: int, register: u32, event_type: u32) -> Result<
    (BiosEntryView, int),
    DecodeError,
> {
    let size_at = at + 8 + SHA1_DIGEST_SIZE;
    if !fits(data, at + 8, SHA1_DIGEST_SIZE as int) {
        Err(truncated(at + 8))
    } else if !fits(data, size_at, 4) {
        Err(truncated(size_at))
    } else if !fits(data, size_at + 4, le_u32_at(data, size_at) as int) {
        Err(truncated(size_at + 4))
    } else {
        let end = size_at + 4 + le_u32_at(data, size_at);
        Ok(
            (
                BiosEntryView {
                    pcr_index: register,
                    event_type: event_type_label(event_type),
                    digest: data.subrange(at + 8, size_at),
                    event_data: data.subrange(size_at + 4, end),
                },
                end,
            ),
        )
    }
}

/// The entries of the records from `at` on. The log ends at the end of the
/// buffer or at the first stop flag, whichever comes first.
pub open spec fn bios_entries_from(data: Seq<u8>, at: int) -> Result<
    Seq<BiosEntryView>,
    DecodeError,
>
    decreases data.len() - at,
{
    if at < 0 || at >= data.len() {
        Ok(Seq::empty())
    } else {
        match header_at(data, at, stop_flag()) {
            Err(e) => Err(e),
            Ok(None) => Ok(Seq::empty()),
            Ok(Some((register, event_type))) => {
                match bios_record_at(data, at, register, event_type) {
                    Err(e) => Err(e),
                    Ok((entry, next)) => match bios_entries_from(data, next) {
                        Err(e) => Err(e),
                        Ok(rest) => Ok(seq![entry] + rest),
                    },
                }
            },
        }
    }
}

/// What a buffer decodes to: its entries where every record is whole, else
/// the error of the first record that is not.
pub open spec fn bios_decode_model(data: Seq<u8>) -> Result<Seq<BiosEntryView>, DecodeError> {
    bios_entries_from(data, 0)
}

/// Whether `r` is what decoding `data` gives.
pub open spec fn bios_decodes_to(data: Seq<u8>, r: Result<BiosEventlog, DecodeError>) -> bool {
    match bios_decode_model(data) {
        Ok(entries) => r matches Ok(log) && log@ == entries,
        Err(e) => r matches Err(err) && err == e,
    }
}

/// Reads the record that starts at `at`: nothing where it ends the log, else
/// its entry and the place where it ends.
fn read_record(data: &[u8], at: usize) -> (r: Result<Option<(BiosEventlogEntry, usize)>, DecodeError>)
    requires
        at <= data.len(),
    ensures
        match header_at(data@, at as int, stop_flag()) {
            Err(e) => r matches Err(err) && err == e,
            Ok(None) => r matches Ok(None),
            Ok(Some((register, event_type))) => match bios_record_at(
                data@,
                at as int,
                register,
                event_type,
            ) {
                Err(e) => r matches Err(err) && err == e,
                Ok((entry, next)) => r matches Ok(Some((read, end))) && read@ == entry && end
                    == next && at < next <= data.len(),
            },
        },
{
    let stop = match read_u64(data, at) {
        Some(stop) => stop,
        None => {
            return Err(DecodeError::Truncated { offset: at });
        },
    };
    if stop == STOP_ONES || stop == STOP_ZEROS {
        return Ok(None);
    }
    let (pcr_index, event_type) = match (read_u32(data, at), read_u32(data, at + 4)) {
        (Some(pcr_index), Some(event_type)) => (pcr_index, event_type),
        _ => {
            return Err(DecodeError::Truncated { offset: at });
        },
    };
    let digest = match read_bytes(data, at + 8, SHA1_DIGEST_SIZE) {
        Some(digest) => digest,
        None => {
            return Err(DecodeError::Truncated { offset: at + 8 });
        },
    };
    let size_at = at + 8 + SHA1_DIGEST_SIZE;
    let size = match read_u32(data, size_at) {
        Some(size) => size as usize,
        None => {
            return Err(DecodeError::Truncated { offset: size_at });
        },
    };
    let event_data = match read_bytes(data, size_at + 4, size) {
        Some(event_data) => event_data,
        None => {
            return Err(DecodeError::Truncated { offset: size_at + 4 });
        },
    };
    let entry = BiosEventlogEntry {
        pcr_index,
        event_type: event_type_name(event_type),
        digest,
        event_data,
    };
    Ok(Some((entry, size_at + 4 + size)))
}

impl BiosEventlog {
    /// Decodes a buffer.
    ///
    /// Gives every entry of the log in the order of the buffer, or the
    /// first error met and no entry at all. The buffer is only read.
    pub fn decode(data: &[u8]) -> (r: Result<BiosEventlog, DecodeError>)
        ensures
            bios_decodes_to(data@, r),
    {
        let mut at: usize = 0;
        let mut log: Vec<BiosEventlogEntry> = Vec::new();
        while at < data.len()
            invariant
                at <= data.len(),
                bios_decode_model(data@) == prepend(
                    bios_entry_views(log@),
                    bios_entries_from(data@, at as int),
                ),
            decreases data.len() - at,
        {
            let ghost before = bios_entry_views(log@);
            let (entry, next) = match read_record(data, at)? {
                Some(record) => record,
                None => {
                    proof {
                        assert(before + Seq::<BiosEntryView>::empty() =~= before);
                    }
                    return Ok(BiosEventlog { log });
                },
            };
            let ghost rest = bios_entries_from(data@, next as int);
            log.push(entry);
            proof {
                assert(bios_entry_views(log@) =~= before.push(entry@));
                match rest {
                    Ok(items) => {
                        assert(before + (seq![entry@] + items) =~= before.push(entry@) + items);
                    },
                    Err(_) => {},
                }
            }
            at = next;
        }
        proof {
            assert(bios_entry_views(log@) + Seq::<BiosEntryView>::empty() =~= bios_entry_views(
                log@,
            ));
        }
        Ok(BiosEventlog { log })
    }
}

impl TryFrom<Vec<u8>> for BiosEventlog {
    type Error = DecodeError;

    /// Decodes a buffer that the caller hands over.
    fn try_from(data: Vec<u8>) -> (r: Result<BiosEventlog, DecodeError>)
        ensures
            bios_decodes_to(data@, r),
    {
        BiosEventlog::decode(data.as_slice())
    }
}

/// The conversion is specified by `bios_decodes_to`, which speaks of the
/// entries that a result holds and not of the vectors that hold them.
impl vstd::std_specs::convert::TryFromSpecImpl<Vec<u8>> for BiosEventlog {
    open spec fn obeys_try_from_spec() -> bool {
        false
    }

    open spec fn try_from_spec(data: Vec<u8>) -> Result<BiosEventlog, DecodeError> {
        arbitrary()
    }
}

/// Decoding is a function of the buffer: two decodings of the same buffer
/// end alike, in the same error or in the same entries.
pub proof fn lemma_bios_decode_deterministic(
    data: Seq<u8>,
    first: Result<BiosEventlog, DecodeError>,
    second: Result<BiosEventlog, DecodeError>,
)
    requires
        bios_decodes_to(data, first),
        bios_decodes_to(data, second),
    ensures
        first is Ok <==> second is Ok,
        first matches Ok(a) ==> second matches Ok(b) && a@ == b@,
        first matches Err(a) ==> second matches Err(b) && a == b,
{
}

} // verus!
