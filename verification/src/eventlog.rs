//! The crypto-agile measurement log: its entries and how a buffer decodes
//! into them.
//!
//! A log is a run of records. A record starts with the index of the register
//! it extends and the identifier of its event type. The record of the
//! declaration type carries a table of digest algorithms and their lengths
//! and leaves no entry; every other record carries at least one digest, of
//! the length that the table gives for its algorithm, and a description.

use crate::bytes::{
    fits, le_u16_at, le_u32_at, le_u64_at, read_bytes, read_u16, read_u32, read_u64, read_u8,
    u16_field, u32_field,
};
use crate::registry::{
    algorithm_label, algorithm_name, event_type_label, event_type_name, EV_NO_ACTION,
};
use std::collections::HashMap;
use vstd::prelude::*;

verus! {

broadcast use vstd::std_specs::hash::group_hash_axioms;

/// The number of bytes between the event type of a declaration record and
/// its count of algorithms.
pub const RESERVED_HEADER_LEN: usize = 48;

/// The register index that ends a sentinel-terminated log.
pub const SENTINEL: u32 = 0xFFFF_FFFF;

/// The eight-byte value of all ones, which ends a stop-flag log.
pub const STOP_ONES: u64 = 0xFFFF_FFFF_FFFF_FFFF;

/// The eight-byte value of all zeros, which ends a stop-flag log too.
pub const STOP_ZEROS: u64 = 0;

/// One digest of an entry.
#[derive(Clone, Debug)]
pub struct ElDigest {
    /// The label of the digest algorithm.
    pub algorithm: String,
    /// The digest value.
    pub digest: Vec<u8>,
}

/// What an `ElDigest` holds.
pub struct DigestView {
    pub algorithm: Seq<char>,
    pub digest: Seq<u8>,
}

impl View for ElDigest {
    type V = DigestView;

    open spec fn view(&self) -> DigestView {
        DigestView { algorithm: self.algorithm@, digest: self.digest@ }
    }
}

/// One measured event.
#[derive(Clone, Debug)]
pub struct EventlogEntry {
    /// The register that the event extends.
    pub target_measurement_registry: u32,
    /// The identifier of the event type.
    pub event_type_id: u32,
    /// The label of the event type.
    pub event_type: String,
    /// One digest for each algorithm of the log; the first is the one that
    /// replay extends with.
    pub digests: Vec<ElDigest>,
    /// The description of the event, uninterpreted.
    pub event_desc: Vec<u8>,
}

/// What an `EventlogEntry` holds.
pub struct EntryView {
    pub target_measurement_registry: u32,
    pub event_type_id: u32,
    pub event_type: Seq<char>,
    pub digests: Seq<DigestView>,
    pub event_desc: Seq<u8>,
}

/// The views of the digests of `digests`, in order.
pub open spec fn digest_views(digests: Seq<ElDigest>) -> Seq<DigestView> {
    Seq::new(digests.len(), |i: int| digests[i]@)
}

/// The views of the entries of `entries`, in order.
pub open spec fn entry_views(entries: Seq<EventlogEntry>) -> Seq<EntryView> {
    Seq::new(entries.len(), |i: int| entries[i]@)
}

impl View for EventlogEntry {
    type V = EntryView;

    open spec fn view(&self) -> EntryView {
        EntryView {
            target_measurement_registry: self.target_measurement_registry,
            event_type_id: self.event_type_id,
            event_type: self.event_type@,
            digests: digest_views(self.digests@),
            event_desc: self.event_desc@,
        }
    }
}

/// Whether every entry has a digest.
pub open spec fn all_have_digest(entries: Seq<EntryView>) -> bool {
    forall|i: int| 0 <= i < entries.len() ==> (#[trigger] entries[i]).digests.len() > 0
}

/// Whether no entry has the event type of a declaration.
pub open spec fn none_is_declaration(entries: Seq<EntryView>) -> bool {
    forall|i: int| 0 <= i < entries.len() ==> (#[trigger] entries[i]).event_type_id != EV_NO_ACTION
}

/// A decoded log: its entries in the order of the buffer. Every entry of a
/// log that `decode` gives has a digest, and none is a declaration.
#[derive(Clone, Debug)]
pub struct Eventlog {
    pub log: Vec<EventlogEntry>,
}

impl View for Eventlog {
    type V = Seq<EntryView>;

    open spec fn view(&self) -> Seq<EntryView> {
        entry_views(self.log@)
    }
}

/// Why a buffer does not decode.
#[derive(Clone, Copy, Debug, PartialEq, Eq, Structural)]
pub enum DecodeError {
    /// The buffer ends before the end of the field that starts at `offset`.
    Truncated { offset: usize },
    /// A digest names an algorithm whose length no declaration has given.
    UnknownAlgorithmDigestLength { algorithm_id: u16 },
    /// The count of digests at `offset` is zero: the record measures nothing.
    MissingDigest { offset: usize },
}

/// How the end of a log is marked.
#[derive(Clone, Copy, Debug, PartialEq, Eq, Structural)]
pub enum Terminator {
    /// The eight bytes at the start of a record are all ones or all zeros.
    StopFlag,
    /// The register index of a record is `SENTINEL`.
    Sentinel,
}

/// The shape of a log.
#[derive(Clone, Copy, Debug, PartialEq, Eq, Structural)]
pub struct Framing {
    /// How the end of the log is marked.
    pub terminator: Terminator,
    /// Whether a reserved header of `RESERVED_HEADER_LEN` bytes precedes the
    /// algorithm table of a declaration record.
    pub reserved_header: bool,
}

impl Framing {
    /// The general crypto-agile log: stop flag, reserved header.
    pub fn crypto_agile() -> (f: Framing)
        ensures
            f == (Framing { terminator: Terminator::StopFlag, reserved_header: true }),
    {
        Framing { terminator: Terminator::StopFlag, reserved_header: true }
    }

    /// The sentinel-terminated log whose declaration has the reserved header.
    pub fn sentinel() -> (f: Framing)
        ensures
            f == (Framing { terminator: Terminator::Sentinel, reserved_header: true }),
    {
        Framing { terminator: Terminator::Sentinel, reserved_header: true }
    }

    /// The sentinel-terminated log whose declaration has no reserved header.
    pub fn sentinel_minimal() -> (f: Framing)
        ensures
            f == (Framing { terminator: Terminator::Sentinel, reserved_header: false }),
    {
        Framing { terminator: Terminator::Sentinel, reserved_header: false }
    }

    /// The number of bytes to skip before the algorithm table.
    pub open spec fn header_len(&self) -> int {
        if self.reserved_header {
            RESERVED_HEADER_LEN as int
        } else {
            0
        }
    }
}

/// The error for a field at `at` that the buffer ends in.
pub open spec fn truncated(at: int) -> DecodeError {
    DecodeError::Truncated { offset: at as usize }
}

/// The start of the record at `at`: nothing where the record ends the log,
/// else its register index and event type.
pub open spec fn header_at(data: Seq<u8>, at: int, framing: Framing) -> Result<
    Option<(u32, u32)>,
    DecodeError,
> {
    match framing.terminator {
        Terminator::StopFlag => {
            if !fits(data, at, 8) {
                Err(truncated(at))
            } else if le_u64_at(data, at) == STOP_ONES || le_u64_at(data, at) == STOP_ZEROS {
                Ok(None)
            } else {
                Ok(Some((le_u32_at(data, at), le_u32_at(data, at + 4))))
            }
        },
        Terminator::Sentinel => {
            if !fits(data, at, 4) {
                Err(truncated(at))
            } else if le_u32_at(data, at) == SENTINEL {
                Ok(None)
            } else if !fits(data, at + 4, 4) {
                Err(truncated(at + 4))
            } else {
                Ok(Some((le_u32_at(data, at), le_u32_at(data, at + 4))))
            }
        },
    }
}

/// The table after `count` pairs of algorithm and length, read from `at` on,
/// have been added to `table`, and the place where the pairs end. A later
/// pair replaces an earlier one for the same algorithm.
pub open spec fn table_after(data: Seq<u8>, at: int, count: nat, table: Map<u16, u16>) -> Result<
    (Map<u16, u16>, int),
    DecodeError,
>
    decreases count,
{
    if count == 0 {
        Ok((table, at))
    } else if !fits(data, at, 2) {
        Err(truncated(at))
    } else if !fits(data, at + 2, 2) {
        Err(truncated(at + 2))
    } else {
        table_after(
            data,
            at + 4,
            (count - 1) as nat,
            table.insert(le_u16_at(data, at), le_u16_at(data, at + 2)),
        )
    }
}

/// The rest of a declaration record, from `body` on: the reserved header
/// where the framing has one, the count of pairs, the pairs, one byte with
/// the length of the vendor information, and the vendor information. Gives
/// the table that the record leaves and the place where the record ends.
pub open spec fn declaration_at(
    data: Seq<u8>,
    body: int,
    table: Map<u16, u16>,
    framing: Framing,
) -> Result<(Map<u16, u16>, int), DecodeError> {
    let count_at = body + framing.header_len();
    if !fits(data, body, framing.header_len()) {
        Err(truncated(body))
    } else if !fits(data, count_at, 4) {
        Err(truncated(count_at))
    } else {
        match table_after(data, count_at + 4, le_u32_at(data, count_at) as nat, table) {
            Err(e) => Err(e),
            Ok((declared, vendor_at)) => {
                if !fits(data, vendor_at, 1) {
                    Err(truncated(vendor_at))
                } else if !fits(data, vendor_at + 1, data[vendor_at] as int) {
                    Err(truncated(vendor_at + 1))
                } else {
                    Ok((declared, vendor_at + 1 + data[vendor_at] as int))
                }
            },
        }
    }
}

/// The `count` digests that start at `at`, and the place where they end.
/// Each digest is the identifier of its algorithm and then as many bytes as
/// `table` gives for that algorithm.
pub open spec fn digests_at(data: Seq<u8>, at: int, count: nat, table: Map<u16, u16>) -> Result<
    (Seq<DigestView>, int),
    DecodeError,
>
    decreases count,
{
    if count == 0 {
        Ok((Seq::empty(), at))
    } else if !fits(data, at, 2) {
        Err(truncated(at))
    } else {
        let id = le_u16_at(data, at);
        if !table.contains_key(id) {
            Err(DecodeError::UnknownAlgorithmDigestLength { algorithm_id: id })
        } else if !fits(data, at + 2, table[id] as int) {
            Err(truncated(at + 2))
        } else {
            let first = DigestView {
                algorithm: algorithm_label(id),
                digest: data.subrange(at + 2, at + 2 + table[id]),
            };
            match digests_at(data, at + 2 + table[id], (count - 1) as nat, table) {
                Err(e) => Err(e),
                Ok((rest, next)) => Ok((seq![first] + rest, next)),
            }
        }
    }
}

/// The entry of the measurement record that starts at `at` with the register
/// index `register` and the event type `event_type`, and the place where the
/// record ends: from `at + 8` on, the count of digests, which is not zero,
/// the digests, the length of the description and the description.
pub open spec fn measurement_at(
    data: Seq<u8>,
    at: int,
    register: u32,
    event_type: u32,
    table: Map<u16, u16>,
) -> Result<(EntryView, int), DecodeError> {
    if !fits(data, at + 8, 4) {
        Err(truncated(at + 8))
    } else if le_u32_at(data, at + 8) == 0 {
        Err(DecodeError::MissingDigest { offset: (at + 8) as usize })
    } else {
        match digests_at(data, at + 12, le_u32_at(data, at + 8) as nat, table) {
            Err(e) => Err(e),
            Ok((digests, size_at)) => {
                if !fits(data, size_at, 4) {
                    Err(truncated(size_at))
                } else if !fits(data, size_at + 4, le_u32_at(data, size_at) as int) {
                    Err(truncated(size_at + 4))
                } else {
                    let end = size_at + 4 + le_u32_at(data, size_at);
                    Ok(
                        (
                            EntryView {
                                target_measurement_registry: register,
                                event_type_id: event_type,
                                event_type: event_type_label(event_type),
                                digests,
                                event_desc: data.subrange(size_at + 4, end),
                            },
                            end,
                        ),
                    )
                }
            },
        }
    }
}

/// The entries of the records from `at` on, with `table` as the lengths
/// declared so far. The log ends at the end of the buffer or at the first
/// terminator, whichever comes first; what follows a terminator is not read.
pub open spec fn entries_from(
    data: Seq<u8>,
    at: int,
    table: Map<u16, u16>,
    framing: Framing,
) -> Result<Seq<EntryView>, DecodeError>
    decreases data.len() - at,
{
    if at < 0 || at >= data.len() {
        Ok(Seq::empty())
    } else {
        match header_at(data, at, framing) {
            Err(e) => Err(e),
            Ok(None) => Ok(Seq::empty()),
            Ok(Some((register, event_type))) => {
                if event_type == EV_NO_ACTION {
                    match declaration_at(data, at + 8, table, framing) {
                        Err(e) => Err(e),
                        Ok((declared, next)) => {
                            proof {
                                lemma_declaration_advances(data, at + 8, table, framing);
                            }
                            entries_from(data, next, declared, framing)
                        },
                    }
                } else {
                    match measurement_at(data, at, register, event_type, table) {
                        Err(e) => Err(e),
                        Ok((entry, next)) => {
                            proof {
                                lemma_measurement_advances(data, at, register, event_type, table);
                            }
                            match entries_from(data, next, table, framing) {
                                Err(e) => Err(e),
                                Ok(rest) => Ok(seq![entry] + rest),
                            }
                        },
                    }
                }
            },
        }
    }
}

/// What a buffer decodes to: its entries where every record is whole, every
/// measurement has a digest and every digest has a declared length, else the
/// first error met.
pub open spec fn decode_model(data: Seq<u8>, framing: Framing) -> Result<
    Seq<EntryView>,
    DecodeError,
> {
    entries_from(data, 0, Map::empty(), framing)
}

/// A table ends at or after the place where it starts, inside the buffer.
pub proof fn lemma_table_advances(data: Seq<u8>, at: int, count: nat, table: Map<u16, u16>)
    requires
        0 <= at <= data.len(),
    ensures
        table_after(data, at, count, table) matches Ok((_, next)) ==> at <= next <= data.len(),
    decreases count,
{
    if count > 0 && fits(data, at, 2) && fits(data, at + 2, 2) {
        lemma_table_advances(
            data,
            at + 4,
            (count - 1) as nat,
            table.insert(le_u16_at(data, at), le_u16_at(data, at + 2)),
        );
    }
}

/// A declaration record ends after the place where its body starts, inside
/// the buffer.
pub proof fn lemma_declaration_advances(
    data: Seq<u8>,
    body: int,
    table: Map<u16, u16>,
    framing: Framing,
)
    requires
        0 <= body,
    ensures
        declaration_at(data, body, table, framing) matches Ok((_, next)) ==> body < next
            <= data.len(),
{
    let count_at = body + framing.header_len();
    if fits(data, body, framing.header_len()) && fits(data, count_at, 4) {
        lemma_table_advances(data, count_at + 4, le_u32_at(data, count_at) as nat, table);
    }
}

/// A run of digests ends at or after the place where it starts, inside the
/// buffer.
pub proof fn lemma_digests_advance(data: Seq<u8>, at: int, count: nat, table: Map<u16, u16>)
    requires
        0 <= at <= data.len(),
    ensures
        digests_at(data, at, count, table) matches Ok((digests, next)) ==> at <= next
            <= data.len() && digests.len() == count,
    decreases count,
{
    if count > 0 && fits(data, at, 2) {
        let id = le_u16_at(data, at);
        if table.contains_key(id) && fits(data, at + 2, table[id] as int) {
            lemma_digests_advance(data, at + 2 + table[id], (count - 1) as nat, table);
        }
    }
}

/// A measurement record ends after the place where it starts, inside the
/// buffer.
pub proof fn lemma_measurement_advances(
    data: Seq<u8>,
    at: int,
    register: u32,
    event_type: u32,
    table: Map<u16, u16>,
)
    requires
        0 <= at,
    ensures
        measurement_at(data, at, register, event_type, table) matches Ok((_, next)) ==> at < next
            <= data.len(),
{
    if fits(data, at + 8, 4) {
        lemma_digests_advance(data, at + 12, le_u32_at(data, at + 8) as nat, table);
    }
}

/// `acc` and then the items of `rest`, or the error of `rest`.
pub open spec fn prepend<T>(acc: Seq<T>, rest: Result<Seq<T>, DecodeError>) -> Result<
    Seq<T>,
    DecodeError,
> {
    match rest {
        Ok(items) => Ok(acc + items),
        Err(e) => Err(e),
    }
}

/// `acc` and then the items of `rest`, with the place where `rest` ends, or
/// the error of `rest`.
pub open spec fn prepend_at<T>(acc: Seq<T>, rest: Result<(Seq<T>, int), DecodeError>) -> Result<
    (Seq<T>, int),
    DecodeError,
> {
    match rest {
        Ok((items, next)) => Ok((acc + items, next)),
        Err(e) => Err(e),
    }
}

/// Reads the two-byte field at `at`.
fn field_u16(data: &[u8], at: usize) -> (r: Result<u16, DecodeError>)
    ensures
        r == (match u16_field(data@, at as int) {
            Some(v) => Ok::<u16, DecodeError>(v),
            None => Err(truncated(at as int)),
        }),
{
    match read_u16(data, at) {
        Some(v) => Ok(v),
        None => Err(DecodeError::Truncated { offset: at }),
    }
}

/// Reads the four-byte field at `at`.
fn field_u32(data: &[u8], at: usize) -> (r: Result<u32, DecodeError>)
    ensures
        r == (match u32_field(data@, at as int) {
            Some(v) => Ok::<u32, DecodeError>(v),
            None => Err(truncated(at as int)),
        }),
{
    match read_u32(data, at) {
        Some(v) => Ok(v),
        None => Err(DecodeError::Truncated { offset: at }),
    }
}

/// Reads the start of the record at `at`.
fn read_header(data: &[u8], at: usize, framing: Framing) -> (r: Result<
    Option<(u32, u32)>,
    DecodeError,
>)
    requires
        at <= data.len(),
    ensures
        r == header_at(data@, at as int, framing),
{
    match framing.terminator {
        Terminator::StopFlag => {
            match read_u64(data, at) {
                None => Err(DecodeError::Truncated { offset: at }),
                Some(stop) => {
                    if stop == STOP_ONES || stop == STOP_ZEROS {
                        Ok(None)
                    } else {
                        let register = field_u32(data, at)?;
                        let event_type = field_u32(data, at + 4)?;
                        Ok(Some((register, event_type)))
                    }
                },
            }
        },
        Terminator::Sentinel => {
            let register = field_u32(data, at)?;
            if register == SENTINEL {
                Ok(None)
            } else {
                let event_type = field_u32(data, at + 4)?;
                Ok(Some((register, event_type)))
            }
        },
    }
}

/// Adds the `count` pairs that start at `at` to `table`, and gives the place
/// where they end.
fn read_table(data: &[u8], at: usize, count: u32, table: &mut HashMap<u16, u16>) -> (r: Result<
    usize,
    DecodeError,
>)
    requires
        at <= data.len(),
    ensures
        match table_after(data@, at as int, count as nat, old(table)@) {
            Ok((declared, next)) => r == Ok::<usize, DecodeError>(next as usize) && final(table)@
                == declared && at <= next <= data.len(),
            Err(e) => r == Err::<usize, DecodeError>(e),
        },
{
    let mut cursor: usize = at;
    let mut left: u32 = count;
    while left > 0
        invariant
            at <= cursor <= data.len(),
            table_after(data@, at as int, count as nat, old(table)@) == table_after(
                data@,
                cursor as int,
                left as nat,
                table@,
            ),
        decreases left,
    {
        let id = field_u16(data, cursor)?;
        let width = field_u16(data, cursor + 2)?;
        table.insert(id, width);
        cursor = cursor + 4;
        left = left - 1;
    }
    Ok(cursor)
}

/// Reads the rest of a declaration record, from `body` on, into `table`, and
/// gives the place where the record ends.
fn read_declaration(
    data: &[u8],
    body: usize,
    table: &mut HashMap<u16, u16>,
    framing: Framing,
) -> (r: Result<usize, DecodeError>)
    requires
        body <= data.len(),
    ensures
        match declaration_at(data@, body as int, old(table)@, framing) {
            Ok((declared, next)) => r == Ok::<usize, DecodeError>(next as usize) && final(table)@
                == declared && body < next <= data.len(),
            Err(e) => r == Err::<usize, DecodeError>(e),
        },
{
    let skip: usize = if framing.reserved_header {
        RESERVED_HEADER_LEN
    } else {
        0
    };
    if data.len() - body < skip {
        return Err(DecodeError::Truncated { offset: body });
    }
    let count_at = body + skip;
    let count = field_u32(data, count_at)?;
    let vendor_at = read_table(data, count_at + 4, count, table)?;
    let vendor_len = match read_u8(data, vendor_at) {
        Some(n) => n as usize,
        None => {
            return Err(DecodeError::Truncated { offset: vendor_at });
        },
    };
    if data.len() - (vendor_at + 1) < vendor_len {
        return Err(DecodeError::Truncated { offset: vendor_at + 1 });
    }
    Ok(vendor_at + 1 + vendor_len)
}

/// Reads the `count` digests that start at `at`, and gives the place where
/// they end.
fn read_digests(data: &[u8], at: usize, count: u32, table: &HashMap<u16, u16>) -> (r: Result<
    (Vec<ElDigest>, usize),
    DecodeError,
>)
    requires
        at <= data.len(),
    ensures
        match digests_at(data@, at as int, count as nat, table@) {
            Ok((digests, next)) => r matches Ok((read, end)) && digest_views(read@) == digests
                && end == next && at <= next <= data.len(),
            Err(e) => r matches Err(err) && err == e,
        },
{
    let mut cursor: usize = at;
    let mut left: u32 = count;
    let mut digests: Vec<ElDigest> = Vec::new();
    while left > 0
        invariant
            at <= cursor <= data.len(),
            digests_at(data@, at as int, count as nat, table@) == prepend_at(
                digest_views(digests@),
                digests_at(data@, cursor as int, left as nat, table@),
            ),
        decreases left,
    {
        let id = field_u16(data, cursor)?;
        let width: usize = match table.get(&id) {
            Some(width) => *width as usize,
            None => {
                return Err(DecodeError::UnknownAlgorithmDigestLength { algorithm_id: id });
            },
        };
        let digest = match read_bytes(data, cursor + 2, width) {
            Some(digest) => digest,
            None => {
                return Err(DecodeError::Truncated { offset: cursor + 2 });
            },
        };
        let ghost before = digest_views(digests@);
        let ghost rest = digests_at(
            data@,
            cursor + 2 + width,
            (left - 1) as nat,
            table@,
        );
        let entry = ElDigest { algorithm: algorithm_name(id), digest };
        digests.push(entry);
        proof {
            assert(digest_views(digests@) =~= before.push(entry@));
            match rest {
                Ok((items, next)) => {
                    assert(before + (seq![entry@] + items) =~= before.push(entry@) + items);
                },
                Err(_) => {},
            }
        }
        cursor = cursor + 2 + width;
        left = left - 1;
    }
    proof {
        assert(digest_views(digests@) + Seq::<DigestView>::empty() =~= digest_views(digests@));
    }
    Ok((digests, cursor))
}

/// Reads the measurement record that starts at `at` with the register index
/// `register` and the event type `event_type`, and gives its entry and the
/// place where the record ends.
fn read_measurement(
    data: &[u8],
    at: usize,
    register: u32,
    event_type: u32,
    table: &HashMap<u16, u16>,
) -> (r: Result<(EventlogEntry, usize), DecodeError>)
    requires
        at + 8 <= data.len(),
    ensures
        match measurement_at(data@, at as int, register, event_type, table@) {
            Ok((entry, next)) => r matches Ok((read, end)) && read@ == entry && end == next && at
                < next <= data.len(),
            Err(e) => r matches Err(err) && err == e,
        },
{
    let count = field_u32(data, at + 8)?;
    if count == 0 {
        return Err(DecodeError::MissingDigest { offset: at + 8 });
    }
    let (digests, size_at) = read_digests(data, at + 12, count, table)?;
    let size = field_u32(data, size_at)? as usize;
    let event_desc = match read_bytes(data, size_at + 4, size) {
        Some(event_desc) => event_desc,
        None => {
            return Err(DecodeError::Truncated { offset: size_at + 4 });
        },
    };
    let entry = EventlogEntry {
        target_measurement_registry: register,
        event_type_id: event_type,
        event_type: event_type_name(event_type),
        digests,
        event_desc,
    };
    Ok((entry, size_at + 4 + size))
}

/// Whether `r` is what decoding `data` in `framing` gives.
pub open spec fn decodes_to(
    data: Seq<u8>,
    framing: Framing,
    r: Result<Eventlog, DecodeError>,
) -> bool {
    match decode_model(data, framing) {
        Ok(entries) => r matches Ok(log) && log@ == entries,
        Err(e) => r matches Err(err) && err == e,
    }
}

impl Eventlog {
    /// Decodes a buffer in the given framing.
    ///
    /// Gives every entry of the log in the order of the buffer, or the
    /// first error met and no entry at all. Every entry that it gives has a
    /// digest. The buffer is only read.
    pub fn decode(data: &[u8], framing: Framing) -> (r: Result<Eventlog, DecodeError>)
        ensures
            decodes_to(data@, framing, r),
            r matches Ok(log) ==> all_have_digest(log@) && none_is_declaration(log@),
    {
        proof {
            lemma_decoded_entries_have_digests(data@, 0, Map::empty(), framing);
        }
        let mut at: usize = 0;
        let mut log: Vec<EventlogEntry> = Vec::new();
        let mut table: HashMap<u16, u16> = HashMap::new();
        while at < data.len()
            invariant
                at <= data.len(),
                decode_model(data@, framing) matches Ok(entries) ==> all_have_digest(entries)
                    && none_is_declaration(entries),
                decode_model(data@, framing) == prepend(
                    entry_views(log@),
                    entries_from(data@, at as int, table@, framing),
                ),
            decreases data.len() - at,
        {
            let (register, event_type) = match read_header(data, at, framing)? {
                Some(header) => header,
                None => {
                    proof {
                        assert(entry_views(log@) + Seq::<EntryView>::empty() =~= entry_views(
                            log@,
                        ));
                    }
                    return Ok(Eventlog { log });
                },
            };
            if event_type == EV_NO_ACTION {
                at = read_declaration(data, at + 8, &mut table, framing)?;
            } else {
                let ghost before = entry_views(log@);
                let (entry, next) = read_measurement(data, at, register, event_type, &table)?;
                let ghost rest = entries_from(data@, next as int, table@, framing);
                log.push(entry);
                proof {
                    assert(entry_views(log@) =~= before.push(entry@));
                    match rest {
                        Ok(items) => {
                            assert(before + (seq![entry@] + items) =~= before.push(entry@) + items);
                        },
                        Err(_) => {},
                    }
                }
                at = next;
            }
        }
        proof {
            assert(entry_views(log@) + Seq::<EntryView>::empty() =~= entry_views(log@));
        }
        Ok(Eventlog { log })
    }
}

impl TryFrom<Vec<u8>> for Eventlog {
    type Error = DecodeError;

    /// Decodes a buffer as a general crypto-agile log.
    fn try_from(data: Vec<u8>) -> (r: Result<Eventlog, DecodeError>)
        ensures
            decodes_to(
                data@,
                Framing { terminator: Terminator::StopFlag, reserved_header: true },
                r,
            ),
            r matches Ok(log) ==> all_have_digest(log@) && none_is_declaration(log@),
    {
        Eventlog::decode(data.as_slice(), Framing::crypto_agile())
    }
}

/// The conversion is specified by `decodes_to`, which speaks of the entries
/// that a result holds and not of the vectors that hold them.
impl vstd::std_specs::convert::TryFromSpecImpl<Vec<u8>> for Eventlog {
    open spec fn obeys_try_from_spec() -> bool {
        false
    }

    open spec fn try_from_spec(data: Vec<u8>) -> Result<Eventlog, DecodeError> {
        arbitrary()
    }
}

/// Decoding is a function of the buffer and the framing: two decodings of
/// the same buffer end alike, in the same error or in the same entries.
pub proof fn lemma_decode_deterministic(
    data: Seq<u8>,
    framing: Framing,
    first: Result<Eventlog, DecodeError>,
    second: Result<Eventlog, DecodeError>,
)
    requires
        decodes_to(data, framing, first),
        decodes_to(data, framing, second),
    ensures
        first is Ok <==> second is Ok,
        first matches Ok(a) ==> second matches Ok(b) && a@ == b@,
        first matches Err(a) ==> second matches Err(b) && a == b,
{
}

/// Whether `e` says that the log contradicts itself: a measurement without
/// a digest, or a digest of an algorithm that no declaration has named.
pub open spec fn is_inconsistent(e: DecodeError) -> bool {
    e is UnknownAlgorithmDigestLength || e is MissingDigest
}

/// Every entry of a log that decodes has a digest, and none is a
/// declaration.
pub proof fn lemma_decoded_entries_have_digests(
    data: Seq<u8>,
    at: int,
    table: Map<u16, u16>,
    framing: Framing,
)
    requires
        0 <= at,
    ensures
        entries_from(data, at, table, framing) matches Ok(entries) ==> all_have_digest(entries)
            && none_is_declaration(entries),
    decreases data.len() - at,
{
    if at < data.len() {
        match header_at(data, at, framing) {
            Ok(Some((register, event_type))) => {
                if event_type == EV_NO_ACTION {
                    match declaration_at(data, at + 8, table, framing) {
                        Ok((declared, next)) => {
                            lemma_declaration_advances(data, at + 8, table, framing);
                            lemma_decoded_entries_have_digests(data, next, declared, framing);
                        },
                        Err(_) => {},
                    }
                } else {
                    match measurement_at(data, at, register, event_type, table) {
                        Ok((entry, next)) => {
                            lemma_measurement_advances(data, at, register, event_type, table);
                            lemma_digests_advance(
                                data,
                                at + 12,
                                le_u32_at(data, at + 8) as nat,
                                table,
                            );
                            lemma_decoded_entries_have_digests(data, next, table, framing);
                            match entries_from(data, next, table, framing) {
                                Ok(rest) => {
                                    let all = seq![entry] + rest;
                                    assert forall|i: int| 0 <= i < all.len() implies (
                                    #[trigger] all[i]).digests.len() > 0 && all[i].event_type_id
                                        != EV_NO_ACTION by {
                                        if i > 0 {
                                            assert(all[i] == rest[i - 1]);
                                        }
                                    }
                                },
                                Err(_) => {},
                            }
                        },
                        Err(_) => {},
                    }
                }
            },
            _ => {},
        }
    }
}

/// A measurement record is rejected as inconsistent where the table lacks
/// the algorithm of its first digest, and where it has no digest at all:
/// the record at `at` is no declaration and no terminator, and the buffer
/// holds its count of digests and, where the count is not zero, the
/// identifier of the first algorithm.
pub proof fn lemma_undeclared_algorithm(
    data: Seq<u8>,
    at: int,
    table: Map<u16, u16>,
    framing: Framing,
)
    requires
        0 <= at < data.len(),
        header_at(data, at, framing) matches Ok(Some((_, event_type))) && event_type
            != EV_NO_ACTION,
        fits(data, at + 8, 4),
        le_u32_at(data, at + 8) > 0 ==> fits(data, at + 12, 2) && !table.contains_key(
            le_u16_at(data, at + 12),
        ),
    ensures
        entries_from(data, at, table, framing) == Err::<Seq<EntryView>, DecodeError>(
            if le_u32_at(data, at + 8) == 0 {
                DecodeError::MissingDigest { offset: (at + 8) as usize }
            } else {
                DecodeError::UnknownAlgorithmDigestLength {
                    algorithm_id: le_u16_at(data, at + 12),
                }
            },
        ),
        entries_from(data, at, table, framing) matches Err(e) && is_inconsistent(e),
{
}

/// A log whose first record is a measurement does not decode: no
/// declaration has given the length of any algorithm yet. The error is one
/// of inconsistency, whatever the record holds behind the identifier of its
/// first algorithm.
pub proof fn lemma_measurement_before_declaration(data: Seq<u8>, framing: Framing)
    requires
        header_at(data, 0, framing) matches Ok(Some((_, event_type))) && event_type
            != EV_NO_ACTION,
        fits(data, 8, 4),
        le_u32_at(data, 8) > 0 ==> fits(data, 12, 2),
    ensures
        decode_model(data, framing) matches Err(e) && is_inconsistent(e),
        decode_model(data, framing) == Err::<Seq<EntryView>, DecodeError>(
            if le_u32_at(data, 8) == 0 {
                DecodeError::MissingDigest { offset: 8 }
            } else {
                DecodeError::UnknownAlgorithmDigestLength { algorithm_id: le_u16_at(data, 12) }
            },
        ),
{
    lemma_undeclared_algorithm(data, 0, Map::empty(), framing);
}

} // verus!
