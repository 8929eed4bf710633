//! What decoding makes of a log that was cut short.
//!
//! A log that decodes can be cut between two of its records, or behind its
//! terminator, and still decode. Cut anywhere else, it does not: the record
//! that the cut falls in has a field that the buffer ends in.

use crate::bios_eventlog::{
    bios_decode_model, bios_entries_from, bios_record_at, stop_flag, SHA1_DIGEST_SIZE,
};
use crate::bytes::{le_u16_at, le_u32_at};
use crate::eventlog::{
    declaration_at, decode_model, digests_at, entries_from, header_at,
    lemma_declaration_advances, lemma_digests_advance, lemma_measurement_advances,
    lemma_table_advances, measurement_at, table_after, DecodeError, Framing, Terminator,
};
use crate::registry::EV_NO_ACTION;
use vstd::prelude::*;

verus! {

/// The number of bytes that the mark of the end of a log takes.
pub open spec fn terminator_len(framing: Framing) -> int {
    match framing.terminator {
        Terminator::StopFlag => 8,
        Terminator::Sentinel => 4,
    }
}

/// Whether a cut of the buffer at `k` falls between two records of the log
/// that is read from `at` on, or at or behind the end of its terminator.
pub open spec fn clean_cut(
    data: Seq<u8>,
    at: int,
    table: Map<u16, u16>,
    framing: Framing,
    k: int,
) -> bool
    decreases data.len() - at,
{
    if k == at {
        true
    } else if at < 0 || at >= data.len() || k < at {
        false
    } else {
        match header_at(data, at, framing) {
            Err(_) => false,
            Ok(None) => k >= at + terminator_len(framing),
            Ok(Some((register, event_type))) => {
                if event_type == EV_NO_ACTION {
                    match declaration_at(data, at + 8, table, framing) {
                        Err(_) => false,
                        Ok((declared, next)) => {
                            proof {
                                lemma_declaration_advances(data, at + 8, table, framing);
                            }
                            clean_cut(data, next, declared, framing, k)
                        },
                    }
                } else {
                    match measurement_at(data, at, register, event_type, table) {
                        Err(_) => false,
                        Ok((_, next)) => {
                            proof {
                                lemma_measurement_advances(data, at, register, event_type, table);
                            }
                            clean_cut(data, next, table, framing, k)
                        },
                    }
                }
            },
        }
    }
}

/// Whether `r` is an error of truncation.
pub open spec fn is_truncated<T>(r: Result<T, DecodeError>) -> bool {
    r matches Err(DecodeError::Truncated { .. })
}

/// A table that is read whole from the buffer is read alike from a cut
/// that holds all of it, and ends a shorter cut.
proof fn lemma_table_cut(data: Seq<u8>, at: int, count: nat, table: Map<u16, u16>, k: int)
    requires
        0 <= at <= k <= data.len(),
        table_after(data, at, count, table) is Ok,
    ensures
        table_after(data, at, count, table)->Ok_0.1 <= k ==> table_after(
            data.take(k),
            at,
            count,
            table,
        ) == table_after(data, at, count, table),
        table_after(data, at, count, table)->Ok_0.1 > k ==> is_truncated(
            table_after(data.take(k), at, count, table),
        ),
    decreases count,
{
    if count > 0 {
        let inserted = table.insert(le_u16_at(data, at), le_u16_at(data, at + 2));
        lemma_table_advances(data, at + 4, (count - 1) as nat, inserted);
        if at + 4 <= k {
            lemma_table_cut(data, at + 4, (count - 1) as nat, inserted, k);
        }
    }
}

/// A declaration record that is read whole from the buffer is read alike
/// from a cut that holds all of it, and ends a shorter cut.
proof fn lemma_declaration_cut(
    data: Seq<u8>,
    body: int,
    table: Map<u16, u16>,
    framing: Framing,
    k: int,
)
    requires
        0 <= body <= k <= data.len(),
        declaration_at(data, body, table, framing) is Ok,
    ensures
        declaration_at(data, body, table, framing)->Ok_0.1 <= k ==> declaration_at(
            data.take(k),
            body,
            table,
            framing,
        ) == declaration_at(data, body, table, framing),
        declaration_at(data, body, table, framing)->Ok_0.1 > k ==> is_truncated(
            declaration_at(data.take(k), body, table, framing),
        ),
{
    let count_at = body + framing.header_len();
    let count = le_u32_at(data, count_at) as nat;
    lemma_table_advances(data, count_at + 4, count, table);
    if count_at + 4 <= k {
        lemma_table_cut(data, count_at + 4, count, table, k);
    }
}

/// A run of digests that is read whole from the buffer is read alike from
/// a cut that holds all of it, and ends a shorter cut.
proof fn lemma_digests_cut(data: Seq<u8>, at: int, count: nat, table: Map<u16, u16>, k: int)
    requires
        0 <= at <= k <= data.len(),
        digests_at(data, at, count, table) is Ok,
    ensures
        digests_at(data, at, count, table)->Ok_0.1 <= k ==> digests_at(
            data.take(k),
            at,
            count,
            table,
        ) == digests_at(data, at, count, table),
        digests_at(data, at, count, table)->Ok_0.1 > k ==> is_truncated(
            digests_at(data.take(k), at, count, table),
        ),
    decreases count,
{
    if count > 0 {
        let id = le_u16_at(data, at);
        let next = at + 2 + table[id];
        lemma_digests_advance(data, next, (count - 1) as nat, table);
        if next <= k {
            lemma_digests_cut(data, next, (count - 1) as nat, table, k);
            assert(data.take(k).subrange(at + 2, next) =~= data.subrange(at + 2, next));
        }
    }
}

/// A measurement record that is read whole from the buffer is read alike
/// from a cut that holds all of it, and ends a shorter cut.
proof fn lemma_measurement_cut(
    data: Seq<u8>,
    at: int,
    register: u32,
    event_type: u32,
    table: Map<u16, u16>,
    k: int,
)
    requires
        0 <= at,
        at + 8 <= k <= data.len(),
        measurement_at(data, at, register, event_type, table) is Ok,
    ensures
        measurement_at(data, at, register, event_type, table)->Ok_0.1 <= k ==> measurement_at(
            data.take(k),
            at,
            register,
            event_type,
            table,
        ) == measurement_at(data, at, register, event_type, table),
        measurement_at(data, at, register, event_type, table)->Ok_0.1 > k ==> is_truncated(
            measurement_at(data.take(k), at, register, event_type, table),
        ),
{
    let count = le_u32_at(data, at + 8) as nat;
    lemma_digests_advance(data, at + 12, count, table);
    if at + 12 <= k {
        lemma_digests_cut(data, at + 12, count, table, k);
        let size_at = digests_at(data, at + 12, count, table)->Ok_0.1;
        if size_at + 4 <= k {
            let end = size_at + 4 + le_u32_at(data, size_at);
            if end <= k {
                assert(data.take(k).subrange(size_at + 4, end) =~= data.subrange(
                    size_at + 4,
                    end,
                ));
            }
        }
    }
}

/// The header of a record that the cut holds whole is read alike from the
/// cut.
proof fn lemma_header_cut(data: Seq<u8>, at: int, framing: Framing, k: int)
    requires
        0 <= at,
        at + 8 <= k <= data.len(),
    ensures
        header_at(data.take(k), at, framing) == header_at(data, at, framing),
{
}

/// Cut inside a record, a log that decodes from `at` on does not: it ends
/// in an error of truncation.
pub proof fn lemma_cut_from(data: Seq<u8>, at: int, table: Map<u16, u16>, framing: Framing, k: int)
    requires
        0 <= at <= k <= data.len(),
        entries_from(data, at, table, framing) is Ok,
        !clean_cut(data, at, table, framing, k),
    ensures
        is_truncated(entries_from(data.take(k), at, table, framing)),
    decreases data.len() - at,
{
    let cut = data.take(k);
    match header_at(data, at, framing) {
        Err(_) => {},
        Ok(None) => {},
        Ok(Some((register, event_type))) => {
            if at + 8 <= k {
                lemma_header_cut(data, at, framing, k);
                if event_type == EV_NO_ACTION {
                    lemma_declaration_advances(data, at + 8, table, framing);
                    lemma_declaration_cut(data, at + 8, table, framing, k);
                    let (declared, next) = declaration_at(data, at + 8, table, framing)->Ok_0;
                    if next <= k {
                        lemma_cut_from(data, next, declared, framing, k);
                    }
                } else {
                    lemma_measurement_advances(data, at, register, event_type, table);
                    lemma_measurement_cut(data, at, register, event_type, table, k);
                    let (entry, next) = measurement_at(
                        data,
                        at,
                        register,
                        event_type,
                        table,
                    )->Ok_0;
                    if next <= k {
                        lemma_cut_from(data, next, table, framing, k);
                    }
                }
            }
        },
    }
}

/// A buffer that decodes and is then cut inside a record, or inside its
/// terminator, is rejected as truncated.
pub proof fn lemma_cut_is_truncated(data: Seq<u8>, framing: Framing, k: int)
    requires
        0 <= k <= data.len(),
        decode_model(data, framing) is Ok,
        !clean_cut(data, 0, Map::empty(), framing, k),
    ensures
        is_truncated(decode_model(data.take(k), framing)),
{
    lemma_cut_from(data, 0, Map::empty(), framing, k);
}

/// Cut between two records, or behind its terminator, a log that decodes
/// from `at` on still decodes.
pub proof fn lemma_clean_cut_from(
    data: Seq<u8>,
    at: int,
    table: Map<u16, u16>,
    framing: Framing,
    k: int,
)
    requires
        0 <= at <= k <= data.len(),
        entries_from(data, at, table, framing) is Ok,
        clean_cut(data, at, table, framing, k),
    ensures
        entries_from(data.take(k), at, table, framing) is Ok,
    decreases data.len() - at,
{
    if k != at {
        match header_at(data, at, framing) {
            Err(_) => {},
            Ok(None) => {},
            Ok(Some((register, event_type))) => {
                if event_type == EV_NO_ACTION {
                    lemma_declaration_advances(data, at + 8, table, framing);
                    let (declared, next) = declaration_at(data, at + 8, table, framing)->Ok_0;
                    lemma_clean_cut_reaches(data, next, declared, framing, k);
                    lemma_header_cut(data, at, framing, k);
                    lemma_declaration_cut(data, at + 8, table, framing, k);
                    lemma_clean_cut_from(data, next, declared, framing, k);
                } else {
                    lemma_measurement_advances(data, at, register, event_type, table);
                    let (entry, next) = measurement_at(
                        data,
                        at,
                        register,
                        event_type,
                        table,
                    )->Ok_0;
                    lemma_clean_cut_reaches(data, next, table, framing, k);
                    lemma_digests_advance(data, at + 12, le_u32_at(data, at + 8) as nat, table);
                    lemma_header_cut(data, at, framing, k);
                    lemma_measurement_cut(data, at, register, event_type, table, k);
                    lemma_clean_cut_from(data, next, table, framing, k);
                }
            },
        }
    }
}

/// A clean cut of the log that is read from `at` on lies at `at` or behind
/// it.
proof fn lemma_clean_cut_reaches(
    data: Seq<u8>,
    at: int,
    table: Map<u16, u16>,
    framing: Framing,
    k: int,
)
    requires
        clean_cut(data, at, table, framing, k),
    ensures
        at <= k,
{
}

/// A buffer that decodes and is then cut between two records, or behind
/// its terminator, still decodes.
pub proof fn lemma_clean_cut_decodes(data: Seq<u8>, framing: Framing, k: int)
    requires
        0 <= k <= data.len(),
        decode_model(data, framing) is Ok,
        clean_cut(data, 0, Map::empty(), framing, k),
    ensures
        decode_model(data.take(k), framing) is Ok,
{
    lemma_clean_cut_from(data, 0, Map::empty(), framing, k);
}

/// Whether a cut of the buffer at `k` falls between two records of the
/// conventional log that is read from `at` on, or at or behind the end of
/// its stop flag.
pub open spec fn bios_clean_cut(data: Seq<u8>, at: int, k: int) -> bool
    decreases data.len() - at,
{
    if k == at {
        true
    } else if at < 0 || at >= data.len() || k < at {
        false
    } else {
        match header_at(data, at, stop_flag()) {
            Err(_) => false,
            Ok(None) => k >= at + 8,
            Ok(Some((register, event_type))) => match bios_record_at(
                data,
                at,
                register,
                event_type,
            ) {
                Err(_) => false,
                Ok((_, next)) => bios_clean_cut(data, next, k),
            },
        }
    }
}

/// A record of the conventional log that is read whole from the buffer is
/// read alike from a cut that holds all of it, and ends a shorter cut.
proof fn lemma_bios_record_cut(data: Seq<u8>, at: int, register: u32, event_type: u32, k: int)
    requires
        0 <= at,
        at + 8 <= k <= data.len(),
        bios_record_at(data, at, register, event_type) is Ok,
    ensures
        bios_record_at(data, at, register, event_type)->Ok_0.1 <= k ==> bios_record_at(
            data.take(k),
            at,
            register,
            event_type,
        ) == bios_record_at(data, at, register, event_type),
        bios_record_at(data, at, register, event_type)->Ok_0.1 > k ==> is_truncated(
            bios_record_at(data.take(k), at, register, event_type),
        ),
{
    let size_at = at + 8 + SHA1_DIGEST_SIZE;
    if size_at + 4 <= k {
        let end = size_at + 4 + le_u32_at(data, size_at);
        if end <= k {
            assert(data.take(k).subrange(at + 8, size_at) =~= data.subrange(at + 8, size_at));
            assert(data.take(k).subrange(size_at + 4, end) =~= data.subrange(size_at + 4, end));
        }
    }
}

/// Cut inside a record, a conventional log that decodes from `at` on does
/// not: it ends in an error of truncation.
pub proof fn lemma_bios_cut_from(data: Seq<u8>, at: int, k: int)
    requires
        0 <= at <= k <= data.len(),
        bios_entries_from(data, at) is Ok,
        !bios_clean_cut(data, at, k),
    ensures
        is_truncated(bios_entries_from(data.take(k), at)),
    decreases data.len() - at,
{
    match header_at(data, at, stop_flag()) {
        Err(_) => {},
        Ok(None) => {},
        Ok(Some((register, event_type))) => {
            if at + 8 <= k {
                lemma_header_cut(data, at, stop_flag(), k);
                lemma_bios_record_cut(data, at, register, event_type, k);
                let (entry, next) = bios_record_at(data, at, register, event_type)->Ok_0;
                if next <= k {
                    lemma_bios_cut_from(data, next, k);
                }
            }
        },
    }
}

/// A buffer that decodes as a conventional log and is then cut inside a
/// record, or inside its stop flag, is rejected as truncated.
pub proof fn lemma_bios_cut_is_truncated(data: Seq<u8>, k: int)
    requires
        0 <= k <= data.len(),
        bios_decode_model(data) is Ok,
        !bios_clean_cut(data, 0, k),
    ensures
        is_truncated(bios_decode_model(data.take(k))),
{
    lemma_bios_cut_from(data, 0, k);
}

} // verus!
