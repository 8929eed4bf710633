//! The text form of a decoded log, one block of lines for each entry.

use crate::bios_eventlog::{BiosEntryView, BiosEventlog, BiosEventlogEntry};
use crate::eventlog::{all_have_digest, EntryView, Eventlog, EventlogEntry};
use crate::text::{
    decimal, display_text, hex_encode, hex_text, push_decimal, push_upper_hex8, to_display_text,
    upper_hex8,
};
use vstd::prelude::*;
use vstd::string::StringExecFns;

verus! {

/// The block of lines for one entry: its register in decimal, the
/// identifier of its event type as eight hexadecimal digits, the label of
/// the type, the algorithm and the value of its first digest, and its
/// description as text.
pub open spec fn entry_text(entry: EntryView) -> Seq<char> {
    "\nEvent Entry:\n\tPCR: "@ + decimal(entry.target_measurement_registry as nat)
        + "\n\tEvent Type id: 0x"@ + upper_hex8(entry.event_type_id) + "\n\tEvent Type: "@
        + entry.event_type + "\n\tDigest Algorithm: "@ + entry.digests[0].algorithm
        + "\n\tDigest: "@ + hex_text(entry.digests[0].digest) + "\n\tEvent Desc: "@
        + display_text(entry.event_desc) + "\n"@
}

/// The blocks of the entries of `entries`, in order.
pub open spec fn log_text(entries: Seq<EntryView>) -> Seq<char>
    decreases entries.len(),
{
    if entries.len() == 0 {
        Seq::empty()
    } else {
        log_text(entries.drop_last()) + entry_text(entries.last())
    }
}

/// The block of lines for one entry: its register in decimal, the label of
/// its event type, its digest, and its data as text.
pub open spec fn bios_entry_text(entry: BiosEntryView) -> Seq<char> {
    "\nEvent Entry:\n\tPCR: "@ + decimal(entry.pcr_index as nat) + "\n\tEvent Type: "@
        + entry.event_type + "\n\tDigest: "@ + hex_text(entry.digest) + "\n\tEvent Data: "@
        + display_text(entry.event_data) + "\n"@
}

/// The blocks of the entries of `entries`, in order.
pub open spec fn bios_log_text(entries: Seq<BiosEntryView>) -> Seq<char>
    decreases entries.len(),
{
    if entries.len() == 0 {
        Seq::empty()
    } else {
        bios_log_text(entries.drop_last()) + bios_entry_text(entries.last())
    }
}

/// Appends the block of lines for `entry`.
fn push_entry(text: &mut String, entry: &EventlogEntry)
    requires
        entry@.digests.len() > 0,
    ensures
        final(text)@ == old(text)@ + entry_text(entry@),
{
    let digest = &entry.digests[0];
    assert(digest@ == entry@.digests[0]);
    text.append("\nEvent Entry:\n\tPCR: ");
    push_decimal(text, entry.target_measurement_registry);
    text.append("\n\tEvent Type id: 0x");
    push_upper_hex8(text, entry.event_type_id);
    text.append("\n\tEvent Type: ");
    text.append(entry.event_type.as_str());
    text.append("\n\tDigest Algorithm: ");
    text.append(digest.algorithm.as_str());
    text.append("\n\tDigest: ");
    text.append(hex_encode(digest.digest.as_slice()).as_str());
    text.append("\n\tEvent Desc: ");
    text.append(to_display_text(entry.event_desc.as_slice()).as_str());
    text.append("\n");
    assert(text@ =~= old(text)@ + entry_text(entry@));
}

/// Appends the block of lines for `entry`.
fn push_bios_entry(text: &mut String, entry: &BiosEventlogEntry)
    ensures
        final(text)@ == old(text)@ + bios_entry_text(entry@),
{
    text.append("\nEvent Entry:\n\tPCR: ");
    push_decimal(text, entry.pcr_index);
    text.append("\n\tEvent Type: ");
    text.append(entry.event_type.as_str());
    text.append("\n\tDigest: ");
    text.append(hex_encode(entry.digest.as_slice()).as_str());
    text.append("\n\tEvent Data: ");
    text.append(to_display_text(entry.event_data.as_slice()).as_str());
    text.append("\n");
    assert(text@ =~= old(text)@ + bios_entry_text(entry@));
}

impl Eventlog {
    /// The text form of the log. Every entry must have a digest.
    pub fn to_text(&self) -> (text: String)
        requires
            all_have_digest(self@),
        ensures
            text@ == log_text(self@),
    {
        let mut text = String::new();
        let mut i: usize = 0;
        while i < self.log.len()
            invariant
                i <= self.log@.len(),
                all_have_digest(self@),
                text@ == log_text(self@.take(i as int)),
            decreases self.log@.len() - i,
        {
            let entry = &self.log[i];
            assert(entry@ == self@[i as int]);
            push_entry(&mut text, entry);
            proof {
                assert(self@.take(i + 1).drop_last() =~= self@.take(i as int));
            }
            i = i + 1;
        }
        proof {
            assert(self@.take(i as int) =~= self@);
        }
        text
    }
}

impl BiosEventlog {
    /// The text form of the log.
    pub fn to_text(&self) -> (text: String)
        ensures
            text@ == bios_log_text(self@),
    {
        let mut text = String::new();
        let mut i: usize = 0;
        while i < self.log.len()
            invariant
                i <= self.log@.len(),
                text@ == bios_log_text(self@.take(i as int)),
            decreases self.log@.len() - i,
        {
            let entry = &self.log[i];
            assert(entry@ == self@[i as int]);
            push_bios_entry(&mut text, entry);
            proof {
                assert(self@.take(i + 1).drop_last() =~= self@.take(i as int));
            }
            i = i + 1;
        }
        proof {
            assert(self@.take(i as int) =~= self@);
        }
        text
    }
}

} // verus!
