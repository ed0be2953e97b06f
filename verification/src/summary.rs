//! The text around the listings: the header that opens both output files, the
//! preamble of the readable listing, and the one-line summary of a run.

use vstd::prelude::*;
use vstd::string::*;
use crate::decoder::DecodeReport;
use crate::text::{decimal, push_decimal};

verus! {

/// The banner at the top of both output files.
pub const BANNER: &'static str = "================================================================\n Oblivion Remastered Save Decoder \u{2014} decoded output\n Tool by Bram Haegeman\n================================================================\n\n";

/// What follows the count of trailing raw bytes, when there are any.
pub const TAIL_NOTE: &'static str = " trailing bytes were not part of the Oodle chunk stream (likely the save's\n      preview metadata / thumbnail image block) and are not included below.\n";

/// The rule that closes a header or preamble.
pub const RULE: &'static str = "\n---------------------------------------------------------------\n\n";

/// The explanation at the top of the readable listing.
pub const LISTING_INTRO: &'static str = "This is a best-effort readable listing of every top-level property found in\nthe save. Simple values (numbers, text, yes/no flags) are shown directly. Complex\nones (structs, arrays, maps \u{2014} where quest, item and NPC data lives) are shown by\nname, type and size, since decoding their internal layout is a separate effort.\nSee the README for details.\n\nTop-level properties found: ";

/// How the readable listing says that the walk stopped early.
pub const STOPPED_EARLY_LINE: &'static str = "(the walk stopped before the end \u{2014} see the note at the bottom of this file)";

/// How the readable listing says that the walk reached the end.
pub const CLEAN_END_LINE: &'static str = "(reached the end of the readable property list cleanly)";

/// The header of both output files, for the save named `source`.
pub open spec fn header_text(source: Seq<char>, report: DecodeReport) -> Seq<char> {
    let note = if report.tail_bytes_left_raw > 0 {
        "Note: "@ + decimal(report.tail_bytes_left_raw as nat) + TAIL_NOTE@
    } else {
        Seq::empty()
    };
    BANNER@ + "Source file:              "@ + source + "\n"@
        + "Source size (compressed): "@ + decimal(report.source_bytes as nat) + " bytes\n"@
        + "Chunks decoded:           "@ + decimal(report.chunks_decoded as nat) + "\n"@
        + "Decoded size:             "@ + decimal(report.decoded_bytes as nat) + " bytes\n"@
        + note + RULE@
}

/// Builds the header of both output files: the banner, the save's name, the
/// figures of the decoding, a note on trailing raw bytes when there are any,
/// and a closing rule.
pub fn output_header(source: &str, report: &DecodeReport) -> (s: String)
    ensures
        s@ == header_text(source@, *report),
{
    let mut s = String::new();
    s.append(BANNER);
    s.append("Source file:              ");
    s.append(source);
    s.append("\n");
    s.append("Source size (compressed): ");
    push_decimal(&mut s, report.source_bytes as u64);
    s.append(" bytes\n");
    s.append("Chunks decoded:           ");
    push_decimal(&mut s, report.chunks_decoded as u64);
    s.append("\n");
    s.append("Decoded size:             ");
    push_decimal(&mut s, report.decoded_bytes as u64);
    s.append(" bytes\n");
    let ghost before_note = s@;
    if report.tail_bytes_left_raw > 0 {
        s.append("Note: ");
        push_decimal(&mut s, report.tail_bytes_left_raw as u64);
        s.append(TAIL_NOTE);
    }
    s.append(RULE);
    proof {
        let note = if report.tail_bytes_left_raw > 0 {
            "Note: "@ + decimal(report.tail_bytes_left_raw as nat) + TAIL_NOTE@
        } else {
            Seq::<char>::empty()
        };
        assert(s@ =~= before_note + note + RULE@);
        assert(s@ =~= header_text(source@, *report));
    }
    s
}

/// The preamble of the readable listing after `header`.
pub open spec fn preamble_text(header: Seq<char>, properties_found: nat, stopped_early: bool) -> Seq<char> {
    header + LISTING_INTRO@ + decimal(properties_found) + "\n"@
        + (if stopped_early { STOPPED_EARLY_LINE@ } else { CLEAN_END_LINE@ }) + "\n"@ + RULE@
}

/// Builds the preamble of the readable listing: the header, what the listing
/// holds, how many top-level properties were found, and whether the walk
/// reached the end of the list.
pub fn readable_preamble(header: &str, properties_found: usize, stopped_early: bool) -> (s: String)
    ensures
        s@ == preamble_text(header@, properties_found as nat, stopped_early),
{
    let mut s = String::new();
    s.append(header);
    s.append(LISTING_INTRO);
    push_decimal(&mut s, properties_found as u64);
    s.append("\n");
    if stopped_early {
        s.append(STOPPED_EARLY_LINE);
    } else {
        s.append(CLEAN_END_LINE);
    }
    s.append("\n");
    s.append(RULE);
    assert(s@ =~= preamble_text(header@, properties_found as nat, stopped_early));
    s
}

/// The one-line summary of a run.
pub open spec fn summary_text(report: DecodeReport, properties_found: nat) -> Seq<char> {
    "Decoded "@ + decimal(report.chunks_decoded as nat) + " chunks ("@ + decimal(report.decoded_bytes as nat)
        + " bytes). Found "@ + decimal(properties_found) + " readable top-level properties."@
}

/// Builds the one-line summary of a run: chunks and bytes decoded, and
/// top-level properties found.
pub fn run_summary(report: &DecodeReport, properties_found: usize) -> (s: String)
    ensures
        s@ == summary_text(*report, properties_found as nat),
{
    let mut s = String::new();
    s.append("Decoded ");
    push_decimal(&mut s, report.chunks_decoded as u64);
    s.append(" chunks (");
    push_decimal(&mut s, report.decoded_bytes as u64);
    s.append(" bytes). Found ");
    push_decimal(&mut s, properties_found as u64);
    s.append(" readable top-level properties.");
    assert(s@ =~= summary_text(*report, properties_found as nat));
    s
}

/// The header does not depend on where the walk over the chunks stopped:
/// two reports that differ only in `bytes_consumed` give the same header.
pub proof fn lemma_header_ignores_consumed(source: Seq<char>, a: DecodeReport, b: DecodeReport)
    requires
        a.source_bytes == b.source_bytes,
        a.chunks_decoded == b.chunks_decoded,
        a.decoded_bytes == b.decoded_bytes,
        a.tail_bytes_left_raw == b.tail_bytes_left_raw,
    ensures
        header_text(source, a) == header_text(source, b),
{
}

/// The header opens with the banner and the line naming the save; then come
/// the line with the size of the whole given data (`source_bytes`, whatever
/// the walk consumed), the line with the number of chunks decoded, and the
/// line with the number of decoded bytes, each at the position where the line
/// before it ends.
pub proof fn lemma_header_lines(source: Seq<char>, report: DecodeReport)
    ensures
        ({
            let h = header_text(source, report);
            let opening = BANNER@ + "Source file:              "@ + source + "\n"@;
            let size_line = "Source size (compressed): "@ + decimal(report.source_bytes as nat) + " bytes\n"@;
            let chunks_line = "Chunks decoded:           "@ + decimal(report.chunks_decoded as nat) + "\n"@;
            let decoded_line = "Decoded size:             "@ + decimal(report.decoded_bytes as nat) + " bytes\n"@;
            let p1 = opening.len() as int;
            let p2 = p1 + size_line.len();
            let p3 = p2 + chunks_line.len();
            let p4 = p3 + decoded_line.len();
            &&& p4 <= h.len()
            &&& h.subrange(0, p1) == opening
            &&& h.subrange(p1, p2) == size_line
            &&& h.subrange(p2, p3) == chunks_line
            &&& h.subrange(p3, p4) == decoded_line
        }),
{
    let h = header_text(source, report);
    let opening = BANNER@ + "Source file:              "@ + source + "\n"@;
    let size_line = "Source size (compressed): "@ + decimal(report.source_bytes as nat) + " bytes\n"@;
    let chunks_line = "Chunks decoded:           "@ + decimal(report.chunks_decoded as nat) + "\n"@;
    let decoded_line = "Decoded size:             "@ + decimal(report.decoded_bytes as nat) + " bytes\n"@;
    let note = if report.tail_bytes_left_raw > 0 {
        "Note: "@ + decimal(report.tail_bytes_left_raw as nat) + TAIL_NOTE@
    } else {
        Seq::empty()
    };
    assert(h =~= opening + size_line + chunks_line + decoded_line + (note + RULE@));
    let p1 = opening.len() as int;
    let p2 = p1 + size_line.len();
    let p3 = p2 + chunks_line.len();
    let p4 = p3 + decoded_line.len();
    assert(h.subrange(0, p1) =~= opening);
    assert(h.subrange(p1, p2) =~= size_line);
    assert(h.subrange(p2, p3) =~= chunks_line);
    assert(h.subrange(p3, p4) =~= decoded_line);
}

/// The summary depends on the report only through the chunks decoded and
/// the bytes decoded: two reports that agree on those give the same summary.
pub proof fn lemma_summary_reads_counts_only(a: DecodeReport, b: DecodeReport, properties_found: nat)
    requires
        a.chunks_decoded == b.chunks_decoded,
        a.decoded_bytes == b.decoded_bytes,
    ensures
        summary_text(a, properties_found) == summary_text(b, properties_found),
{
}

/// The summary opens with "Decoded ", the number of chunks decoded
/// (`chunks_decoded`, whatever the bytes decoded come to), " chunks (", and
/// the number of bytes decoded; it ends with the number of properties found
/// and " readable top-level properties.".
pub proof fn lemma_summary_parts(report: DecodeReport, properties_found: nat)
    ensures
        ({
            let t = summary_text(report, properties_found);
            let chunks = "Decoded "@ + decimal(report.chunks_decoded as nat) + " chunks ("@;
            let bytes = decimal(report.decoded_bytes as nat) + " bytes). Found "@;
            let tail = decimal(properties_found) + " readable top-level properties."@;
            &&& t.len() == (chunks.len() + bytes.len()) as int + tail.len()
            &&& t.subrange(0, chunks.len() as int) == chunks
            &&& t.subrange(chunks.len() as int, (chunks.len() + bytes.len()) as int) == bytes
            &&& t.subrange((chunks.len() + bytes.len()) as int, t.len() as int) == tail
        }),
{
    let t = summary_text(report, properties_found);
    let chunks = "Decoded "@ + decimal(report.chunks_decoded as nat) + " chunks ("@;
    let bytes = decimal(report.decoded_bytes as nat) + " bytes). Found "@;
    let tail = decimal(properties_found) + " readable top-level properties."@;
    assert(t =~= chunks + bytes + tail);
    assert(t.subrange(0, chunks.len() as int) =~= chunks);
    assert(t.subrange(chunks.len() as int, (chunks.len() + bytes.len()) as int) =~= bytes);
    assert(t.subrange((chunks.len() + bytes.len()) as int, t.len() as int) =~= tail);
}

} // verus!
