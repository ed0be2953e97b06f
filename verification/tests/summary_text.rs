use save_decoder::decoder::DecodeReport;
use save_decoder::summary::{output_header, readable_preamble, run_summary};

fn report(tail: usize) -> DecodeReport {
    DecodeReport {
        chunks_decoded: 3,
        decoded_bytes: 393216,
        source_bytes: 1000,
        bytes_consumed: 1000 - tail,
        tail_bytes_left_raw: tail,
    }
}

const BANNER: &str = "================================================================\n Oblivion Remastered Save Decoder \u{2014} decoded output\n Tool by Bram Haegeman\n================================================================\n\n";

#[test]
fn header_without_tail() {
    assert_eq!(
        output_header("C:\\saves\\a.sav", &report(0)),
        format!(
            "{BANNER}Source file:              C:\\saves\\a.sav\nSource size (compressed): 1000 bytes\n\
             Chunks decoded:           3\nDecoded size:             393216 bytes\n\
             \n---------------------------------------------------------------\n\n"
        )
    );
}

#[test]
fn header_with_tail_note() {
    let h = output_header("a.sav", &report(12));
    assert!(h.contains(
        "Decoded size:             393216 bytes\nNote: 12 trailing bytes were not part of the Oodle chunk stream (likely the save's\n      preview metadata / thumbnail image block) and are not included below.\n\n---"
    ));
}

#[test]
fn preamble_says_how_the_walk_ended() {
    let p = readable_preamble("HEADER\n", 7, false);
    assert!(p.starts_with("HEADER\nThis is a best-effort readable listing of every top-level property found in\nthe save."));
    assert!(p.ends_with(
        "Top-level properties found: 7\n(reached the end of the readable property list cleanly)\n\n---------------------------------------------------------------\n\n"
    ));
    let q = readable_preamble("", 2, true);
    assert!(q.contains("Top-level properties found: 2\n(the walk stopped before the end \u{2014} see the note at the bottom of this file)\n"));
}

#[test]
fn summary_line() {
    assert_eq!(
        run_summary(&report(0), 41),
        "Decoded 3 chunks (393216 bytes). Found 41 readable top-level properties."
    );
}
