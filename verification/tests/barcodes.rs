use pipspeak::barcodes::{BarcodeError, Barcodes, Spacer};

const TEST_BUFFER: &[u8] = b"AGAAACCA\nGATTTCCC\nAAGTCCAA\nGAGAAACC";
const MALFORMED_BUFFER: &[u8] = b"AGAAACCA\nGATTTCCC\nAAGTCCAA\nGAGAAACCC";
const TEST_SPACER: &str = "ATG";
const NOMATCH_SEQ: &[u8] = b"SHOULDNOTMATCHANYTHING";
const ENDMATCH_SEQ: &[u8] = b"OFFSETXAGAAACCA";
const ENDMATCH_SEQ_1D: &[u8] = b"OFFSETXTGAAACCA";
const STARTMATCH_SEQ: &[u8] = b"AGAAACCAANDSOMETHINGELSE";
const STARTMATCH_SEQ_1D: &[u8] = b"TGAAACCAANDSOMETHINGELSE";
const OFFSETMATCH_SEQ: &[u8] = b"123AGAAACCASOMETHINGELSE";
const OFFSETMATCH_SEQ_1D: &[u8] = b"123TGAAACCASOMETHINGELSE";

#[test]
fn from_buffer_exact() {
    let barcodes = Barcodes::from_buffer(TEST_BUFFER, true).unwrap();
    assert_eq!(barcodes.len(), 8);
    assert_eq!(barcodes.lookup_len(), 4);
    assert_eq!(barcodes.num_barcodes(), 4);

    assert_eq!(barcodes.get_barcode(0, true).unwrap(), b"AGAAACCA");
    assert_eq!(barcodes.get_barcode(1, true).unwrap(), b"GATTTCCC");
    assert_eq!(barcodes.get_barcode(2, true).unwrap(), b"AAGTCCAA");
    assert_eq!(barcodes.get_barcode(3, true).unwrap(), b"GAGAAACC");

    assert_eq!(barcodes.get_id(b"AGAAACCA").unwrap(), 0);
    assert_eq!(barcodes.get_id(b"GATTTCCC").unwrap(), 1);
    assert_eq!(barcodes.get_id(b"AAGTCCAA").unwrap(), 2);
    assert_eq!(barcodes.get_id(b"GAGAAACC").unwrap(), 3);
}

#[test]
fn from_buffer() {
    let barcodes = Barcodes::from_buffer(TEST_BUFFER, false).unwrap();
    assert_eq!(barcodes.len(), 8);
    assert_eq!(barcodes.lookup_len(), 100);
    assert_eq!(barcodes.num_barcodes(), 4);

    assert_eq!(barcodes.get_barcode(0, true).unwrap(), b"AGAAACCA");
    assert_eq!(barcodes.get_barcode(1, true).unwrap(), b"GATTTCCC");
    assert_eq!(barcodes.get_barcode(2, true).unwrap(), b"AAGTCCAA");
    assert_eq!(barcodes.get_barcode(3, true).unwrap(), b"GAGAAACC");

    // no mismatch
    assert_eq!(barcodes.get_id(b"AGAAACCA").unwrap(), 0);
    assert_eq!(barcodes.get_id(b"GATTTCCC").unwrap(), 1);
    assert_eq!(barcodes.get_id(b"AAGTCCAA").unwrap(), 2);
    assert_eq!(barcodes.get_id(b"GAGAAACC").unwrap(), 3);

    // with mismatch
    assert_eq!(barcodes.get_id(b"TGAAACCA").unwrap(), 0);
    assert_eq!(barcodes.get_id(b"CATTTCCC").unwrap(), 1);
    assert_eq!(barcodes.get_id(b"TAGTCCAA").unwrap(), 2);
    assert_eq!(barcodes.get_id(b"CAGAAACC").unwrap(), 3);

    // hamming distance of 2 should fail
    assert_eq!(barcodes.get_id(b"TCAAACCA"), None);
    assert_eq!(barcodes.get_id(b"CTTTTCCC"), None);
    assert_eq!(barcodes.get_id(b"TTGTCCAA"), None);
    assert_eq!(barcodes.get_id(b"CCGAAACC"), None);
}

#[test]
fn from_buffer_with_spacer() {
    let spacer = Spacer::from_str(TEST_SPACER);
    let barcodes = Barcodes::from_buffer_with_spacer(TEST_BUFFER, &spacer, false).unwrap();
    assert_eq!(barcodes.len(), 11);
    assert_eq!(barcodes.lookup_len(), 136);
    assert_eq!(barcodes.num_barcodes(), 4);

    assert_eq!(barcodes.get_barcode(0, true).unwrap(), b"AGAAACCAATG");
    assert_eq!(barcodes.get_barcode(1, true).unwrap(), b"GATTTCCCATG");
    assert_eq!(barcodes.get_barcode(2, true).unwrap(), b"AAGTCCAAATG");
    assert_eq!(barcodes.get_barcode(3, true).unwrap(), b"GAGAAACCATG");

    // no mismatch
    assert_eq!(barcodes.get_id(b"AGAAACCAATG").unwrap(), 0);
    assert_eq!(barcodes.get_id(b"GATTTCCCATG").unwrap(), 1);
    assert_eq!(barcodes.get_id(b"AAGTCCAAATG").unwrap(), 2);
    assert_eq!(barcodes.get_id(b"GAGAAACCATG").unwrap(), 3);

    // with mismatch
    assert_eq!(barcodes.get_id(b"TGAAACCAATG").unwrap(), 0);
    assert_eq!(barcodes.get_id(b"TATTTCCCATG").unwrap(), 1);
    assert_eq!(barcodes.get_id(b"TAGTCCAAATG").unwrap(), 2);
    assert_eq!(barcodes.get_id(b"TAGAAACCATG").unwrap(), 3);

    // with mismatch of 2 should fail
    assert_eq!(barcodes.get_id(b"TTAAACCAATG"), None);
    assert_eq!(barcodes.get_id(b"TTTTTCCCATG"), None);
    assert_eq!(barcodes.get_id(b"TTGTCCAAATG"), None);
    assert_eq!(barcodes.get_id(b"TTGAAACCATG"), None);
}

#[test]
fn from_buffer_with_spacer_exact() {
    let spacer = Spacer::from_str(TEST_SPACER);
    let barcodes = Barcodes::from_buffer_with_spacer(TEST_BUFFER, &spacer, true).unwrap();
    assert_eq!(barcodes.len(), 11);
    assert_eq!(barcodes.lookup_len(), 4);
    assert_eq!(barcodes.num_barcodes(), 4);

    assert_eq!(barcodes.get_barcode(0, true).unwrap(), b"AGAAACCAATG");
    assert_eq!(barcodes.get_barcode(1, true).unwrap(), b"GATTTCCCATG");
    assert_eq!(barcodes.get_barcode(2, true).unwrap(), b"AAGTCCAAATG");
    assert_eq!(barcodes.get_barcode(3, true).unwrap(), b"GAGAAACCATG");

    assert_eq!(barcodes.get_id(b"AGAAACCAATG").unwrap(), 0);
    assert_eq!(barcodes.get_id(b"GATTTCCCATG").unwrap(), 1);
    assert_eq!(barcodes.get_id(b"AAGTCCAAATG").unwrap(), 2);
    assert_eq!(barcodes.get_id(b"GAGAAACCATG").unwrap(), 3);
}

#[test]
fn size_variance() {
    let barcodes = Barcodes::from_buffer(MALFORMED_BUFFER, false);
    assert!(barcodes.is_err());
}

#[test]
fn size_variance_exact() {
    let barcodes = Barcodes::from_buffer(MALFORMED_BUFFER, true);
    assert!(barcodes.is_err());
}

#[test]
fn size_variance_with_spacer() {
    let spacer = Spacer::from_str(TEST_SPACER);
    let barcodes = Barcodes::from_buffer_with_spacer(MALFORMED_BUFFER, &spacer, false);
    assert!(barcodes.is_err());
}

#[test]
fn size_variance_with_spacer_exact() {
    let spacer = Spacer::from_str(TEST_SPACER);
    let barcodes = Barcodes::from_buffer_with_spacer(MALFORMED_BUFFER, &spacer, true);
    assert!(barcodes.is_err());
}

#[test]
fn match_sequence() {
    let barcodes = Barcodes::from_buffer(TEST_BUFFER, false).unwrap();

    // no mismatch
    assert_eq!(barcodes.match_sequence(NOMATCH_SEQ), None);
    assert_eq!(
        barcodes.match_sequence(ENDMATCH_SEQ),
        Some((7 + barcodes.len(), 0))
    );
    assert_eq!(
        barcodes.match_sequence(STARTMATCH_SEQ),
        Some((0 + barcodes.len(), 0))
    );
    assert_eq!(
        barcodes.match_sequence(OFFSETMATCH_SEQ),
        Some((3 + barcodes.len(), 0))
    );

    // with mismatch
    assert_eq!(
        barcodes.match_sequence(ENDMATCH_SEQ_1D),
        Some((7 + barcodes.len(), 0))
    );
    assert_eq!(
        barcodes.match_sequence(STARTMATCH_SEQ_1D),
        Some((0 + barcodes.len(), 0))
    );
    assert_eq!(
        barcodes.match_sequence(OFFSETMATCH_SEQ_1D),
        Some((3 + barcodes.len(), 0))
    );
}

#[test]
fn match_sequence_exact() {
    let barcodes = Barcodes::from_buffer(TEST_BUFFER, true).unwrap();

    // no mismatch
    assert_eq!(barcodes.match_sequence(NOMATCH_SEQ), None);
    assert_eq!(
        barcodes.match_sequence(ENDMATCH_SEQ),
        Some((7 + barcodes.len(), 0))
    );
    assert_eq!(
        barcodes.match_sequence(STARTMATCH_SEQ),
        Some((0 + barcodes.len(), 0))
    );
    assert_eq!(
        barcodes.match_sequence(OFFSETMATCH_SEQ),
        Some((3 + barcodes.len(), 0))
    );

    // with mismatch
    assert_eq!(barcodes.match_sequence(ENDMATCH_SEQ_1D), None);
    assert_eq!(barcodes.match_sequence(STARTMATCH_SEQ_1D), None);
    assert_eq!(barcodes.match_sequence(OFFSETMATCH_SEQ_1D), None);
}

#[test]
fn match_subsequence() {
    let barcodes = Barcodes::from_buffer(TEST_BUFFER, false).unwrap();
    let start_pos = 7;
    let end_pos = start_pos + barcodes.len();

    // no mismatch
    assert_eq!(
        barcodes.match_subsequence(NOMATCH_SEQ, start_pos, end_pos),
        None
    );
    assert_eq!(
        barcodes.match_subsequence(ENDMATCH_SEQ, start_pos, end_pos),
        Some((0 + barcodes.len(), 0))
    );
    assert_eq!(
        barcodes.match_subsequence(STARTMATCH_SEQ, start_pos, end_pos),
        None
    );
    assert_eq!(
        barcodes.match_subsequence(OFFSETMATCH_SEQ, start_pos, end_pos),
        None
    );

    // with mismatch
    assert_eq!(
        barcodes.match_subsequence(ENDMATCH_SEQ_1D, start_pos, end_pos),
        Some((0 + barcodes.len(), 0))
    );
    assert_eq!(
        barcodes.match_subsequence(STARTMATCH_SEQ_1D, start_pos, end_pos),
        None
    );
    assert_eq!(
        barcodes.match_subsequence(OFFSETMATCH_SEQ_1D, start_pos, end_pos),
        None
    );
}

#[test]
fn match_subsequence_exact() {
    let barcodes = Barcodes::from_buffer(TEST_BUFFER, true).unwrap();
    let start_pos = 7;
    let end_pos = start_pos + barcodes.len();

    // no mismatch
    assert_eq!(
        barcodes.match_subsequence(NOMATCH_SEQ, start_pos, end_pos),
        None
    );
    assert_eq!(
        barcodes.match_subsequence(ENDMATCH_SEQ, start_pos, end_pos),
        Some((0 + barcodes.len(), 0))
    );
    assert_eq!(
        barcodes.match_subsequence(STARTMATCH_SEQ, start_pos, end_pos),
        None
    );
    assert_eq!(
        barcodes.match_subsequence(OFFSETMATCH_SEQ, start_pos, end_pos),
        None
    );

    // with mismatch
    assert_eq!(
        barcodes.match_subsequence(ENDMATCH_SEQ_1D, start_pos, end_pos),
        None
    );
    assert_eq!(
        barcodes.match_subsequence(STARTMATCH_SEQ_1D, start_pos, end_pos),
        None
    );
    assert_eq!(
        barcodes.match_subsequence(OFFSETMATCH_SEQ_1D, start_pos, end_pos),
        None
    );
}

#[test]
fn match_empty() {
    let barcodes = Barcodes::from_buffer(TEST_BUFFER, false).unwrap();
    assert_eq!(barcodes.match_sequence(b""), None);
    assert_eq!(barcodes.match_subsequence(b"", 0, barcodes.len()), None);
}

#[test]
fn match_empty_exact() {
    let barcodes = Barcodes::from_buffer(TEST_BUFFER, true).unwrap();
    assert_eq!(barcodes.match_sequence(b""), None);
    assert_eq!(barcodes.match_subsequence(b"", 0, barcodes.len()), None);
}

#[test]
fn fuzzy_single_and_double_substitution() {
    let barcodes = Barcodes::from_buffer(TEST_BUFFER, false).unwrap();
    // one mismatch at position 0 resolves to index 0
    assert_eq!(barcodes.get_id(b"TGAAACCA"), Some(0));
    // two mismatches never match
    assert_eq!(barcodes.get_id(b"TCAAACCA"), None);
}

#[test]
fn ambiguous_variant_is_dropped() {
    // ACT and AGT share the variants AAT, ATT (and both canonical middles),
    // so those variants must not match; the unshared ones still do.
    let barcodes = Barcodes::from_buffer(b"ACT\nAGT", false).unwrap();
    assert_eq!(barcodes.get_id(b"ACT"), Some(0));
    assert_eq!(barcodes.get_id(b"AGT"), Some(1));
    assert_eq!(barcodes.get_id(b"AAT"), None);
    assert_eq!(barcodes.get_id(b"ATT"), None);
    assert_eq!(barcodes.get_id(b"CCT"), Some(0));
    assert_eq!(barcodes.get_id(b"CGT"), Some(1));
    // two canonicals plus twelve unambiguous non-canonical variants
    assert_eq!(barcodes.lookup_len(), 14);
}

#[test]
fn spacer_roundtrip() {
    let spacer = Spacer::from_str("ATG");
    assert_eq!(spacer.seq(), b"ATG");
}

#[test]
fn lines_are_trimmed() {
    let barcodes = Barcodes::from_buffer(b"  AGAAACCA \nGATTTCCC\t\n", true).unwrap();
    assert_eq!(barcodes.num_barcodes(), 2);
    assert_eq!(barcodes.len(), 8);
    assert_eq!(barcodes.get_barcode(0, true).unwrap(), b"AGAAACCA");
    assert_eq!(barcodes.get_barcode(1, true).unwrap(), b"GATTTCCC");
}

#[test]
fn get_barcode_out_of_range() {
    let barcodes = Barcodes::from_buffer(TEST_BUFFER, true).unwrap();
    assert_eq!(barcodes.get_barcode(4, true), None);
}

#[test]
fn get_barcode_strips_spacer() {
    let spacer = Spacer::from_str(TEST_SPACER);
    let barcodes = Barcodes::from_buffer_with_spacer(TEST_BUFFER, &spacer, true).unwrap();
    assert_eq!(barcodes.get_barcode(0, false).unwrap(), b"AGAAACCA");
    assert_eq!(barcodes.get_barcode(0, true).unwrap(), b"AGAAACCAATG");
}

#[test]
fn length_variance_error_kind() {
    let err = Barcodes::from_buffer(MALFORMED_BUFFER, false).unwrap_err();
    assert_eq!(err, BarcodeError::LengthVariance);
}

#[test]
fn duplicate_lines_keep_first_index() {
    let barcodes = Barcodes::from_buffer(b"AGAAACCA\nAGAAACCA\nGATTTCCC", true).unwrap();
    assert_eq!(barcodes.num_barcodes(), 3);
    assert_eq!(barcodes.lookup_len(), 2);
    assert_eq!(barcodes.get_id(b"AGAAACCA"), Some(0));
    assert_eq!(barcodes.get_id(b"GATTTCCC"), Some(2));
    assert_eq!(barcodes.get_barcode(1, true).unwrap(), b"AGAAACCA");
}

#[test]
fn empty_input_is_uniform() {
    // with no lines there is only one (vacuous) length, so construction
    // succeeds with an empty dictionary
    let barcodes = Barcodes::from_buffer(b"", false).unwrap();
    assert_eq!(barcodes.num_barcodes(), 0);
    assert_eq!(barcodes.lookup_len(), 0);
    assert_eq!(barcodes.len(), 0);
    assert_eq!(barcodes.match_sequence(b"AGAAACCA"), None);
}

#[test]
fn leftmost_match_wins() {
    let barcodes = Barcodes::from_buffer(TEST_BUFFER, true).unwrap();
    // two different keys occur; the earlier window is reported
    let hay = b"XGATTTCCCAGAAACCA";
    assert_eq!(barcodes.match_sequence(hay), Some((1 + 8, 1)));
}

#[test]
fn out_of_bounds_window_is_no_match() {
    let barcodes = Barcodes::from_buffer(TEST_BUFFER, true).unwrap();
    // inverted bounds
    assert_eq!(barcodes.match_subsequence(ENDMATCH_SEQ, 9, 3), None);
    // end past the haystack
    assert_eq!(barcodes.match_subsequence(ENDMATCH_SEQ, 0, 1000), None);
    // start past the haystack
    assert_eq!(barcodes.match_subsequence(ENDMATCH_SEQ, 1000, 1001), None);
}

#[test]
fn parse_buffer_direct() {
    let spacer = Spacer::from_str(TEST_SPACER);
    let with_spacer = Barcodes::parse_buffer(TEST_BUFFER, Some(&spacer), true).unwrap();
    assert_eq!(with_spacer.len(), 11);
    let without = Barcodes::parse_buffer(TEST_BUFFER, None, true).unwrap();
    assert_eq!(without.len(), 8);
}
