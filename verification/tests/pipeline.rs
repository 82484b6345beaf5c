use pipspeak::config::Config;
use pipspeak::log::Statistics;
use pipspeak::pipeline::{process_read, ReadOutcome};

const B1: &[u8] = b"AGAAACCA\nGATTTCCC";
const B2: &[u8] = b"TCTGTG\nGTAATC";
const B3: &[u8] = b"AAAGTG\nCTGAAG";
const B4: &[u8] = b"CTGGGTAT\nAAACTACA";
const S1: &str = "ATG";
const S2: &str = "GAG";
const S3: &str = "TCGAG";

fn test_config(exact: bool, linkers: bool) -> Config {
    Config::from_buffers(B1, B2, B3, B4, S1, S2, S3, exact, linkers).unwrap()
}

/// A clean read: all four segments canonical, then a 12-byte UMI.
fn clean_read() -> Vec<u8> {
    let mut read = Vec::new();
    read.extend_from_slice(b"AGAAACCA");
    read.extend_from_slice(b"ATG");
    read.extend_from_slice(b"TCTGTG");
    read.extend_from_slice(b"GAG");
    read.extend_from_slice(b"AAAGTG");
    read.extend_from_slice(b"TCGAG");
    read.extend_from_slice(b"CTGGGTAT");
    read.extend_from_slice(b"ACGTACGTACGT");
    read
}

/// The same read with one substitution inside every barcode segment.
fn noisy_read() -> Vec<u8> {
    let mut read = clean_read();
    read[0] = b'T'; // first barcode
    read[11] = b'G'; // second barcode
    read[20] = b'C'; // third barcode
    read[31] = b'A'; // fourth barcode
    read
}

fn quals(n: usize) -> Vec<u8> {
    vec![b'F'; n]
}

#[test]
fn accept_clean_read() {
    let config = test_config(true, false);
    let mut stats = Statistics::new();
    let read = clean_read();
    let qual = quals(read.len());
    let out = process_read(&config, &mut stats, &read, &qual, 5, 12);
    match out {
        ReadOutcome::Accepted { seq, qual: q } => {
            let mut expected = Vec::new();
            expected.extend_from_slice(b"AGAAACCA");
            expected.extend_from_slice(b"TCTGTG");
            expected.extend_from_slice(b"AAAGTG");
            expected.extend_from_slice(b"CTGGGTAT");
            expected.extend_from_slice(b"ACGTACGTACGT");
            assert_eq!(seq, expected);
            assert_eq!(q.len(), expected.len());
        }
        _ => panic!("the clean read must pass all four stages"),
    }
    assert_eq!(stats.total_reads, 1);
    assert_eq!(stats.passing_reads, 1);
    assert_eq!(stats.num_filtered_1, 0);
}

#[test]
fn accept_noisy_read_corrected() {
    // one mismatch injected into every segment still drives the read through
    // all four stages, and the output is the corrected concatenation
    let config = test_config(false, false);
    let mut stats = Statistics::new();
    let read = noisy_read();
    let qual = quals(read.len());
    let out = process_read(&config, &mut stats, &read, &qual, 5, 12);
    match out {
        ReadOutcome::Accepted { seq, qual: q } => {
            let mut expected = Vec::new();
            expected.extend_from_slice(b"AGAAACCA");
            expected.extend_from_slice(b"TCTGTG");
            expected.extend_from_slice(b"AAAGTG");
            expected.extend_from_slice(b"CTGGGTAT");
            expected.extend_from_slice(b"ACGTACGTACGT");
            assert_eq!(seq, expected);
            assert_eq!(q, vec![b'F'; expected.len()]);
        }
        _ => panic!("the noisy read must still pass in fuzzy mode"),
    }
    assert_eq!(stats.passing_reads, 1);
}

#[test]
fn accept_noisy_read_with_linkers() {
    let config = test_config(false, true);
    let mut stats = Statistics::new();
    let read = noisy_read();
    let qual = quals(read.len());
    let out = process_read(&config, &mut stats, &read, &qual, 5, 12);
    match out {
        ReadOutcome::Accepted { seq, qual: q } => {
            // with linkers kept the corrected output is the whole clean read
            assert_eq!(seq, clean_read());
            assert_eq!(q.len(), clean_read().len());
        }
        _ => panic!("the noisy read must still pass in fuzzy mode"),
    }
    assert_eq!(stats.passing_reads, 1);
}

#[test]
fn noisy_read_fails_exact_mode() {
    let config = test_config(true, false);
    let mut stats = Statistics::new();
    let read = noisy_read();
    let qual = quals(read.len());
    let out = process_read(&config, &mut stats, &read, &qual, 5, 12);
    assert!(matches!(out, ReadOutcome::Filtered1));
    assert_eq!(stats.num_filtered_1, 1);
    assert_eq!(stats.passing_reads, 0);
}

#[test]
fn offset_allows_shifted_start() {
    let config = test_config(true, false);
    let mut stats = Statistics::new();
    let mut read = Vec::new();
    read.extend_from_slice(b"NNN");
    read.extend_from_slice(&clean_read());
    let qual = quals(read.len());
    let out = process_read(&config, &mut stats, &read, &qual, 5, 12);
    assert!(matches!(out, ReadOutcome::Accepted { .. }));
    // without the offset the shifted first barcode falls outside the window
    let mut stats2 = Statistics::new();
    let out2 = process_read(&config, &mut stats2, &read, &qual, 0, 12);
    assert!(matches!(out2, ReadOutcome::Filtered1));
}

#[test]
fn filtered_at_each_stage() {
    let config = test_config(true, false);
    let mut stats = Statistics::new();
    let clean = clean_read();
    let qual = quals(clean.len());

    // stage 1: nothing matches anywhere
    let junk = vec![b'N'; clean.len()];
    let out = process_read(&config, &mut stats, &junk, &qual, 5, 12);
    assert!(matches!(out, ReadOutcome::Filtered1));

    // stage 2: the second segment is destroyed
    let mut broken2 = clean.clone();
    for i in 11..20 {
        broken2[i] = b'N';
    }
    let out = process_read(&config, &mut stats, &broken2, &qual, 5, 12);
    assert!(matches!(out, ReadOutcome::Filtered2));

    // stage 3: the third segment is destroyed
    let mut broken3 = clean.clone();
    for i in 20..31 {
        broken3[i] = b'N';
    }
    let out = process_read(&config, &mut stats, &broken3, &qual, 5, 12);
    assert!(matches!(out, ReadOutcome::Filtered3));

    // stage 4: the fourth segment is destroyed
    let mut broken4 = clean.clone();
    for i in 31..39 {
        broken4[i] = b'N';
    }
    let out = process_read(&config, &mut stats, &broken4, &qual, 5, 12);
    assert!(matches!(out, ReadOutcome::Filtered4));

    assert_eq!(stats.total_reads, 4);
    assert_eq!(stats.passing_reads, 0);
    assert_eq!(stats.num_filtered_1, 1);
    assert_eq!(stats.num_filtered_2, 1);
    assert_eq!(stats.num_filtered_3, 1);
    assert_eq!(stats.num_filtered_4, 1);
    // the books balance
    assert_eq!(
        stats.total_reads,
        stats.passing_reads
            + stats.num_filtered_1
            + stats.num_filtered_2
            + stats.num_filtered_3
            + stats.num_filtered_4
    );
}

#[test]
fn read_too_short_for_umi() {
    let config = test_config(true, false);
    let mut stats = Statistics::new();
    let mut read = clean_read();
    read.truncate(39 + 5); // only five UMI bytes remain
    let qual = quals(read.len());
    let out = process_read(&config, &mut stats, &read, &qual, 5, 12);
    assert!(matches!(out, ReadOutcome::TooShort));
    assert_eq!(stats.total_reads, 1);
    assert_eq!(stats.passing_reads, 1);
}

#[test]
fn whitelist_counts_distinct_constructs() {
    let config = test_config(false, false);
    let mut stats = Statistics::new();
    let clean = clean_read();
    let noisy = noisy_read();
    let qual = quals(clean.len());
    // the noisy read corrects to the same construct as the clean one
    let out = process_read(&config, &mut stats, &clean, &qual, 5, 12);
    assert!(matches!(out, ReadOutcome::Accepted { .. }));
    let out = process_read(&config, &mut stats, &noisy, &qual, 5, 12);
    assert!(matches!(out, ReadOutcome::Accepted { .. }));
    // a read with a different UMI gives a new construct
    let mut other = clean.clone();
    let n = other.len();
    other[n - 1] = b'A';
    other[n - 2] = b'A';
    let out = process_read(&config, &mut stats, &other, &qual, 5, 12);
    assert!(matches!(out, ReadOutcome::Accepted { .. }));

    stats.calculate_metrics();
    assert_eq!(stats.total_reads, 3);
    assert_eq!(stats.passing_reads, 3);
    assert_eq!(stats.whitelist_size, 2);
    assert!(stats.whitelist_size <= stats.passing_reads);
}

#[test]
fn config_match_subsequence_windows() {
    let config = test_config(true, false);
    let read = clean_read();
    // stage one within [0, 11 + offset)
    let st1 = config.match_subsequence(&read, 0, 0, Some(5));
    assert_eq!(st1, Some((11, 0)));
    // stage two exactly at the end of stage one
    let st2 = config.match_subsequence(&read, 1, 11, None);
    assert_eq!(st2, Some((9, 0)));
    // a window that starts too late finds nothing
    let st_off = config.match_subsequence(&read, 1, 12, None);
    assert_eq!(st_off, None);
    // bounds past the read end give no match rather than a failure
    let st_oob = config.match_subsequence(&read, 1, read.len() + 1, None);
    assert_eq!(st_oob, None);
}

#[test]
fn construct_building() {
    let config = test_config(false, false);
    let bc = config.build_barcode(0, 1, 0, 1);
    let exp = [
        "AGAAACCA".as_bytes(),
        "GTAATC".as_bytes(),
        "AAAGTG".as_bytes(),
        "AAACTACA".as_bytes(),
    ]
    .concat();
    assert_eq!(bc, exp);
}

#[test]
fn construct_building_with_linkers() {
    let config = test_config(false, true);
    let bc = config.build_barcode(0, 1, 0, 1);
    let exp = [
        "AGAAACCAATG".as_bytes(),
        "GTAATCGAG".as_bytes(),
        "AAAGTGTCGAG".as_bytes(),
        "AAACTACA".as_bytes(),
    ]
    .concat();
    assert_eq!(bc, exp);
}

#[test]
fn config_rejects_length_variance() {
    let bad = Config::from_buffers(
        b"AGAAACCA\nGATTTCC",
        B2,
        B3,
        B4,
        S1,
        S2,
        S3,
        false,
        false,
    );
    assert!(bad.is_err());
}

#[test]
fn stage_lengths() {
    let config = test_config(true, false);
    assert_eq!(config.set_len(0), 8 + 3);
    assert_eq!(config.set_len(1), 6 + 3);
    assert_eq!(config.set_len(2), 6 + 5);
    assert_eq!(config.set_len(3), 8);
}
