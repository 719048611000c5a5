use amplicon_finder::dna::reverse_complement;
use amplicon_finder::model::{AmpliconError, PrimerPair};
use amplicon_finder::primer::{extract_primer_info, parse_primer_lines};
use amplicon_finder::search::{amplicon_search, find_all, usize_sub};

fn pair(name: &str, forward: &str, reverse: &str, min_len: usize, max_len: usize) -> PrimerPair {
    PrimerPair {
        primer_name: name.to_string(),
        forward_primer: forward.as_bytes().to_vec(),
        reverse_primer: reverse.as_bytes().to_vec(),
        min_len,
        max_len,
    }
}

#[test]
fn reverse_complement_reverses_and_complements() {
    assert_eq!(reverse_complement(b"ACGTT").unwrap(), b"AACGT".to_vec());
    assert_eq!(reverse_complement(b"AAAC").unwrap(), b"GTTT".to_vec());
    assert_eq!(reverse_complement(b"").unwrap(), Vec::<u8>::new());
}

#[test]
fn reverse_complement_twice_is_identity() {
    for s in [&b"ACGT"[..], b"GATTACA", b"CCCGGGTTA", b""] {
        let once = reverse_complement(s).unwrap();
        let twice = reverse_complement(&once).unwrap();
        assert_eq!(twice, s.to_vec());
    }
}

#[test]
fn reverse_complement_rejects_unsupported_base() {
    assert_eq!(
        reverse_complement(b"ACNT"),
        Err(AmpliconError::UnsupportedBaseError { base: b'N' })
    );
    assert_eq!(
        reverse_complement(b"XACGTa"),
        Err(AmpliconError::UnsupportedBaseError { base: b'a' })
    );
}

#[test]
fn find_all_reports_overlapping_matches() {
    assert_eq!(find_all(b"AAAA", b"AA"), vec![0, 1, 2]);
}

#[test]
fn find_all_reports_every_occurrence() {
    assert_eq!(find_all(b"xxabxab", b"ab"), vec![2, 5]);
    assert_eq!(find_all(b"ACGTACGT", b"CGTA"), vec![1]);
    assert_eq!(find_all(b"ACGT", b"TT"), Vec::<usize>::new());
    assert_eq!(find_all(b"AC", b"ACGT"), Vec::<usize>::new());
}

#[test]
fn find_all_with_empty_pattern_matches_everywhere() {
    assert_eq!(find_all(b"ACG", b""), vec![0, 1, 2, 3]);
}

#[test]
fn usize_sub_saturates_at_zero() {
    assert_eq!(usize_sub(7, 3), 4);
    assert_eq!(usize_sub(3, 7), 0);
    assert_eq!(usize_sub(5, 5), 0);
}

#[test]
fn scenario_single_amplicon_of_length_eight() {
    let seq = b"ACGTGGGGTTTTACGT";
    let p = pair("amp", "ACGT", "ACGT", 8, 8);
    let found = amplicon_search(seq, &p).unwrap();
    assert_eq!(found.len(), 1);
    assert_eq!(found[0].start, 4);
    assert_eq!(found[0].end, 12);
    assert_eq!(found[0].insert_length, 8);
    assert_eq!(found[0].total_length, 16);
    assert_eq!(found[0].amplicon, b"GGGGTTTT");
}

#[test]
fn zero_gap_gives_one_empty_insert() {
    // reverse complement of GGA is TCC
    let seq = b"AACTCC";
    let p = pair("zero", "AAC", "GGA", 0, 0);
    let found = amplicon_search(seq, &p).unwrap();
    assert_eq!(found.len(), 1);
    assert_eq!(found[0].insert_length, 0);
    assert_eq!(found[0].start, 3);
    assert_eq!(found[0].end, 3);
    assert_eq!(found[0].total_length, 6);
    assert!(found[0].amplicon.is_empty());
}

#[test]
fn zero_gap_inside_longer_sequence() {
    let seq = b"GGGGAACTCCGGG";
    let p = pair("zero", "AAC", "GGA", 0, 0);
    let found = amplicon_search(seq, &p).unwrap();
    assert_eq!(found.len(), 1);
    assert_eq!(found[0].start, 7);
    assert_eq!(found[0].insert_length, 0);
}

#[test]
fn no_forward_hit_gives_no_amplicon() {
    let p = pair("p", "CCCC", "ACGT", 0, 100);
    let found = amplicon_search(b"ACGTGGGGTTTTACGT", &p).unwrap();
    assert!(found.is_empty());
}

#[test]
fn no_reverse_hit_gives_no_amplicon() {
    // reverse complement of GGGG is CCCC, absent from the sequence
    let p = pair("p", "ACGT", "GGGG", 0, 100);
    let found = amplicon_search(b"ACGTGGGGTTTTACGT", &p).unwrap();
    assert!(found.is_empty());
}

#[test]
fn window_filter_bounds_are_inclusive() {
    // forward ACG, reverse CCC whose reverse complement is GGG
    let p = pair("w", "ACG", "CCC", 3, 5);
    assert!(amplicon_search(b"ACGTTGGG", &p).unwrap().is_empty());
    let at_min = amplicon_search(b"ACGTTTGGG", &p).unwrap();
    assert_eq!(at_min.len(), 1);
    assert_eq!(at_min[0].insert_length, 3);
    assert_eq!(at_min[0].amplicon, b"TTT");
    let at_max = amplicon_search(b"ACGTTTTTGGG", &p).unwrap();
    assert_eq!(at_max.len(), 1);
    assert_eq!(at_max[0].insert_length, 5);
    assert_eq!(at_max[0].total_length, 11);
    assert!(amplicon_search(b"ACGTTTTTTGGG", &p).unwrap().is_empty());
}

#[test]
fn reverse_hit_before_forward_end_is_not_an_amplicon() {
    let p = pair("p", "ACGT", "ACGT", 0, 10);
    let found = amplicon_search(b"ACGT", &p).unwrap();
    assert!(found.is_empty());
}

#[test]
fn all_combinations_are_reported_in_order() {
    // forward AC at 0 and 4, reverse complement of CC is GG at 2 and 6
    let p = pair("p", "AC", "CC", 0, 10);
    let found = amplicon_search(b"ACGGACGG", &p).unwrap();
    let spans: Vec<(usize, usize)> = found.iter().map(|a| (a.start, a.end)).collect();
    assert_eq!(spans, vec![(2, 2), (2, 6), (6, 6)]);
}

#[test]
fn primer_pairs_do_not_pair_across() {
    // pair a: AAC / GGA (reverse complement TCC); pair b: CGC / ATA (reverse complement TAT)
    let a = pair("a", "AAC", "GGA", 0, 10);
    let b = pair("b", "CGC", "ATA", 0, 10);
    let seq = b"AACGGTCCTT";
    let from_a = amplicon_search(seq, &a).unwrap();
    assert_eq!(from_a.len(), 1);
    assert_eq!(from_a[0].amplicon, b"GG");
    let from_b = amplicon_search(seq, &b).unwrap();
    assert!(from_b.is_empty());
}

#[test]
fn unsupported_base_in_reverse_primer_is_an_error() {
    let p = pair("bad", "ACGT", "ACNT", 0, 10);
    assert_eq!(
        amplicon_search(b"ACGTACGT", &p).err(),
        Some(AmpliconError::UnsupportedBaseError { base: b'N' })
    );
}

#[test]
fn primer_line_is_read_and_trimmed() {
    let p = extract_primer_info(&"amp1\t ACGT \tTTGA\t+10\t200 ".to_string()).unwrap();
    assert_eq!(p.primer_name, "amp1");
    assert_eq!(p.forward_primer, b"ACGT".to_vec());
    assert_eq!(p.reverse_primer, b"TTGA".to_vec());
    assert_eq!(p.min_len, 10);
    assert_eq!(p.max_len, 200);
}

#[test]
fn primer_line_with_four_fields_is_rejected() {
    assert_eq!(
        extract_primer_info(&"amp1\tACGT\tTTGA\t10".to_string()).err(),
        Some(AmpliconError::PrimerLineFormatError)
    );
}

#[test]
fn primer_line_with_bad_length_is_rejected() {
    assert_eq!(
        extract_primer_info(&"amp1\tACGT\tTTGA\tten\t20".to_string()).err(),
        Some(AmpliconError::PrimerLenParsingError { value: "ten".to_string() })
    );
    assert_eq!(
        extract_primer_info(&"amp1\tACGT\tTTGA\t10\t-2".to_string()).err(),
        Some(AmpliconError::PrimerLenParsingError { value: "-2".to_string() })
    );
}

#[test]
fn primer_table_skips_short_line() {
    let lines = vec![
        "short\tACGT\tTTGA\t10".to_string(),
        "good\tACGT\tTTGA\t10\t20".to_string(),
    ];
    let (pairs, skipped) = parse_primer_lines(&lines);
    let pairs = pairs.unwrap();
    assert_eq!(pairs.len(), 1);
    assert_eq!(pairs[0].primer_name, "good");
    assert_eq!(skipped, vec![(0, AmpliconError::PrimerLineFormatError)]);
}

#[test]
fn primer_table_without_valid_line_fails() {
    let lines = vec!["a\tb".to_string(), "".to_string()];
    let (pairs, skipped) = parse_primer_lines(&lines);
    assert_eq!(pairs.err(), Some(AmpliconError::NoPrimersFoundError));
    assert_eq!(skipped.len(), 2);
}
