//! Concrete checks of the library's contracts: ranking order, truncation
//! shape, the reverse mapping, idempotence, and line numbering.

use fuzzy_filter::fuzzy_filter_and_rank;
use fuzzy_filter::number_lines;
use fuzzy_filter::prepare_top_items;
use fuzzy_filter::run;
use fuzzy_filter::truncate_long_matched_lines;
use fuzzy_filter::Algo;
use fuzzy_filter::FilterOutput;
use fuzzy_filter::FuzzyMatchedLineInfo;
use fuzzy_filter::LinesTruncatedMap;

fn digits_line(len: usize) -> String {
    (0..len).map(|i| char::from(b'0' + (i % 10) as u8)).collect()
}

#[test]
fn ranking_sorts_by_descending_score() {
    let matches: Vec<FuzzyMatchedLineInfo> = vec![
        ("low".to_string(), -7, vec![0]),
        ("high".to_string(), 42, vec![1]),
        ("mid".to_string(), 3, vec![2]),
        ("bottom".to_string(), -100, vec![3]),
    ];
    let ranked = fuzzy_filter_and_rank(matches);
    let scores: Vec<i64> = ranked.iter().map(|l| l.1).collect();
    assert_eq!(scores, vec![42, 3, -7, -100]);
    let texts: Vec<&str> = ranked.iter().map(|l| l.0.as_str()).collect();
    assert_eq!(texts, vec!["high", "mid", "low", "bottom"]);
}

#[test]
fn ranking_keeps_every_match() {
    let matches: Vec<FuzzyMatchedLineInfo> = vec![
        ("a".to_string(), 1, vec![0]),
        ("b".to_string(), 1, vec![0]),
        ("c".to_string(), 2, vec![0]),
    ];
    let ranked = fuzzy_filter_and_rank(matches);
    assert_eq!(ranked.len(), 3);
    assert_eq!(ranked[0].0, "c");
    let mut tail: Vec<&str> = ranked[1..].iter().map(|l| l.0.as_str()).collect();
    tail.sort();
    assert_eq!(tail, vec!["a", "b"]);
}

#[test]
fn empty_indices_pass_through_with_no_map_entry() {
    let lines = vec![("a fairly long line of plain text".to_string(), 0u8, vec![])];
    let (out, map) = truncate_long_matched_lines(lines, 10, None);
    assert_eq!(out.len(), 1);
    assert_eq!(out[0].0, "a fairly long line of plain text");
    assert!(out[0].2.is_empty());
    assert!(map.is_empty());
}

#[test]
fn fitting_line_passes_through_unchanged() {
    let text = digits_line(80);
    let lines = vec![(text.clone(), 0u8, vec![2, 7, 49])];
    let (out, map) = truncate_long_matched_lines(lines, 50, None);
    assert_eq!(out[0].0, text);
    assert_eq!(out[0].2, vec![2, 7, 49]);
    assert!(map.is_empty());
}

#[test]
fn truncation_cuts_at_the_computed_offset() {
    // 80 characters, matches at 70 and 75, window 50: the window guess 25 is
    // nudged three times for the marker minus one refusal (25 -> 31), then
    // absorbs the 5 trailing characters, cutting at 36.
    let text = digits_line(80);
    let lines = vec![(text.clone(), 0u8, vec![70, 75])];
    let (out, map) = truncate_long_matched_lines(lines, 50, None);
    let expected = format!("...{}", &text[36..]);
    assert_eq!(out[0].0, expected);
    assert_eq!(out[0].2, vec![37, 42]);
    assert_eq!(map.get(&expected), Some(&text));
    // The shifted positions still point at the same characters.
    let t: Vec<char> = out[0].0.chars().collect();
    let o: Vec<char> = text.chars().collect();
    assert_eq!(t[37], o[70]);
    assert_eq!(t[42], o[75]);
}

#[test]
fn truncation_never_lengthens_lines() {
    for win in [1usize, 5, 20, 50, 80] {
        let text = digits_line(90);
        let lines = vec![(text.clone(), 0u8, vec![0, 85]), (text.clone(), 1u8, vec![60, 85])];
        let (out, _map) = truncate_long_matched_lines(lines, win, None);
        for (t, _, idxs) in out {
            assert!(t.chars().count() <= 90);
            let n = t.chars().count();
            for i in idxs {
                assert!(i < n);
            }
        }
    }
}

#[test]
fn truncation_is_idempotent_on_lines() {
    let text = digits_line(80);
    let lines = vec![
        (text.clone(), 0u8, vec![70, 75]),
        (text.clone(), 1u8, vec![10, 74]),
        (text.clone(), 2u8, vec![0, 55]),
        (digits_line(30), 3u8, vec![4, 9]),
    ];
    let (once, _) = truncate_long_matched_lines(lines, 50, None);
    let again: Vec<(String, u8, Vec<usize>)> =
        once.iter().map(|l| (l.0.clone(), l.1, l.2.clone())).collect();
    let (twice, _) = truncate_long_matched_lines(again, 50, None);
    for (a, b) in once.iter().zip(twice.iter()) {
        assert_eq!(a.0, b.0);
        assert_eq!(a.2, b.2);
    }
}

#[test]
fn map_recovers_each_original_exactly() {
    // Four lines sharing a long path prefix, differing near the end.
    let prefix = "directories/are/nested/a/lot/then/the/matched/items/will/be/invisible/";
    let names = ["file.scss", "another-file.scss", "file.js", "another-file.js"];
    let mut lines: Vec<(String, i64, Vec<usize>)> = Vec::new();
    for name in names {
        let line = format!("{}{}", prefix, name);
        // Matched positions for a query like "files", near the filename.
        let base = prefix.len();
        lines.push((line, 0, vec![base, base + 1, base + 2, base + 3, base + 4]));
    }
    let originals: Vec<String> = lines.iter().map(|l| l.0.clone()).collect();
    let (out, map) = truncate_long_matched_lines(lines, 50, None);
    assert_eq!(out.len(), 4);
    for (i, (t, _, idxs)) in out.iter().enumerate() {
        assert!(t.starts_with("..."));
        let n = t.chars().count();
        assert!(!idxs.is_empty());
        for idx in idxs {
            assert!(*idx < n);
        }
        assert_eq!(map.get(t), Some(&originals[i]));
    }
}

#[test]
fn short_line_adds_nothing_to_the_map() {
    let line = "src/lib.rs".to_string();
    let lines = vec![(line.clone(), 7i64, vec![0, 4, 8])];
    let (out, map) = truncate_long_matched_lines(lines, 50, None);
    assert_eq!(out[0].0, line);
    assert!(map.is_empty());
    assert_eq!(map.len(), 0);
}

#[test]
fn leading_fixed_width_prefix_is_kept_verbatim() {
    let icon = "i ";
    let tail_a = digits_line(100);
    let tail_b = format!("{}x", digits_line(99));
    let line_a = format!("{}{}", icon, tail_a);
    let line_b = format!("{}{}", icon, tail_b);
    let lines = vec![
        (line_a.clone(), 0u8, vec![80, 95]),
        (line_b.clone(), 1u8, vec![80, 95]),
    ];
    let (out, map) = truncate_long_matched_lines(lines, 50, Some(2));
    for (orig, (t, _, idxs)) in [&line_a, &line_b].iter().zip(out.iter()) {
        let tc: Vec<char> = t.chars().collect();
        let oc: Vec<char> = orig.chars().collect();
        // The first two characters are the original prefix, untouched.
        assert_eq!(tc[0], oc[0]);
        assert_eq!(tc[1], oc[1]);
        assert_eq!(&tc[2..5], &['.', '.', '.']);
        // The shifted positions account for the prefix offset: each points at
        // the same character as in the original.
        let offset = oc.len() - tc.len();
        for idx in idxs {
            assert_eq!(tc[*idx], oc[*idx + offset]);
        }
        assert_eq!(map.get(t).map(|s| s.as_str()), Some(orig.as_str()));
    }
}

#[test]
fn truncated_map_overwrites_colliding_keys() {
    let mut map = LinesTruncatedMap::new();
    map.insert("...shown".to_string(), "first/original/shown".to_string());
    map.insert("...shown".to_string(), "second/original/shown".to_string());
    assert_eq!(map.len(), 1);
    assert_eq!(
        map.get(&"...shown".to_string()).map(|s| s.as_str()),
        Some("second/original/shown")
    );
    assert!(map.get(&"...elsewhere".to_string()).is_none());
    assert!(!map.is_empty());
}

#[test]
fn run_without_number_returns_all_ranked() {
    let matches: Vec<FuzzyMatchedLineInfo> = vec![
        ("one".to_string(), 5, vec![0]),
        ("two".to_string(), 9, vec![1]),
    ];
    match run(matches, None, None) {
        FilterOutput::All(ranked) => {
            assert_eq!(ranked.len(), 2);
            assert_eq!(ranked[0].0, "two");
            assert_eq!(ranked[1].0, "one");
        }
        FilterOutput::Top(_) => panic!("expected the whole ranked list"),
    }
}

#[test]
fn run_with_number_keeps_the_top() {
    let long = digits_line(80);
    let matches: Vec<FuzzyMatchedLineInfo> = vec![
        ("short".to_string(), 1, vec![0]),
        (long.clone(), 50, vec![70, 75]),
        ("middle".to_string(), 10, vec![2]),
    ];
    match run(matches, Some(2), Some(50)) {
        FilterOutput::All(_) => panic!("expected only the top of the list"),
        FilterOutput::Top(items) => {
            assert_eq!(items.total, 3);
            assert_eq!(items.lines.len(), 2);
            assert_eq!(items.indices.len(), 2);
            // Best line first: the long one, truncated for the window.
            assert_eq!(items.lines[0], format!("...{}", &long[36..]));
            assert_eq!(items.indices[0], vec![37, 42]);
            assert_eq!(items.lines[1], "middle");
            assert_eq!(items.indices[1], vec![2]);
            assert_eq!(items.truncated_map.get(&items.lines[0]), Some(&long));
        }
    }
}

#[test]
fn prepare_top_items_splits_lines_and_indices() {
    let lines = vec![
        ("alpha".to_string(), 3i64, vec![0, 2]),
        ("beta".to_string(), 1i64, vec![1]),
    ];
    let (texts, indices, map) = prepare_top_items(lines, 50);
    assert_eq!(texts, vec!["alpha".to_string(), "beta".to_string()]);
    assert_eq!(indices, vec![vec![0, 2], vec![1]]);
    assert!(map.is_empty());
}

#[test]
fn number_lines_prefixes_one_based_numbers() {
    let lines: Vec<String> = (b'a'..=b'l').map(|c| (c as char).to_string()).collect();
    let numbered = number_lines(&lines);
    assert_eq!(numbered.len(), 12);
    assert_eq!(numbered[0], "1 a");
    assert_eq!(numbered[8], "9 i");
    assert_eq!(numbered[9], "10 j");
    assert_eq!(numbered[11], "12 l");
}

#[test]
fn algo_variants_are_distinct() {
    assert_eq!(Algo::Fzy, Algo::Fzy);
    assert_ne!(Algo::Skim, Algo::Fzy);
    let copy = Algo::Skim;
    assert_eq!(copy, Algo::Skim);
}
