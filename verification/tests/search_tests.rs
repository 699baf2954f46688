use wordsearch::{assess, offset_valid, start_letter, Grid, SearchError, Wordsearch};

fn chars(s: &str) -> Vec<char> {
    s.chars().collect()
}

fn grid(s: &str, w: usize) -> Grid {
    Grid::construct(chars(s), w).unwrap()
}

/// A reference search with no direction filtering: every start cell and
/// every step vector in the full square [0, w] x [0, h].
fn brute_assess(content: &str, w: usize, word: &str) -> bool {
    let cs = chars(content);
    let ws = chars(word);
    let h = cs.len() / w;
    for start in 0..cs.len() {
        let sx = start % w;
        let sy = start / w;
        for dy in 0..=h {
            for dx in 0..=w {
                let mut found = true;
                for (i, wc) in ws.iter().enumerate() {
                    let x = (sx + dx * i) % w;
                    let y = (sy + dy * i) % h;
                    if cs[y * w + x] != *wc {
                        found = false;
                        break;
                    }
                }
                if found {
                    return true;
                }
            }
        }
    }
    false
}

#[test]
fn wraparound_right_edge() {
    let g = grid("ABCDEFGHI", 3);
    assert!(assess(&g, &chars("CA")));
}

#[test]
fn diagonal() {
    let g = grid("ABCDEFGHI", 3);
    assert!(assess(&g, &chars("AEI")));
}

#[test]
fn absent_characters() {
    let g = grid("ABCDEFGHI", 3);
    assert!(!assess(&g, &chars("XYZ")));
}

#[test]
fn absent_single_character() {
    let g = grid("ABCDEFGHI", 3);
    assert!(!assess(&g, &chars("AEX")));
}

#[test]
fn anti_diagonal_via_wrap() {
    let g = grid("ABCDEFGHI", 3);
    assert!(assess(&g, &chars("GEC")));
}

#[test]
fn reversed_words_also_found() {
    let g = grid("ABCDEFGHI", 3);
    assert!(assess(&g, &chars("AC")));
    assert!(assess(&g, &chars("IEA")));
    assert!(assess(&g, &chars("CEG")));
}

#[test]
fn long_word_wraps_board_repeatedly() {
    let g = grid("ABCDEFGHI", 3);
    assert!(assess(&g, &chars("AEIAEIAEI")));
    assert!(!assess(&g, &chars("AEIAEIAEB")));
}

#[test]
fn start_letter_only_from_its_cell() {
    let g = grid("ABCDEFGHI", 3);
    // "AEI" starts at cell 0 and nowhere else.
    assert!(start_letter(&g, &chars("AEI"), 0));
    assert!(!start_letter(&g, &chars("AEI"), 1));
}

#[test]
fn agrees_with_brute_force_on_covered_shape() {
    // On a 4 x 5 torus every residue direction has a filtered
    // representative, so the searches must agree on every word.
    let content = "ABCDEFGHIJKLMNOPQRST";
    let g = grid(content, 4);
    for word in ["AB", "AFKP", "AE", "DA", "TS", "AA", "QQ", "AEIMQ", "ABCDA", "XY", "AFK", "PONM"]
    {
        assert_eq!(
            assess(&g, &chars(word)),
            brute_assess(content, 4, word),
            "searches disagree on {word}"
        );
    }
}

#[test]
fn agrees_with_brute_force_on_distinct_letters() {
    let content = "ABCDEFGHI";
    let g = grid(content, 3);
    for word in ["CA", "AEI", "XYZ", "GEC", "AC", "IEA", "CEG", "AB", "BA", "HD", "AEIA"] {
        assert_eq!(
            assess(&g, &chars(word)),
            brute_assess(content, 3, word),
            "searches disagree on {word}"
        );
    }
}

#[test]
fn filter_gap_on_two_by_two() {
    // On a 2 x 2 torus no filtered candidate is congruent to the
    // stationary step (0, 0), so a word that only a stationary walk can
    // spell is missed by the filtered search but found by brute force.
    let content = "ABCD";
    let g = grid(content, 2);
    assert!(!assess(&g, &chars("AA")));
    assert!(brute_assess(content, 2, "AA"));
}

#[test]
fn single_character_word() {
    let g = grid("ABCDEFGHI", 3);
    assert!(assess(&g, &chars("E")));
    assert!(!assess(&g, &chars("X")));
}

#[test]
fn axis_and_wrap_units_are_valid() {
    assert!(offset_valid(1, 0, 3, 3));
    assert!(offset_valid(0, 1, 3, 3));
    assert!(offset_valid(0, 2, 3, 3)); // unit up via wraparound
    assert!(offset_valid(2, 0, 3, 3)); // unit left via wraparound
    assert!(!offset_valid(0, 0, 3, 3));
}

#[test]
fn coprime_mirror_keeps_diagonal() {
    // (2, 3) on a 4 x 5 torus: the raw components are coprime.
    assert!(offset_valid(2, 3, 4, 5));
    // (2, 2) on a 4 x 4 torus: every mirrored form has gcd 2.
    assert!(!offset_valid(2, 2, 4, 4));
    // (2, 2) on a 4 x 5 torus: the (2, 3) mirror is coprime.
    assert!(offset_valid(2, 2, 4, 5));
    // (3, 3) on a 6 x 6 torus: all four mirrors have gcd 3.
    assert!(!offset_valid(3, 3, 6, 6));
}

#[test]
fn non_unit_axis_offsets_rejected() {
    assert!(!offset_valid(0, 2, 4, 4)); // not 1 and not h - 1
    assert!(!offset_valid(2, 0, 4, 4));
    assert!(offset_valid(0, 3, 4, 4));
    assert!(offset_valid(3, 0, 4, 4));
}

#[test]
fn query_construction_bounds_word_length() {
    let g = grid("ABCD", 2);
    assert!(Wordsearch::new(g, chars("AB"), true).is_some());
    let g = grid("ABCD", 2);
    assert!(Wordsearch::new(g, chars("A"), true).is_none());
    let g = grid("ABCD", 2);
    assert_eq!(
        Wordsearch::construct(g, chars(""), false).unwrap_err(),
        SearchError::InvalidWordLength
    );
    let g = grid("ABCD", 2);
    let q = Wordsearch::construct(g, chars("AB"), true).unwrap();
    assert_eq!(q.word(), &chars("AB"));
    assert!(q.expected());
    assert!(assess(q.grid(), q.word()));
}
