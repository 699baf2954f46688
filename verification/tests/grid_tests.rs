use wordsearch::{Grid, SearchError};

fn chars(s: &str) -> Vec<char> {
    s.chars().collect()
}

fn grid(s: &str, w: usize) -> Grid {
    Grid::construct(chars(s), w).unwrap()
}

#[test]
fn empty_content_rejected() {
    assert_eq!(
        Grid::construct(chars(""), 3).unwrap_err(),
        SearchError::InvalidGridShape
    );
    assert!(Grid::new(chars(""), 3).is_none());
}

#[test]
fn ragged_content_rejected() {
    assert_eq!(
        Grid::construct(chars("ABCDE"), 3).unwrap_err(),
        SearchError::InvalidGridShape
    );
    assert!(Grid::new(chars("ABCDE"), 3).is_none());
}

#[test]
fn zero_width_rejected() {
    assert_eq!(
        Grid::construct(chars("ABC"), 0).unwrap_err(),
        SearchError::InvalidGridShape
    );
}

#[test]
fn valid_shape_accepted() {
    let g = grid("ABCDEF", 3);
    assert_eq!(g.width(), 3);
    assert_eq!(g.height(), 2);
    assert_eq!(g.len(), 6);
    assert!(Grid::new(chars("ABCDEF"), 3).is_some());
}

#[test]
fn char_at_wraps_both_axes() {
    let g = grid("ABCDEF", 3);
    assert_eq!(g.char_at(0, 0), 'A');
    assert_eq!(g.char_at(2, 1), 'F');
    assert_eq!(g.char_at(3, 0), 'A');
    assert_eq!(g.char_at(0, 2), 'A');
    assert_eq!(g.char_at(5, 7), 'F');
}

#[test]
fn rows_split_content() {
    let g = grid("ABCDEF", 3);
    let rows = g.rows();
    assert_eq!(rows.len(), 2);
    assert_eq!(rows[0], chars("ABC"));
    assert_eq!(rows[1], chars("DEF"));
}

#[test]
fn tile_down_repeats_rows() {
    let g = grid("ABCD", 2);
    let t = g.tile_down(2).unwrap();
    assert_eq!(t.width(), 2);
    assert_eq!(t.height(), 4);
    let rows = t.rows();
    assert_eq!(rows[0], chars("AB"));
    assert_eq!(rows[1], chars("CD"));
    assert_eq!(rows[2], chars("AB"));
    assert_eq!(rows[3], chars("CD"));
    assert!(g.tile_down(0).is_none());
}

#[test]
fn tile_right_repeats_columns() {
    let g = grid("ABCD", 2);
    let t = g.tile_right(3).unwrap();
    assert_eq!(t.width(), 6);
    assert_eq!(t.height(), 2);
    let rows = t.rows();
    assert_eq!(rows[0], chars("ABABAB"));
    assert_eq!(rows[1], chars("CDCDCD"));
    assert!(g.tile_right(0).is_none());
}

#[test]
fn tiling_preserves_toroidal_reads() {
    let g = grid("ABCDEFGHI", 3);
    let t = g.tile_right(2).unwrap().tile_down(2).unwrap();
    for x in 0..12 {
        for y in 0..12 {
            assert_eq!(g.char_at(x, y), t.char_at(x, y));
        }
    }
}
