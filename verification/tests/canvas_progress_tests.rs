use cheshire_chess::board::{KING, PAWN, QUEEN};
use cheshire_chess::canvas::{CanvasMode, CanvasState, CustomPieces, EMPTY_GRID, SHAPE_PALETTE};
use cheshire_chess::progress::Progress;

fn grid(rows: [&str; 3]) -> [[char; 7]; 3] {
    let mut g = EMPTY_GRID;
    for (r, row) in rows.iter().enumerate() {
        for (c, ch) in row.chars().enumerate() {
            g[r][c] = ch;
        }
    }
    g
}

#[test]
fn designs_save_and_load_back() {
    let mut cp = CustomPieces::new();
    cp.set(KING, grid(["  ╺+╸  ", " ╭─┼─╮ ", " ╰───╯ "]));
    cp.set(PAWN, grid(["   o   ", "  /█\\  ", " ▀▀▀▀▀ "]));
    let text = cp.to_text();
    assert!(text.starts_with("# King\n5\n  ╺+╸  \n"));
    let back = CustomPieces::from_text(&text);
    assert_eq!(back.pieces, cp.pieces);
}

#[test]
fn loading_skips_comments_and_pads_rows() {
    let cp = CustomPieces::from_text("# Queen\n\nnot a number\n4\nabc\nabcdefghij\n");
    let g = cp.get(QUEEN).unwrap();
    assert_eq!(g[0], ['a', 'b', 'c', ' ', ' ', ' ', ' ']);
    assert_eq!(g[1], ['a', 'b', 'c', 'd', 'e', 'f', 'g']);
    assert_eq!(g[2], [' '; 7]);
    assert!(cp.get(KING).is_none());
}

#[test]
fn canvas_stamps_and_erases() {
    let mut c = CanvasState::new();
    assert_eq!(c.mode, CanvasMode::PiecePicker);
    assert_eq!(c.piece_type(), KING);
    assert_eq!(c.piece_name(), "King");
    c.current_shape = 2;
    c.stamp();
    assert_eq!(c.grid[1][3], SHAPE_PALETTE[2]);
    assert_eq!(c.current_char(), '▁');
    c.erase();
    assert_eq!(c.grid, EMPTY_GRID);
    let mut cp = CustomPieces::new();
    cp.set(KING, grid(["K", "", ""]));
    c.load_grid(&cp);
    assert_eq!(c.grid[0][0], 'K');
    c.selected_piece = 1;
    c.load_grid(&cp);
    assert_eq!(c.grid, EMPTY_GRID);
}

#[test]
fn progress_counts_each_puzzle_once() {
    let mut p = Progress::new();
    assert!(!p.is_completed("abc"));
    p.mark_completed("abc");
    p.mark_completed("abc");
    p.mark_completed("xyz");
    assert!(p.is_completed("abc"));
    assert_eq!(p.completed_count(), 2);
    p.update_last_position("fork", 40);
    assert_eq!(p.last_theme.as_deref(), Some("fork"));
    assert_eq!(p.last_offset, 40);
}
