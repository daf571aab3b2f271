use cheshire_chess::puzzle::{PuzzleBatch, PuzzleIndex, TACTIC_THEMES};

const LINE_A: &str = "a1,8/8/8/8/8/8/8/K6k w - - 0 1,a1a2 h1h2,1500,80,90,50,fork pin,url,x\n";
const LINE_B: &str = "b2,8/8/8/8/8/8/8/K6k w - - 0 1,a1a2 h1h2,2200,80,90,50,fork,url,x\n";
const LINE_C: &str = "c3,8/8/8/8/8/8/8/K6k w - - 0 1,a1a2 h1h2,900,80,90,50,skewer fork fork,url,x\n";

#[test]
fn index_records_offsets_by_theme() {
    let mut ix = PuzzleIndex::new();
    ix.add_line(LINE_A, 0);
    ix.add_line(LINE_B, 100);
    ix.add_line(LINE_C, 200);
    ix.add_line("short,line\n", 300);
    ix.finish();
    assert_eq!(ix.total, 4);
    assert_eq!(ix.offsets("fork"), vec![0, 100, 200, 200]);
    assert_eq!(ix.offsets("pin"), vec![0]);
    assert!(ix.offsets("mateIn1").is_empty());
    assert_eq!(ix.theme_counts.len(), TACTIC_THEMES.len());
    assert_eq!(ix.theme_counts[0], ("fork".to_string(), "Fork / Double Attack".to_string(), 4));
    assert_eq!(ix.theme_counts[1].2, 1);
}

#[test]
fn batch_filters_skips_and_stops() {
    let mut b = PuzzleBatch::new(Some(2000), 1, 1);
    b.offer(LINE_A);
    assert_eq!(b.skipped, 1);
    assert!(b.puzzles.is_empty());
    b.offer(LINE_B);
    assert!(b.puzzles.is_empty());
    b.offer("garbage");
    assert!(!b.is_full());
    b.offer(LINE_C);
    assert_eq!(b.puzzles.len(), 1);
    assert_eq!(b.puzzles[0].id, "c3");
    assert_eq!(b.puzzles[0].themes, vec!["skewer", "fork", "fork"]);
    assert!(b.is_full());
}

#[test]
fn theme_loading_gives_file_order_past_skip() {
    // lines of a file, each starting at its byte offset
    let lines = [LINE_A, LINE_B, "short,line\n", LINE_C];
    let mut ix = PuzzleIndex::new();
    let mut offset: u64 = 0;
    let mut starts = Vec::new();
    for l in lines {
        ix.add_line(l, offset);
        starts.push(offset);
        offset += l.len() as u64;
    }
    ix.finish();
    let offs = ix.offsets("fork");
    // the lines naming the theme, in file order, once per mention
    assert_eq!(offs, vec![starts[0], starts[1], starts[3], starts[3]]);
    let line_at = |o: u64| lines[starts.iter().position(|&s| s == o).unwrap()];
    // no cap, skip one, keep two: B then C
    let mut b = PuzzleBatch::new(None, 2, 1);
    for &o in &offs {
        if b.is_full() {
            break;
        }
        b.offer(line_at(o));
    }
    let ids: Vec<&str> = b.puzzles.iter().map(|p| p.id.as_str()).collect();
    assert_eq!(ids, vec!["b2", "c3"]);
    // a theme no line names loads nothing
    assert!(ix.offsets("zugzwang").is_empty());
}
