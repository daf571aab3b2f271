use cheshire_chess::puzzle::{nth_csv_field, CsvFieldIter, Puzzle};

#[test]
fn test_csv_field_iter() {
    let line = "abc,def,ghi,jkl";
    let mut iter = CsvFieldIter::new(line);
    assert_eq!(iter.next(), Some("abc"));
    assert_eq!(iter.next(), Some("def"));
    assert_eq!(iter.next(), Some("ghi"));
    assert_eq!(iter.next(), Some("jkl"));
    assert_eq!(iter.next(), None);
}

#[test]
fn test_nth_csv_field() {
    let line = "00sHx,fen_here,e8d7 a2e6,1760,80,83,72,mate mateIn2,url,opening";
    assert_eq!(nth_csv_field(line, 0), Some("00sHx"));
    assert_eq!(nth_csv_field(line, 3), Some("1760"));
    assert_eq!(nth_csv_field(line, 7), Some("mate mateIn2"));
}

#[test]
fn test_puzzle_from_csv_line() {
    let line = "abc,r1bqkbnr/pppppppp/8/8/8/8/PPPPPPPP/RNBQKBNR w KQkq - 0 1,e2e4 d7d5,1200,80,90,50,fork short,url,opening";
    let p = Puzzle::from_csv_line(line).unwrap();
    assert_eq!(p.id, "abc");
    assert_eq!(p.rating, 1200);
    assert_eq!(p.solution_moves(), &["d7d5"]);
    assert_eq!(p.themes, vec!["fork", "short"]);
}
