use game_of_life::cell_grid::CellGrid;
use game_of_life::ui::render;

const ALIVE: &str = "\x1b[1mO\x1b[m";

#[test]
fn renders_nothing_for_an_empty_board() {
    assert_eq!(render(&vec![], 4), "");
    assert_eq!(render(&vec![], 0), "");
}

#[test]
fn renders_a_live_cell_in_bold() {
    assert_eq!(render(&vec![true], 1), "\u{1b}[1mO\u{1b}[m");
    assert_eq!(render(&vec![true], 1).as_bytes(), [27, 91, 49, 109, 79, 27, 91, 109]);
}

#[test]
fn renders_a_dead_cell_as_a_blank() {
    assert_eq!(render(&vec![false], 1), " ");
    assert_eq!(render(&vec![false], 0), " ");
}

#[test]
fn breaks_the_line_behind_each_multiple_of_the_size() {
    assert_eq!(
        render(&vec![false; 9], 3),
        [" ", " ", " ", " \r\n", " ", " ", " \r\n", " ", " "].concat()
    );
    assert_eq!(
        render(&vec![true, false, true, false], 2),
        [ALIVE, " ", ALIVE, "\r\n", " "].concat()
    );
    assert_eq!(render(&vec![false; 4], 1), " \u{20}\r\n \r\n \r\n");
    assert_eq!(render(&vec![false; 3], 7), "   ");
}

#[test]
fn renders_a_board_from_its_states() {
    let mut grid = CellGrid::new(2);
    grid.toggle(1, 0).unwrap();
    grid.toggle(0, 1).unwrap();
    assert_eq!(
        render(&grid.get_states(), 2),
        [" ", ALIVE, ALIVE, "\r\n", " "].concat()
    );
}
