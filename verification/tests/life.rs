use allox::life::Cell;
use allox::life::Grid;

fn cells_of(g: &Grid, span: isize) -> Vec<(isize, isize)> {
    let mut v = Vec::new();
    for x in -span..=span {
        for y in -span..=span {
            if g.contains(&Cell(x, y)) {
                v.push((x, y));
            }
        }
    }
    v
}

#[test]
fn new_grid_is_a_blinker() {
    let g = Grid::new();
    assert_eq!(g.len(), 3);
    assert_eq!(cells_of(&g, 5), vec![(0, 0), (1, 0), (2, 0)]);
}

#[test]
fn blinker_turns_and_turns_back() {
    let g = Grid::new();
    let upright = g.next_gen();
    assert_eq!(upright.len(), 3);
    assert_eq!(cells_of(&upright, 5), vec![(1, -1), (1, 0), (1, 1)]);
    let flat = upright.next_gen();
    assert_eq!(cells_of(&flat, 5), vec![(0, 0), (1, 0), (2, 0)]);
    assert_eq!(flat.len(), 3);
}

#[test]
fn cell_has_eight_neighbours() {
    let n = Cell(4, -7).neighbors();
    assert_eq!(n.len(), 8);
    assert!(!n.contains(&Cell(4, -7)));
    assert_eq!(
        cells_of(&n, 10),
        vec![(3, -8), (3, -7), (3, -6), (4, -8), (4, -6), (5, -8), (5, -7), (5, -6)]
    );
}

#[test]
fn counts_of_live_neighbours() {
    let g = Grid::new();
    assert_eq!(g.live_neighbors(&Cell(1, 0)), 2);
    assert_eq!(g.live_neighbors(&Cell(0, 0)), 1);
    assert_eq!(g.live_neighbors(&Cell(1, 1)), 3);
    assert_eq!(g.live_neighbors(&Cell(1, -1)), 3);
    assert_eq!(g.live_neighbors(&Cell(3, 0)), 1);
    assert_eq!(g.live_neighbors(&Cell(9, 9)), 0);
}

#[test]
fn block_stands_still_and_single_cell_dies() {
    let block = Grid::from_cells(&[Cell(0, 0), Cell(0, 1), Cell(1, 0), Cell(1, 1)]);
    let next = block.next_gen();
    assert_eq!(cells_of(&next, 4), vec![(0, 0), (0, 1), (1, 0), (1, 1)]);
    let lone = Grid::from_cells(&[Cell(3, 3)]);
    assert_eq!(lone.next_gen().len(), 0);
    let none = Grid::from_cells(&[]);
    assert_eq!(none.next_gen().len(), 0);
}

#[test]
fn glider_moves_one_step_in_four_generations() {
    let start = [Cell(1, 0), Cell(2, 1), Cell(0, 2), Cell(1, 2), Cell(2, 2)];
    let mut g = Grid::from_cells(&start);
    for _ in 0..4 {
        g = g.next_gen();
    }
    assert_eq!(g.len(), 5);
    for c in start {
        assert!(g.contains(&Cell(c.0 + 1, c.1 + 1)));
    }
}

#[test]
fn crowded_cell_dies() {
    // A plus sign: the centre has four live neighbours.
    let plus = Grid::from_cells(&[Cell(0, 0), Cell(1, 0), Cell(-1, 0), Cell(0, 1), Cell(0, -1)]);
    let next = plus.next_gen();
    assert!(!next.contains(&Cell(0, 0)));
    assert_eq!(
        cells_of(&next, 3),
        vec![(-1, -1), (-1, 0), (-1, 1), (0, -1), (0, 1), (1, -1), (1, 0), (1, 1)]
    );
}

#[test]
fn from_cells_keeps_each_cell_once() {
    let g = Grid::from_cells(&[Cell(1, 1), Cell(2, 2), Cell(1, 1), Cell(1, 1)]);
    assert_eq!(g.len(), 2);
    assert!(g.contains(&Cell(1, 1)) && g.contains(&Cell(2, 2)));
}
