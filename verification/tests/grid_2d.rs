use voxelgas::grid2d::{Atom2d, Grid2d, GRID_SIZE};

fn flat2(s: usize, x: usize, y: usize) -> usize {
    x * s + y
}

#[test]
fn test_zero_path() {
    let path = Grid2d::atoms_on_path((2, 2), (2, 2));
    assert_eq!(path, vec![(2, 2)]);
}

#[test]
fn path_walks_dominant_axis_first() {
    let path = Grid2d::atoms_on_path((0, 0), (2, 1));
    assert_eq!(path, vec![(0, 0), (1, 0), (1, 1), (2, 1)]);
}

#[test]
fn path_length_is_manhattan_distance_plus_one() {
    let path = Grid2d::atoms_on_path((3, 7), (0, 2));
    assert_eq!(path.len(), 1 + 3 + 5);
    assert_eq!(path[0], (3, 7));
    assert_eq!(*path.last().unwrap(), (0, 2));
    for w in path.windows(2) {
        let dx = (w[0].0 as i64 - w[1].0 as i64).abs();
        let dy = (w[0].1 as i64 - w[1].1 as i64).abs();
        assert_eq!(dx + dy, 1);
    }
}

#[test]
fn new_grid_is_default_gas() {
    let g = Grid2d::new();
    assert_eq!(g.size, GRID_SIZE);
    assert_eq!(g.atoms.len(), GRID_SIZE * GRID_SIZE);
    for a in &g.atoms {
        assert_eq!(*a, Atom2d::Gas(0));
        assert_eq!(*a, Atom2d::default());
    }
}

#[test]
fn update_equalises_blocks_and_erases_edges() {
    let s = GRID_SIZE;
    let mut g = Grid2d::new();
    g.atoms[flat2(s, 1, 1)] = Atom2d::Gas(80);
    g.update();
    // even pass: the block at the origin averages 80 over 4 cells to 20;
    // odd pass: the interior block spreads that 20 over its 4 cells to 5;
    // the edge erase then clears everything on the rim.
    for x in 0..s {
        for y in 0..s {
            let expected = if x == 0 || x == s - 1 || y == 0 || y == s - 1 {
                Atom2d::Gas(0)
            } else {
                Atom2d::Gas(5)
            };
            assert_eq!(g.atoms[flat2(s, x, y)], expected);
        }
    }
}

#[test]
fn update_leaves_solids_alone_inside() {
    let s = GRID_SIZE;
    let mut g = Grid2d::new();
    g.atoms[flat2(s, 1, 1)] = Atom2d::Solid;
    g.atoms[flat2(s, 2, 2)] = Atom2d::Gas(12);
    g.update();
    assert_eq!(g.atoms[flat2(s, 1, 1)], Atom2d::Solid);
    // even pass: (2,2) sits in the block at (2,2): 12 over 4 cells is 3;
    // odd pass: the interior block holds (1,1) solid and gas 0, 0, 3:
    // 3 over 3 gas cells is 1.
    assert_eq!(g.atoms[flat2(s, 2, 2)], Atom2d::Gas(1));
}

#[test]
fn modify_under_path_paints_and_clamps() {
    let s = GRID_SIZE;
    let mut g = Grid2d::new();
    // the end point is clamped from (9, 0) to (3, 0)
    g.modify_under_path((0, 0), (9, 0), Atom2d::Solid);
    for x in 0..s {
        assert_eq!(g.atoms[flat2(s, x, 0)], Atom2d::Solid);
    }
    assert_eq!(g.atoms[flat2(s, 0, 1)], Atom2d::Gas(0));
}
