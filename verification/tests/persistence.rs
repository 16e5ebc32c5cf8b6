use voxelgas::atom::{Atom, AtomVariant, IVec3};
use voxelgas::grid::Grid;
use voxelgas::store::load_data;

fn flat(s: usize, x: usize, y: usize, z: usize) -> usize {
    (x * s + y) * s + z
}

fn sample_grid() -> Grid {
    let s = 4;
    let mut g = Grid {
        atoms: vec![Atom::gas(); s * s * s],
        size: s,
        step_counter: 9,
    };
    g.atoms[flat(s, 1, 1, 1)] = Atom { variant: AtomVariant::Gas, pres: 8, vel: IVec3 { x: 3, y: -2, z: 5 } };
    g.atoms[flat(s, 2, 0, 3)] = Atom::solid();
    g.atoms[flat(s, 0, 2, 2)] = Atom::gas_source(IVec3 { x: 0, y: 0, z: -1 });
    g
}

#[test]
fn save_then_load_reproduces_the_cells() {
    let g = sample_grid();
    let words = g.save_data();
    assert_eq!(words.len(), 1 + 5 * 64);
    assert_eq!(words[0], 4);
    let loaded = load_data(&words).expect("a saved grid loads");
    assert_eq!(loaded.size, g.size);
    assert_eq!(loaded.atoms, g.atoms);
    assert_eq!(loaded.step_counter, 0);
}

#[test]
fn save_then_load_through_json() {
    // the persisted layout: the flat word array, carried as a JSON array
    let g = sample_grid();
    let words = g.save_data();
    let json = serde_json::to_string(&words).expect("words serialise");
    let back: Vec<i64> = serde_json::from_str(&json).expect("words parse");
    assert_eq!(back, words);
    let loaded = load_data(&back).expect("a saved grid loads");
    assert_eq!(loaded.atoms, g.atoms);
}

#[test]
fn load_rejects_empty_words() {
    assert!(load_data(&vec![]).is_none());
}

#[test]
fn load_rejects_bad_side() {
    // side 3 is not a supported grid side
    let mut words = vec![3i64];
    words.extend(std::iter::repeat(0i64).take(5 * 27));
    assert!(load_data(&words).is_none());
}

#[test]
fn load_rejects_wrong_length() {
    let g = sample_grid();
    let mut words = g.save_data();
    words.pop();
    assert!(load_data(&words).is_none());
}

#[test]
fn load_rejects_unknown_tag() {
    let g = sample_grid();
    let mut words = g.save_data();
    words[1] = 7;
    assert!(load_data(&words).is_none());
}

#[test]
fn load_rejects_negative_pressure() {
    let g = sample_grid();
    let mut words = g.save_data();
    words[2] = -1;
    assert!(load_data(&words).is_none());
}

#[test]
fn load_rejects_source_without_unit_direction() {
    let g = sample_grid();
    let mut words = g.save_data();
    // turn the first cell into a source with a zero direction
    words[1] = 2;
    assert!(load_data(&words).is_none());
}
