use tilings::geometry::antwerp::Configuration;
use tilings::geometry::lattice::{
    create_tile, flatten_phases, frontier_index, starting_index, GeometryError, Lattice,
};

fn symmetric(lattice: &Lattice) -> bool {
    let count = lattice.tile_count();
    (0..count).all(|i| {
        lattice
            .neighbours(i)
            .iter()
            .all(|&j| j < count && lattice.neighbours(j).contains(&i))
    })
}

#[test]
fn attachment_edges_of_the_supported_polygons() {
    assert_eq!(starting_index(3), Ok(0));
    assert_eq!(starting_index(4), Ok(0));
    assert_eq!(starting_index(6), Ok(0));
    assert_eq!(starting_index(8), Ok(1));
    assert_eq!(starting_index(12), Ok(2));
    for sides in [0, 1, 2, 5, 7, 9, 10, 11, 13, usize::MAX] {
        assert_eq!(starting_index(sides), Err(GeometryError::UnsupportedPolygonOrder));
    }
}

#[test]
fn only_five_polygons_are_tiles() {
    for sides in 0..40 {
        let expected = if [3, 4, 6, 8, 12].contains(&sides) {
            Ok(())
        } else {
            Err(GeometryError::UnsupportedPolygonOrder)
        };
        assert_eq!(create_tile(sides), expected);
    }
}

#[test]
fn a_seed_has_no_neighbour() {
    let lattice = Lattice::seed(6).unwrap();
    assert_eq!(lattice.tile_count(), 1);
    assert_eq!(lattice.tile(0), 6);
    assert_eq!(lattice.neighbours(0), &Vec::<usize>::new());
    assert!(!lattice.is_neighbour(0, 0));
    assert!(!lattice.is_neighbour(1, 0));
    assert_eq!(Lattice::seed(5), Err(GeometryError::UnsupportedPolygonOrder));
}

#[test]
fn attached_tiles_are_neighbours_of_each_other() {
    let mut lattice = Lattice::seed(12).unwrap();
    assert_eq!(lattice.attach(6, 0), Ok(1));
    assert_eq!(lattice.attach(4, 0), Ok(2));
    assert_eq!(lattice.attach(3, 2), Ok(3));
    assert_eq!(lattice.tile_count(), 4);
    assert_eq!(lattice.neighbours(0), &vec![1, 2]);
    assert_eq!(lattice.neighbours(1), &vec![0]);
    assert_eq!(lattice.neighbours(2), &vec![0, 3]);
    assert_eq!(lattice.neighbours(3), &vec![2]);
    assert!(lattice.is_neighbour(2, 3) && lattice.is_neighbour(3, 2));
    assert!(!lattice.is_neighbour(1, 2));
    assert!(symmetric(&lattice));
}

#[test]
fn an_unsupported_tile_is_not_placed() {
    let mut lattice = Lattice::seed(4).unwrap();
    assert_eq!(lattice.attach(5, 0), Err(GeometryError::UnsupportedPolygonOrder));
    assert_eq!(lattice.add_tile(0), Err(GeometryError::UnsupportedPolygonOrder));
    assert_eq!(lattice, Lattice::seed(4).unwrap());
}

#[test]
fn connecting_twice_lists_once() {
    let mut lattice = Lattice::seed(4).unwrap();
    assert_eq!(lattice.add_tile(8), Ok(1));
    assert_eq!(lattice.add_tile(8), Ok(2));
    lattice.connect(1, 2);
    lattice.connect(2, 1);
    lattice.connect(1, 2);
    assert_eq!(lattice.neighbours(0), &Vec::<usize>::new());
    assert_eq!(lattice.neighbours(1), &vec![2]);
    assert_eq!(lattice.neighbours(2), &vec![1]);
    assert!(symmetric(&lattice));
}

#[test]
fn growth_chains_the_tiles() {
    let mut lattice = Lattice::seed(6).unwrap();
    assert_eq!(lattice.grow(&vec![3, 4, 3]), Ok(()));
    assert_eq!(lattice.tile_count(), 4);
    assert_eq!(
        (0..4).map(|i| lattice.tile(i)).collect::<Vec<_>>(),
        vec![6, 3, 4, 3]
    );
    assert_eq!(lattice.neighbours(0), &vec![1]);
    assert_eq!(lattice.neighbours(1), &vec![0, 2]);
    assert_eq!(lattice.neighbours(2), &vec![1, 3]);
    assert_eq!(lattice.neighbours(3), &vec![2]);
    assert!(symmetric(&lattice));
}

#[test]
fn growth_with_an_unsupported_tile_places_nothing() {
    let mut lattice = Lattice::seed(6).unwrap();
    assert_eq!(
        lattice.grow(&vec![3, 4, 0, 3]),
        Err(GeometryError::UnsupportedPolygonOrder)
    );
    assert_eq!(lattice, Lattice::seed(6).unwrap());
    assert_eq!(lattice.grow(&vec![]), Ok(()));
    assert_eq!(lattice, Lattice::seed(6).unwrap());
}

#[test]
fn phases_are_placed_one_after_the_other() {
    assert_eq!(
        flatten_phases(&vec![vec![6, 4], vec![], vec![3]]),
        vec![6, 4, 3]
    );
    assert_eq!(flatten_phases(&vec![]), Vec::<usize>::new());
}

#[test]
fn patch_of_a_configuration() {
    let configuration = Configuration::try_from("12-6,4-3/m30/r(c2)").unwrap();
    let lattice = Lattice::patch(&configuration).unwrap();
    assert_eq!(lattice.tile_count(), 4);
    assert_eq!(
        (0..4).map(|i| lattice.tile(i)).collect::<Vec<_>>(),
        vec![12, 6, 4, 3]
    );
    assert_eq!(lattice.neighbours(0), &vec![1]);
    assert_eq!(lattice.neighbours(1), &vec![0, 2]);
    assert_eq!(lattice.neighbours(2), &vec![1, 3]);
    assert_eq!(lattice.neighbours(3), &vec![2]);
    assert!(symmetric(&lattice));

    let plain = Configuration::try_from("3/m30/r(h2)").unwrap();
    assert_eq!(Lattice::patch(&plain), Lattice::seed(3));
}

#[test]
fn patch_refuses_unsupported_polygons() {
    let bad_seed = Configuration::try_from("5-3/r").unwrap();
    assert_eq!(Lattice::patch(&bad_seed), Err(GeometryError::UnsupportedPolygonOrder));
    let skipped = Configuration::try_from("6-3,0,3,3,3,3/r(h4)/r(v15)/r(v30)").unwrap();
    assert_eq!(Lattice::patch(&skipped), Err(GeometryError::UnsupportedPolygonOrder));
}

#[test]
fn copies_that_coincide_with_nothing_are_new_tiles() {
    let mut lattice = Lattice::seed(4).unwrap();
    lattice.grow(&vec![3, 3]).unwrap();
    lattice.replicate(&vec![None, None, None]);
    assert_eq!(lattice.tile_count(), 6);
    assert_eq!(
        (0..6).map(|i| lattice.tile(i)).collect::<Vec<_>>(),
        vec![4, 3, 3, 4, 3, 3]
    );
    assert_eq!(lattice.neighbours(0), &vec![1]);
    assert_eq!(lattice.neighbours(1), &vec![0, 2]);
    assert_eq!(lattice.neighbours(2), &vec![1]);
    assert_eq!(lattice.neighbours(3), &vec![4]);
    assert_eq!(lattice.neighbours(4), &vec![3, 5]);
    assert_eq!(lattice.neighbours(5), &vec![4]);
    assert!(symmetric(&lattice));
}

#[test]
fn copies_that_coincide_are_merged() {
    // The seed lies on the axis and is its own copy; the tiles on its sides are not.
    let mut lattice = Lattice::seed(4).unwrap();
    lattice.attach(3, 0).unwrap();
    lattice.attach(6, 1).unwrap();
    lattice.replicate(&vec![Some(0), None, None]);
    assert_eq!(lattice.tile_count(), 5);
    assert_eq!(
        (0..5).map(|i| lattice.tile(i)).collect::<Vec<_>>(),
        vec![4, 3, 6, 3, 6]
    );
    assert_eq!(lattice.neighbours(0), &vec![1, 3]);
    assert_eq!(lattice.neighbours(1), &vec![0, 2]);
    assert_eq!(lattice.neighbours(2), &vec![1]);
    assert_eq!(lattice.neighbours(3), &vec![0, 4]);
    assert_eq!(lattice.neighbours(4), &vec![3]);
    assert!(symmetric(&lattice));
}

#[test]
fn a_copy_onto_itself_changes_nothing() {
    let mut lattice = Lattice::seed(6).unwrap();
    lattice.grow(&vec![3, 4]).unwrap();
    let mut copy = Lattice::seed(6).unwrap();
    copy.grow(&vec![3, 4]).unwrap();
    copy.replicate(&vec![Some(0), Some(1), Some(2)]);
    assert_eq!(copy, lattice);
    // Two tiles that change places keep the edge between them.
    copy.replicate(&vec![Some(0), Some(2), Some(1)]);
    assert_eq!(copy.tile_count(), 3);
    assert_eq!(copy.neighbours(0), &vec![1, 2]);
    assert_eq!(copy.neighbours(1), &vec![0, 2]);
    assert_eq!(copy.neighbours(2), &vec![1, 0]);
    assert!(symmetric(&copy));
}

#[test]
fn the_frontier_moves_past_the_attachment_edge() {
    for (sides, seed_edge, placed_edge) in [(3, 0, 1), (4, 0, 1), (6, 0, 1), (8, 1, 2), (12, 2, 3)] {
        assert_eq!(frontier_index(sides, false), Ok(seed_edge));
        assert_eq!(frontier_index(sides, true), Ok(placed_edge));
    }
    assert_eq!(frontier_index(5, false), Err(GeometryError::UnsupportedPolygonOrder));
    assert_eq!(frontier_index(0, true), Err(GeometryError::UnsupportedPolygonOrder));
}
