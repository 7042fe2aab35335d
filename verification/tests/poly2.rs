use tilings::geometry::lattice::GeometryError;
use tilings::geometry::poly2::{check_regular, polygon_vertices, AngularDirection};

#[test]
fn poly2_new() {
    fn test(vertices: &[(f64, f64)], expected: &[(f64, f64)]) {
        let kept = polygon_vertices(&vertices.to_vec()).unwrap();
        assert_eq!(kept.len(), expected.len());
        for i in 0..expected.len() {
            assert_eq!(kept[i], expected[i]);
        }
    }

    let clockwise_square = vec![(-0.5, -0.5), (-0.5, 0.5), (0.5, 0.5), (0.5, -0.5)];
    test(&clockwise_square, &clockwise_square);

    let duplicates = vec![
        (-0.5, -0.5),
        (-0.5, -0.5),
        (-0.5, 0.5),
        (0.5, 0.5),
        (0.5, -0.5),
    ];
    test(&duplicates, &duplicates[1..]);
}

#[test]
fn too_few_vertices_give_no_polygon() {
    fn test(vertices: Vec<(f64, f64)>) {
        assert_eq!(
            polygon_vertices(&vertices),
            Err(GeometryError::DegeneratePolygon)
        );
    }

    test(vec![]);
    test(vec![(1., 0.)]);
    test(vec![(1., 0.), (-1., 0.)]);
    test(vec![(1., 0.), (-1., 0.), (-1., 0.)]);
    test(vec![(1., 0.), (1., 0.), (-1., 0.), (-1., 0.), (-1., 0.)]);
}

#[test]
fn only_neighbours_in_the_list_count_as_repeats() {
    assert_eq!(
        polygon_vertices(&vec![1, 2, 1, 1, 2, 2, 2, 3, 1]),
        Ok(vec![1, 2, 1, 2, 3, 1])
    );
    // The first and the last point are not neighbours in the list.
    assert_eq!(polygon_vertices(&vec![7, 8, 9, 7]), Ok(vec![7, 8, 9, 7]));
}

#[test]
fn what_stands_against_a_regular_polygon() {
    assert_eq!(check_regular(-1, true), Err(GeometryError::NonPositiveVertexCount));
    assert_eq!(check_regular(0, true), Err(GeometryError::NonPositiveVertexCount));
    assert_eq!(check_regular(0, false), Err(GeometryError::NonPositiveVertexCount));
    assert_eq!(check_regular(1, true), Err(GeometryError::DegeneratePolygon));
    assert_eq!(check_regular(2, true), Err(GeometryError::DegeneratePolygon));
    assert_eq!(check_regular(2, false), Err(GeometryError::NonPositiveSideLength));
    assert_eq!(check_regular(3, false), Err(GeometryError::NonPositiveSideLength));
    assert_eq!(check_regular(3, true), Ok(()));
    assert_eq!(check_regular(isize::MAX, true), Ok(()));
}

#[test]
fn the_two_directions_differ() {
    assert_ne!(AngularDirection::Clockwise, AngularDirection::CounterClockwise);
}
