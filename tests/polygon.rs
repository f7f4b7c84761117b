use geom2d::error::GeometryError;
use geom2d::polygon::{closed_ring, merge_starts, Polygon};

#[test]
fn polygon_needs_three_edges() {
    assert!(matches!(Polygon::new(vec![1, 2]), Err(GeometryError::InvalidPolygon)));
    assert!(matches!(Polygon::<u8>::new(vec![]), Err(GeometryError::InvalidPolygon)));
    let p = Polygon::new(vec![1, 2, 3]).unwrap();
    assert_eq!(p.len(), 3);
    assert_eq!(p.segments(), &vec![1, 2, 3]);
}

#[test]
fn replace_with_takes_the_clipped_edges() {
    let mut p = Polygon::new(vec![1, 2, 3]).unwrap();
    assert!(!p.replace_with(None));
    assert_eq!(p.segments(), &vec![1, 2, 3]);
    assert!(p.replace_with(Some(Polygon::new(vec![7, 8, 9, 10]).unwrap())));
    assert_eq!(p.segments(), &vec![7, 8, 9, 10]);
    assert_eq!(p.len(), 4);
}

#[test]
fn ring_closes_back_to_the_first_point() {
    let pts = vec![(0, 0), (1, 0), (1, 1), (0, 1)];
    assert_eq!(
        closed_ring(&pts),
        Ok(vec![
            ((0, 0), (1, 0)),
            ((1, 0), (1, 1)),
            ((1, 1), (0, 1)),
            ((0, 1), (0, 0)),
        ])
    );
    assert_eq!(closed_ring(&vec![(5, 5), (6, 6), (7, 5)]).unwrap()[2], ((7, 5), (5, 5)));
}

#[test]
fn ring_of_two_points_is_refused() {
    assert_eq!(closed_ring(&vec![(0, 0), (1, 0)]), Err(GeometryError::InvalidPolygon));
    assert_eq!(closed_ring::<(i32, i32)>(&vec![]), Err(GeometryError::InvalidPolygon));
}

#[test]
fn short_edges_fold_into_the_previous_one() {
    assert_eq!(merge_starts(&vec![false, true, false, true, true]), vec![0, 2]);
    assert_eq!(merge_starts(&vec![false, false, false, false]), vec![0, 1, 2, 3]);
    assert_eq!(merge_starts(&vec![false, false, true, false]), vec![0, 1, 3]);
}

#[test]
fn first_edge_is_kept_even_when_short() {
    assert_eq!(merge_starts(&vec![true, true, true]), vec![0]);
    assert_eq!(merge_starts(&vec![true, false, true, false]), vec![0, 1, 3]);
}
