use raytracer::DimensionalIterator;

#[test]
fn iterate_canvas() {
    let mut iter = DimensionalIterator::canvas((4, 2));
    let mut v = vec![];
    while let Some(coordinate) = iter.next() {
        v.push(coordinate);
    }
    assert_eq!(
        v,
        vec![(0, 0), (1, 0), (2, 0), (3, 0), (0, 1), (1, 1), (2, 1), (3, 1)]
    );
}

#[test]
fn iterate_matrix() {
    let mut iter = DimensionalIterator::matrix((4, 2));
    let mut v = vec![];
    while let Some(coordinate) = iter.next() {
        v.push(coordinate);
    }
    assert_eq!(
        v,
        vec![(0, 0), (0, 1), (1, 0), (1, 1), (2, 0), (2, 1), (3, 0), (3, 1),]
    );
}

#[test]
fn iterate_empty_grid() {
    let mut iter = DimensionalIterator::canvas((0, 5));
    assert_eq!(iter.next(), None);
    let mut iter = DimensionalIterator::matrix((5, 0));
    assert_eq!(iter.next(), None);
}

#[test]
fn iterate_single_cell() {
    let mut iter = DimensionalIterator::canvas((1, 1));
    assert_eq!(iter.next(), Some((0, 0)));
    assert_eq!(iter.next(), None);
    assert_eq!(iter.next(), None);
}
