use diaphane::{Axis, Extent};

#[test]
fn axis_cycles() {
    for axis in Axis::ALL {
        assert_eq!(axis.next().next().next(), axis);
        assert_eq!(axis.prev(), axis.next().next());
        assert_ne!(axis.next(), axis);
    }
}

#[test]
fn grid_axis_cycles() {
    for axis in Axis::ALL {
        assert_eq!(axis.next().next().next(), axis);
        assert_eq!(axis.prev(), axis.next().next());
        assert_ne!(axis.next(), axis);
    }
}

#[test]
fn indexing_matches_strides() {
    let extent = Extent::new(5, 7, 11);
    let strides = extent.strides();
    assert_eq!(extent.total(), 5 * 7 * 11);
    for (axis, stride) in strides.iter().enumerate() {
        let mut coord = [1, 2, 3];
        let base = extent.index(coord);
        coord[axis] += 1;
        assert_eq!(extent.index(coord), base + stride);
    }
}

#[test]
fn grid_indexing_matches_strides() {
    let extent = Extent::new(5, 7, 11);
    let strides = extent.strides();
    assert_eq!(extent.total(), 5 * 7 * 11);
    for (axis, stride) in strides.iter().enumerate() {
        let mut coord = [1, 2, 3];
        let base = extent.index(coord);
        coord[axis] += 1;
        assert_eq!(extent.index(coord), base + stride);
    }
}

#[test]
fn axes_have_fixed_positions() {
    assert_eq!(Axis::X.index(), 0);
    assert_eq!(Axis::Y.index(), 1);
    assert_eq!(Axis::Z.index(), 2);
    assert_eq!(Axis::X.next(), Axis::Y);
    assert_eq!(Axis::X.prev(), Axis::Z);
}

#[test]
fn storage_is_x_major() {
    let extent = Extent::new(3, 4, 5);
    assert_eq!(extent.as_array(), [3, 4, 5]);
    assert_eq!(extent.strides(), [1, 3, 12]);
    assert_eq!(extent.index([2, 3, 4]), 59);
    assert_eq!(extent.index([0, 0, 1]), 12);
    assert_eq!(Extent::cube(6), Extent::new(6, 6, 6));
}

#[test]
fn every_index_is_used_once() {
    let extent = Extent::new(3, 4, 5);
    let mut seen = vec![0; extent.total()];
    for z in 0..5 {
        for y in 0..4 {
            for x in 0..3 {
                seen[extent.index([x, y, z])] += 1;
            }
        }
    }
    assert!(seen.iter().all(|&count| count == 1));
}
