use engine::error::EngineError;
use engine::instance_cull::InstanceCapacity;
use engine::texture::{check_decoded_size, check_rgba_buffer};
use engine::volume::{check_paint_budget, grid_split, sample_index, sample_read, sample_writes};

#[test]
fn grid_coordinates_split_into_chunk_and_corner() {
    assert_eq!(grid_split(0), (0, 0));
    assert_eq!(grid_split(31), (0, 31));
    assert_eq!(grid_split(32), (1, 0));
    assert_eq!(grid_split(-1), (-1, 31));
    assert_eq!(grid_split(-32), (-1, 0));
    assert_eq!(grid_split(-33), (-2, 31));
    assert_eq!(grid_split(i32::MIN), (-67108864, 0));
    assert_eq!(grid_split(i32::MAX), (67108863, 31));
}

#[test]
fn a_write_on_chunk_faces_is_copied_to_the_neighbours() {
    assert_eq!(sample_writes((5, 6, 7)), vec![((0, 0, 0), (5, 6, 7))]);
    assert_eq!(
        sample_writes((32, 6, -32)),
        vec![
            ((1, 0, -1), (0, 6, 0)),
            ((0, 0, -1), (32, 6, 0)),
            ((1, 0, -2), (0, 6, 32)),
        ]
    );
    assert_eq!(sample_writes((0, 0, 0)).len(), 4);
    assert_eq!(sample_read((32, 6, -32)), ((1, 0, -1), (0, 6, 0)));
    assert_eq!(sample_index(32, 32, 32), 33 * 33 * 33 - 1);
}

#[test]
fn oversize_paint_is_refused_loudly() {
    assert!(check_paint_budget(100, 100).is_ok());
    match check_paint_budget(101, 100) {
        Err(EngineError::ResourceLimit(m)) => {
            assert_eq!(m, "volume paint would touch 101 samples (limit 100)")
        }
        other => panic!("expected a resource limit, got {other:?}"),
    }
}

#[test]
fn instance_buffers_grow_only_when_outgrown() {
    let mut c = InstanceCapacity::new(0);
    assert_eq!((c.count(), c.capacity()), (0, 1));
    assert!(!c.update(1));
    assert!(c.update(5));
    assert_eq!(c.capacity(), 5);
    assert!(!c.update(3));
    assert_eq!((c.count(), c.capacity()), (3, 5));
    c.clear();
    assert_eq!((c.count(), c.capacity()), (0, 5));
    assert_eq!(c.write_offset(2, 3, 80), Some(160));
    assert_eq!(c.write_offset(4, 0, 80), None);
}

#[test]
fn image_buffers_are_checked_before_writing() {
    assert!(check_rgba_buffer("a.png", 2, 2, 16).is_ok());
    match check_rgba_buffer("a.png", 2, 2, 15) {
        Err(EngineError::InvalidValue(m)) => assert_eq!(m, "a.png: 2x2 needs 16 bytes, got 15"),
        other => panic!("expected invalid value, got {other:?}"),
    }
    assert!(check_rgba_buffer("a.png", 0, 2, 0).is_err());
    match check_decoded_size("b.png", 0, 4) {
        Err(EngineError::InvalidValue(m)) => assert_eq!(m, "texture b.png has zero size"),
        other => panic!("expected invalid value, got {other:?}"),
    }
    assert!(check_decoded_size("b.png", 1, 1).is_ok());
}
