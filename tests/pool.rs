use memmap2::MmapMut;
use papdieo::pool::{frame_size_for, to_bgrx, FramePool, PoolError};

fn pool(w: u32, h: u32) -> FramePool {
    let m = MmapMut::map_anon((w * h * 4) as usize).unwrap();
    FramePool::new(w, h, m).unwrap()
}

#[test]
fn frame_sizes() {
    assert_eq!(frame_size_for(1920, 1080), Some(1920 * 1080 * 4));
    assert_eq!(frame_size_for(0, 10), None);
    assert_eq!(frame_size_for(10, 0), None);
    assert_eq!(frame_size_for(70000, 70000), None);
}

#[test]
fn pool_checks_mapping() {
    let m = MmapMut::map_anon(10).unwrap();
    assert_eq!(FramePool::new(2, 2, m).err(), Some(PoolError::MappingSize));
    let m = MmapMut::map_anon(16).unwrap();
    assert_eq!(FramePool::new(0, 2, m).err(), Some(PoolError::BadGeometry));
}

#[test]
fn rgba_becomes_opaque_bgrx() {
    assert_eq!(to_bgrx(&[1, 2, 3, 4, 5, 6, 7, 0]), vec![3, 2, 1, 255, 7, 6, 5, 255]);
    let mut p = pool(2, 1);
    p.write_rgba(&[1, 2, 3, 4, 5, 6, 7, 0]).unwrap();
    assert_eq!(p.pixels(), &[3, 2, 1, 255, 7, 6, 5, 255]);
}

#[test]
fn rgba_write_twice_is_same() {
    let mut p = pool(2, 2);
    let frame: Vec<u8> = (0u8..16).map(|v| v.wrapping_mul(37)).collect();
    p.write_rgba(&frame).unwrap();
    let once = p.pixels().to_vec();
    p.write_rgba(&frame).unwrap();
    assert_eq!(p.pixels(), &once[..]);
    assert!(once.chunks(4).all(|px| px[3] == 255));
}

#[test]
fn short_rgba_leaves_rest() {
    let mut p = pool(2, 1);
    p.write_rgba(&[9, 9, 9, 9, 9, 9, 9, 9]).unwrap();
    p.write_rgba(&[1, 2, 3, 4]).unwrap();
    assert_eq!(p.pixels(), &[3, 2, 1, 255, 9, 9, 9, 255]);
}

#[test]
fn rgba_errors() {
    let mut p = pool(1, 1);
    assert_eq!(p.write_rgba(&[0; 8]), Err(PoolError::FrameTooLarge));
    assert_eq!(p.write_rgba(&[0; 3]), Err(PoolError::PartialPixel));
    assert_eq!(p.pixels(), &[0, 0, 0, 0]);
}

#[test]
fn video_rows_skip_stride_padding() {
    let mut p = pool(2, 2);
    // rows of 8 bytes, 12 bytes apart
    let src: Vec<u8> = (0u8..20).collect();
    p.write_video_bgrx(&src, 12, 2, 2).unwrap();
    assert_eq!(p.pixels(), &[0, 1, 2, 3, 4, 5, 6, 7, 12, 13, 14, 15, 16, 17, 18, 19]);
}

#[test]
fn video_errors() {
    let mut p = pool(2, 2);
    let src = vec![7u8; 19];
    assert_eq!(p.write_video_bgrx(&src, 12, 2, 2), Err(PoolError::StrideOverrun));
    assert_eq!(p.write_video_bgrx(&src, 8, 3, 2), Err(PoolError::FrameTooLarge));
    assert_eq!(p.pixels(), &[0u8; 16]);
    assert_eq!(p.write_video_bgrx(&src, 8, 2, 2), Ok(()));
    assert_eq!(p.pixels(), &[7u8; 16]);
}
