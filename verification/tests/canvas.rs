use pngme::be::{be_to_u32, u32_to_be};
use pngme::img::Img;
use pngme::px::Px;
use pngme::rect::Rect;
use pngme::slice::Indexer;

#[test]
fn big_endian_round_trip() {
    assert_eq!(u32_to_be(0x0A0B0C0D), [0x0A, 0x0B, 0x0C, 0x0D]);
    assert_eq!(be_to_u32(0x0A, 0x0B, 0x0C, 0x0D), 0x0A0B0C0D);
}

#[test]
fn indexer_walks_row_major() {
    let rect = Rect::new((1, 1), (3, 3));
    let mut idx = Indexer::from_slice(&rect, 10);
    assert_eq!(idx.next(), Some(11));
    assert_eq!(idx.next(), Some(12));
    assert_eq!(idx.next(), Some(21));
    assert_eq!(idx.next(), Some(22));
    assert_eq!(idx.next(), None);
    assert_eq!(idx.next(), None);
}

#[test]
fn indexer_yields_nothing_for_empty_rect() {
    let rect = Rect::new((5, 0), (5, 10));
    let mut idx = Indexer::from_slice(&rect, 10);
    assert_eq!(idx.next(), None);
}

#[test]
fn px_constructors() {
    assert_eq!(Px::rgb(1, 2, 3), Px::rgba(1, 2, 3, 255));
    assert_eq!(Px::hex(0xAABBCC), Px::rgba(0xAA, 0xBB, 0xCC, 0xFF));
    assert_eq!(Px::hex(0xAABBCCDD), Px::rgba(0xAA, 0xBB, 0xCC, 0xDD));
    assert_eq!(Px::hexa(0xAABBCCDD), Px::rgba(0xAA, 0xBB, 0xCC, 0xDD));
    assert_eq!(Px::rgb(1, 2, 3).as_bytes(), [1, 2, 3, 255]);
}

#[test]
fn px_hex_strings() {
    assert_eq!(Px::hex_str("#a0b0c0"), Px::rgb(0xA0, 0xB0, 0xC0));
    assert_eq!(Px::hex_str("0xA0B0C0"), Px::rgb(0xA0, 0xB0, 0xC0));
    assert_eq!(Px::hex_str("12"), Px::rgb(0, 0, 0x12));
    assert_eq!(Px::hex_str("not hex"), Px::rgb(0, 0, 0));
    assert_eq!(Px::hex_str(""), Px::rgb(0, 0, 0));
    assert_eq!(Px::hex_str("123456789"), Px::rgb(0, 0, 0));
}

#[test]
fn px_rect_grid() {
    let grid = Px::rect(3, 2, Px::rgb(9, 9, 9));
    assert_eq!(grid.len(), 2);
    for row in grid.iter() {
        assert_eq!(row.len(), 3);
        for px in row.iter() {
            assert_eq!(*px, Px::rgb(9, 9, 9));
        }
    }
}

#[test]
fn from_vec_pads_and_truncates() {
    let short = Img::from_vec(2, 2, vec![7, 8]);
    assert_eq!(short.data().as_slice(), &[7, 8, 0, 0]);

    let long = Img::from_vec(1, 2, vec![1, 2, 3, 4]);
    assert_eq!(long.data().as_slice(), &[1, 2]);
}

#[test]
fn from_vec_2d_flattens_rows() {
    let img = Img::from_vec_2d(vec![vec![1, 2], vec![3, 4], vec![5, 6]]).unwrap();
    assert_eq!(img.width(), 2);
    assert_eq!(img.height(), 3);
    assert_eq!(img.data().as_slice(), &[1, 2, 3, 4, 5, 6]);
}

#[test]
fn scanline_serialization() {
    let img = Img::from_vec(2, 1, vec![0x01020304, 0x05060708]);
    assert_eq!(
        img.to_bytes(),
        vec![0u8, 1, 2, 3, 4, 5, 6, 7, 8]
    );
}

#[test]
fn reset_filter_zeroes_rows() {
    let mut img = Img::new_bg(2, 3, 1);
    img.reset_filter();
    assert_eq!(img.filter.len(), 3);
    assert!(img.filter.iter().all(|f| *f == 0));
}

#[test]
fn pixel_buffer_accessors() {
    let mut img = Img::from_vec(2, 1, vec![1, 2]);
    assert_eq!(img.clone_to_vec(), vec![1, 2]);
    img.data_mut()[0] = 9;
    assert_eq!(img.to_vec(), vec![9, 2]);
}

#[test]
fn copy_from_zips_positionally() {
    let img = Img::new(3, 1);
    let mut slice = img.slice(.., ..);
    slice.copy_from(&[9, 8]);
    let img = slice.into_img();
    assert_eq!(img.data().as_slice(), &[9, 8, 0]);
}

#[test]
fn to_vec_2d_rows_match_region() {
    let img = Img::from_vec_2d(vec![vec![1, 2, 3], vec![4, 5, 6]]).unwrap();
    let mut slice = img.slice(.., ..);
    slice.xywh((1, 0), 2, 2);
    let rows = slice.to_vec_2d();
    assert_eq!(rows, vec![vec![2, 3], vec![5, 6]]);
}

#[test]
fn clamp_shrinks_keeping_origin() {
    let img = Img::new(10, 10);
    let mut slice = img.slice(.., ..);
    slice.xywh((2, 3), 8, 8);
    slice.clamp(4, 2);
    let rect = slice.rect();
    assert_eq!((rect.x(), rect.y(), rect.x2(), rect.y2()), (2, 3, 6, 5));
}

#[test]
fn copy_from_vec_matches_copy_from() {
    let img = Img::new(3, 1);
    let mut slice = img.slice(.., ..);
    slice.copy_from_vec(vec![4, 5]);
    let img = slice.into_img();
    assert_eq!(img.data().as_slice(), &[4, 5, 0]);
}

#[test]
fn copy_each_blends_pixels() {
    let img = Img::from_vec(4, 1, vec![1, 2, 0, 0]);
    let mut slice = img.slice(0..=2u32, 0..=1u32);
    slice.copy_each(2, 0, |from, to| from + to + 10);
    let img = slice.into_img();
    assert_eq!(img.data().as_slice(), &[1, 2, 11, 12]);
}
