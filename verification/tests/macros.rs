use pngme::color::{hex, hexa, rgb, rgba};

#[test]
fn col() {
    let opaque = u32::from_be_bytes([0xAA, 0xBB, 0xCC, 0xFF]);
    let transparent = u32::from_be_bytes([0xAA, 0xBB, 0xCC, 0xDD]);

    assert_eq!(rgb(0xAA, 0xBB, 0xCC), opaque);
    assert_eq!(rgba(0xAA, 0xBB, 0xCC, 0xDD), transparent);
    assert_eq!(hex(0xAABBCC), opaque);
    assert_eq!(hexa(0xAABBCCDD), transparent);
}

#[test]
fn calc() {
    assert_eq!(
        10u8.saturating_add(20).saturating_mul(5).saturating_sub(30).saturating_mul(2)
            .saturating_sub(239),
        1
    );
    assert_eq!(100u8.saturating_mul(2).saturating_add(100).saturating_sub(254), 1);
    assert_eq!(50u8.saturating_sub(51), 0);
}
