use radium::dom::build_tree;
use radium::images::ImageStore;
use radium::layout::{layout, PaintCmd};
use radium::parser::tokenize;

/// A 2x2, 24-bit BMP: red and white on the top row, blue and green on the
/// bottom one (BMP rows are stored bottom-up, pixels as BGR).
fn tiny_bmp() -> Vec<u8> {
    let mut b: Vec<u8> = Vec::new();
    // File header.
    b.extend_from_slice(&[0x42, 0x4D]); // "BM"
    b.extend_from_slice(&70u32.to_le_bytes()); // file size
    b.extend_from_slice(&[0, 0, 0, 0]); // reserved
    b.extend_from_slice(&54u32.to_le_bytes()); // pixel data offset
    // Info header.
    b.extend_from_slice(&40u32.to_le_bytes()); // header size
    b.extend_from_slice(&2i32.to_le_bytes()); // width
    b.extend_from_slice(&2i32.to_le_bytes()); // height
    b.extend_from_slice(&1u16.to_le_bytes()); // planes
    b.extend_from_slice(&24u16.to_le_bytes()); // bits per pixel
    b.extend_from_slice(&0u32.to_le_bytes()); // no compression
    b.extend_from_slice(&16u32.to_le_bytes()); // pixel data size
    b.extend_from_slice(&[0; 16]); // resolution and palette counts
    // Bottom row: blue, green; two padding bytes.
    b.extend_from_slice(&[255, 0, 0, 0, 255, 0, 0, 0]);
    // Top row: red, white; two padding bytes.
    b.extend_from_slice(&[0, 0, 255, 255, 255, 255, 0, 0]);
    assert_eq!(b.len(), 70);
    b
}

#[test]
fn decoding_yields_rgba_pixels() {
    let mut store = ImageStore::new();
    assert!(store.insert_encoded("tiny".to_string(), &tiny_bmp()));

    let forest = build_tree(tokenize("<img src=tiny>"));
    let boxes = layout(&forest, 8000, &store);
    assert_eq!(boxes.len(), 1);
    match &boxes[0].cmd {
        PaintCmd::Image { data, img_width, img_height } => {
            assert_eq!((*img_width, *img_height), (2, 2));
            assert_eq!(data.len(), 16);
            assert_eq!(&data[0..4], &[255, 0, 0, 255]); // red
            assert_eq!(&data[4..8], &[255, 255, 255, 255]); // white
            assert_eq!(&data[8..12], &[0, 0, 255, 255]); // blue
            assert_eq!(&data[12..16], &[0, 255, 0, 255]); // green
        }
        other => panic!("expected an image, got {:?}", other),
    }
    // 2x2 pixels displayed at intrinsic size: 20 by 20 tenths.
    assert_eq!(boxes[0].width, 20);
    assert_eq!(boxes[0].height, 20);
}

#[test]
fn undecodable_bytes_are_rejected() {
    let mut store = ImageStore::new();
    let garbage = vec![1u8, 2, 3, 4, 5, 6, 7, 8];
    assert!(!store.insert_encoded("bad".to_string(), &garbage));

    // The failed insert left nothing behind: the image is skipped.
    let forest = build_tree(tokenize("<img src=bad>x"));
    let boxes = layout(&forest, 8000, &store);
    assert_eq!(boxes.len(), 1);
    assert_eq!(boxes[0].y, 160);
}
