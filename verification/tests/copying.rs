use weaver::copy_image;

#[test]
fn copies_row_prefixes_and_leaves_padding() {
    // 2 rows of 3 one-byte pixels; source stride 5, destination stride 4.
    let source: Vec<u8> = vec![
        1, 2, 3, 91, 92, // row 0 + padding
        4, 5, 6, 93, 94, // row 1 + padding
    ];
    let mut dst: Vec<u8> = vec![0xEE; 9];
    copy_image(&source, 5, &mut dst, 4, 3, 2, 1, 1);
    assert_eq!(dst, vec![1, 2, 3, 0xEE, 4, 5, 6, 0xEE, 0xEE]);
}

#[test]
fn copies_two_byte_elements_by_row() {
    // 2 rows of 2 four-component pixels of 2-byte elements: 16 bytes per
    // logical row, source stride 20, destination stride 18.
    let mut source: Vec<u8> = Vec::new();
    for y in 0..2u8 {
        for i in 0..16u8 {
            source.push(100 * y + i);
        }
        for _ in 16..20 {
            source.push(0xAB);
        }
    }
    let mut dst: Vec<u8> = vec![0x11; 40];
    copy_image(&source, 20, &mut dst, 18, 2, 2, 4, 2);
    for y in 0..2usize {
        for i in 0..16usize {
            assert_eq!(dst[y * 18 + i], (100 * y + i) as u8);
        }
        assert_eq!(dst[y * 18 + 16], 0x11);
        assert_eq!(dst[y * 18 + 17], 0x11);
    }
    assert_eq!(&dst[36..], &[0x11, 0x11, 0x11, 0x11]);
}

#[test]
fn copies_long_rows_exactly() {
    // A row longer than any vector width a hardware copy would use.
    let width: usize = 100;
    let source: Vec<u8> = (0..2 * width).map(|i| (i % 251) as u8).collect();
    let mut dst: Vec<u8> = vec![0; 2 * width];
    copy_image(&source, width, &mut dst, width, width as u32, 2, 1, 1);
    assert_eq!(dst, source);
}

#[test]
fn zero_height_touches_nothing() {
    let source: Vec<u8> = vec![7, 8, 9];
    let mut dst: Vec<u8> = vec![5, 5, 5];
    copy_image(&source, 3, &mut dst, 3, 3, 0, 1, 1);
    assert_eq!(dst, vec![5, 5, 5]);
}
