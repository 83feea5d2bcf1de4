use cedar_folder_size_analyzer::ico::{encode, fits, Picture};

#[test]
fn two_pictures_in_one_file() {
    let pictures = vec![
        Picture { size: 16, data: vec![1, 2, 3] },
        Picture { size: 256, data: vec![4, 5] },
    ];
    assert!(fits(&pictures));
    let expected: Vec<u8> = vec![
        0, 0, 1, 0, 2, 0, // header
        16, 16, 0, 0, 1, 0, 32, 0, 3, 0, 0, 0, 38, 0, 0, 0, // first entry
        0, 0, 0, 0, 1, 0, 32, 0, 2, 0, 0, 0, 41, 0, 0, 0, // second entry
        1, 2, 3, 4, 5, // data
    ];
    assert_eq!(encode(&pictures), Some(expected));
}

#[test]
fn no_pictures_make_a_bare_header() {
    assert_eq!(encode(&Vec::new()), Some(vec![0, 0, 1, 0, 0, 0]));
}

#[test]
fn lengths_and_places_are_written_low_byte_first() {
    let pictures = vec![
        Picture { size: 255, data: vec![7; 70_000] },
        Picture { size: 1000, data: vec![9; 300] },
    ];
    let file = encode(&pictures).unwrap();
    assert_eq!(file.len(), 6 + 32 + 70_300);
    assert_eq!(&file[6..22], &[255, 255, 0, 0, 1, 0, 32, 0, 0x70, 0x11, 0x01, 0x00, 38, 0, 0, 0]);
    let second_start = (38u32 + 70_000).to_le_bytes();
    assert_eq!(&file[22..30], &[0, 0, 0, 0, 1, 0, 32, 0]);
    assert_eq!(&file[30..34], &300u32.to_le_bytes());
    assert_eq!(&file[34..38], &second_start);
    assert!(file[38..70_038].iter().all(|&byte| byte == 7));
    assert!(file[70_038..].iter().all(|&byte| byte == 9));
}

#[test]
fn too_many_pictures_do_not_fit() {
    let mut pictures = Vec::new();
    for _ in 0..65_535 {
        pictures.push(Picture { size: 1, data: Vec::new() });
    }
    assert!(fits(&pictures));
    let file = encode(&pictures).unwrap();
    assert_eq!(&file[..6], &[0, 0, 1, 0, 255, 255]);
    assert_eq!(file.len(), 6 + 16 * 65_535);
    pictures.push(Picture { size: 1, data: Vec::new() });
    assert!(!fits(&pictures));
    assert_eq!(encode(&pictures), None);
}
