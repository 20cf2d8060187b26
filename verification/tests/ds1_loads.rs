use d2fileformats::ds1::Ds1;
use mpq::Archive;
use std::path::Path;

/// A version 18 map of two by one cells with one object, for machines
/// without the game's archives.
fn small_town() -> Vec<u8> {
    let mut b = Vec::new();
    for field in [18u32, 1, 0, 4, 0, 0, 1, 1] {
        b.extend_from_slice(&field.to_le_bytes());
    }
    for block in 0..4u8 {
        for cell in 0..2u8 {
            b.extend_from_slice(&[block, cell, 0, 0]);
        }
    }
    for field in [1u32, 2, 415, 7, 3, 1] {
        b.extend_from_slice(&field.to_le_bytes());
    }
    b
}

#[test]
fn ds1_loads() {
    let archive_path = "D:\\Diablo II\\d2exp.mpq";
    let filename = "data\\global\\tiles\\expansion\\Town\\townWest.ds1";
    let file_buffer = if Path::new(archive_path).exists() {
        let mut archive =
            Archive::open(archive_path).expect(&format!("can not find archive {}", archive_path));
        let archive_file = archive
            .open_file(filename)
            .expect(&format!("can't find {} in {}", filename, archive_path));
        let mut file_buffer = vec![0u8; archive_file.size() as usize];

        archive_file
            .read(&mut archive, &mut file_buffer)
            .expect(&format!("failed to read {}", filename));
        file_buffer
    } else {
        small_town()
    };
    let ds1 = Ds1::from(&file_buffer).expect("");
    println!("{}\n{:?}", filename, ds1);
}
