use d2fileformats::ds1::{FloorCell, ShadowCell, TagCell, WallCell};
use d2fileformats::grid::{Cell, Grid};

#[test]
fn grid_is_filled_and_bounded() {
    let grid: Grid<Option<u8>> = Grid::new(3, 2, Some(9));
    for i in 0..3 {
        for j in 0..2 {
            assert_eq!(grid.get(i, j), Some(Some(9)));
        }
    }
    assert_eq!(grid.get(3, 0), None);
    assert_eq!(grid.get(0, 2), None);
    assert_eq!(grid.get(usize::MAX, usize::MAX), None);
}

#[test]
fn set_changes_one_cell() {
    let mut grid: Grid<Option<u8>> = Grid::new(2, 3, None);
    assert!(grid.set(1, 2, Some(7)));
    assert!(grid.set(0, 0, Some(0)));
    assert!(!grid.set(2, 0, Some(1)));
    assert!(!grid.set(0, 3, Some(1)));
    let mut seen = Vec::new();
    for j in 0..3 {
        for i in 0..2 {
            seen.push(grid.get(i, j).unwrap());
        }
    }
    assert_eq!(seen, vec![Some(0), None, None, None, None, Some(7)]);
    assert!(grid.set(1, 2, None));
    assert_eq!(grid.get(1, 2), Some(None));
}

#[test]
fn clone_is_a_grid_of_its_own() {
    let mut grid: Grid<TagCell> = Grid::new(1, 1, TagCell { prop1: 5 });
    let copy = grid.clone();
    assert!(grid.set(0, 0, TagCell { prop1: 6 }));
    assert_eq!(copy.get(0, 0), Some(TagCell { prop1: 5 }));
    assert_eq!(grid.get(0, 0), Some(TagCell { prop1: 6 }));
    assert_eq!(copy.get(1, 0), None);
}

#[test]
fn grids_that_cannot_be_allocated() {
    assert!(Grid::<Option<u8>>::fits(0, 0));
    assert!(Grid::<Option<u8>>::fits(1000, 1000));
    assert!(Grid::<WallCell>::fits(0, usize::MAX / 16));
    assert!(!Grid::<WallCell>::fits(0, usize::MAX / 16 + 1));
    assert!(!Grid::<WallCell>::fits(2, usize::MAX / 16));
    assert!(!Grid::<WallCell>::fits(usize::MAX, usize::MAX));
    assert!(Grid::<Option<u8>>::filled_with(usize::MAX, 2, None).is_none());
    let empty = Grid::<Option<u8>>::filled_with(0, 5, None).unwrap();
    assert_eq!(empty.get(0, 0), None);
    let grid = Grid::<FloorCell>::filled_with(2, 2, FloorCell::blank_cell()).unwrap();
    assert_eq!(grid.get(1, 1), Some(FloorCell { prop1: 0, prop2: 0, prop3: 0, prop4: 0 }));
}

#[test]
fn cells_come_back_from_their_words() {
    for pixel in [None, Some(0u8), Some(1), Some(127), Some(128), Some(255)] {
        assert_eq!(<Option<u8>>::from_word(pixel.to_word()), pixel);
    }
    assert_eq!(Some(7u8).to_word(), 7);
    assert_eq!(None::<u8>.to_word(), 256);
    let bytes = [0u8, 1, 2, 127, 128, 254, 255];
    for a in bytes {
        for b in bytes {
            let wall = WallCell { prop1: a, prop2: b, prop3: 255 - a, prop4: b ^ 0x55, orientation: a ^ b };
            assert_eq!(WallCell::from_word(wall.to_word()), wall);
            let floor = FloorCell { prop1: a, prop2: b, prop3: 255 - a, prop4: b ^ 0x55 };
            assert_eq!(FloorCell::from_word(floor.to_word()), floor);
            let shadow = ShadowCell { prop1: b, prop2: a, prop3: b ^ 0xAA, prop4: 255 - b };
            assert_eq!(ShadowCell::from_word(shadow.to_word()), shadow);
        }
    }
    assert_eq!(
        WallCell { prop1: 1, prop2: 2, prop3: 3, prop4: 4, orientation: 5 }.to_word(),
        0x05_0403_0201
    );
    for value in [0u32, 1, 0xFFFF, 0x8000_0000, u32::MAX] {
        assert_eq!(TagCell::from_word(TagCell { prop1: value }.to_word()), TagCell { prop1: value });
    }
    assert_eq!(WallCell::blank_cell().to_word(), 0);
    assert_eq!(ShadowCell::blank_cell(), ShadowCell { prop1: 0, prop2: 0, prop3: 0, prop4: 0 });
    assert_eq!(TagCell::blank_cell(), TagCell { prop1: 0 });
    assert_eq!(<Option<u8>>::blank_cell(), None);
}
