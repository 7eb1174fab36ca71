use bevy_hanabi::render::appear_area::{AppearAreaIndex, D3Shape};

#[test]
fn test_appear_new() {
    let values: [[[u32; 4]; 4]; 4] = [
        [
            [1, 2, 3, 4],
            [5, 6, 7, 8],
            [9, 10, 11, 12],
            [13, 14, 15, 16],
        ],
        [
            [17, 18, 19, 20],
            [21, 22, 23, 24],
            [25, 26, 27, 28],
            [29, 30, 31, 32],
        ],
        [
            [33, 34, 35, 36],
            [37, 38, 39, 40],
            [41, 42, 43, 44],
            [45, 46, 47, 48],
        ],
        [
            [49, 50, 51, 52],
            [53, 54, 55, 56],
            [57, 58, 59, 60],
            [61, 62, 63, 64],
        ],
    ];
    let shape: D3Shape = (4u32, 4u32, 4u32).into();
    let index: AppearAreaIndex = AppearAreaIndex::new(0, 0, 1, shape);
    let number: u32 = index.into();
    assert_eq!(16u32, number);
    assert_eq!(index.to_position(&shape), (0, 0, 1));
    let i = index.to_position(&shape);
    let v = values[0][0][1];
    assert_eq!(values[i.0 as usize][i.1 as usize][i.2 as usize], v);

    let index: AppearAreaIndex = AppearAreaIndex::new(3, 2, 3, shape);
    assert_eq!(index.to_position(&shape), (3, 2, 3));
    let i = index.to_position(&shape);
    let v = values[3][2][3];
    assert_eq!(values[i.0 as usize][i.1 as usize][i.2 as usize], v);

    let index: AppearAreaIndex = AppearAreaIndex::new(0, 2, 3, shape);
    assert_eq!(index.to_position(&shape), (0, 2, 3));
    let i = index.to_position(&shape);
    let v = values[0][2][3];
    assert_eq!(values[i.0 as usize][i.1 as usize][i.2 as usize], v);
}

#[test]
fn every_cell_of_a_grid_gets_its_own_number() {
    let shape = D3Shape::new(3, 5, 2);
    let mut expected = 0;
    for z in 0..2 {
        for y in 0..5 {
            for x in 0..3 {
                let index = AppearAreaIndex::new(x, y, z, shape);
                assert_eq!(index, AppearAreaIndex(expected));
                assert_eq!(index.to_position(&shape), (x, y, z));
                assert_eq!(index.to_array_u32(&shape), [x, y, z]);
                expected += 1;
            }
        }
    }
    assert_eq!(expected, 30);
}

#[test]
fn the_number_of_a_cell_follows_the_formula() {
    let shape = D3Shape::new(7, 11, 13);
    assert_eq!(AppearAreaIndex::new(0, 0, 0, shape), AppearAreaIndex(0));
    assert_eq!(AppearAreaIndex::new(6, 0, 0, shape), AppearAreaIndex(6));
    assert_eq!(AppearAreaIndex::new(0, 1, 0, shape), AppearAreaIndex(7));
    assert_eq!(AppearAreaIndex::new(0, 0, 1, shape), AppearAreaIndex(77));
    assert_eq!(AppearAreaIndex::new(5, 9, 12, shape), AppearAreaIndex(12 * 77 + 9 * 7 + 5));
    // Coordinates outside a layer are not turned down: they run on into
    // the next row and the next layer.
    assert_eq!(AppearAreaIndex::new(7, 0, 0, shape), AppearAreaIndex(7));
    assert_eq!(AppearAreaIndex::new(0, 11, 0, shape), AppearAreaIndex(77));
    assert_eq!(AppearAreaIndex(7).to_position(&shape), (0, 1, 0));
    assert_eq!(AppearAreaIndex(1000).to_position(&shape), (6, 10, 12));
    assert_eq!(AppearAreaIndex(1001).to_position(&shape), (0, 0, 13));
}

#[test]
fn large_grids_do_not_overflow() {
    let wide = D3Shape::new(u32::MAX, u32::MAX, 1);
    assert_eq!(AppearAreaIndex::new(u32::MAX, 0, 0, wide), AppearAreaIndex(u32::MAX));
    assert_eq!(AppearAreaIndex(u32::MAX).to_position(&wide), (0, 1, 0));
    assert_eq!(AppearAreaIndex(u32::MAX - 1).to_position(&wide), (u32::MAX - 1, 0, 0));
    let deep = D3Shape::new(1, 1, u32::MAX);
    assert_eq!(AppearAreaIndex::new(0, 0, u32::MAX, deep), AppearAreaIndex(u32::MAX));
    assert_eq!(AppearAreaIndex(u32::MAX).to_position(&deep), (0, 0, u32::MAX));
    let square = D3Shape::new(65536, 65536, 4);
    assert_eq!(AppearAreaIndex::new(65535, 65535, 0, square), AppearAreaIndex(u32::MAX));
    assert_eq!(AppearAreaIndex(u32::MAX).to_position(&square), (65535, 65535, 0));
}

#[test]
fn shapes_and_indices_convert() {
    let from_u32: D3Shape = (2u32, 3u32, 4u32).into();
    assert_eq!(from_u32, D3Shape::new(2, 3, 4));
    let from_usize: D3Shape = (2usize, 3usize, 4usize).into();
    assert_eq!(from_usize, D3Shape::new(2, 3, 4));
    assert_eq!(from_usize.x, 2);
    assert_eq!(from_usize.y, 3);
    assert_eq!(from_usize.z, 4);
    let index: AppearAreaIndex = 17u32.into();
    assert_eq!(index, AppearAreaIndex(17));
    assert_eq!(u32::from(index), 17);
    assert!(AppearAreaIndex(3) < AppearAreaIndex(4));
}
