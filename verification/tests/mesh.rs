use bevy_hanabi::mesh::MeshBoxes;
use bevy_hanabi::render::appear_area::{AppearAreaIndex, D3Shape};

#[test]
fn a_new_grid_has_every_cell_in_the_order_of_its_number() {
    let shape = D3Shape::new(3, 2, 4);
    let boxes: MeshBoxes<&str> = MeshBoxes::new(shape);
    assert_eq!(boxes.shape(), shape);
    let cells = boxes.to_render_array();
    assert_eq!(cells.len(), 24);
    for (m, cell) in cells.iter().enumerate() {
        let m = m as u32;
        assert_eq!(cell.index, AppearAreaIndex(m));
        assert_eq!(cell.position, (m % 3, (m % 6) / 3, m / 6));
        assert_eq!(cell.position, cell.index.to_position(&shape));
        assert!(cell.ref_appear_area.is_none());
    }
    assert_eq!(cells[0].position, (0, 0, 0));
    assert_eq!(cells[1].position, (1, 0, 0));
    assert_eq!(cells[3].position, (0, 1, 0));
    assert_eq!(cells[6].position, (0, 0, 1));
    assert_eq!(cells[23].position, (2, 1, 3));
    assert!(boxes.get_non_empty_mapping_indexs().is_empty());
}

#[test]
fn a_large_grid_is_filled_in_order() {
    let shape = D3Shape::new(40, 50, 60);
    let boxes: MeshBoxes<u8> = MeshBoxes::new(shape);
    let cells = boxes.to_render_array();
    assert_eq!(cells.len(), 120000);
    for (m, cell) in cells.iter().enumerate() {
        assert_eq!(cell.index, AppearAreaIndex(m as u32));
        assert_eq!(cell.position, cell.index.to_position(&shape));
    }
    assert_eq!(cells[119999].position, (39, 49, 59));
}

#[test]
fn a_grid_with_a_side_of_zero_has_no_cell() {
    for shape in [D3Shape::new(0, 5, 5), D3Shape::new(5, 0, 5), D3Shape::new(5, 5, 0)] {
        let boxes: MeshBoxes<u8> = MeshBoxes::new(shape);
        assert!(boxes.to_render_array().is_empty());
        assert!(boxes.get_non_empty_mapping_indexs().is_empty());
    }
}

#[test]
fn an_appear_area_goes_into_the_cell_at_its_place() {
    let shape = D3Shape::new(4, 4, 4);
    let mut boxes = MeshBoxes::new(shape);
    assert!(boxes.insert_mesh_box(3, 2, 3, "c").is_empty());
    assert!(boxes.insert_mesh_box(0, 0, 1, "a").is_empty());
    assert!(boxes.insert_mesh_box(1, 0, 0, "b").is_empty());
    assert_eq!(boxes.get_non_empty_mapping_indexs(), vec![1, 16, 59]);
    let cells = boxes.to_render_array();
    assert_eq!(cells[1].ref_appear_area, Some("b"));
    assert_eq!(cells[16].ref_appear_area, Some("a"));
    assert_eq!(cells[59].ref_appear_area, Some("c"));
    assert_eq!(cells[59].position, (3, 2, 3));
    assert_eq!(cells[59].index, AppearAreaIndex(59));
    assert_eq!(cells.iter().filter(|cell| cell.ref_appear_area.is_some()).count(), 3);
    assert!(boxes.insert_mesh_box(0, 0, 1, "d").is_empty());
    assert_eq!(boxes.to_render_array()[16].ref_appear_area, Some("d"));
    assert_eq!(boxes.get_non_empty_mapping_indexs(), vec![1, 16, 59]);
}

#[test]
fn every_cell_can_hold_an_appear_area() {
    let shape = D3Shape::new(2, 3, 2);
    let mut boxes = MeshBoxes::new(shape);
    for z in 0..2 {
        for y in 0..3 {
            for x in 0..2 {
                boxes.insert_mesh_box(x, y, z, (x, y, z));
            }
        }
    }
    assert_eq!(boxes.get_non_empty_mapping_indexs(), (0..12).collect::<Vec<u32>>());
    for cell in boxes.to_render_array() {
        assert_eq!(cell.ref_appear_area, Some(cell.position));
    }
}
