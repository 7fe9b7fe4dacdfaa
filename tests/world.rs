use raytracer::world::is_water_position;

#[test]
fn lake_cells() {
    assert!(is_water_position(3, 1));
    assert!(is_water_position(0, 4));
    assert!(is_water_position(6, 5));
    assert!(is_water_position(2, 2));
    assert!(is_water_position(4, 4));
}

#[test]
fn dry_cells() {
    assert!(!is_water_position(0, 0));
    assert!(!is_water_position(2, 1));
    assert!(!is_water_position(4, 7));
    assert!(!is_water_position(6, 2));
    assert!(!is_water_position(-4, -4));
    assert!(!is_water_position(i32::MIN, i32::MAX));
}

#[test]
fn lake_rows_on_the_ground_grid() {
    let mut rows: Vec<(i32, Vec<i32>)> = Vec::new();
    for z in -4..5 {
        let xs: Vec<i32> = (-4..5).filter(|&x| is_water_position(x, z)).collect();
        if !xs.is_empty() {
            rows.push((z, xs));
        }
    }
    assert_eq!(
        rows,
        vec![
            (1, vec![3, 4]),
            (2, vec![2, 3, 4]),
            (3, vec![2, 3, 4]),
            (4, vec![0, 1, 2, 3, 4]),
        ]
    );
}

use raytracer::material::MaterialType;
use raytracer::world::{world_blocks, BlockPlacement, TenthsVec};

fn b(material: MaterialType, c: (i32, i32, i32), s: (i32, i32, i32)) -> BlockPlacement {
    BlockPlacement {
        material,
        center: TenthsVec { x: c.0, y: c.1, z: c.2 },
        size: TenthsVec { x: s.0, y: s.1, z: s.2 },
    }
}

fn count(blocks: &[BlockPlacement], m: MaterialType) -> usize {
    blocks.iter().filter(|x| x.material == m).count()
}

#[test]
fn world_block_counts() {
    let blocks = world_blocks();
    assert_eq!(blocks.len(), 227);
    assert_eq!(count(&blocks, MaterialType::Stone), 81);
    assert_eq!(count(&blocks, MaterialType::Grass), 68);
    assert_eq!(count(&blocks, MaterialType::Water), 13);
    assert_eq!(count(&blocks, MaterialType::Obsidian), 16);
    assert_eq!(count(&blocks, MaterialType::Portal), 4);
    assert_eq!(count(&blocks, MaterialType::Wood), 9);
    assert_eq!(count(&blocks, MaterialType::Leaves), 36);
    assert_eq!(count(&blocks, MaterialType::Sun), 0);
}

#[test]
fn world_ground_starts_at_far_corner() {
    let blocks = world_blocks();
    assert_eq!(blocks[0], b(MaterialType::Stone, (-80, -10, -80), (20, 4, 20)));
    assert_eq!(blocks[1], b(MaterialType::Grass, (-80, -7, -80), (20, 2, 20)));
    assert_eq!(blocks[2], b(MaterialType::Stone, (-80, -10, -60), (20, 4, 20)));
}

#[test]
fn world_lake_follows_ground() {
    let blocks = world_blocks();
    assert_eq!(blocks[149], b(MaterialType::Water, (0, -7, 80), (20, 2, 20)));
    assert_eq!(blocks[161], b(MaterialType::Water, (80, -7, 80), (20, 2, 20)));
    // No grass lies under or over a lake cell.
    for w in blocks.iter().filter(|x| x.material == MaterialType::Water) {
        assert!(!blocks
            .iter()
            .any(|g| g.material == MaterialType::Grass && g.center == w.center));
    }
}

#[test]
fn world_portal_and_campfire() {
    let blocks = world_blocks();
    assert_eq!(blocks[162], b(MaterialType::Obsidian, (-10, 0, 0), (10, 10, 10)));
    assert_eq!(blocks[163], b(MaterialType::Obsidian, (10, 0, 0), (10, 10, 10)));
    assert_eq!(blocks[172], b(MaterialType::Obsidian, (-10, -10, 0), (10, 10, 10)));
    assert_eq!(blocks[173], b(MaterialType::Obsidian, (-10, 40, 0), (10, 10, 10)));
    assert_eq!(blocks[178], b(MaterialType::Portal, (0, 0, 0), (8, 10, 2)));
    assert_eq!(blocks[181], b(MaterialType::Portal, (0, 30, 0), (8, 10, 2)));
    assert_eq!(blocks[182], b(MaterialType::Wood, (-70, -3, -60), (8, 3, 3)));
    assert_eq!(blocks[187], b(MaterialType::Wood, (-60, -3, -50), (3, 3, 8)));
}

#[test]
fn world_tree_shape() {
    let blocks = world_blocks();
    assert_eq!(blocks[188], b(MaterialType::Wood, (-60, 0, 60), (8, 10, 8)));
    let layer = |y: i32| {
        blocks
            .iter()
            .filter(|x| x.material == MaterialType::Leaves && x.center.y == y)
            .count()
    };
    assert_eq!(layer(25), 21);
    assert_eq!(layer(35), 9);
    assert_eq!(layer(45), 5);
    assert_eq!(layer(55), 1);
    assert_eq!(blocks[226], b(MaterialType::Leaves, (-60, 55, 60), (10, 8, 10)));
    // The corners of the lowest layer are left out.
    assert!(!blocks.iter().any(|x| x.center == TenthsVec { x: -80, y: 25, z: 40 }));
    assert!(blocks.iter().any(|x| x.center == TenthsVec { x: -80, y: 25, z: 50 }));
}

#[test]
fn world_boxes_have_positive_size() {
    for x in world_blocks() {
        assert!(x.size.x > 0 && x.size.y > 0 && x.size.z > 0);
    }
}
