use blockworld::block::Block;
use blockworld::terrain::{TerrainField, TerrainSeeds, TerrainSettings, TreeTypes, WorldType};
use blockworld::world::{World, WorldError};

fn field(width: usize, heights: Vec<u32>, depth: usize, trees: Vec<u32>) -> TerrainField {
    assert_eq!(heights.len(), width);
    TerrainField { heights, rock: vec![vec![true; depth]; width], trees }
}

fn column(w: &World, x: u32) -> Vec<Block> {
    (0..w.height).map(|y| w.get_block(x, y).unwrap()).collect()
}

#[test]
fn empty_world_is_air() {
    let w = World::generate(16, 16, 4, 8, 2, WorldType::Empty).unwrap();
    for x in 0..16 {
        assert!(column(&w, x).iter().all(|b| *b == Block::Air));
    }
}

#[test]
fn flat_world_has_grass_on_stone() {
    let w = World::generate(16, 16, 4, 8, 2, WorldType::Flat { grass_height: 4 }).unwrap();
    for x in 0..16 {
        let c = column(&w, x);
        assert!(c[..4].iter().all(|b| *b == Block::Stone));
        assert_eq!(c[4], Block::Grass);
        assert!(c[5..].iter().all(|b| *b == Block::Air));
    }
    let w = World::generate(16, 16, 4, 8, 2, WorldType::Flat { grass_height: 0 }).unwrap();
    assert_eq!(w.get_block(3, 0), Ok(Block::Grass));
    assert_eq!(w.get_block(3, 1), Ok(Block::Air));
}

#[test]
fn flat_world_above_height_fails() {
    let r = World::generate(16, 16, 4, 8, 2, WorldType::Flat { grass_height: 16 });
    assert_eq!(r.err(), Some(WorldError::OutOfBoundsBlock(0, 16)));
}

#[test]
fn layout_errors_come_first() {
    let r = World::generate(15, 16, 4, 8, 2, WorldType::Flat { grass_height: 99 });
    assert_eq!(r.err(), Some(WorldError::MismatchedChunkSize));
}

#[test]
fn terrain_range_errors() {
    let f = field(16, vec![5; 16], 16, vec![]);
    let r = World::generate(
        16,
        16,
        4,
        8,
        2,
        WorldType::Terrain { base_height: 2, upper_height: 17, water_height: 3, field: f.clone() },
    );
    assert_eq!(r.err(), Some(WorldError::InvalidGenerationRange(17, 16)));
    let r = World::generate(
        16,
        16,
        4,
        8,
        2,
        WorldType::Terrain { base_height: 8, upper_height: 8, water_height: 3, field: f.clone() },
    );
    assert_eq!(r.err(), Some(WorldError::GenerationTooThin));
    let mut tall = f.clone();
    tall.heights[7] = 16;
    tall.rock = vec![vec![true; 20]; 16];
    let r = World::generate(
        16,
        16,
        4,
        8,
        2,
        WorldType::Terrain { base_height: 2, upper_height: 16, water_height: 3, field: tall },
    );
    assert_eq!(r.err(), Some(WorldError::OutOfBoundsBlock(7, 16)));
}

#[test]
fn terrain_columns_follow_field() {
    // a valley in columns 4..8 that fills with water up to row 6
    let mut heights = vec![9u32; 16];
    for x in 4..8 {
        heights[x] = 3;
    }
    let mut f = field(16, heights, 16, vec![]);
    f.rock[12][5] = false; // a cave inside a hill
    let w = World::generate(
        16,
        16,
        4,
        8,
        2,
        WorldType::Terrain { base_height: 2, upper_height: 12, water_height: 6, field: f },
    )
    .unwrap();
    let hill = column(&w, 1);
    assert!(hill[..9].iter().all(|b| *b == Block::Stone));
    assert_eq!(hill[9], Block::Grass);
    assert!(hill[10..].iter().all(|b| *b == Block::Air));
    let valley = column(&w, 5);
    assert!(valley[..4].iter().all(|b| *b == Block::Stone));
    assert!(valley[4..7].iter().all(|b| *b == Block::Water));
    assert!(valley[7..].iter().all(|b| *b == Block::Air));
    let cave = column(&w, 12);
    assert_eq!(cave[5], Block::Air);
    assert_eq!(cave[4], Block::Stone);
    assert_eq!(cave[9], Block::Grass);
    assert!(w.to_update.is_empty());
}

#[test]
fn grass_grows_on_the_topmost_rock_above_water() {
    let mut f = field(16, vec![9u32; 16], 16, vec![]);
    f.rock[2][8] = false; // a cave right under the surface
    f.rock[3][9] = false; // the surface row itself is a cave
    for y in 6..10 {
        f.rock[4][y] = false; // hollow down to the water level
    }
    for y in 0..10 {
        f.rock[5][y] = false; // no rock at all
    }
    let w = World::generate(
        16,
        16,
        4,
        8,
        2,
        WorldType::Terrain { base_height: 2, upper_height: 12, water_height: 6, field: f },
    )
    .unwrap();
    let under = column(&w, 2);
    assert_eq!(under[9], Block::Grass);
    assert_eq!(under[8], Block::Air);
    assert_eq!(under[7], Block::Stone);
    let open = column(&w, 3);
    assert_eq!(open[9], Block::Air);
    assert_eq!(open[8], Block::Grass);
    assert_eq!(open[7], Block::Stone);
    let low = column(&w, 4);
    assert_eq!(low[5], Block::Stone);
    assert!(low[6..].iter().all(|b| *b == Block::Air));
    let none = column(&w, 5);
    assert!(none.iter().all(|b| *b == Block::Air));
}

#[test]
fn water_settles_into_open_caves() {
    // column 8 is hollow from row 2 up and lies next to the lake in 4..8
    let mut heights = vec![9u32; 16];
    for x in 4..8 {
        heights[x] = 3;
    }
    let mut f = field(16, heights, 16, vec![]);
    for y in 2..10 {
        f.rock[8][y] = false;
    }
    let w = World::generate(
        16,
        16,
        4,
        8,
        2,
        WorldType::Terrain { base_height: 2, upper_height: 12, water_height: 6, field: f },
    )
    .unwrap();
    let hollow = column(&w, 8);
    assert_eq!(hollow[1], Block::Stone);
    assert!(hollow[2..7].iter().all(|b| *b == Block::Water));
    assert!(hollow[7..].iter().all(|b| *b == Block::Air));
}

#[test]
fn trees_grow_in_picked_columns_above_water() {
    let mut heights = vec![5u32; 24];
    heights[20] = 1; // this column lies under water
    let f = field(24, heights, 24, vec![12, 4, 4, 20, 4, 1]);
    let w = World::generate(
        24,
        24,
        4,
        8,
        2,
        WorldType::Terrain { base_height: 0, upper_height: 12, water_height: 3, field: f },
    )
    .unwrap();
    for x in [4u32, 12] {
        let c = column(&w, x);
        assert_eq!(c[5], Block::Grass);
        assert!(c[6..10].iter().all(|b| *b == Block::Wood));
        assert_eq!(c[10], Block::Leaves);
        assert_eq!(c[11], Block::Leaves);
        assert_eq!(c[12], Block::Air);
        assert_eq!(w.get_block(x - 2, 9), Ok(Block::Leaves));
        assert_eq!(w.get_block(x + 2, 9), Ok(Block::Leaves));
        assert_eq!(w.get_block(x - 1, 10), Ok(Block::Leaves));
        assert_eq!(w.get_block(x + 1, 10), Ok(Block::Leaves));
        assert_eq!(w.get_block(x + 2, 10), Ok(Block::Air));
    }
    // too close to the edge, and under water
    assert_eq!(w.get_block(1, 6), Ok(Block::Air));
    assert_eq!(w.get_block(20, 6), Ok(Block::Air));
    assert_eq!(w.get_block(8, 6), Ok(Block::Air));
}

#[test]
fn tree_pattern_has_twelve_cells() {
    let cells = TreeTypes::get_required_blocks(TreeTypes::Basic, 10, 20);
    assert_eq!(cells.len(), 12);
    assert_eq!(cells[0], (10, 25, Block::Leaves));
    assert_eq!(cells[4], (8, 23, Block::Leaves));
    assert_eq!(cells[6], (10, 23, Block::Wood));
    assert_eq!(cells[11], (10, 20, Block::Wood));
    assert_eq!(cells.iter().filter(|c| c.2 == Block::Wood).count(), 4);
    let edge = TreeTypes::get_required_blocks(TreeTypes::Basic, 0, 0);
    assert_eq!(edge[4], (-2, 3, Block::Leaves));
}

#[test]
fn tree_outside_world_is_not_planted() {
    let mut w = World::generate_empty(16, 16, 4, 8, 2).unwrap();
    assert_eq!(w.generate_tree_at(1, 3), Err(WorldError::OutOfBoundsBlock(1, 3)));
    assert_eq!(w.generate_tree_at(14, 3), Err(WorldError::OutOfBoundsBlock(14, 3)));
    assert_eq!(w.generate_tree_at(5, 11), Err(WorldError::OutOfBoundsBlock(5, 11)));
    for y in 0..16 {
        for x in 0..16 {
            assert_eq!(w.get_block(x, y), Ok(Block::Air));
        }
    }
    assert_eq!(w.generate_tree_at(2, 10), Ok(()));
    assert_eq!(w.get_block(2, 15), Ok(Block::Leaves));
    assert_eq!(w.get_block(0, 13), Ok(Block::Leaves));
}

#[test]
fn same_field_gives_same_world() {
    let make = || {
        let mut heights = vec![7u32; 16];
        heights[3] = 2;
        heights[4] = 1;
        let mut f = field(16, heights, 16, vec![9]);
        f.rock[10][4] = false;
        f.rock[4][0] = false;
        World::generate(
            16,
            16,
            4,
            8,
            2,
            WorldType::Terrain { base_height: 1, upper_height: 10, water_height: 5, field: f },
        )
        .unwrap()
    };
    let a = make();
    let b = make();
    for (ca, cb) in a.chunks.iter().zip(b.chunks.iter()) {
        assert_eq!(ca.to_network().blocks, cb.to_network().blocks);
    }
}

#[test]
fn seeds_follow_the_master_seed() {
    let s = TerrainSeeds::draw(Some(42), 5);
    assert_eq!(s.master, 42);
    assert_eq!(s.octaves.len(), 5);
    let t = TerrainSeeds::draw(Some(42), 5);
    assert_eq!(s.octaves, t.octaves);
    assert_eq!(s.caves, t.caves);
    assert_eq!(s.trees, t.trees);
    let u = TerrainSeeds::draw(None, 0);
    assert!(u.octaves.is_empty());
}

#[test]
fn settings_can_be_painted_directly() {
    let base = World::generate_empty(8, 8, 4, 4, 1).unwrap();
    let settings = TerrainSettings {
        base_height: 1,
        upper_height: 6,
        water_height: 0,
        field: field(8, vec![3; 8], 8, vec![]),
    };
    let w = World::generate_terrain(base, settings).unwrap();
    assert_eq!(w.get_block(0, 3), Ok(Block::Grass));
    assert_eq!(w.get_block(0, 2), Ok(Block::Stone));
}
