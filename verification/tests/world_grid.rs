use blockworld::block::Block;
use blockworld::world::{World, WorldError};

fn world(width: u32, height: u32, chunk: u32) -> World {
    World::generate_empty(width, height, chunk, width / 2, 1).unwrap()
}

#[test]
fn empty_world_has_expected_layout() {
    let w = world(32, 32, 16);
    assert_eq!(w.width_chunks, 2);
    assert_eq!(w.height_chunks, 2);
    assert_eq!(w.chunks.len(), 4);
    assert_eq!(w.player_loaded.len(), 4);
    for (i, c) in w.chunks.iter().enumerate() {
        assert_eq!(c.size, 16);
        assert_eq!(c.chunk_x as usize, i % 2);
        assert_eq!(c.chunk_y as usize, i / 2);
        assert_eq!(c.blocks.len(), 256);
        assert!(c.blocks.iter().all(|b| *b == Block::Air));
    }
    assert!(w.players.is_empty());
    assert!(w.to_update.is_empty());
    assert!(!w.free_placement);
}

#[test]
fn mismatched_chunk_size_is_refused() {
    assert_eq!(
        World::generate_empty(30, 32, 16, 10, 1).err(),
        Some(WorldError::MismatchedChunkSize)
    );
    assert_eq!(
        World::generate_empty(32, 33, 16, 10, 1).err(),
        Some(WorldError::MismatchedChunkSize)
    );
}

#[test]
fn spawn_point_outside_world_is_no_generation_error() {
    let w = World::generate_empty(32, 32, 16, 40, 16).unwrap();
    assert_eq!(w.spawn_point, 40);
    assert!(w.spawn_area_exists());
    for _ in 0..200 {
        assert!((24..32).contains(&w.get_spawn()));
    }
    let far = World::generate_empty(32, 32, 16, 48, 16).unwrap();
    assert!(!far.spawn_area_exists());
    assert_eq!(
        World::generate_empty(32, 32, 16, 99, 17).err(),
        Some(WorldError::SpawnRangeTooLarge)
    );
}

#[test]
fn spawn_range_over_half_width_is_refused() {
    assert_eq!(
        World::generate_empty(32, 32, 16, 10, 17).err(),
        Some(WorldError::SpawnRangeTooLarge)
    );
    assert!(World::generate_empty(32, 32, 16, 10, 16).is_ok());
}

#[test]
fn get_after_set_returns_block() {
    let mut w = world(8, 8, 2);
    for (x, y, b) in [
        (0u32, 0u32, Block::Stone),
        (3, 2, Block::Grass),
        (7, 7, Block::Leaves),
        (4, 5, Block::Water),
        (1, 6, Block::Ore),
    ] {
        assert_eq!(w.set_block(x, y, b), Ok(()));
        assert_eq!(w.get_block(x, y), Ok(b));
    }
    assert_eq!(w.get_block(3, 3), Ok(Block::Air));
    assert_eq!(w.raw_set_block(3, 2, Block::Wood), Ok(()));
    assert_eq!(w.get_block(3, 2), Ok(Block::Wood));
    assert_eq!(w.get_block(0, 0), Ok(Block::Stone));
}

#[test]
fn out_of_bounds_is_reported() {
    let mut w = world(8, 8, 2);
    assert_eq!(w.get_block(8, 0), Err(WorldError::OutOfBoundsBlock(8, 0)));
    assert_eq!(w.get_block(0, 8), Err(WorldError::OutOfBoundsBlock(0, 8)));
    assert_eq!(w.set_block(9, 9, Block::Stone), Err(WorldError::OutOfBoundsBlock(9, 9)));
    assert_eq!(w.raw_set_block(8, 1, Block::Stone), Err(WorldError::OutOfBoundsBlock(8, 1)));
    assert_eq!(w.get_chunk_block_is_in(8, 8), Err(WorldError::OutOfBoundsBlock(8, 8)));
    assert_eq!(w.get_chunk(4, 0).err(), Some(WorldError::OutOfBoundsChunk(4, 0)));
    assert_eq!(w.check_out_of_bounds_chunk(0, 4), Err(WorldError::OutOfBoundsChunk(0, 4)));
    assert_eq!(w.check_out_of_bounds_block(7, 7), Ok(()));
}

#[test]
fn chunk_bytes_match_blocks() {
    let mut w = world(12, 8, 4);
    let blocks = [Block::Stone, Block::Grass, Block::Water, Block::Wood, Block::Leaves, Block::Ore];
    let mut n = 0usize;
    for y in 0..8u32 {
        for x in 0..12u32 {
            if (x * 7 + y * 3) % 4 != 0 {
                w.raw_set_block(x, y, blocks[n % blocks.len()]).unwrap();
                n += 1;
            }
        }
    }
    for y in 0..8u32 {
        for x in 0..12u32 {
            let (cx, cy) = w.get_chunk_block_is_in(x, y).unwrap();
            assert_eq!((cx, cy), (x / 4, y / 4));
            let chunk = w.get_chunk(cx, cy).unwrap();
            assert_eq!((chunk.chunk_x, chunk.chunk_y), (cx, cy));
            let wire = chunk.to_network();
            let offset = ((y % 4) * 4 + (x % 4)) as usize;
            assert_eq!(wire.blocks[offset], w.get_block(x, y).unwrap().id());
            assert_eq!(wire.size, 4);
        }
    }
}

#[test]
fn highest_block_is_top_of_ground() {
    let mut w = world(8, 8, 2);
    assert_eq!(w.get_highest_block_at(3), Ok((3, 0)));
    w.raw_set_block(3, 0, Block::Stone).unwrap();
    w.raw_set_block(3, 1, Block::Stone).unwrap();
    w.raw_set_block(3, 4, Block::Grass).unwrap();
    assert_eq!(w.get_highest_block_at(3), Ok((3, 4)));
    w.raw_set_block(3, 5, Block::Water).unwrap();
    assert_eq!(w.get_highest_block_at(3), Ok((3, 4)));
    assert_eq!(w.get_highest_block_at(8), Err(WorldError::OutOfBoundsBlock(8, 0)));
}

#[test]
fn spawn_settings_are_checked() {
    let mut w = world(32, 32, 16);
    assert_eq!(w.set_spawn(31), Ok(()));
    assert_eq!(w.spawn_point, 31);
    assert_eq!(w.set_spawn(32), Err(WorldError::OutOfBoundsBlock(32, 0)));
    assert_eq!(w.spawn_point, 31);
    assert_eq!(w.set_spawn_range(16), Ok(()));
    assert_eq!(w.spawn_range, 16);
    assert_eq!(w.set_spawn_range(17), Err(WorldError::SpawnRangeTooLarge));
    assert_eq!(w.spawn_range, 16);
}

#[test]
fn drawn_spawn_lies_in_spawn_area() {
    let mut w = world(64, 16, 16);
    w.set_spawn(5).unwrap();
    w.set_spawn_range(10).unwrap();
    let mut seen = [false; 64];
    for _ in 0..2000 {
        let x = w.get_spawn();
        assert!(x < 15);
        seen[x as usize] = true;
    }
    assert!(seen.iter().filter(|s| **s).count() > 1);
    w.set_spawn(60).unwrap();
    for _ in 0..500 {
        let x = w.get_spawn();
        assert!((50..64).contains(&x));
    }
}

#[test]
fn chunk_can_be_changed_in_place() {
    let mut w = world(8, 8, 2);
    {
        let chunk = w.get_chunk_mut(1, 2).unwrap();
        assert_eq!((chunk.chunk_x, chunk.chunk_y), (1, 2));
        chunk.set_block(1, 0, Block::Leaves);
    }
    assert_eq!(w.get_block(3, 4), Ok(Block::Leaves));
    assert_eq!(w.get_chunk_mut(4, 0).err(), Some(WorldError::OutOfBoundsChunk(4, 0)));
}
