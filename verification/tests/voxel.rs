use tcge::client::blocks::static_bakery::build;
use tcge::client::blocks::static_bakery::is_occluded;
use tcge::client::blocks::static_bakery::BakeryContext;
use tcge::client::blocks::static_bakery::Face;
use tcge::client::voxel::BlockCoord;
use tcge::client::voxel::Chunk;
use tcge::client::voxel::ChunkCoord;
use tcge::client::voxel::ChunkStorage;
use tcge::client::voxel::BLOCK_ADM;
use tcge::client::voxel::BLOCK_AIR;

fn config(range: i64, height: i64) -> toml::value::Table {
    let mut t = toml::value::Table::new();
    t.insert("range".to_string(), toml::Value::Integer(range));
    t.insert("height".to_string(), toml::Value::Integer(height));
    t
}

fn empty_chunk() -> Chunk {
    let mut c = Chunk::new(0, 0, 0);
    c.fill_with_grid(BLOCK_AIR);
    c
}

#[test]
fn voxel_chunk_has_solid_edges() {
    let c = Chunk::new(2, 0, -1);
    assert_eq!(c.pos, ChunkCoord::new_from_chunk(2, 0, -1));
    assert_eq!(c.get_block(0, 0, 0), Some(BLOCK_ADM));
    assert_eq!(c.get_block(15, 0, 7), Some(BLOCK_ADM));
    assert_eq!(c.get_block(7, 15, 15), Some(BLOCK_ADM));
    assert_eq!(c.get_block(7, 7, 7), Some(BLOCK_AIR));
    assert_eq!(c.get_block(0, 7, 7), Some(BLOCK_AIR));
    assert_eq!(c.get_block(16, 0, 0), None);
}

#[test]
fn voxel_chunk_set_block() {
    let mut c = Chunk::new(0, 0, 0);
    assert_eq!(c.set_block(3, 4, 5, 7), Some(()));
    assert_eq!(c.get_block(3, 4, 5), Some(7));
    assert_eq!(c.set_block(3, 4, 5, 7), Some(()));
    assert_eq!(c.set_block(-1, 4, 5, 7), None);
    assert_eq!(Chunk::clamp_chunk_coord(15), Some(15));
    assert_eq!(Chunk::clamp_chunk_coord(16), None);
}

#[test]
fn voxel_mesh_of_single_block() {
    let mut c = empty_chunk();
    assert!(c.render_into_simple_mesh().is_empty());
    c.set_block(5, 5, 5, BLOCK_ADM);
    let faces = c.render_into_simple_mesh();
    let sides: Vec<Face> = faces.iter().map(|f| f.face).collect();
    assert_eq!(sides, vec![Face::Ypos, Face::Yneg, Face::Zneg, Face::Zpos, Face::Xneg, Face::Xpos]);
    assert!(faces.iter().all(|f| (f.x, f.y, f.z) == (5, 5, 5)));
}

#[test]
fn voxel_mesh_hides_shared_faces() {
    let mut c = empty_chunk();
    c.set_block(5, 5, 5, BLOCK_ADM);
    c.set_block(6, 5, 5, BLOCK_ADM);
    let faces = c.render_into_simple_mesh();
    assert_eq!(faces.len(), 10);
    assert!(!faces.iter().any(|f| (f.x, f.face) == (5, Face::Xpos)));
    assert!(!faces.iter().any(|f| (f.x, f.face) == (6, Face::Xneg)));
    assert_eq!((faces[0].x, faces[0].face), (5, Face::Ypos));
    assert_eq!((faces[5].x, faces[5].face), (6, Face::Ypos));
}

#[test]
fn voxel_mesh_of_corner_block_shows_outside() {
    let mut c = empty_chunk();
    c.set_block(0, 0, 0, BLOCK_ADM);
    assert_eq!(c.render_into_simple_mesh().len(), 6);
}

#[test]
fn voxel_storage_grid_and_writes() {
    let mut storage = ChunkStorage::new(&config(1, 1));
    assert_eq!(storage.get_block(&BlockCoord::new(0, 0, 0)), Some(BLOCK_ADM));
    assert_eq!(storage.get_block(&BlockCoord::new(-16, 0, -16)), Some(BLOCK_ADM));
    assert_eq!(storage.get_block(&BlockCoord::new(5, 5, 5)), Some(BLOCK_AIR));
    assert_eq!(storage.get_block(&BlockCoord::new(16, 0, 0)), None);
    assert!(storage.set_block(&BlockCoord::new(5, 5, 5), 9));
    assert_eq!(storage.get_block(&BlockCoord::new(5, 5, 5)), Some(9));
    assert_eq!(storage.get_block(&BlockCoord::new(5, 6, 5)), Some(BLOCK_AIR));
    assert!(!storage.set_block(&BlockCoord::new(40, 0, 0), 9));
}

#[test]
fn voxel_storage_empty_range() {
    let storage = ChunkStorage::new(&config(0, 3));
    assert_eq!(storage.get_block(&BlockCoord::new(0, 0, 0)), None);
}

#[test]
fn bakery_context_occlusion() {
    let mut ctx = BakeryContext::new();
    assert!(!is_occluded(&ctx, Face::Xpos));
    ctx.set_occlusion(true, false, true, false, true, false, true);
    assert!(is_occluded(&ctx, Face::Xpos));
    assert!(!is_occluded(&ctx, Face::Ypos));
    assert!(is_occluded(&ctx, Face::Zpos));
    assert!(!is_occluded(&ctx, Face::Xneg));
    assert!(is_occluded(&ctx, Face::Yneg));
    assert!(!is_occluded(&ctx, Face::Zneg));
    assert!(is_occluded(&ctx, Face::Omni));
    assert_eq!(Face::Zneg.id(), 6);
}

#[test]
fn baked_block_sides_in_build_order() {
    let mut ctx = BakeryContext::new();
    let all = [false, true, true, true, true, true, true, false];
    assert_eq!(build(&ctx, &all), vec![Face::Xneg, Face::Yneg, Face::Zneg, Face::Xpos, Face::Ypos, Face::Zpos]);
    ctx.set_occlusion(true, true, false, false, false, true, false);
    assert_eq!(build(&ctx, &all), vec![Face::Xneg, Face::Yneg, Face::Zpos]);
    assert!(build(&ctx, &[false; 8]).is_empty());
    let omni = [false, false, false, false, false, false, false, true];
    assert_eq!(build(&BakeryContext::new(), &omni), vec![Face::Omni]);
}

#[test]
fn voxel_storage_raycast() {
    let mut storage = ChunkStorage::new(&config(1, 1));
    let down: Vec<(BlockCoord, BlockCoord)> = (0..6)
        .rev()
        .map(|y| (BlockCoord::new(5, y + 1, 5), BlockCoord::new(5, y, 5)))
        .collect();
    assert!(storage.raycast(&down).is_none());
    storage.raycast_fill(&[BlockCoord::new(5, 2, 5), BlockCoord::new(5, 1, 5)], 3);
    let hit = storage.raycast(&down).unwrap();
    assert_eq!(hit, (BlockCoord::new(5, 3, 5), BlockCoord::new(5, 2, 5), 3));
    assert_eq!(storage.get_block(&BlockCoord::new(5, 1, 5)), Some(3));
    let corner = vec![(BlockCoord::new(1, 1, 0), BlockCoord::new(0, 0, 0))];
    assert_eq!(storage.raycast(&corner), Some((BlockCoord::new(1, 1, 0), BlockCoord::new(0, 0, 0), BLOCK_ADM)));
}
