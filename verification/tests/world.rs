use tcge::blocks::universe::define_universe;
use tcge::blocks::universe::share_universe;
use tcge::blocks::BlockCoord;
use tcge::blocks::BlockId;
use tcge::blocks::BlockState;
use tcge::client::blocks::render::ChunkMesher;
use tcge::client::blocks::static_bakery::Face;
use tcge::client::blocks::Chunk;
use tcge::client::blocks::ChunkCoord;
use tcge::client::blocks::ChunkStorage;
use tcge::config::get_integer;
use tcge::client::input::{click_block, digit_block_name, input_step, InputAction, InputEvent, InputState, BUTTON_DESTROY, BUTTON_PLACE};

fn config(range: i64, height: i64) -> toml::value::Table {
    let mut t = toml::value::Table::new();
    t.insert("range".to_string(), toml::Value::Integer(range));
    t.insert("height".to_string(), toml::Value::Integer(height));
    t
}

#[test]
fn config_reads_integers_only() {
    let mut t = config(2, 5);
    t.insert("name".to_string(), toml::Value::String("x".to_string()));
    assert_eq!(get_integer(&t, "range"), Some(2));
    assert_eq!(get_integer(&t, "height"), Some(5));
    assert_eq!(get_integer(&t, "name"), None);
    assert_eq!(get_integer(&t, "missing"), None);
}

#[test]
fn universe_defines_air_and_bedrock() {
    let u = define_universe(&toml::value::Table::new());
    let air = u.get_block_by_name("air").unwrap();
    assert_eq!(air.get_name(), "air");
    assert_eq!(air.get_default_state().id, BlockId::new(0));
    let b3 = u.get_block_by_name_unchecked("bedrock3");
    assert_eq!(b3.get_default_state().id.get_raw_id(), 3);
    assert_eq!(u.get_block_by_id(BlockId::new(1)).get_name(), "bedrock");
    assert!(u.get_block_by_name("dirt").is_none());
    let shared = share_universe(&u);
    assert_eq!(shared.get_block_by_id(BlockId::new(2)).get_name(), "bedrock2");
}

#[test]
fn block_states_compare_by_id() {
    let a = BlockState { id: BlockId::new(4), data: () };
    let b = BlockState { id: BlockId::new(4), data: () };
    let c = BlockState { id: BlockId::new(5), data: () };
    assert!(a == b);
    assert!(!(a == c));
}

#[test]
fn world_block_coord_moves() {
    let c = BlockCoord::new(10, 20, 30);
    assert_eq!(c.up(1), BlockCoord::new(10, 21, 30));
    assert_eq!(c.down(1), BlockCoord::new(10, 19, 30));
    assert_eq!(c.left(2), BlockCoord::new(8, 20, 30));
    assert_eq!(c.right(2), BlockCoord::new(12, 20, 30));
    assert_eq!(c.forward(3), BlockCoord::new(10, 20, 27));
    assert_eq!(c.backward(3), BlockCoord::new(10, 20, 33));
    assert_eq!(c.add(1, 2, 3).sub(1, 2, 3), c);
}

#[test]
fn chunk_coord_of_block() {
    assert_eq!(ChunkCoord::new_from_block(&BlockCoord::new(17, -1, 15)), ChunkCoord::new_from_chunk(1, -1, 0));
    assert_eq!(ChunkCoord::new_from_block(&BlockCoord::new(-16, -17, 0)), ChunkCoord::new_from_chunk(-1, -2, 0));
    assert_eq!(ChunkCoord::new_from_chunk(1, 2, 3).add(1, 1, 1), ChunkCoord::new_from_chunk(2, 3, 4));
    assert_eq!(ChunkCoord::new_from_chunk(1, 2, 3).sub(1, 1, 1), ChunkCoord::new_from_chunk(0, 1, 2));
}

#[test]
fn chunk_starts_as_air_and_takes_blocks() {
    let u = define_universe(&toml::value::Table::new());
    let mut chunk = Chunk::new(share_universe(&u), 0, 0, 0);
    let air = u.get_block_by_name("air").unwrap().get_default_state();
    let bedrock = u.get_block_by_name("bedrock").unwrap().get_default_state();
    assert!(chunk.get_block(3, 4, 5).unwrap() == air);
    assert!(chunk.get_block(16, 0, 0).is_none());
    assert!(chunk.get_block(0, -1, 0).is_none());
    assert_eq!(chunk.set_block(3, 4, 5, bedrock), Some(()));
    assert!(chunk.get_block(3, 4, 5).unwrap() == bedrock);
    assert_eq!(chunk.set_block(3, 4, 5, bedrock), None);
    assert_eq!(chunk.set_block(3, 16, 5, bedrock), None);
    chunk.fill_with_floor(bedrock);
    assert!(chunk.get_block(9, 0, 9).unwrap() == bedrock);
    assert!(chunk.get_block(9, 1, 9).unwrap() == air);
}

#[test]
fn clamp_chunk_coord_bounds() {
    assert_eq!(Chunk::clamp_chunk_coord(0), Some(0));
    assert_eq!(Chunk::clamp_chunk_coord(15), Some(15));
    assert_eq!(Chunk::clamp_chunk_coord(16), None);
    assert_eq!(Chunk::clamp_chunk_coord(-1), None);
}

#[test]
fn storage_generates_terrain() {
    let u = define_universe(&toml::value::Table::new());
    let bedrock = u.get_block_by_name("bedrock").unwrap().get_default_state();
    let air = u.get_block_by_name("air").unwrap().get_default_state();
    let terrain = |_x: isize, _z: isize| 3isize;
    let storage = ChunkStorage::new(share_universe(&u), &config(1, 1), &terrain);
    assert_eq!(storage.get_approximate_volume(), 4 * 4096);
    assert!(storage.get_chunk(&ChunkCoord::new_from_chunk(-1, 0, -1)).is_some());
    assert!(storage.get_chunk(&ChunkCoord::new_from_chunk(0, 0, 0)).is_some());
    assert!(storage.get_chunk(&ChunkCoord::new_from_chunk(1, 0, 0)).is_none());
    assert!(storage.get_block(&BlockCoord::new(5, 0, 5)).unwrap() == bedrock);
    assert!(storage.get_block(&BlockCoord::new(-5, 2, 7)).unwrap() == bedrock);
    assert!(storage.get_block(&BlockCoord::new(-5, 3, 7)).unwrap() == air);
    assert!(storage.get_block(&BlockCoord::new(20, 0, 0)).is_none());
}

#[test]
fn storage_read_after_write() {
    let u = define_universe(&toml::value::Table::new());
    let bedrock2 = u.get_block_by_name("bedrock2").unwrap().get_default_state();
    let terrain = |_x: isize, _z: isize| 0isize;
    let mut storage = ChunkStorage::new(share_universe(&u), &config(1, 1), &terrain);
    let pos = BlockCoord::new(-3, 8, 12);
    let other = BlockCoord::new(-3, 9, 12);
    let before = storage.get_block(&other).unwrap();
    assert!(storage.set_block(&pos, bedrock2));
    assert!(storage.get_block(&pos).unwrap() == bedrock2);
    assert!(storage.get_block(&other).unwrap() == before);
    assert!(!storage.set_block(&BlockCoord::new(100, 0, 0), bedrock2));
}

#[test]
fn storage_from_config_checks_extent() {
    let u = define_universe(&toml::value::Table::new());
    let terrain = |_x: isize, _z: isize| 1isize;
    assert!(ChunkStorage::from_config(share_universe(&u), &config(1, 1), &terrain).is_some());
    assert!(ChunkStorage::from_config(share_universe(&u), &config(i64::MAX, 1), &terrain).is_none());
    assert!(ChunkStorage::extent_fits(4, 3));
    assert!(!ChunkStorage::extent_fits(isize::MIN, 3));
}

#[test]
fn storage_chunks_around() {
    let u = define_universe(&toml::value::Table::new());
    let terrain = |_x: isize, _z: isize| 1isize;
    let storage = ChunkStorage::new(share_universe(&u), &config(1, 1), &terrain);
    let around = storage.get_chunks_around(&ChunkCoord::new_from_chunk(0, 0, 0));
    let found = around.iter().filter(|c| c.is_some()).count();
    assert_eq!(found, 4);
}

#[test]
fn mesher_shows_faces_towards_air() {
    let u = define_universe(&toml::value::Table::new());
    let bedrock = u.get_block_by_name("bedrock").unwrap().get_default_state();
    let mut chunk = Chunk::new(share_universe(&u), 0, 0, 0);
    chunk.set_block(5, 5, 5, bedrock);
    chunk.set_block(5, 6, 5, bedrock);
    let mut mesher = ChunkMesher::new(share_universe(&u));
    let faces = mesher.mesh(&chunk);
    assert_eq!(faces.len(), 10);
    assert_eq!((faces[0].x, faces[0].y, faces[0].z), (5, 5, 5));
    assert_eq!(faces[0].face, Face::Yneg);
    assert!(faces[0].state == bedrock);
    assert_eq!((faces[5].x, faces[5].y, faces[5].z, faces[5].face), (5, 6, 5, Face::Ypos));
}

#[test]
fn config_text_to_table() {
    let t = tcge::config::table_from_str("range = 2\nheight = 7\n").unwrap();
    assert_eq!(get_integer(&t, "range"), Some(2));
    assert_eq!(get_integer(&t, "height"), Some(7));
    assert!(tcge::config::table_from_str("range = = 2").is_err());
}

#[test]
fn settings_load_from_text() {
    let mut s = tcge::client::Settings::init();
    assert!(s.table.is_empty());
    assert!(s.load_from_str("fov = 90").is_ok());
    assert_eq!(get_integer(&s.table, "fov"), Some(90));
    match s.load_from_str("not toml [") {
        Err(tcge::client::SettingsError::LoadError(m)) => assert!(!m.is_empty()),
        Ok(()) => panic!("expected a parse error"),
    }
    assert_eq!(get_integer(&s.table, "fov"), Some(90));
}

#[test]
fn storage_raycast_finds_first_solid() {
    let u = define_universe(&toml::value::Table::new());
    let bedrock = u.get_block_by_name("bedrock").unwrap().get_default_state();
    let bedrock3 = u.get_block_by_name("bedrock3").unwrap().get_default_state();
    let terrain = |_x: isize, _z: isize| 2isize;
    let mut storage = ChunkStorage::new(share_universe(&u), &config(1, 1), &terrain);
    let column: Vec<(BlockCoord, BlockCoord)> = (0..6)
        .rev()
        .map(|y| (BlockCoord::new(3, y + 1, 3), BlockCoord::new(3, y, 3)))
        .collect();
    let hit = storage.raycast(&column).unwrap();
    assert_eq!(hit.0, BlockCoord::new(3, 2, 3));
    assert_eq!(hit.1, BlockCoord::new(3, 1, 3));
    assert!(hit.2 == bedrock);
    let up: Vec<(BlockCoord, BlockCoord)> = vec![(BlockCoord::new(3, 5, 3), BlockCoord::new(3, 6, 3))];
    assert!(storage.raycast(&up).is_none());
    let outside: Vec<(BlockCoord, BlockCoord)> = vec![(BlockCoord::new(99, 0, 0), BlockCoord::new(100, 0, 0))];
    assert!(storage.raycast(&outside).is_none());
    let line = vec![BlockCoord::new(0, 5, 0), BlockCoord::new(1, 5, 0), BlockCoord::new(100, 5, 0)];
    storage.raycast_fill(&line, bedrock3);
    assert!(storage.get_block(&BlockCoord::new(0, 5, 0)).unwrap() == bedrock3);
    assert!(storage.get_block(&BlockCoord::new(1, 5, 0)).unwrap() == bedrock3);
    let hit = storage.raycast(&up).is_none();
    assert!(hit);
}

#[test]
fn storage_write_marks_chunk_and_neighbours() {
    let u = define_universe(&toml::value::Table::new());
    let bedrock2 = u.get_block_by_name("bedrock2").unwrap().get_default_state();
    let terrain = |_x: isize, _z: isize| 0isize;
    let mut storage = ChunkStorage::new(share_universe(&u), &config(1, 1), &terrain);
    let here = ChunkCoord::new_from_chunk(0, 0, 0);
    let west = ChunkCoord::new_from_chunk(-1, 0, 0);
    let diagonal = ChunkCoord::new_from_chunk(-1, 0, -1);
    let diagonal_before = storage.get_chunk(&diagonal).unwrap().last_update;
    assert!(storage.set_block_at(&BlockCoord::new(5, 8, 5), bedrock2, 77));
    assert_eq!(storage.get_chunk(&here).unwrap().last_update, 77);
    assert_eq!(storage.get_chunk(&west).unwrap().last_update, 77);
    assert_eq!(storage.get_chunk(&diagonal).unwrap().last_update, diagonal_before);
    assert!(!storage.set_block_at(&BlockCoord::new(5, 8, 5), bedrock2, 99));
    assert_eq!(storage.get_chunk(&here).unwrap().last_update, 77);
}

#[test]
fn chunk_write_takes_given_time() {
    let u = define_universe(&toml::value::Table::new());
    let bedrock = u.get_block_by_name("bedrock").unwrap().get_default_state();
    let mut chunk = Chunk::new(share_universe(&u), 0, 0, 0);
    assert!(chunk.set_block_at(1, 2, 3, bedrock, 42).is_some());
    assert_eq!(chunk.last_update, 42);
    assert!(chunk.set_block_at(1, 2, 3, bedrock, 43).is_none());
    assert_eq!(chunk.last_update, 42);
    assert!(chunk.set_block_at(16, 2, 3, bedrock, 44).is_none());
}

#[test]
fn click_destroys_and_places() {
    let u = define_universe(&toml::value::Table::new());
    let air = u.get_block_by_name("air").unwrap().get_default_state();
    let bedrock = u.get_block_by_name("bedrock").unwrap().get_default_state();
    let bedrock2 = u.get_block_by_name("bedrock2").unwrap().get_default_state();
    let terrain = |_x: isize, _z: isize| 2isize;
    let mut storage = ChunkStorage::new(share_universe(&u), &config(1, 1), &terrain);
    let column: Vec<(BlockCoord, BlockCoord)> = (0..6)
        .rev()
        .map(|y| (BlockCoord::new(3, y + 1, 3), BlockCoord::new(3, y, 3)))
        .collect();
    let hit = storage.raycast(&column).unwrap();
    assert!(click_block(&mut storage, &column, BUTTON_PLACE, air, bedrock2));
    assert!(storage.get_block(&hit.0).unwrap() == bedrock2);
    assert!(!click_block(&mut storage, &column, 7, air, bedrock2));
    let top = storage.raycast(&column).unwrap();
    assert!(top.2 == bedrock2);
    assert!(click_block(&mut storage, &column, BUTTON_DESTROY, air, bedrock2));
    assert!(storage.get_block(&top.1).unwrap() == air);
    assert!(storage.get_block(&hit.1).unwrap() == bedrock);
    let up: Vec<(BlockCoord, BlockCoord)> = vec![(BlockCoord::new(3, 9, 3), BlockCoord::new(3, 10, 3))];
    assert!(!click_block(&mut storage, &up, BUTTON_DESTROY, air, bedrock2));
}

#[test]
fn controls_answer_keys() {
    let mut s = InputState::new(0);
    assert_eq!(input_step(&mut s, InputEvent::EscapePressed, 1_000_000_000), InputAction::Nothing);
    assert_eq!(s.last_esc, 1_000_000_000);
    assert_eq!(input_step(&mut s, InputEvent::EscapePressed, 1_400_000_000), InputAction::Close);
    assert_eq!(input_step(&mut s, InputEvent::EscapePressed, 1_500_000_000), InputAction::Nothing);
    assert_eq!(s.last_esc, 1_500_000_000);
    assert_eq!(input_step(&mut s, InputEvent::EscapePressed, 1_000), InputAction::Nothing);
    assert_eq!(input_step(&mut s, InputEvent::MousePressed(1), 0), InputAction::Nothing);
    assert_eq!(input_step(&mut s, InputEvent::GrabReleased, 0), InputAction::Grab(true));
    assert!(s.grabbed);
    assert_eq!(input_step(&mut s, InputEvent::MousePressed(2), 0), InputAction::Click(2));
    assert_eq!(input_step(&mut s, InputEvent::GrabReleased, 0), InputAction::Grab(false));
    assert_eq!(input_step(&mut s, InputEvent::CraneReleased, 0), InputAction::Crane(true));
    assert_eq!(input_step(&mut s, InputEvent::CraneReleased, 0), InputAction::Crane(false));
    assert_eq!(input_step(&mut s, InputEvent::ReloadReleased, 0), InputAction::ReloadSettings);
    assert_eq!(input_step(&mut s, InputEvent::DigitPressed(2), 0), InputAction::SelectBlock(2));
    assert_eq!(input_step(&mut s, InputEvent::DigitPressed(9), 0), InputAction::Nothing);
    assert_eq!(digit_block_name(3), Some("bedrock3"));
    assert_eq!(digit_block_name(0), None);
}

#[test]
fn config_refuses_deep_nesting() {
    let deep = format!("a = {}1{}", "[".repeat(300), "]".repeat(300));
    assert_eq!(
        tcge::config::table_from_str(&deep).err(),
        Some("Configuration nests too deeply.".to_string())
    );
    assert!(tcge::config::is_shallow("a = [[1], [2]]"));
    assert!(tcge::config::table_from_str("a = [[1], [2]]").is_ok());
    let floats = format!("a = [{}]", vec!["1.5"; 400].join(", "));
    assert!(tcge::config::table_from_str(&floats).is_ok());
    let strings = format!("a = \"{}\"\n# {}\nb = '{}'", "[".repeat(300), "{".repeat(300), "]".repeat(300));
    assert!(tcge::config::table_from_str(&strings).is_ok());
    let dotted = format!("{} = 1", vec!["k"; 300].join("."));
    assert!(!tcge::config::is_shallow(&dotted));
    let multi = format!("a = \"\"\"\n{}\"\"\"\nb = 1", "[".repeat(300));
    assert!(tcge::config::table_from_str(&multi).is_ok());
}

#[test]
fn mesh_looks_into_neighbouring_chunks() {
    let u = define_universe(&toml::value::Table::new());
    let air = u.get_block_by_name("air").unwrap().get_default_state();
    let bedrock = u.get_block_by_name("bedrock").unwrap().get_default_state();
    let mut a = Chunk::new(share_universe(&u), 0, 0, 0);
    assert!(a.set_block_at(15, 0, 0, bedrock, 0).is_some());
    let mut b = Chunk::new(share_universe(&u), 1, 0, 0);
    assert!(b.set_block_at(0, 0, 0, bedrock, 0).is_some());
    let alone: [Option<&Chunk>; 27] = [None; 27];
    assert_eq!(a.faces_against_neighbours(&alone, air).len(), 6);
    assert_eq!(a.faces_against(air).len(), 6);
    let mut around: [Option<&Chunk>; 27] = [None; 27];
    around[4] = Some(&b);
    let faces = a.faces_against_neighbours(&around, air);
    assert_eq!(faces.len(), 5);
    assert!(faces.iter().all(|f| !matches!(f.face, Face::Xpos)));
    let far = Chunk::new(share_universe(&u), 2, 0, 0);
    around[5] = Some(&far);
    assert_eq!(a.faces_against_neighbours(&around, air).len(), 5);
}
