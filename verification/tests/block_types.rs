use tcge::tcge_blocks::block::simple::SimpleBlock;
use tcge::tcge_blocks::Block;
use tcge::tcge_blocks::BlockCoord;
use tcge::tcge_blocks::BlockId;
use tcge::tcge_blocks::BlockLayers;
use tcge::tcge_blocks::BlockState;
use tcge::tcge_blocks::Blocks;
use tcge::tcge_blocks::Face;

#[test]
fn block_coord_moves_along_axes() {
    let c = BlockCoord::new(1, 2, 3);
    assert_eq!(c.up(2), BlockCoord::new(1, 4, 3));
    assert_eq!(c.down(1), BlockCoord::new(1, 1, 3));
    assert_eq!(c.left(1), BlockCoord::new(0, 2, 3));
    assert_eq!(c.right(5), BlockCoord::new(6, 2, 3));
    assert_eq!(c.forward(1), BlockCoord::new(1, 2, 2));
    assert_eq!(c.backward(1), BlockCoord::new(1, 2, 4));
}

#[test]
fn block_coord_add_sub_negate_set() {
    let c = BlockCoord::new(1, -2, 3);
    let moved = c.add(10, 20, 30);
    assert_eq!(moved, BlockCoord::new(11, 18, 33));
    assert_eq!(moved.sub(10, 20, 30), c);
    assert_eq!(c.negate(), BlockCoord::new(-1, 2, -3));
    let mut d = BlockCoord::default();
    assert_eq!(d, BlockCoord::new(0, 0, 0));
    d.set(7, 8, 9);
    assert_eq!(d, BlockCoord::new(7, 8, 9));
}

#[test]
fn sub_undoes_add_on_values() {
    let c = BlockCoord::new(-5, 0, 12);
    assert_eq!(c.add(3, -4, 5).sub(3, -4, 5), c);
}

#[test]
fn face_numbers() {
    assert_eq!(Face::PositiveX.id(), 1);
    assert_eq!(Face::NegativeX.id(), 2);
    assert_eq!(Face::PositiveY.id(), 3);
    assert_eq!(Face::NegativeY.id(), 4);
    assert_eq!(Face::PositiveZ.id(), 5);
    assert_eq!(Face::NegativeZ.id(), 6);
    assert_eq!(Face::EveryDir.id(), 7);
    assert_eq!(Face::NegativeZ.uid(), 6usize);
}

#[test]
fn face_numbers_are_distinct() {
    let faces = [
        Face::PositiveX,
        Face::NegativeX,
        Face::PositiveY,
        Face::NegativeY,
        Face::PositiveZ,
        Face::NegativeZ,
        Face::EveryDir,
    ];
    for a in faces.iter() {
        for b in faces.iter() {
            assert_eq!(a.id() == b.id(), a == b);
        }
    }
}

#[test]
fn block_id_truncates_to_16_bits() {
    assert_eq!(BlockId::new(5).raw(), 5);
    assert_eq!(BlockId::new(65537).raw(), 1);
    assert_eq!(BlockId::new(65537), BlockId::new(1));
}

#[test]
fn block_layers_default_is_solid() {
    let l = BlockLayers::default();
    assert_eq!(format!("{:?}", l), "BlockLayers { solid: true, fluid: false, cover: false }");
}

#[test]
fn simple_block_has_one_state() {
    let b = SimpleBlock::new(BlockId::new(9), "stone", BlockLayers::default());
    assert_eq!(b.get_id(), BlockId::new(9));
    assert_eq!(b.get_name(), "stone");
    let s = b.get_default_state();
    assert_eq!(s.id, BlockId::new(9));
    assert!(s == BlockState { id: BlockId::new(9), data: () });
    assert!(!(s == BlockState { id: BlockId::new(8), data: () }));
}

#[test]
fn blocks_registry_has_builtins() {
    let blocks = Blocks::new();
    assert_eq!(blocks.get_blocks().len(), 6);
    let air = blocks.get_block_by_id(BlockId::new(0)).unwrap();
    assert_eq!(air.get_name(), "air");
    assert_eq!(blocks.get_block_by_id_unchecked(BlockId::new(5)).get_name(), "adm5");
    assert!(blocks.get_block_by_id(BlockId::new(6)).is_none());
    let adm3 = blocks.get_block_by_name("adm3").unwrap();
    assert_eq!(adm3.get_id(), BlockId::new(3));
    assert_eq!(blocks.get_block_by_name_unchecked("adm").get_id(), BlockId::new(1));
    assert!(blocks.get_block_by_name("stone").is_none());
}

#[test]
fn blocks_registry_registers_new_type() {
    let mut blocks = Blocks::new();
    blocks.register_block(SimpleBlock::new(BlockId::new(42), "stone", BlockLayers::default()));
    let stone = blocks.get_block_by_id(BlockId::new(42)).unwrap();
    assert_eq!(stone.get_name(), "stone");
    assert_eq!(stone.get_default_state().id, BlockId::new(42));
    assert_eq!(blocks.get_block_by_name("stone").unwrap().get_id(), BlockId::new(42));
    let shared = blocks.to_ref();
    assert_eq!(shared.get_blocks().len(), 7);
}
