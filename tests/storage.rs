use block_storage::block::{Block, BLOCK_SIZE};
use block_storage::storage::{Error, Storage};

fn filled(byte: u8) -> Block {
    Block { data: [byte; BLOCK_SIZE] }
}

fn is_filled(block: &Block, byte: u8) -> bool {
    block.data.iter().all(|&b| b == byte)
}

#[test]
fn new_block_is_zeroed() {
    let block = Block::new();
    assert_eq!(block.data.len(), BLOCK_SIZE);
    assert!(is_filled(&block, 0));
}

#[test]
fn slice_from_bytes_splits_in_order() {
    let mut bytes = vec![0u8; 3 * BLOCK_SIZE];
    for (k, chunk) in bytes.chunks_mut(BLOCK_SIZE).enumerate() {
        for (j, b) in chunk.iter_mut().enumerate() {
            *b = (k * 7 + j) as u8;
        }
    }
    let blocks = Block::slice_from_bytes(&bytes);
    assert_eq!(blocks.len(), 3);
    for (k, block) in blocks.iter().enumerate() {
        assert_eq!(&block.data[..], &bytes[k * BLOCK_SIZE..(k + 1) * BLOCK_SIZE]);
    }
    assert_eq!(blocks[1].data[0], 7);
    assert_eq!(blocks[2].data[1], 15);
}

#[test]
fn slice_from_bytes_empty() {
    let blocks = Block::slice_from_bytes(&[]);
    assert!(blocks.is_empty());
}

#[test]
fn block_count_is_size_over_block_size() {
    assert_eq!(Storage::new(0).block_count(), 0);
    assert_eq!(Storage::new(4096).block_count(), 1);
    assert_eq!(Storage::new(8192).block_count(), 2);
    assert_eq!(Storage::new(40 * 4096).block_count(), 40);
}

#[test]
fn fresh_storage_is_zeroed() {
    let storage = Storage::new(5 * BLOCK_SIZE);
    for i in 0..5 {
        assert!(is_filled(&storage.read_block(i).unwrap(), 0));
    }
}

#[test]
fn write_then_read_round_trip() {
    let mut storage = Storage::new(3 * BLOCK_SIZE);
    let mut block = Block::new();
    block.data[0] = 0xAB;
    block.data[BLOCK_SIZE - 1] = 0xCD;
    assert!(storage.write_block(2, &block).is_ok());
    let read = storage.read_block(2).unwrap();
    assert_eq!(read.data, block.data);
    assert!(is_filled(&storage.read_block(1).unwrap(), 0));
}

#[test]
fn out_of_range_access_fails() {
    let mut storage = Storage::new(2 * BLOCK_SIZE);
    assert_eq!(storage.write_block(0, &filled(3)), Ok(()));
    assert!(matches!(storage.read_block(2), Err(Error::BlockIndexOutOfBounds)));
    assert!(matches!(storage.read_block(usize::MAX), Err(Error::BlockIndexOutOfBounds)));
    assert_eq!(storage.write_block(2, &filled(9)), Err(Error::BlockIndexOutOfBounds));
    assert!(is_filled(&storage.read_block(0).unwrap(), 3));
    assert!(is_filled(&storage.read_block(1).unwrap(), 0));
}

#[test]
fn empty_storage_rejects_every_index() {
    let mut storage = Storage::new(0);
    assert!(matches!(storage.read_block(0), Err(Error::BlockIndexOutOfBounds)));
    assert_eq!(storage.write_block(0, &filled(1)), Err(Error::BlockIndexOutOfBounds));
}

#[test]
fn two_block_scenario() {
    let mut storage = Storage::new(8192);
    assert_eq!(storage.block_count(), 2);
    assert_eq!(storage.write_block(0, &filled(1)), Ok(()));
    assert!(is_filled(&storage.read_block(0).unwrap(), 1));
    assert!(is_filled(&storage.read_block(1).unwrap(), 0));
    assert!(matches!(storage.read_block(2), Err(Error::BlockIndexOutOfBounds)));
}

#[test]
fn read_blocks_keeps_order_and_duplicates() {
    let mut storage = Storage::new(4 * BLOCK_SIZE);
    for i in 0..4 {
        storage.write_block(i, &filled(i as u8 + 10)).unwrap();
    }
    let mut blocks = storage.read_blocks(&[3, 1, 3, 0]).unwrap();
    assert_eq!(blocks.len(), 4);
    assert!(is_filled(&blocks[0], 13));
    assert!(is_filled(&blocks[1], 11));
    assert!(is_filled(&blocks[2], 13));
    assert!(is_filled(&blocks[3], 10));
    blocks[0].data[0] = 99;
    assert_eq!(blocks[2].data[0], 13);
    assert_eq!(storage.read_block(3).unwrap().data[0], 13);
}

#[test]
fn read_blocks_empty_list() {
    let storage = Storage::new(BLOCK_SIZE);
    assert!(storage.read_blocks(&[]).unwrap().is_empty());
}

#[test]
fn read_blocks_fails_as_a_whole() {
    let storage = Storage::new(2 * BLOCK_SIZE);
    assert!(matches!(storage.read_blocks(&[0, 2, 1]), Err(Error::BlockIndexOutOfBounds)));
}

#[test]
fn write_blocks_applies_in_order() {
    let mut storage = Storage::new(3 * BLOCK_SIZE);
    let srcs = [filled(1), filled(2), filled(3)];
    assert_eq!(storage.write_blocks(&[2, 0, 2], &srcs), Ok(()));
    assert!(is_filled(&storage.read_block(0).unwrap(), 2));
    assert!(is_filled(&storage.read_block(1).unwrap(), 0));
    assert!(is_filled(&storage.read_block(2).unwrap(), 3));
}

#[test]
fn write_blocks_partial_failure_scenario() {
    let mut storage = Storage::new(4 * BLOCK_SIZE);
    let b0 = filled(0x11);
    let b1 = filled(0x22);
    assert_eq!(storage.write_blocks(&[0, 5], &[b0, b1]), Err(Error::BlockIndexOutOfBounds));
    assert!(is_filled(&storage.read_block(0).unwrap(), 0x11));
    for i in 1..4 {
        assert!(is_filled(&storage.read_block(i).unwrap(), 0));
    }
}

#[test]
fn write_blocks_leaves_later_indices_unchanged() {
    let mut storage = Storage::new(4 * BLOCK_SIZE);
    let srcs = [filled(1), filled(2), filled(3), filled(4)];
    let result = storage.write_blocks(&[1, 2, 7, 3], &srcs);
    assert_eq!(result, Err(Error::BlockIndexOutOfBounds));
    assert!(is_filled(&storage.read_block(0).unwrap(), 0));
    assert!(is_filled(&storage.read_block(1).unwrap(), 1));
    assert!(is_filled(&storage.read_block(2).unwrap(), 2));
    assert!(is_filled(&storage.read_block(3).unwrap(), 0));
}
