use imgforge::error::ImgError;
use imgforge::img::filesystem::{calc_block_size, BlockManager, MAX_BLOCK};

#[test]
fn test_block_manager_sequential() {
    let mut bm = BlockManager::new(512, 5);
    assert_eq!(bm.allocate().unwrap(), 5);
    assert_eq!(bm.allocate().unwrap(), 6);
    assert_eq!(bm.allocate().unwrap(), 7);
}

#[test]
fn block_manager_keeps_size_and_advances() {
    let mut bm = BlockManager::new(4096, 0);
    assert_eq!(bm.block_size(), 4096);
    assert_eq!(bm.current_block(), 0);
    bm.allocate().unwrap();
    assert_eq!(bm.current_block(), 1);
    assert_eq!(bm.block_size(), 4096);
}

#[test]
fn block_manager_last_block_then_overflow() {
    let mut bm = BlockManager::new(512, MAX_BLOCK);
    assert_eq!(bm.allocate().unwrap(), 0xFFFE);
    match bm.allocate() {
        Err(ImgError::BlockOverflow(msg)) => {
            assert_eq!(msg, "Block overflow: 65535 > max 65534. Use larger block size.");
        }
        _ => panic!("expected a block overflow"),
    }
    assert_eq!(bm.current_block(), 0xFFFF);
}

#[test]
fn test_calc_block_size_small() {
    let bs = calc_block_size(1000, 3);
    assert_eq!(bs, 1024);
}

#[test]
fn test_calc_block_size_large() {
    // 50 MB of data should need a larger block size
    let bs = calc_block_size(50_000_000, 50);
    assert!(bs > 512);
}

#[test]
fn calc_block_size_doubles_until_blocks_fit() {
    assert_eq!(calc_block_size(50_000_000, 50), 1024);
    assert_eq!(calc_block_size(100_000_000, 1), 2048);
    assert_eq!(calc_block_size(1_000_000_000, 1), 16384);
}
