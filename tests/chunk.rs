use lox::chunk::{Chunk, Chunkable, OpCode};
use lox::memory::grow_capacity;

fn init_chunk() -> Chunk {
    let mut chunk = Chunk::init();
    chunk.write(5);
    chunk
}

#[test]
fn test_chunk_init() {
    let chunk = Chunk::init();
    assert!(chunk.code.is_empty());
    assert_eq!(chunk.capacity, 0);
}

#[test]
fn test_chunk_write_value() {
    let chunk: Chunk = init_chunk();
    assert_eq!(chunk.code[0], 5);
}

#[test]
fn test_chunk_write_count() {
    let chunk = init_chunk();
    assert_eq!(chunk.count, 1);
}

#[test]
fn test_chunk_write_capacity() {
    let chunk = init_chunk();
    assert_eq!(chunk.capacity, 8);
}

#[test]
fn test_chunk_free() {
    let mut chunk = init_chunk();
    chunk.free();
    assert!(chunk.code.is_empty());
}

#[test]
fn chunk_grows_past_first_capacity() {
    let mut chunk = Chunk::init();
    for b in 0u8..9 {
        chunk.write(b);
    }
    assert_eq!(chunk.count, 9);
    assert_eq!(chunk.capacity, 16);
    assert_eq!(&chunk.code[..9], &[0u8, 1, 2, 3, 4, 5, 6, 7, 8][..]);
}

#[test]
fn grow_capacity_starts_at_eight_then_doubles() {
    assert_eq!(grow_capacity(0), 8);
    assert_eq!(grow_capacity(7), 8);
    assert_eq!(grow_capacity(8), 16);
    assert_eq!(grow_capacity(100), 200);
}

#[test]
fn opcode_byte_round_trip() {
    let byte: u8 = OpCode::OpReturn.into();
    assert_eq!(byte, 0);
    assert_eq!(OpCode::from(0u8), OpCode::OpReturn);
    assert_eq!(OpCode::from(7u8), OpCode::Unknown);
    let unknown: u8 = OpCode::Unknown.into();
    assert_eq!(unknown, 100);
}

#[test]
fn write_opcode_into_chunk() {
    let mut chunk = Chunk::init();
    chunk.write(OpCode::OpReturn.into());
    assert_eq!(chunk.code[0], 0);
    assert_eq!(chunk.count, 1);
}
