use lua::{pack_bytecode, unpack_bytecode, BytecodeError};

#[test]
fn unpacking_a_packed_file_gives_its_content() {
    let content: Vec<u8> = (0..200u32).map(|i| (i % 7) as u8).collect();
    let file = pack_bytecode(&content);
    assert_ne!(file, content);
    assert_eq!(&file[..2], &[0x1f, 0x8b]);
    assert_eq!(unpack_bytecode(&file), Ok(content));
}

#[test]
fn an_empty_content_round_trips() {
    let file = pack_bytecode(&[]);
    assert_eq!(unpack_bytecode(&file), Ok(Vec::new()));
}

#[test]
fn bytes_that_are_not_gzip_are_corrupt() {
    assert_eq!(unpack_bytecode(b"not a gzip stream"), Err(BytecodeError::Corrupt));
}
