use file_backup_service::transfer::{append_bytes, assemble_chunks, pump_stream, split_into_chunks};

#[test]
fn chunks_are_bounded_and_cover_the_data() {
    let data: Vec<u8> = (0u8..=9).collect();
    let chunks = split_into_chunks(&data, 3);
    assert_eq!(chunks.len(), 4);
    assert_eq!(chunks[0], vec![0u8, 1, 2]);
    assert_eq!(chunks[1], vec![3u8, 4, 5]);
    assert_eq!(chunks[2], vec![6u8, 7, 8]);
    assert_eq!(chunks[3], vec![9u8]);
}

#[test]
fn stream_fidelity_across_chunk_sizes() {
    let data: Vec<u8> = (0u32..1000).map(|i| (i % 251) as u8).collect();
    for size in [1usize, 2, 3, 7, 64, 999, 1000, 5000] {
        let chunks = split_into_chunks(&data, size);
        for c in &chunks {
            assert!(!c.is_empty());
            assert!(c.len() <= size);
        }
        let rebuilt = assemble_chunks(&chunks);
        assert_eq!(rebuilt, data, "chunk size {} must not change the bytes", size);
    }
}

#[test]
fn empty_source_produces_no_chunks() {
    let chunks = split_into_chunks(&[], 8);
    assert!(chunks.is_empty());
    assert_eq!(assemble_chunks(&chunks), Vec::<u8>::new());
}

#[test]
fn append_keeps_order() {
    let mut sink = vec![1u8, 2];
    append_bytes(&mut sink, &[3, 4, 5]);
    assert_eq!(sink, vec![1u8, 2, 3, 4, 5]);
}

#[test]
fn pump_moves_every_byte_in_order() {
    let source: Vec<u8> = (0u32..300).map(|i| (i * 7 % 256) as u8).collect();
    let mut sink = vec![255u8];
    pump_stream(&source, 16, &mut sink);
    let mut expected = vec![255u8];
    expected.extend_from_slice(&source);
    assert_eq!(sink, expected);
}
