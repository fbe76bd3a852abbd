use xorstream::key::parse_hex_key;
use xorstream::stream::StreamProcessor;
use xorstream::transform::xor_encrypt;

#[test]
fn involution_restores_the_original() {
    let original: Vec<u8> = vec![0, 1, 2, 3, 250, 251, 252, 253, 254, 255];
    let key: Vec<u8> = vec![0x1a, 0x2b, 0x3c];
    let mut data = original.clone();
    xor_encrypt(&mut data, &key);
    assert_ne!(data, original);
    xor_encrypt(&mut data, &key);
    assert_eq!(data, original);
}

#[test]
fn empty_key_is_identity() {
    let original: Vec<u8> = vec![7, 8, 9, 0, 255];
    let key: Vec<u8> = Vec::new();
    let mut data = original.clone();
    xor_encrypt(&mut data, &key);
    assert_eq!(data, original);
}

#[test]
fn key_repeats_with_its_period() {
    let data_in: Vec<u8> = vec![10, 20, 30, 40, 50, 60, 70];
    let key: Vec<u8> = vec![1, 2, 3];
    let mut data = data_in.clone();
    xor_encrypt(&mut data, &key);
    for i in 0..data_in.len() {
        assert_eq!(data[i], data_in[i] ^ key[i % key.len()]);
    }
}

#[test]
fn end_to_end_with_key_ff() {
    let key = parse_hex_key("ff").unwrap();
    assert_eq!(key, vec![0xff]);

    let mut processor = StreamProcessor::new(key.clone(), 3);
    let mut chunk: Vec<u8> = vec![0x00, 0x01, 0xff];
    processor.process_chunk(&mut chunk);
    assert_eq!(chunk, vec![0xff, 0xfe, 0x00]);
    assert_eq!(processor.processed, 3);

    // Running the tool again on its own output restores the input.
    let mut again = StreamProcessor::new(key, 3);
    again.process_chunk(&mut chunk);
    assert_eq!(chunk, vec![0x00, 0x01, 0xff]);
}

#[test]
fn chunked_stream_equals_whole_transform() {
    // A size that is a multiple neither of the chunk size nor of the key
    // length: the last, partial chunk must come out as if the file had been
    // transformed in one piece.
    let whole: Vec<u8> = (0u8..=49).collect();
    let key: Vec<u8> = vec![0xa5, 0x5a, 0x33];

    let mut expected = whole.clone();
    xor_encrypt(&mut expected, &key);

    let mut processor = StreamProcessor::new(key, whole.len() as u64);
    let mut out: Vec<u8> = Vec::new();
    for chunk_bytes in whole.chunks(8) {
        let mut chunk = chunk_bytes.to_vec();
        processor.process_chunk(&mut chunk);
        out.extend_from_slice(&chunk);
    }
    assert_eq!(out, expected);
    assert_eq!(processor.processed, whole.len() as u64);
}

#[test]
fn empty_file_streams_to_empty_output() {
    let mut processor = StreamProcessor::new(vec![0xff], 0);
    let mut chunk: Vec<u8> = Vec::new();
    processor.process_chunk(&mut chunk);
    assert!(chunk.is_empty());
    assert_eq!(processor.processed, 0);
}
