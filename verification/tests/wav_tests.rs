use gunship::wav::FormatChunk;
use gunship::wav::Wave;
use gunship::wav::WaveError;

fn chunk(id: &[u8; 4], size: u32, body: &[u8]) -> Vec<u8> {
    let mut bytes = id.to_vec();
    bytes.extend_from_slice(&size.to_le_bytes());
    bytes.extend_from_slice(body);
    bytes
}

fn format_body() -> Vec<u8> {
    let mut body = Vec::new();
    body.extend_from_slice(&1u16.to_le_bytes());
    body.extend_from_slice(&2u16.to_le_bytes());
    body.extend_from_slice(&44100u32.to_le_bytes());
    body.extend_from_slice(&176400u32.to_le_bytes());
    body.extend_from_slice(&4u16.to_le_bytes());
    body.extend_from_slice(&16u16.to_le_bytes());
    body
}

fn file(chunks: &[Vec<u8>]) -> Vec<u8> {
    let mut bytes = b"RIFF".to_vec();
    bytes.extend_from_slice(&0u32.to_le_bytes());
    bytes.extend_from_slice(b"WAVE");
    for chunk in chunks {
        bytes.extend_from_slice(chunk);
    }
    bytes
}

fn expected_format() -> FormatChunk {
    FormatChunk {
        format: 1,
        channels: 2,
        frames_per_second: 44100,
        avg_bytes_per_second: 176400,
        bytes_per_frame: 4,
    }
}

#[test]
fn decodes_format_then_data() {
    let bytes = file(&[
        chunk(b"fmt ", 16, &format_body()),
        chunk(b"data", 6, &[1, 0, 0, 1, 0xff, 0xff]),
    ]);
    let wave = Wave::from_bytes(&bytes).unwrap();
    assert_eq!(wave.format, expected_format());
    assert_eq!(wave.data.samples, vec![1, 256, 0xffff]);
}

#[test]
fn data_chunk_runs_to_the_end_of_the_file() {
    let bytes = file(&[chunk(b"data", 2, &[3, 0]), chunk(b"fmt ", 16, &format_body())]);
    // The data chunk runs to the end of the file, so the format chunk is read as samples.
    assert_eq!(Wave::from_bytes(&bytes).unwrap_err(), WaveError::DataChunkSize);
}

#[test]
fn empty_input_is_not_riff() {
    assert_eq!(Wave::from_bytes(&[]).unwrap_err(), WaveError::NotRiff);
    assert_eq!(Wave::from_bytes(b"RIFX\0\0\0\0WAVE").unwrap_err(), WaveError::NotRiff);
}

#[test]
fn wrong_form_type_is_not_wave() {
    assert_eq!(Wave::from_bytes(b"RIFF\0\0\0\0AVI ").unwrap_err(), WaveError::NotWave);
    assert_eq!(Wave::from_bytes(b"RIFF").unwrap_err(), WaveError::NotWave);
}

#[test]
fn format_chunk_of_the_wrong_size() {
    let bytes = file(&[chunk(b"fmt ", 18, &format_body())]);
    assert_eq!(Wave::from_bytes(&bytes).unwrap_err(), WaveError::FormatChunkSize);
}

#[test]
fn truncated_format_chunk() {
    let bytes = file(&[chunk(b"fmt ", 16, &format_body()[..10])]);
    assert_eq!(Wave::from_bytes(&bytes).unwrap_err(), WaveError::TruncatedFormatChunk);
}

#[test]
fn data_size_must_match_the_samples() {
    let bytes = file(&[chunk(b"fmt ", 16, &format_body()), chunk(b"data", 4, &[1, 0])]);
    assert_eq!(Wave::from_bytes(&bytes).unwrap_err(), WaveError::DataChunkSize);
}

#[test]
fn odd_trailing_byte_is_dropped() {
    let bytes = file(&[chunk(b"fmt ", 16, &format_body()), chunk(b"data", 2, &[9, 0, 7])]);
    let wave = Wave::from_bytes(&bytes).unwrap();
    assert_eq!(wave.data.samples, vec![9]);
}

#[test]
fn unknown_chunk_is_rejected() {
    let bytes = file(&[chunk(b"LIST", 4, &[0, 0, 0, 0])]);
    assert_eq!(Wave::from_bytes(&bytes).unwrap_err(), WaveError::UnknownChunk);
    let bytes = file(&[chunk(b"fmt ", 16, &format_body())]);
    // The second chunk header reads past the end as zeros, which name no chunk.
    assert_eq!(Wave::from_bytes(&bytes).unwrap_err(), WaveError::UnknownChunk);
}

#[test]
fn new_wave_and_chunks_are_empty() {
    let wave = Wave::new();
    assert_eq!(wave.format, FormatChunk::new());
    assert!(wave.data.samples.is_empty());
    assert_eq!(FormatChunk::new().frames_per_second, 0);
}
