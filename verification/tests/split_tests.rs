use txt_sectumsempra::ChunkError;
use txt_sectumsempra::Chunker;
use txt_sectumsempra::cleanup::CleanupGuard;
use txt_sectumsempra::plan::plan_chunks;

const MIB: usize = 1048576;

fn make_data(len: usize) -> Vec<u8> {
    let pattern = b"0123456789";
    let mut data: Vec<u8> = Vec::with_capacity(len);
    while data.len() < len {
        let remaining = len - data.len();
        if remaining >= pattern.len() {
            data.extend_from_slice(pattern);
        } else {
            data.extend_from_slice(&pattern[..remaining]);
        }
    }
    data
}

fn to_stored(chunks: &[Vec<u8>]) -> Vec<Option<Vec<u8>>> {
    chunks.iter().map(|c| Some(c.clone())).collect()
}

fn mb_to_bytes(size_mb: f64) -> i64 {
    (size_mb * 1024.0 * 1024.0) as i64
}

#[test]
fn test_basic_split_and_validate() {
    let data = make_data(10 * MIB);

    let chunks = Chunker::split_file(&data, mb_to_bytes(2.0)).unwrap();
    assert_eq!(chunks.len(), 5);
    assert!(Chunker::validate(&data, &to_stored(&chunks)).unwrap());
}

#[test]
fn test_chunk_size_exact() {
    let data = make_data(5 * MIB);

    let chunk_size_mb = 1.0;
    let chunks = Chunker::split_file(&data, mb_to_bytes(chunk_size_mb)).unwrap();

    for chunk in chunks.iter().take(chunks.len() - 1) {
        assert_eq!(chunk.len(), (chunk_size_mb * 1024.0 * 1024.0) as usize);
    }
}

#[test]
fn test_empty_file() {
    let data: Vec<u8> = Vec::new();

    let result = Chunker::split_file(&data, mb_to_bytes(1.0));
    assert!(result.is_err());
    assert!(result.unwrap_err().message().contains("Empty file"));
}

#[test]
fn test_invalid_chunk_size() {
    let data = make_data(MIB);
    assert!(Chunker::split_file(&data, mb_to_bytes(0.0)).is_err());
    assert!(Chunker::split_file(&data, mb_to_bytes(-1.0)).is_err());

    // Chunk size larger than the file: a single chunk.
    let chunks = Chunker::split_file(&data, mb_to_bytes(2.0)).unwrap();
    assert_eq!(chunks.len(), 1);
    assert!(Chunker::validate(&data, &to_stored(&chunks)).unwrap());
}

#[test]
fn test_invalid_chunk_size_messages() {
    let data = make_data(10);
    for size in [0i64, -1048576] {
        match Chunker::split_file(&data, size) {
            Err(ChunkError::InvalidInput(m)) => {
                assert_eq!(m, "Chunk size must be greater than 0");
            }
            _ => panic!("a non-positive chunk size must be rejected"),
        }
    }
}

#[test]
fn test_missing_chunks_validation() {
    let data = make_data(2 * MIB);

    let chunks = Chunker::split_file(&data, mb_to_bytes(1.0)).unwrap();
    let mut stored = to_stored(&chunks);
    stored[0] = None;

    let result = Chunker::validate(&data, &stored);
    assert!(result.is_err());
    assert!(result.unwrap_err().message().contains("Missing chunk file"));

    let result = Chunker::validate(&data, &Vec::new());
    assert!(result.is_err());
    assert!(result.unwrap_err().message().contains("No chunks provided"));
}

#[test]
fn test_ten_mib_scenario() {
    let data = make_data(10 * MIB);
    let chunks = Chunker::split_file(&data, mb_to_bytes(2.0)).unwrap();
    assert_eq!(chunks.len(), 5);
    for chunk in &chunks {
        assert_eq!(chunk.len(), 2097152);
    }
    assert!(Chunker::validate(&data, &to_stored(&chunks)).unwrap());
}

#[test]
fn test_five_mib_scenario() {
    let data = make_data(5 * MIB);
    let chunks = Chunker::split_file(&data, mb_to_bytes(2.0)).unwrap();
    assert_eq!(chunks.len(), 3);
    assert_eq!(chunks[0].len(), 2097152);
    assert_eq!(chunks[1].len(), 2097152);
    assert_eq!(chunks[2].len(), 1048576);
    assert!(Chunker::validate(&data, &to_stored(&chunks)).unwrap());
}

#[test]
fn test_one_mib_scenario() {
    let data = make_data(MIB);
    let chunks = Chunker::split_file(&data, mb_to_bytes(2.0)).unwrap();
    assert_eq!(chunks.len(), 1);
    assert_eq!(chunks[0], data);
    assert!(Chunker::validate(&data, &to_stored(&chunks)).unwrap());
}

#[test]
fn test_round_trip_concatenation() {
    let data = make_data(3 * MIB + 123);
    let chunks = Chunker::split_file(&data, 1000000).unwrap();
    assert_eq!(chunks.len(), 4);
    let mut joined: Vec<u8> = Vec::new();
    for chunk in &chunks {
        joined.extend_from_slice(chunk);
    }
    assert_eq!(joined, data);
}

#[test]
fn test_chunk_count_and_sizes_small() {
    let data = make_data(10);
    let chunks = Chunker::split_file(&data, 3).unwrap();
    assert_eq!(chunks.len(), 4);
    assert_eq!(chunks[0].len(), 3);
    assert_eq!(chunks[1].len(), 3);
    assert_eq!(chunks[2].len(), 3);
    assert_eq!(chunks[3].len(), 1);
}

#[test]
fn test_altered_chunk_fails_validation() {
    let data = make_data(MIB + 17);
    let chunks = Chunker::split_file(&data, 500000).unwrap();
    let mut stored = to_stored(&chunks);
    let altered = stored[1].as_mut().unwrap();
    altered[0] = altered[0].wrapping_add(1);
    assert_eq!(Chunker::validate(&data, &stored).unwrap(), false);
}

#[test]
fn test_plan_chunks_formula() {
    let plan = plan_chunks((10 * MIB) as u64, (2 * MIB) as i64).unwrap();
    assert_eq!(plan.chunk_size_bytes, 2097152);
    assert_eq!(plan.chunk_count, 5);
    assert_eq!(plan.last_chunk_bytes, 2097152);

    let plan = plan_chunks((4 * MIB + 1) as u64, (2 * MIB) as i64).unwrap();
    assert_eq!(plan.chunk_count, 3);
    assert_eq!(plan.last_chunk_bytes, 1);

    assert!(plan_chunks(0, (1 * MIB) as i64).is_err());
    assert!(plan_chunks(100, 0).is_err());
    assert!(plan_chunks(100, -5).is_err());
}

#[test]
fn test_cleanup_after_failed_split() {
    // Five chunks were planned; the write fails while creating the third.
    let mut disk: Vec<String> = vec!["out".to_string()];
    let mut guard = CleanupGuard::new("out".to_string());
    for i in 0..3 {
        let path = format!("out/part-{}", i);
        disk.push(path.clone());
        guard.record(path);
    }
    let targets = guard.cleanup_targets();
    assert_eq!(targets.len(), 4);
    assert_eq!(targets.last().unwrap(), "out");
    for target in &targets {
        disk.retain(|entry| entry != target);
    }
    assert!(disk.is_empty());
}

#[test]
fn test_error_messages() {
    let io = ChunkError::Io("boom".to_string());
    assert_eq!(io.message(), "IO error: boom");
    let invalid = ChunkError::InvalidInput("Empty file");
    assert_eq!(invalid.message(), "Invalid input: Empty file");
}
