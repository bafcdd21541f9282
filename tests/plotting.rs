use signum_plotter::backend::fill;
use signum_plotter::buffer::PageAlignedByteBuffer;
use signum_plotter::error::PlotError;
use signum_plotter::layout::{to_nonce_major, to_scoop_major, transpose, NONCE_SIZE, SCOOP_SIZE};
use signum_plotter::partition::{split_range, NonceRange};
use signum_plotter::pipeline::{Action, Pipeline};
use signum_plotter::queue::{cpu_threads, plan_files, plot_file_name, PlotFile};
use signum_plotter::sizing::{check_write, chunk_nonces, default_chunk_nonces};
use signum_plotter::writer::{plot_in_memory, retry_write, scoop_write_offset, write_chunk, WRITE_ATTEMPTS};

/// Blocks for `nonces` nonces whose bytes tell nonce, scoop and position apart.
fn sample_blocks(nonces: usize) -> Vec<u8> {
    let mut v = Vec::with_capacity(nonces * NONCE_SIZE);
    for n in 0..nonces {
        for i in 0..NONCE_SIZE {
            let scoop = i / SCOOP_SIZE;
            v.push((n * 31 + scoop * 7 + (i % SCOOP_SIZE) * 3) as u8);
        }
    }
    v
}

#[test]
fn buffer_creation_destruction_test() {
    {
        let _test = PageAlignedByteBuffer::new(1024 * 1024);
    }
    assert!(true);
}

#[test]
fn buffer_starts_zeroed_and_takes_writes() {
    let mut b = PageAlignedByteBuffer::new(1024);
    assert_eq!(b.len(), 1024);
    assert!(b.get_buffer().iter().all(|x| *x == 0));
    assert!(b.page_size() > 0);
    b.write_at(10, &vec![1, 2, 3]);
    assert_eq!(b.read_at(9, 5), vec![0, 1, 2, 3, 0]);
    assert_eq!(b.get_buffer()[12], 3);
}

#[test]
fn buffer_repacks_in_place_and_back() {
    let data = sample_blocks(2);
    let mut b = PageAlignedByteBuffer::new(data.len());
    b.write_at(0, &data);
    b.repack_scoop_major(2);
    assert_ne!(b.get_buffer(), &data);
    // scoop 1 of nonce 0 now follows scoop 0 of nonce 1
    assert_eq!(b.read_at(2 * SCOOP_SIZE, SCOOP_SIZE), data[SCOOP_SIZE..2 * SCOOP_SIZE].to_vec());
    b.repack_nonce_major(2);
    assert_eq!(b.get_buffer(), &data);
}

#[test]
fn transpose_small_grid() {
    // 2 rows of 3 cells of 2 bytes
    let src = vec![1, 2, 3, 4, 5, 6, 7, 8, 9, 10, 11, 12];
    let t = transpose(&src, 2, 3, 2);
    assert_eq!(t, vec![1, 2, 7, 8, 3, 4, 9, 10, 5, 6, 11, 12]);
    assert_eq!(transpose(&t, 3, 2, 2), src);
}

#[test]
fn layout_round_trip_restores_buffer() {
    let data = sample_blocks(3);
    let mut buf = data.clone();
    to_scoop_major(&mut buf, 3);
    assert_eq!(buf.len(), data.len());
    for n in 0..3 {
        for s in [0usize, 1, 100, 4095] {
            let at = s * 3 * SCOOP_SIZE + n * SCOOP_SIZE;
            let from = n * NONCE_SIZE + s * SCOOP_SIZE;
            assert_eq!(buf[at..at + SCOOP_SIZE], data[from..from + SCOOP_SIZE]);
        }
    }
    to_nonce_major(&mut buf, 3);
    assert_eq!(buf, data);
}

#[test]
fn sizing_from_budget() {
    // 4 nonces per buffer, two buffers
    let budget = 8 * NONCE_SIZE as u64;
    assert_eq!(chunk_nonces(budget, true, 8, false, 0), Ok(4));
    assert_eq!(chunk_nonces(budget, false, 8, false, 0), Ok(8));
    assert_eq!(chunk_nonces(budget, false, 5, false, 0), Ok(5));
    // under one nonce per buffer
    assert_eq!(chunk_nonces(NONCE_SIZE as u64, true, 8, false, 0), Err(PlotError::Configuration));
    assert_eq!(chunk_nonces(budget, true, 0, false, 0), Err(PlotError::Configuration));
}

#[test]
fn sizing_aligned_keeps_granule() {
    let budget = 200 * NONCE_SIZE as u64;
    // 4096-byte unit: chunks of multiples of 64 nonces
    assert_eq!(chunk_nonces(budget, true, 256, true, 4096), Ok(64));
    assert_eq!(chunk_nonces(budget, false, 256, true, 4096), Ok(192));
    // nonce count off the granule, unusable units
    assert_eq!(chunk_nonces(budget, true, 100, true, 4096), Err(PlotError::Configuration));
    assert_eq!(chunk_nonces(budget, true, 256, true, 100), Err(PlotError::Configuration));
    assert_eq!(chunk_nonces(budget, true, 256, true, 0), Err(PlotError::Configuration));
    // budget too small for one granule
    assert_eq!(chunk_nonces(60 * NONCE_SIZE as u64, false, 256, true, 4096), Err(PlotError::Configuration));
}

#[test]
fn sizing_default_divides_evenly() {
    assert_eq!(chunk_nonces(0, true, 8, false, 0), Ok(8));
    assert_eq!(chunk_nonces(0, true, 3000, false, 0), Ok(1000));
    assert_eq!(default_chunk_nonces(4096, 1), 1024);
    // a prime count has no even chunk near the limit
    assert_eq!(default_chunk_nonces(2053, 1), 1024);
    assert_eq!(default_chunk_nonces(1536, 64), 768);
    assert_eq!(chunk_nonces(0, true, 4096 * 3, true, 512), Ok(1024));
}

#[test]
fn split_proportional_disjoint_cover() {
    let parts = split_range(100, 8, &vec![1, 3]).unwrap();
    assert_eq!(parts, vec![NonceRange { start: 100, end: 102 }, NonceRange { start: 102, end: 108 }]);
    let parts = split_range(0, 10, &vec![4, 0, 4, 8]).unwrap();
    assert_eq!(parts[0], NonceRange { start: 0, end: 2 });
    assert_eq!(parts[1], NonceRange { start: 2, end: 2 });
    assert_eq!(parts[2], NonceRange { start: 2, end: 5 });
    assert_eq!(parts[3], NonceRange { start: 5, end: 10 });
    let mut seen = vec![0; 10];
    for p in &parts {
        for n in p.start..p.end {
            seen[n as usize] += 1;
        }
    }
    assert!(seen.iter().all(|c| *c == 1));
    assert_eq!(split_range(0, 10, &vec![0, 0]), Err(PlotError::Configuration));
    assert_eq!(split_range(0, 10, &vec![]), Err(PlotError::Configuration));
}

#[test]
fn write_offsets_and_alignment() {
    assert_eq!(scoop_write_offset(8, 4, 0), Some(256));
    assert_eq!(scoop_write_offset(8, 4, 3), Some((3 * 8 + 4) * 64));
    assert_eq!(scoop_write_offset(u64::MAX, 0, 2), None);
    assert_eq!(check_write(4096, 8192, true, 4096), Ok(()));
    assert_eq!(check_write(256, 4096, true, 4096), Err(PlotError::Alignment));
    assert_eq!(check_write(4096, 256, true, 4096), Err(PlotError::Alignment));
    assert_eq!(check_write(256, 256, false, 4096), Ok(()));
}

#[test]
fn end_to_end_eight_nonces_in_chunks_of_four() {
    let mut data = vec![0u8; 8 * NONCE_SIZE];
    fill(1234, NonceRange { start: 0, end: 8 }, &mut data);
    let budget = 8 * NONCE_SIZE as u64;
    let chunk = chunk_nonces(budget, true, 8, false, 0).unwrap();
    assert_eq!(chunk, 4);
    assert_eq!(plot_file_name(1234, 0, 8), "1234_0_8_4096");
    let file = plot_in_memory(&data, 8, chunk as usize);
    assert_eq!(file.len(), 8 * 256 * 1024);
    for n in 0..8 {
        let mut block = vec![0u8; NONCE_SIZE];
        fill(1234, NonceRange { start: n as u64, end: n as u64 + 1 }, &mut block);
        for s in 0..4096 {
            let at = s * 8 * 64 + n * 64;
            assert_eq!(file[at..at + 64], block[s * 64..s * 64 + 64]);
        }
    }
}

#[test]
fn chunk_size_does_not_change_file() {
    let data = sample_blocks(6);
    let whole = plot_in_memory(&data, 6, 6);
    assert_eq!(plot_in_memory(&data, 6, 1), whole);
    assert_eq!(plot_in_memory(&data, 6, 4), whole);
    assert_eq!(plot_in_memory(&data, 6, 100), whole);
    let mut direct = data.clone();
    to_scoop_major(&mut direct, 6);
    assert_eq!(whole, direct);
}

#[test]
fn first_chunk_written_is_a_valid_prefix() {
    let data = sample_blocks(4);
    let full = plot_in_memory(&data, 4, 4);
    let mut file = vec![0u8; data.len()];
    let mut chunk = data[..2 * NONCE_SIZE].to_vec();
    to_scoop_major(&mut chunk, 2);
    write_chunk(&mut file, &chunk, 4, 0, 2);
    for s in 0..4096 {
        let row = s * 4 * 64;
        assert_eq!(file[row..row + 128], full[row..row + 128]);
        assert!(file[row + 128..row + 256].iter().all(|b| *b == 0));
    }
}

#[test]
fn pipeline_overlaps_hash_and_write() {
    let mut p = Pipeline::new(3, true, false);
    assert_eq!(p.next_action(), Action::Hash { chunk: 0, buffer: 0 });
    assert_eq!(p.next_action(), Action::Wait);
    assert!(p.hash_done());
    assert_eq!(p.next_action(), Action::Write { chunk: 0, buffer: 0 });
    assert_eq!(p.next_action(), Action::Hash { chunk: 1, buffer: 1 });
    assert!(p.hash_done());
    // both buffers are held: chunk 2 waits for the write of chunk 0
    assert_eq!(p.next_action(), Action::Wait);
    assert!(p.write_done());
    assert_eq!(p.next_action(), Action::Write { chunk: 1, buffer: 1 });
    assert_eq!(p.next_action(), Action::Hash { chunk: 2, buffer: 0 });
    assert!(p.write_done());
    assert!(p.hash_done());
    assert_eq!(p.next_action(), Action::Write { chunk: 2, buffer: 0 });
    assert_eq!(p.next_action(), Action::Wait);
    assert!(p.write_done());
    assert_eq!(p.next_action(), Action::Done);
    assert_eq!(p.written_chunks(), 3);
    assert!(!p.write_done());
}

#[test]
fn pipeline_single_buffer_is_sequential() {
    let mut p = Pipeline::new(2, false, false);
    assert_eq!(p.next_action(), Action::Hash { chunk: 0, buffer: 0 });
    assert!(p.hash_done());
    assert_eq!(p.next_action(), Action::Write { chunk: 0, buffer: 0 });
    assert_eq!(p.next_action(), Action::Wait);
    assert!(p.write_done());
    assert_eq!(p.next_action(), Action::Hash { chunk: 1, buffer: 0 });
}

#[test]
fn benchmark_mode_never_writes() {
    let mut p = Pipeline::new(4, true, true);
    let mut hashes = 0;
    loop {
        match p.next_action() {
            Action::Hash { .. } => {
                hashes += 1;
                assert!(p.hash_done());
            }
            Action::Write { .. } => panic!("benchmark mode wrote a chunk"),
            Action::Done => break,
            other => panic!("unexpected {:?}", other),
        }
    }
    assert_eq!(hashes, 4);
    assert_eq!(p.hashed_chunks(), 4);
}

#[test]
fn pipeline_failure_and_cancel() {
    let mut p = Pipeline::new(5, true, false);
    assert_eq!(p.next_action(), Action::Hash { chunk: 0, buffer: 0 });
    p.fail(PlotError::Backend);
    p.fail(PlotError::Write { offset: 7 });
    assert_eq!(p.next_action(), Action::Abort { error: PlotError::Backend });

    let mut p = Pipeline::new(5, true, false);
    assert_eq!(p.next_action(), Action::Hash { chunk: 0, buffer: 0 });
    p.cancel();
    assert_eq!(p.next_action(), Action::Wait);
    assert!(p.hash_done());
    assert_eq!(p.next_action(), Action::Write { chunk: 0, buffer: 0 });
    assert!(p.write_done());
    assert_eq!(p.next_action(), Action::Done);

    let mut p = Pipeline::new(1, true, false);
    p.fail(PlotError::OutOfMemory);
    assert_eq!(p.next_action(), Action::Abort { error: PlotError::OutOfMemory });
}

#[test]
fn queue_cycles_drives() {
    let files = plan_files(10, 10, 4, 2).unwrap();
    assert_eq!(
        files,
        vec![
            PlotFile { start_nonce: 10, nonces: 4, drive: 0 },
            PlotFile { start_nonce: 14, nonces: 4, drive: 1 },
            PlotFile { start_nonce: 18, nonces: 2, drive: 0 },
        ]
    );
    assert_eq!(plan_files(0, 0, 4, 1), Ok(vec![]));
    assert_eq!(plan_files(0, 8, 4, 0), Err(PlotError::Configuration));
    assert_eq!(plan_files(0, 8, 0, 1), Err(PlotError::Configuration));
    assert_eq!(plan_files(u64::MAX, 2, 4, 1), Err(PlotError::Configuration));
}

#[test]
fn file_names_and_threads() {
    assert_eq!(plot_file_name(987654321, 42, 4194304), "987654321_42_4194304_4096");
    assert_eq!(cpu_threads(0, false, false, 8), 8);
    assert_eq!(cpu_threads(32, true, false, 8), 16);
    assert_eq!(cpu_threads(200, true, false, 200), 200);
    assert_eq!(cpu_threads(6, true, false, 8), 6);
    assert_eq!(cpu_threads(0, false, true, 8), 0);
    assert_eq!(cpu_threads(4, true, true, 8), 4);
}

#[test]
fn writes_retry_only_transient_errors() {
    assert!(retry_write(1, true));
    assert!(retry_write(WRITE_ATTEMPTS - 1, true));
    assert!(!retry_write(WRITE_ATTEMPTS, true));
    assert!(!retry_write(1, false));
}

#[test]
fn planned_files_cover_each_nonce_once() {
    let files = plan_files(100, 23, 5, 3).unwrap();
    let mut seen = vec![0; 23];
    for f in &files {
        for n in f.start_nonce..f.start_nonce + f.nonces {
            seen[(n - 100) as usize] += 1;
        }
    }
    assert!(seen.iter().all(|c| *c == 1));
    assert_eq!(files.len(), 5);
    assert_eq!(files[4], PlotFile { start_nonce: 120, nonces: 3, drive: 1 });
}
