use signum_plotter::backend::fill;
use signum_plotter::buffer::PageAlignedByteBuffer;
use signum_plotter::error::PlotError;
use signum_plotter::layout::NONCE_SIZE;
use signum_plotter::parse::{check_selectors, parse_decimal, parse_gpu_selector, parse_memory, GpuSelector};
use signum_plotter::partition::{share_total, NonceRange};
use signum_plotter::pipeline::{Action, Pipeline};
use signum_plotter::task::{plan_run, PlotterTask};

fn task(nonces: u64, mem: u64, cpu: u8, gpus: Vec<GpuSelector>) -> PlotterTask {
    PlotterTask {
        numeric_id: 1234,
        start_nonce: 0,
        nonces,
        output_path: String::from("."),
        mem,
        cpu_threads: cpu,
        gpus,
        direct_io: false,
        async_io: true,
        quiet: true,
        benchmark: false,
        zcb: false,
    }
}

#[test]
fn fill_is_deterministic() {
    let mut a = vec![0u8; 2 * NONCE_SIZE];
    let mut b = vec![7u8; 2 * NONCE_SIZE];
    fill(1234, NonceRange { start: 5, end: 7 }, &mut a);
    fill(1234, NonceRange { start: 5, end: 7 }, &mut b);
    assert_eq!(a, b);
    assert!(a.iter().any(|x| *x != 0));
    // another identity or nonce gives other bytes
    let mut c = vec![0u8; 2 * NONCE_SIZE];
    fill(1235, NonceRange { start: 5, end: 7 }, &mut c);
    assert_ne!(a, c);
    assert_ne!(a[..NONCE_SIZE], a[NONCE_SIZE..]);
}

#[test]
fn fill_does_not_depend_on_split() {
    let mut whole = vec![0u8; 3 * NONCE_SIZE];
    fill(42, NonceRange { start: 10, end: 13 }, &mut whole);
    let mut one = vec![0u8; NONCE_SIZE];
    fill(42, NonceRange { start: 11, end: 12 }, &mut one);
    assert_eq!(whole[NONCE_SIZE..2 * NONCE_SIZE], one[..]);
    let mut none: Vec<u8> = Vec::new();
    fill(42, NonceRange { start: 11, end: 11 }, &mut none);
    assert!(none.is_empty());
}

#[test]
fn memory_sizes() {
    assert_eq!(parse_memory(b"0B"), Ok(0));
    assert_eq!(parse_memory(b"0"), Ok(0));
    assert_eq!(parse_memory(b"1048576"), Ok(1048576));
    assert_eq!(parse_memory(b"2K"), Ok(2048));
    assert_eq!(parse_memory(b"512MiB"), Ok(512 * 1024 * 1024));
    assert_eq!(parse_memory(b"4GB"), Ok(4 << 30));
    assert_eq!(parse_memory(b"1TiB"), Ok(1 << 40));
    assert_eq!(parse_memory(b""), Err(PlotError::Configuration));
    assert_eq!(parse_memory(b"GiB"), Err(PlotError::Configuration));
    assert_eq!(parse_memory(b"4XB"), Err(PlotError::Configuration));
    assert_eq!(parse_memory(b"4GiBs"), Err(PlotError::Configuration));
    assert_eq!(parse_memory(b"99999999999T"), Err(PlotError::Configuration));
    assert_eq!(parse_memory(b"18446744073709551616"), Err(PlotError::Configuration));
}

#[test]
fn decimal_numbers() {
    assert_eq!(parse_decimal(b"x1234y", 1, 5), Some(1234));
    assert_eq!(parse_decimal(b"18446744073709551615", 0, 20), Some(u64::MAX));
    assert_eq!(parse_decimal(b"12a", 0, 3), None);
    assert_eq!(parse_decimal(b"12", 1, 1), None);
}

#[test]
fn gpu_selectors() {
    assert_eq!(parse_gpu_selector(b"0:1:2048"), Ok(GpuSelector { platform: 0, device: 1, cores: 2048 }));
    assert_eq!(parse_gpu_selector(b"0:1"), Err(PlotError::Configuration));
    assert_eq!(parse_gpu_selector(b"0:1:2:3"), Err(PlotError::Configuration));
    assert_eq!(parse_gpu_selector(b"a:1:2"), Err(PlotError::Configuration));
    assert_eq!(parse_gpu_selector(b"0:1:4294967296"), Err(PlotError::Configuration));
    let gpus = vec![GpuSelector { platform: 1, device: 0, cores: 8 }];
    assert_eq!(check_selectors(&gpus, &vec![2, 1]), Ok(()));
    assert_eq!(check_selectors(&gpus, &vec![2, 0]), Err(PlotError::Configuration));
    assert_eq!(check_selectors(&gpus, &vec![2]), Err(PlotError::Configuration));
}

#[test]
fn run_plan_resolves_flags_once() {
    let p = plan_run(&task(8, 8 * NONCE_SIZE as u64, 2, vec![]), 4096).unwrap();
    assert_eq!(p.chunk_nonces, 4);
    assert_eq!(p.chunks, 2);
    assert!(p.overlapped && !p.aligned && p.writes);
    assert_eq!(p.shares, vec![2]);

    let gpu = GpuSelector { platform: 0, device: 0, cores: 6 };
    let p = plan_run(&task(10, 8 * NONCE_SIZE as u64, 0, vec![gpu]), 4096).unwrap();
    assert_eq!(p.shares, vec![0, 6]);
    assert_eq!(p.chunks, 3);
    assert_eq!(share_total(&p.shares), 6);

    assert_eq!(plan_run(&task(8, 0, 0, vec![]), 4096).err(), Some(PlotError::Configuration));
    let mut t = task(100, 0, 1, vec![]);
    t.direct_io = true;
    assert_eq!(plan_run(&t, 4096).err(), Some(PlotError::Configuration));
}

#[test]
fn benchmark_plan_runs_without_writes() {
    let mut t = task(8, 8 * NONCE_SIZE as u64, 1, vec![]);
    t.benchmark = true;
    let plan = plan_run(&t, 4096).unwrap();
    assert!(!plan.writes);
    let mut p = Pipeline::new(plan.chunks, plan.overlapped, !plan.writes);
    let mut hashed = 0;
    loop {
        match p.next_action() {
            Action::Hash { .. } => {
                hashed += 1;
                p.hash_done();
            }
            Action::Done => break,
            other => panic!("unexpected {:?}", other),
        }
    }
    assert_eq!(hashed, 2);
    assert_eq!(p.written_chunks(), 2);
}

#[test]
fn fallible_buffer() {
    let b = PageAlignedByteBuffer::try_new(4096).ok().unwrap();
    assert_eq!(b.len(), 4096);
    assert!(b.get_buffer().iter().all(|x| *x == 0));
    assert_eq!(PageAlignedByteBuffer::try_new(usize::MAX).err(), Some(PlotError::OutOfMemory));
}
