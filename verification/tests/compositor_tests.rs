use nexaos::drivers::compositor::config::NUMA_NO_NODE;
use nexaos::drivers::compositor::state::{
    average_stripes, compose, cpu_debug_info, init, is_initialized, stats, ComposePlan,
    CompositorState, CpuDebugInfo,
};
use nexaos::drivers::compositor::types::CompositionLayer;
use nexaos::drivers::compositor::workers::{fill_worker, fill_worker_copy, scroll_worker_safe, worker_compose};

#[test]
fn worker_takes_every_stripe() {
    let mut st = CompositorState::new(4);
    init(&mut st, 2, true, &[0, 1]);
    assert!(is_initialized(&st));
    // 200 rows over 2 workers: stripes of 200 / 16 = 12 rows, 17 of them.
    assert!(matches!(
        compose(&mut st, 200),
        ComposePlan::Striped { stripe_height: 12, total_stripes: 17 }
    ));
    let mut dst = vec![7u8; 64];
    let layers: Vec<CompositionLayer> = Vec::new();
    let buffers: Vec<Vec<u8>> = Vec::new();
    let done = worker_compose(&mut st, 1, &mut dst, 0, 4, 200, &layers, &buffers, 0, 12);
    assert_eq!(done, 17);
    assert_eq!(dst, vec![7u8; 64]);
    // Nothing is left for a second worker.
    assert_eq!(worker_compose(&mut st, 0, &mut dst, 0, 4, 200, &layers, &buffers, 0, 12), 0);
    let cpus = cpu_debug_info(&st, 3);
    assert_eq!(
        cpus,
        vec![
            CpuDebugInfo { stripes: 0, numa_assigned: true },
            CpuDebugInfo { stripes: 17, numa_assigned: true },
            CpuDebugInfo { stripes: 0, numa_assigned: false },
        ]
    );
    assert_eq!(average_stripes(&cpus, 3), Some(5));
    assert_eq!(average_stripes(&cpus, 1), None);
    assert_eq!(stats(&st).last_stripes, 17);
    let _ = NUMA_NO_NODE;
}

#[test]
fn fill_worker_fills_claimed_rows() {
    // 3 rows of 2 pixels, 4 bytes each, pitch 8.
    let mut buf = vec![0u8; 24];
    let mut next = 1usize;
    let done = fill_worker(&mut buf, 8, 2, 4, 0x0403_0201, &mut next, 3);
    assert_eq!(done, 2);
    assert_eq!(next, 3);
    assert_eq!(&buf[0..8], &[0u8; 8]);
    assert_eq!(&buf[8..16], &[1, 2, 3, 4, 1, 2, 3, 4]);
    assert_eq!(&buf[16..24], &[1, 2, 3, 4, 1, 2, 3, 4]);
}

#[test]
fn fill_copy_repeats_template_row() {
    let mut buf: Vec<u8> = (0u8..16).collect();
    let mut next = 0usize;
    // Rows of 4 bytes; row 0 is the template, rows from 1 on get its bytes 1..3.
    let done = fill_worker_copy(&mut buf, 4, 2, 1, 1, 0, 1, &mut next, 4);
    assert_eq!(done, 3);
    assert_eq!(next, 4);
    assert_eq!(buf, vec![0, 1, 2, 3, 4, 1, 2, 7, 8, 1, 2, 11, 12, 1, 2, 15]);
}

#[test]
fn scroll_worker_moves_rows_up() {
    let mut buf: Vec<u8> = (0u8..12).collect();
    let mut next = 0usize;
    // Rows of 3 bytes, moved up by one row over their first 2 bytes.
    let done = scroll_worker_safe(&mut buf, 3, 2, 1, &mut next, 3);
    assert_eq!(done, 3);
    assert_eq!(buf, vec![3, 4, 2, 6, 7, 5, 9, 10, 8, 9, 10, 11]);
}

#[test]
fn full_screen_compose_uses_sixteen_row_stripes() {
    let mut st = CompositorState::new(4);
    init(&mut st, 4, false, &[]);
    assert!(matches!(
        compose(&mut st, 1440),
        ComposePlan::Striped { stripe_height: 16, total_stripes: 90 }
    ));
    let mut small = CompositorState::new(4);
    init(&mut small, 4, false, &[]);
    assert!(matches!(compose(&mut small, 7), ComposePlan::Single));
    // 100 rows on 4 workers: 100 / 32 = 3, raised to 8 rows a stripe.
    assert!(matches!(
        compose(&mut small, 100),
        ComposePlan::Striped { stripe_height: 8, total_stripes: 13 }
    ));
}
