use sim_core::window::Window;

// Brute-force recount over every timestamp ever added: how many lie within
// the window of length `w` ending at `end`.
fn brute_force(added: &[u64], end: u64, w: u64) -> usize {
    added.iter().filter(|ts| end <= **ts + w).count()
}

#[test]
fn window_counts_match_brute_force() {
    let w: u64 = 10;
    let mut win = Window::new(w);
    let adds: Vec<u64> = vec![0, 5, 10, 10, 20, 35, 36, 50];
    let mut seen: Vec<u64> = Vec::new();
    for t in adds {
        seen.push(t);
        let count = win.add(t);
        assert_eq!(count, brute_force(&seen, t, w));
    }
    for q in [50u64, 55, 60, 61, 100] {
        let count = win.count(q);
        assert_eq!(count, brute_force(&seen, q, w));
    }
}

#[test]
fn window_boundary_is_inclusive() {
    let mut win = Window::new(10);
    win.add(0);
    // 10 - 0 == window size: still counted.
    assert_eq!(win.count(10), 1);
    // 11 - 0 just exceeds it: evicted.
    assert_eq!(win.count(11), 0);
}

#[test]
fn window_empty_counts_zero() {
    let mut win = Window::new(5);
    assert_eq!(win.count(0), 0);
    assert_eq!(win.count(100), 0);
}

#[test]
fn window_zero_length_keeps_same_instant() {
    let mut win = Window::new(0);
    assert_eq!(win.add(7), 1);
    assert_eq!(win.add(7), 2);
    assert_eq!(win.count(8), 0);
}
