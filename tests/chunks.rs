use stream_combinators::chunks::{ChunkStep, Chunks};
use stream_combinators::Upstream;

/// Polls the buffer once as a caller would: feeds upstream reports from
/// `source` until a step other than `PollAgain` comes. Returns the step and
/// how many reports were taken from `source`.
fn poll_once(c: &mut Chunks<i32>, source: &mut Vec<Upstream<i32>>) -> (ChunkStep<Vec<i32>>, usize) {
    let mut taken = 0;
    loop {
        let ev = if c.upstream_live() {
            taken += 1;
            if source.is_empty() {
                Upstream::Exhausted
            } else {
                source.remove(0)
            }
        } else {
            Upstream::Exhausted
        };
        match c.poll_next(ev) {
            ChunkStep::PollAgain => continue,
            other => return (other, taken),
        }
    }
}

/// Collects every batch, polling again after each suspension.
fn collect(cap: usize, source: Vec<Upstream<i32>>) -> Vec<Vec<i32>> {
    let mut c = Chunks::new(cap);
    let mut source = source;
    let mut out = Vec::new();
    loop {
        match poll_once(&mut c, &mut source).0 {
            ChunkStep::Batch(b) => out.push(b),
            ChunkStep::Exhausted => return out,
            ChunkStep::Pending => {}
            ChunkStep::PollAgain => unreachable!(),
        }
    }
}

fn items(v: &[i32]) -> Vec<Upstream<i32>> {
    v.iter().map(|&x| Upstream::Item(x)).collect()
}

#[test]
fn capacity_three_over_five_items() {
    assert_eq!(collect(3, items(&[1, 2, 3, 4, 5])), vec![vec![1, 2, 3], vec![4, 5]]);
}

#[test]
fn capacity_two_over_empty_upstream() {
    let mut c: Chunks<i32> = Chunks::new(2);
    let mut source = Vec::new();
    let (step, _) = poll_once(&mut c, &mut source);
    assert!(matches!(step, ChunkStep::Exhausted));
    assert!(c.is_terminated());
}

#[test]
fn exact_multiple_has_no_short_batch() {
    assert_eq!(collect(2, items(&[1, 2, 3, 4])), vec![vec![1, 2], vec![3, 4]]);
}

#[test]
fn capacity_one_gives_singletons() {
    assert_eq!(collect(1, items(&[7, 8, 9])), vec![vec![7], vec![8], vec![9]]);
}

#[test]
fn batch_counts_and_sizes() {
    for cap in 1..6usize {
        for len in 0..13i32 {
            let src: Vec<i32> = (0..len).collect();
            let out = collect(cap, items(&src));
            let l = len as usize;
            assert_eq!(out.len(), (l + cap - 1) / cap);
            for (i, b) in out.iter().enumerate() {
                if i < l / cap {
                    assert_eq!(b.len(), cap);
                } else {
                    assert_eq!(b.len(), l % cap);
                }
            }
            let flat: Vec<i32> = out.concat();
            assert_eq!(flat, src);
        }
    }
}

#[test]
fn suspensions_do_not_change_batches() {
    let src = vec![
        Upstream::Pending,
        Upstream::Item(1),
        Upstream::Pending,
        Upstream::Pending,
        Upstream::Item(2),
        Upstream::Item(3),
        Upstream::Pending,
        Upstream::Item(4),
        Upstream::Pending,
        Upstream::Item(5),
        Upstream::Pending,
    ];
    assert_eq!(collect(3, src), vec![vec![1, 2, 3], vec![4, 5]]);
}

#[test]
fn suspension_keeps_buffer() {
    let mut c = Chunks::new(3);
    assert!(matches!(c.poll_next(Upstream::Item(1)), ChunkStep::PollAgain));
    assert!(matches!(c.poll_next(Upstream::Pending), ChunkStep::Pending));
    assert!(matches!(c.poll_next(Upstream::Item(2)), ChunkStep::PollAgain));
    match c.poll_next(Upstream::Item(3)) {
        ChunkStep::Batch(b) => assert_eq!(b, vec![1, 2, 3]),
        _ => panic!("expected a full batch"),
    }
}

#[test]
fn exhaustion_is_fused() {
    let mut c = Chunks::new(2);
    let mut source = items(&[1]);
    let (first, _) = poll_once(&mut c, &mut source);
    match first {
        ChunkStep::Batch(b) => assert_eq!(b, vec![1]),
        _ => panic!("expected the short batch"),
    }
    assert!(!c.upstream_live());
    for _ in 0..3 {
        let mut more = items(&[5, 6]);
        let (step, taken) = poll_once(&mut c, &mut more);
        assert!(matches!(step, ChunkStep::Exhausted));
        assert_eq!(taken, 0);
        assert_eq!(more.len(), 2);
    }
    // an item handed in after exhaustion is ignored
    assert!(matches!(c.poll_next(Upstream::Item(9)), ChunkStep::Exhausted));
    assert!(c.is_terminated());
}

#[test]
fn not_terminated_before_exhaustion() {
    let mut c = Chunks::new(2);
    assert!(!c.is_terminated());
    assert!(matches!(c.poll_next(Upstream::Item(1)), ChunkStep::PollAgain));
    assert!(!c.is_terminated());
}

#[test]
fn size_hint_adds_pending_batch() {
    let mut c = Chunks::new(3);
    assert_eq!(c.size_hint((4, Some(10))), (4, Some(10)));
    assert!(matches!(c.poll_next(Upstream::Item(1)), ChunkStep::PollAgain));
    assert_eq!(c.size_hint((4, Some(10))), (5, Some(11)));
    assert_eq!(c.size_hint((2, None)), (3, None));
    assert_eq!(c.size_hint((usize::MAX, Some(usize::MAX))), (usize::MAX, None));
}

#[test]
fn size_hint_after_exhaustion_ignores_upstream() {
    let mut c: Chunks<i32> = Chunks::new(3);
    assert!(matches!(c.poll_next(Upstream::Exhausted), ChunkStep::Exhausted));
    assert_eq!(c.size_hint((7, Some(9))), (0, Some(0)));
}
