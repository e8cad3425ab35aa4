use segqueue::index::BLOCK_CAP;
use segqueue::{IntoIter, SegQueue};
use std::cell::Cell;
use std::rc::Rc;

fn drain(q: &mut SegQueue<usize>) -> Vec<usize> {
    let mut out = Vec::new();
    while let Some(v) = q.pop() {
        out.push(v);
    }
    out
}

#[test]
fn basic_operations() {
    let mut queue = SegQueue::new();
    assert!(queue.is_empty());
    assert_eq!(queue.len(), 0);
    assert_eq!(queue.pop(), None);

    queue.push(42);
    assert!(!queue.is_empty());
    assert_eq!(queue.len(), 1);
    assert_eq!(queue.pop(), Some(42));
    assert!(queue.is_empty());

    for i in 1..=5 {
        queue.push(i);
    }
    assert_eq!(queue.len(), 5);
    for expected in 1..=5 {
        assert_eq!(queue.pop(), Some(expected));
    }
    assert!(queue.is_empty());
}

#[test]
fn five_pushes_then_five_pops() {
    let mut queue = SegQueue::new();
    for i in 1..=5 {
        queue.push(i);
    }
    assert_eq!(queue.len(), 5);
    assert_eq!(queue.pop(), Some(1));
    assert_eq!(queue.pop(), Some(2));
    assert_eq!(queue.pop(), Some(3));
    assert_eq!(queue.pop(), Some(4));
    assert_eq!(queue.pop(), Some(5));
    assert_eq!(queue.pop(), None);
    assert_eq!(queue.len(), 0);
}

#[test]
fn capacity_stress() {
    let mut queue = SegQueue::new();
    let large_count = 1000;
    for i in 0..large_count {
        queue.push(i);
    }
    assert_eq!(queue.len(), large_count);
    for expected in 0..large_count {
        assert_eq!(queue.pop(), Some(expected));
    }
    assert!(queue.is_empty());
}

#[test]
fn fifo_order_kept() {
    let mut queue = SegQueue::new();
    let values: Vec<usize> = (0..200).map(|i| i * 7 % 101).collect();
    for &v in &values {
        queue.push(v);
    }
    assert_eq!(drain(&mut queue), values);
}

fn boundary_round_trip(n: usize) {
    let mut queue = SegQueue::new();
    for i in 0..n {
        queue.push(i);
        assert_eq!(queue.len(), i + 1);
    }
    assert_eq!(queue.len(), n);
    for i in 0..n {
        assert_eq!(queue.pop(), Some(i));
        assert_eq!(queue.len(), n - i - 1);
    }
    assert_eq!(queue.pop(), None);
    assert!(queue.is_empty());
}

#[test]
fn block_boundary_one_block() {
    boundary_round_trip(BLOCK_CAP);
}

#[test]
fn block_boundary_one_past() {
    boundary_round_trip(BLOCK_CAP + 1);
}

#[test]
fn block_boundary_two_blocks_and_one() {
    boundary_round_trip(2 * BLOCK_CAP + 1);
}

#[test]
fn block_boundary_interleaved() {
    // Keep the queue short while the cursors cross many block boundaries.
    let mut queue = SegQueue::new();
    let mut next_out = 0;
    for i in 0..500 {
        queue.push(i);
        if i % 3 == 2 {
            assert_eq!(queue.pop(), Some(next_out));
            next_out += 1;
            assert_eq!(queue.pop(), Some(next_out));
            next_out += 1;
        }
        assert_eq!(queue.len(), i + 1 - next_out);
    }
    while let Some(v) = queue.pop() {
        assert_eq!(v, next_out);
        next_out += 1;
    }
    assert_eq!(next_out, 500);
}

#[test]
fn empty_iff_pop_none() {
    let mut queue = SegQueue::new();
    assert!(queue.is_empty());
    assert_eq!(queue.pop(), None);
    for i in 0..40 {
        queue.push(i);
    }
    for _ in 0..40 {
        assert!(!queue.is_empty());
        assert!(queue.pop().is_some());
    }
    assert!(queue.is_empty());
    assert_eq!(queue.pop(), None);
    assert!(queue.is_empty());
}

#[test]
fn conservation_mixed_run() {
    let mut queue = SegQueue::new();
    let mut pushed = 0usize;
    let mut popped = 0usize;
    for i in 0..1000usize {
        if i % 5 == 1 || i % 7 == 3 {
            if queue.pop().is_some() {
                popped += 1;
            }
        } else {
            queue.push(i);
            pushed += 1;
        }
    }
    assert_eq!(pushed, popped + queue.len());
}

#[test]
fn into_iter_takes_in_order() {
    let mut queue = SegQueue::new();
    for i in 0..70 {
        queue.push(i);
    }
    assert_eq!(queue.pop(), Some(0));
    let mut it: IntoIter<usize> = queue.into_iter();
    for expected in 1..70 {
        assert_eq!(it.next(), Some(expected));
    }
    assert_eq!(it.next(), None);
    assert_eq!(it.next(), None);
}

#[test]
fn default_is_empty() {
    let mut queue: SegQueue<String> = SegQueue::default();
    assert!(queue.is_empty());
    assert_eq!(queue.len(), 0);
    assert_eq!(queue.pop(), None);
}

#[test]
fn heap_values_round_trip() {
    let mut queue = SegQueue::new();
    for i in 0..100 {
        queue.push(format!("item {}", i));
    }
    for i in 0..100 {
        assert_eq!(queue.pop(), Some(format!("item {}", i)));
    }
}

struct DropCounter {
    drops: Rc<Cell<usize>>,
    _payload: String,
}

impl Drop for DropCounter {
    fn drop(&mut self) {
        self.drops.set(self.drops.get() + 1);
    }
}

#[test]
fn drop_releases_every_value_once() {
    let drops = Rc::new(Cell::new(0));
    {
        let mut queue = SegQueue::new();
        for i in 0..100 {
            queue.push(DropCounter { drops: drops.clone(), _payload: format!("value {}", i) });
        }
        // Take a few, leaving the head inside a later block.
        for _ in 0..40 {
            drop(queue.pop());
        }
        assert_eq!(drops.get(), 40);
    }
    assert_eq!(drops.get(), 100);
}

#[test]
fn drop_iterator_releases_rest() {
    let drops = Rc::new(Cell::new(0));
    {
        let mut queue = SegQueue::new();
        for i in 0..65 {
            queue.push(DropCounter { drops: drops.clone(), _payload: format!("value {}", i) });
        }
        let mut it = queue.into_iter();
        drop(it.next());
        assert_eq!(drops.get(), 1);
    }
    assert_eq!(drops.get(), 65);
}

/// A fixed pseudo-random schedule: which of `n` actors moves next.
struct Schedule(u64);

impl Schedule {
    fn pick(&mut self, n: usize) -> usize {
        self.0 = self.0.wrapping_mul(6364136223846793005).wrapping_add(1442695040888963407);
        ((self.0 >> 33) % n as u64) as usize
    }
}

#[test]
fn interleaved_producers() {
    // Four producers with disjoint ranges, their pushes interleaved.
    let mut queue = SegQueue::new();
    let items_per_producer = 1000;
    let mut next = [0usize; 4];
    let mut sched = Schedule(7);
    let mut done = 0;
    while done < 4 * items_per_producer {
        let p = sched.pick(4);
        if next[p] < items_per_producer {
            queue.push(p * items_per_producer + next[p]);
            next[p] += 1;
            done += 1;
        }
    }
    assert_eq!(queue.len(), 4000);
    let values = drain(&mut queue);
    assert_eq!(values.len(), 4000);
    for p in 0..4 {
        let mine: Vec<usize> = values.iter().copied().filter(|v| v / items_per_producer == p).collect();
        let expected: Vec<usize> = (p * items_per_producer..(p + 1) * items_per_producer).collect();
        assert_eq!(mine, expected);
    }
    let mut sorted = values;
    sorted.sort();
    assert_eq!(sorted, (0..4000).collect::<Vec<usize>>());
}

#[test]
fn interleaved_consumers() {
    let mut queue = SegQueue::new();
    let total_items = 4000;
    for i in 0..total_items {
        queue.push(i);
    }
    let mut consumed = [0usize; 4];
    let mut sched = Schedule(11);
    loop {
        let c = sched.pick(4);
        match queue.pop() {
            Some(_) => consumed[c] += 1,
            None => break,
        }
    }
    assert_eq!(consumed.iter().sum::<usize>(), total_items);
    assert!(queue.is_empty());
}

#[test]
fn interleaved_no_loss_or_duplication() {
    // Producers and consumers in one interleaving; what the consumers took
    // plus what is left is every pushed value exactly once.
    let mut queue = SegQueue::new();
    let producers = 4;
    let per_producer = 500;
    let mut next = vec![0usize; producers];
    let mut taken: Vec<Vec<(usize, usize)>> = vec![Vec::new(); 3];
    let mut sched = Schedule(3);
    let mut pushed = 0;
    let mut steps = 0;
    while pushed < producers * per_producer || steps < 3000 {
        steps += 1;
        let actor = sched.pick(producers + 3);
        if actor < producers {
            if next[actor] < per_producer {
                queue.push((actor, next[actor]));
                next[actor] += 1;
                pushed += 1;
            }
        } else if let Some(v) = queue.pop() {
            taken[actor - producers].push(v);
        }
    }
    let remaining = queue.len();
    let mut all = Vec::new();
    for got in &taken {
        for p in 0..producers {
            let mine: Vec<usize> = got.iter().filter(|v| v.0 == p).map(|v| v.1).collect();
            assert!(mine.windows(2).all(|w| w[0] < w[1]));
        }
        all.extend(got.iter().copied());
    }
    assert_eq!(all.len() + remaining, producers * per_producer);
    while let Some(v) = queue.pop() {
        all.push(v);
    }
    all.sort();
    let mut expected = Vec::new();
    for p in 0..producers {
        for i in 0..per_producer {
            expected.push((p, i));
        }
    }
    assert_eq!(all, expected);
}
