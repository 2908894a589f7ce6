use cutoff_list::{CutoffList, Index};

/// Walks the list through its public accessors and holds every element's
/// count and every cutoff's follower against a recount from scratch.
fn validate<T>(list: &CutoffList<T>, cutoffs: &[usize], expected_len: usize) {
    let mut idx = list.first_index();
    let mut pos = 0usize;
    let mut order: Vec<Index> = Vec::new();
    while idx.is_some() {
        let expected = cutoffs.partition_point(|&c| c <= pos);
        assert_eq!(list.preceding_cutoffs(idx), Some(expected));
        assert!(list.get(idx).is_some());
        order.push(idx);
        idx = list.next_index(idx);
        pos += 1;
    }
    assert_eq!(pos, list.len());
    assert_eq!(pos, expected_len);
    assert_eq!(list.is_empty(), pos == 0);
    for (q, &cutoff) in cutoffs.iter().enumerate() {
        let expected = if cutoff < order.len() { order[cutoff] } else { Index::new() };
        assert_eq!(list.following_ind(q), expected);
    }
    for i in 0..order.len() {
        for j in (i + 1)..order.len() {
            assert_ne!(order[i], order[j]);
        }
    }
}

fn get_indices<T>(list: &CutoffList<T>) -> Vec<Index> {
    let mut indices = Vec::new();
    let mut idx = list.first_index();
    while idx.is_some() {
        indices.push(idx);
        idx = list.next_index(idx);
    }
    indices
}

struct Lcg(u64);

impl Lcg {
    fn next(&mut self) -> usize {
        self.0 = self.0.wrapping_mul(6364136223846793005).wrapping_add(1442695040888963407);
        (self.0 >> 33) as usize
    }
}

fn run(seed: u64, mut cutoffs: Vec<usize>, n_ops: usize, insert_weight: usize) {
    cutoffs.sort_unstable();
    let mut rng = Lcg(seed);
    let mut list: CutoffList<u64> = CutoffList::new(cutoffs.clone());
    let mut model: Vec<u64> = Vec::new();
    let mut stamp = 0u64;
    validate(&list, &cutoffs, 0);
    for _ in 0..n_ops {
        let op = rng.next() % (insert_weight + 2);
        if op < insert_weight {
            stamp += 1;
            if rng.next() % 2 == 0 {
                let h = list.insert_first(stamp);
                model.insert(0, stamp);
                assert_eq!(list.first_index(), h);
            } else {
                let h = list.insert_last(stamp);
                model.push(stamp);
                assert_eq!(list.get(h), Some(&stamp));
            }
        } else if op == insert_weight {
            let valid = get_indices(&list);
            if !valid.is_empty() {
                let at = rng.next() % valid.len();
                list.shift_to_front(valid[at]);
                let v = model.remove(at);
                model.insert(0, v);
                assert_eq!(list.first_index(), valid[at]);
            }
        } else {
            let valid = get_indices(&list);
            if !valid.is_empty() {
                let at = rng.next() % valid.len();
                let v = model.remove(at);
                assert_eq!(list.remove(valid[at]), Some(v));
                assert_eq!(list.remove(valid[at]), None);
            }
        }
        validate(&list, &cutoffs, model.len());
        let seen: Vec<u64> = get_indices(&list).iter().map(|&h| *list.get(h).unwrap()).collect();
        assert_eq!(seen, model);
    }
}

#[test]
fn all_ops_keep_counts_and_followers_exact() {
    for seed in 0..40u64 {
        let mut rng = Lcg(seed ^ 0x9e3779b97f4a7c15);
        let n_cutoffs = rng.next() % 12;
        let cutoffs: Vec<usize> = (0..n_cutoffs).map(|_| rng.next() % 20).collect();
        run(seed, cutoffs, 250, 2);
    }
}

#[test]
fn all_ops_with_repeated_cutoffs() {
    for seed in 100..130u64 {
        let mut rng = Lcg(seed);
        let n_cutoffs = rng.next() % 40;
        let cutoffs: Vec<usize> = (0..n_cutoffs).map(|_| rng.next() % 6).collect();
        run(seed, cutoffs, 200, 2);
    }
}

#[test]
fn all_ops_on_short_lists() {
    for seed in 200..230u64 {
        let mut rng = Lcg(seed);
        let n_cutoffs = rng.next() % 8;
        let cutoffs: Vec<usize> = (0..n_cutoffs).map(|_| rng.next() % 4).collect();
        run(seed, cutoffs, 200, 1);
    }
}

#[test]
fn all_ops_with_distinct_cutoffs_up_to_150() {
    for seed in 300..310u64 {
        let mut rng = Lcg(seed);
        let mut cutoffs: Vec<usize> = (0..40).map(|_| rng.next() % 151).collect();
        cutoffs.sort_unstable();
        cutoffs.dedup();
        run(seed, cutoffs, 250, 4);
    }
}
