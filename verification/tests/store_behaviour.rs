use cutoff_list::Index;
use index_list::IndexList;

struct Lcg(u64);

impl Lcg {
    fn next(&mut self) -> usize {
        self.0 = self.0.wrapping_mul(6364136223846793005).wrapping_add(1442695040888963407);
        (self.0 >> 33) as usize
    }
}

/// Holds the list against the sequence of handles and numbers that it is
/// expected to hold, through every reading function the library relies on.
fn agree(list: &IndexList<usize>, model: &[(Index, usize)], stale: &[Index]) {
    assert_eq!(list.len(), model.len());
    assert_eq!(list.is_empty(), model.is_empty());
    match model.first() {
        Some(&(h, _)) => assert_eq!(list.first_index(), h),
        None => assert!(list.first_index().is_none()),
    }
    match model.last() {
        Some(&(h, _)) => assert_eq!(list.last_index(), h),
        None => assert!(list.last_index().is_none()),
    }
    for (p, &(h, v)) in model.iter().enumerate() {
        assert!(h.is_some());
        assert_eq!(list.get(h), Some(&v));
        if p + 1 < model.len() {
            assert_eq!(list.next_index(h), model[p + 1].0);
        } else {
            assert!(list.next_index(h).is_none());
        }
        if p > 0 {
            assert_eq!(list.prev_index(h), model[p - 1].0);
        } else {
            assert!(list.prev_index(h).is_none());
        }
        for &(other, _) in &model[p + 1..] {
            assert_ne!(h, other);
        }
    }
    for &h in stale {
        if model.iter().all(|&(live, _)| live != h) {
            assert_eq!(list.get(h), None);
        }
    }
    assert_eq!(list.get(Index::new()), None);
    assert_eq!(list.get(Index::from(1_000_000usize)), None);
}

#[test]
fn the_store_behaves_as_the_library_takes_it_to() {
    for seed in 0..30u64 {
        let mut rng = Lcg(seed);
        let mut list: IndexList<usize> = IndexList::new();
        let mut model: Vec<(Index, usize)> = Vec::new();
        let mut stale: Vec<Index> = Vec::new();
        agree(&list, &model, &stale);
        for step in 0..300usize {
            match rng.next() % 5 {
                0 => {
                    let h = list.insert_first(step);
                    assert!(h.is_some());
                    assert!(model.iter().all(|&(live, _)| live != h));
                    model.insert(0, (h, step));
                }
                1 => {
                    let h = list.insert_last(step);
                    assert!(h.is_some());
                    assert!(model.iter().all(|&(live, _)| live != h));
                    model.push((h, step));
                }
                2 => {
                    if !model.is_empty() {
                        let at = rng.next() % model.len();
                        let (h, v) = model.remove(at);
                        assert_eq!(list.remove(h), Some(v));
                        stale.push(h);
                    }
                }
                3 => {
                    if !model.is_empty() {
                        let at = rng.next() % model.len();
                        let entry = model.remove(at);
                        assert!(list.shift_index_to_front(entry.0));
                        model.insert(0, entry);
                    }
                }
                _ => {
                    if let Some(&h) = stale.last() {
                        if model.iter().all(|&(live, _)| live != h) {
                            assert!(!list.shift_index_to_front(h));
                        }
                    }
                    assert!(!list.shift_index_to_front(Index::new()));
                }
            }
            agree(&list, &model, &stale);
        }
    }
}

#[test]
fn the_empty_handle_is_one_value() {
    let a = Index::new();
    let b = Index::default();
    assert!(a.is_none());
    assert!(!a.is_some());
    assert_eq!(a, b);
    let mut list: IndexList<usize> = IndexList::new();
    let h = list.insert_last(1);
    assert_ne!(h, a);
    assert_eq!(list.remove(h), Some(1));
    assert_eq!(list.first_index(), a);
    assert_eq!(list.last_index(), a);
}
