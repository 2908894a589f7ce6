use cutoff_list::cutoffs::is_sorted;
use cutoff_list::{CutoffList, Index};

fn handles<T>(list: &CutoffList<T>) -> Vec<Index> {
    let mut out = Vec::new();
    let mut idx = list.first_index();
    while idx.is_some() {
        out.push(idx);
        idx = list.next_index(idx);
    }
    out
}

fn three_cutoffs() -> CutoffList<char> {
    CutoffList::new(vec![0, 0, 2])
}

#[test]
fn new_list_is_empty_with_empty_followers() {
    let list = three_cutoffs();
    assert!(list.is_empty());
    assert_eq!(list.len(), 0);
    assert!(list.first_index().is_none());
    for q in 0..3 {
        assert!(list.following_ind(q).is_none());
        assert_eq!(list.following_ind(q), Index::new());
    }
}

#[test]
fn first_insert_last_lands_on_both_zero_cutoffs() {
    let mut list = three_cutoffs();
    let a = list.insert_last('a');
    assert!(a.is_some());
    assert_eq!(handles(&list), vec![a]);
    assert_eq!(list.preceding_cutoffs(a), Some(2));
    assert_eq!(list.following_ind(0), a);
    assert_eq!(list.following_ind(1), a);
    assert_eq!(list.following_ind(2), Index::new());
}

#[test]
fn second_insert_last_is_before_the_cutoff_at_two() {
    let mut list = three_cutoffs();
    let a = list.insert_last('a');
    let b = list.insert_last('b');
    assert_eq!(handles(&list), vec![a, b]);
    assert_eq!(list.preceding_cutoffs(b), Some(2));
    assert_eq!(list.preceding_cutoffs(a), Some(2));
    assert!(list.following_ind(2).is_none());
    assert_eq!(list.following_ind(0), a);
    assert_eq!(list.following_ind(1), a);
}

#[test]
fn third_insert_last_reaches_the_cutoff_at_two() {
    let mut list = three_cutoffs();
    let a = list.insert_last('a');
    let b = list.insert_last('b');
    let c = list.insert_last('c');
    assert_eq!(handles(&list), vec![a, b, c]);
    assert_eq!(list.preceding_cutoffs(c), Some(3));
    assert_eq!(list.following_ind(2), c);
    assert_eq!(list.len(), 3);
}

#[test]
fn removing_the_first_moves_followers_to_the_second() {
    let mut list = three_cutoffs();
    let a = list.insert_last('a');
    let b = list.insert_last('b');
    let c = list.insert_last('c');
    assert_eq!(list.remove(a), Some('a'));
    assert_eq!(handles(&list), vec![b, c]);
    assert_eq!(list.following_ind(0), b);
    assert_eq!(list.following_ind(1), b);
    assert_eq!(list.preceding_cutoffs(b), Some(2));
    assert_eq!(list.preceding_cutoffs(c), Some(2));
    assert!(list.following_ind(2).is_none());
    assert_eq!(list.preceding_cutoffs(a), None);
    assert_eq!(list.get(a), None);
}

#[test]
fn shifting_the_last_to_the_front_swaps_two_elements() {
    let mut list = three_cutoffs();
    let a = list.insert_last('a');
    let b = list.insert_last('b');
    let c = list.insert_last('c');
    list.remove(a);
    list.shift_to_front(c);
    assert_eq!(handles(&list), vec![c, b]);
    assert_eq!(list.preceding_cutoffs(c), Some(2));
    assert_eq!(list.preceding_cutoffs(b), Some(2));
    assert!(list.following_ind(2).is_none());
    assert_eq!(list.following_ind(0), c);
    assert_eq!(list.following_ind(1), c);
    assert_eq!(list.get(c), Some(&'c'));
    assert_eq!(list.get(b), Some(&'b'));
}

#[test]
fn insert_first_pushes_followers_back() {
    let mut list: CutoffList<u32> = CutoffList::new(vec![0, 1, 1, 3]);
    let a = list.insert_first(10);
    assert_eq!(list.preceding_cutoffs(a), Some(1));
    assert_eq!(list.following_ind(0), a);
    assert!(list.following_ind(1).is_none());
    let b = list.insert_first(20);
    // sequence is [b, a]
    assert_eq!(handles(&list), vec![b, a]);
    assert_eq!(list.preceding_cutoffs(b), Some(1));
    assert_eq!(list.preceding_cutoffs(a), Some(3));
    assert_eq!(list.following_ind(0), b);
    assert_eq!(list.following_ind(1), a);
    assert_eq!(list.following_ind(2), a);
    assert!(list.following_ind(3).is_none());
    let c = list.insert_first(30);
    // sequence is [c, b, a]
    assert_eq!(handles(&list), vec![c, b, a]);
    assert_eq!(list.preceding_cutoffs(c), Some(1));
    assert_eq!(list.preceding_cutoffs(b), Some(3));
    assert_eq!(list.preceding_cutoffs(a), Some(3));
    assert_eq!(list.following_ind(1), b);
    assert_eq!(list.following_ind(2), b);
    assert!(list.following_ind(3).is_none());
    let d = list.insert_first(40);
    // sequence is [d, c, b, a]
    assert_eq!(handles(&list), vec![d, c, b, a]);
    assert_eq!(list.preceding_cutoffs(a), Some(4));
    assert_eq!(list.following_ind(3), a);
    assert_eq!(list.following_ind(1), c);
    assert_eq!(list.get(d), Some(&40));
    assert_eq!(list.get(a), Some(&10));
}

#[test]
fn following_ind_out_of_range_is_empty() {
    let mut list = three_cutoffs();
    list.insert_last('a');
    assert!(list.following_ind(3).is_none());
    assert!(list.following_ind(usize::MAX).is_none());
}

#[test]
fn next_index_ends_with_the_empty_handle() {
    let mut list = three_cutoffs();
    let a = list.insert_last('a');
    let b = list.insert_last('b');
    assert_eq!(list.first_index(), a);
    assert_eq!(list.next_index(a), b);
    assert!(list.next_index(b).is_none());
}

#[test]
fn lookups_with_unknown_handles_are_empty() {
    let mut list = three_cutoffs();
    let a = list.insert_last('a');
    let b = list.insert_last('b');
    assert_eq!(list.remove(a), Some('a'));
    // a stale handle, the empty handle, and one that was never given out
    let never = Index::from(1000usize);
    for h in [a, Index::new(), never] {
        assert_eq!(list.get(h), None);
        assert_eq!(list.preceding_cutoffs(h), None);
        assert!(list.next_index(h).is_none());
        assert_eq!(list.remove(h), None);
        list.shift_to_front(h);
        assert_eq!(handles(&list), vec![b]);
        assert_eq!(list.len(), 1);
        assert_eq!(list.following_ind(0), b);
        assert_eq!(list.preceding_cutoffs(b), Some(2));
    }
}

#[test]
fn shift_to_front_of_first_changes_nothing() {
    let mut list = three_cutoffs();
    let a = list.insert_last('a');
    let b = list.insert_last('b');
    let c = list.insert_last('c');
    list.shift_to_front(a);
    assert_eq!(handles(&list), vec![a, b, c]);
    assert_eq!(list.preceding_cutoffs(a), Some(2));
    assert_eq!(list.preceding_cutoffs(b), Some(2));
    assert_eq!(list.preceding_cutoffs(c), Some(3));
    assert_eq!(list.following_ind(0), a);
    assert_eq!(list.following_ind(1), a);
    assert_eq!(list.following_ind(2), c);
    assert_eq!(list.get(a), Some(&'a'));
}

#[test]
fn shift_to_front_from_the_middle() {
    let mut list: CutoffList<u8> = CutoffList::new(vec![0, 1, 2, 2, 5]);
    let a = list.insert_last(1);
    let b = list.insert_last(2);
    let c = list.insert_last(3);
    let d = list.insert_last(4);
    list.shift_to_front(c);
    assert_eq!(handles(&list), vec![c, a, b, d]);
    assert_eq!(list.preceding_cutoffs(c), Some(1));
    assert_eq!(list.preceding_cutoffs(a), Some(2));
    assert_eq!(list.preceding_cutoffs(b), Some(4));
    assert_eq!(list.preceding_cutoffs(d), Some(4));
    assert_eq!(list.following_ind(0), c);
    assert_eq!(list.following_ind(1), a);
    assert_eq!(list.following_ind(2), b);
    assert_eq!(list.following_ind(3), b);
    assert!(list.following_ind(4).is_none());
    assert_eq!(list.get(c), Some(&3));
}

#[test]
fn insert_then_remove_gives_the_value_back() {
    let mut list: CutoffList<String> = CutoffList::new(vec![1, 4]);
    list.insert_last(String::from("kept"));
    let before = list.len();
    let h = list.insert_first(String::from("first"));
    assert_eq!(list.remove(h), Some(String::from("first")));
    assert_eq!(list.len(), before);
    let h = list.insert_last(String::from("last"));
    assert_eq!(list.remove(h), Some(String::from("last")));
    assert_eq!(list.len(), before);
}

#[test]
fn removed_slots_are_used_again() {
    let mut list: CutoffList<u64> = CutoffList::new(vec![0, 1]);
    let a = list.insert_last(1);
    let b = list.insert_last(2);
    assert_eq!(list.remove(a), Some(1));
    let c = list.insert_last(3);
    let d = list.insert_first(4);
    assert_eq!(handles(&list), vec![d, b, c]);
    assert_eq!(list.get(b), Some(&2));
    assert_eq!(list.get(c), Some(&3));
    assert_eq!(list.get(d), Some(&4));
    assert_eq!(list.preceding_cutoffs(d), Some(1));
    assert_eq!(list.preceding_cutoffs(b), Some(2));
    assert_eq!(list.preceding_cutoffs(c), Some(2));
}

#[test]
fn no_cutoffs_at_all() {
    let mut list: CutoffList<i32> = CutoffList::new(Vec::new());
    let a = list.insert_first(1);
    let b = list.insert_last(2);
    list.shift_to_front(b);
    assert_eq!(handles(&list), vec![b, a]);
    assert_eq!(list.preceding_cutoffs(a), Some(0));
    assert!(list.following_ind(0).is_none());
    assert_eq!(list.remove(b), Some(2));
    assert_eq!(list.remove(a), Some(1));
    assert!(list.is_empty());
}

#[test]
fn is_sorted_accepts_equal_neighbours_and_rejects_a_drop() {
    assert!(is_sorted(&Vec::new()));
    assert!(is_sorted(&vec![7]));
    assert!(is_sorted(&vec![0, 0, 2, 2, 9]));
    assert!(!is_sorted(&vec![0, 3, 2]));
    assert!(!is_sorted(&vec![1, 0]));
}
