use bitvec::word::shl_nopanic;
use bitvec::BitVec;

#[test]
fn new_is_empty() {
    let v = BitVec::new();
    assert_eq!(v.len(), 0);
    assert_eq!(v.count_true(), 0);
}

#[test]
fn pop_on_empty_is_none() {
    let mut v = BitVec::new();
    assert_eq!(v.pop(), None);
    assert_eq!(v.len(), 0);
}

#[test]
fn push_pop_stack_discipline() {
    let pattern: Vec<bool> = vec![true, false, true, true, false, false, true];
    let mut v = BitVec::new();
    let before: usize = v.len();
    for b in &pattern {
        v.push(*b);
    }
    assert_eq!(v.len(), pattern.len());
    for b in pattern.iter().rev() {
        assert_eq!(v.pop(), Some(*b));
    }
    assert_eq!(v.len(), before);
}

#[test]
fn push_pop_across_word_boundary() {
    let mut v = BitVec::new();
    for i in 0..130usize {
        v.push(i % 3 == 0);
    }
    assert_eq!(v.len(), 130);
    for i in (0..130usize).rev() {
        assert_eq!(v.pop(), Some(i % 3 == 0));
    }
    assert_eq!(v.len(), 0);
    assert_eq!(v.pop(), None);
}

#[test]
fn set_then_get_reads_back() {
    let mut v = BitVec::new();
    for _ in 0..100usize {
        v.push(false);
    }
    v.set(0, true);
    v.set(63, true);
    v.set(64, true);
    v.set(99, true);
    assert!(v.get(0));
    assert!(v.get(63));
    assert!(v.get(64));
    assert!(v.get(99));
    v.set(63, false);
    assert!(!v.get(63));
}

#[test]
fn set_leaves_other_positions_unchanged() {
    let mut v = BitVec::new();
    for i in 0..130usize {
        v.push(i % 2 == 0);
    }
    let snapshot: Vec<bool> = (0..130usize).map(|i| v.get(i)).collect();
    v.set(65, true);
    for i in 0..130usize {
        if i == 65 {
            assert!(v.get(i));
        } else {
            assert_eq!(v.get(i), snapshot[i]);
        }
    }
}

#[test]
fn count_true_matches_brute_force() {
    for &len in &[0usize, 1, 63, 64, 65, 127, 128, 129] {
        let mut v = BitVec::new();
        for i in 0..len {
            v.push(i % 3 == 0 || i % 7 == 0);
        }
        let mut expected: usize = 0;
        for i in 0..len {
            if v.get(i) {
                expected += 1;
            }
        }
        assert_eq!(v.count_true(), expected);
    }
}

#[test]
fn count_true_ignores_stale_tail_bits() {
    let mut v = BitVec::new();
    for _ in 0..70usize {
        v.push(true);
    }
    for _ in 0..30usize {
        assert_eq!(v.pop(), Some(true));
    }
    assert_eq!(v.len(), 40);
    assert_eq!(v.count_true(), 40);
}

fn from_pattern(bits: &[bool]) -> BitVec {
    BitVec::from_bools(bits)
}

#[test]
fn and_is_idempotent() {
    let bits: Vec<bool> = (0..100usize).map(|i| i % 3 == 0).collect();
    let a = from_pattern(&bits);
    let b = from_pattern(&bits);
    let r = a.bitand(&b);
    for i in 0..100usize {
        assert_eq!(r.get(i), bits[i]);
    }
}

#[test]
fn or_with_own_negation_is_all_true() {
    let bits: Vec<bool> = (0..130usize).map(|i| i % 5 == 0).collect();
    let a = from_pattern(&bits);
    let not_a = from_pattern(&bits).not();
    let r = a.bitor(&not_a);
    assert_eq!(r.count_true(), 130);
}

#[test]
fn xor_with_itself_is_all_false() {
    let bits: Vec<bool> = (0..130usize).map(|i| i % 2 == 0).collect();
    let a = from_pattern(&bits);
    let b = from_pattern(&bits);
    let r = a.bitxor(&b);
    assert_eq!(r.count_true(), 0);
}

#[test]
fn de_morgan_holds_elementwise() {
    let xs: Vec<bool> = (0..100usize).map(|i| i % 3 == 0).collect();
    let ys: Vec<bool> = (0..100usize).map(|i| i % 4 == 0).collect();
    let lhs = from_pattern(&xs).bitand(&from_pattern(&ys)).not();
    let rhs = from_pattern(&xs).not().bitor(&from_pattern(&ys).not());
    for i in 0..100usize {
        assert_eq!(lhs.get(i), rhs.get(i));
        assert_eq!(lhs.get(i), !(xs[i] && ys[i]));
    }
    let lhs2 = from_pattern(&xs).bitor(&from_pattern(&ys)).not();
    let rhs2 = from_pattern(&xs).not().bitand(&from_pattern(&ys).not());
    for i in 0..100usize {
        assert_eq!(lhs2.get(i), rhs2.get(i));
        assert_eq!(lhs2.get(i), !(xs[i] || ys[i]));
    }
}

#[test]
fn xor_assign_computes_per_bit() {
    let xs: Vec<bool> = (0..70usize).map(|i| i % 2 == 0).collect();
    let ys: Vec<bool> = (0..70usize).map(|i| i % 3 == 0).collect();
    let mut a = from_pattern(&xs);
    let b = from_pattern(&ys);
    a.bitxor_assign(&b);
    for i in 0..70usize {
        assert_eq!(a.get(i), xs[i] != ys[i]);
    }
}

#[test]
fn and_or_assign_compute_per_bit() {
    let xs: Vec<bool> = (0..70usize).map(|i| i % 2 == 0).collect();
    let ys: Vec<bool> = (0..70usize).map(|i| i % 3 == 0).collect();
    let mut a = from_pattern(&xs);
    a.bitand_assign(&from_pattern(&ys));
    for i in 0..70usize {
        assert_eq!(a.get(i), xs[i] && ys[i]);
    }
    let mut o = from_pattern(&xs);
    o.bitor_assign(&from_pattern(&ys));
    for i in 0..70usize {
        assert_eq!(o.get(i), xs[i] || ys[i]);
    }
}

#[test]
fn from_bools_reproduces_sequence() {
    let bits: Vec<bool> = (0..129usize).map(|i| i % 7 == 0).collect();
    let v = BitVec::from_bools(&bits);
    assert_eq!(v.len(), 129);
    for i in 0..129usize {
        assert_eq!(v.get(i), bits[i]);
    }
}

#[test]
fn from_array_reproduces_sequence() {
    let v = BitVec::from_array(&[true, true, false, true]);
    assert_eq!(v.len(), 4);
    assert!(v.get(0));
    assert!(v.get(1));
    assert!(!v.get(2));
    assert!(v.get(3));
}

#[test]
fn display_empty_is_brackets() {
    let v = BitVec::new();
    assert_eq!(v.display(), "[]");
}

#[test]
fn display_three_bits() {
    let v = BitVec::from_array(&[true, false, true]);
    assert_eq!(v.display(), "[1, 0, 1]");
}

#[test]
fn display_single_bit() {
    let v = BitVec::from_array(&[false]);
    assert_eq!(v.display(), "[0]");
}

#[test]
fn iterator_yields_bits_in_order_then_stops() {
    let v = BitVec::from_array(&[true, false, true]);
    let mut it = v.into_iter();
    assert_eq!(it.next(), Some(true));
    assert_eq!(it.next(), Some(false));
    assert_eq!(it.next(), Some(true));
    assert_eq!(it.next(), None);
    assert_eq!(it.next(), None);
}

#[test]
fn resize_grows_with_zero_bits() {
    let mut v = BitVec::from_array(&[true, true, true]);
    v.resize(100);
    assert_eq!(v.len(), 100);
    for i in 0..3usize {
        assert!(v.get(i));
    }
    for i in 3..100usize {
        assert!(!v.get(i));
    }
}

#[test]
fn resize_shrink_then_grow_zero_fills() {
    let mut v = BitVec::new();
    for _ in 0..130usize {
        v.push(true);
    }
    v.resize(5);
    assert_eq!(v.len(), 5);
    v.resize(130);
    assert_eq!(v.len(), 130);
    for i in 0..5usize {
        assert!(v.get(i));
    }
    for i in 5..130usize {
        assert!(!v.get(i));
    }
    assert_eq!(v.count_true(), 5);
}

#[test]
fn resize_masks_stale_bits_left_by_pop() {
    let mut v = BitVec::new();
    for _ in 0..70usize {
        v.push(true);
    }
    for _ in 0..30usize {
        v.pop();
    }
    v.resize(50);
    for i in 0..40usize {
        assert!(v.get(i));
    }
    for i in 40..50usize {
        assert!(!v.get(i));
    }
}

#[test]
fn resize_from_empty_vector() {
    let mut v = BitVec::new();
    v.resize(10);
    assert_eq!(v.len(), 10);
    for i in 0..10usize {
        assert!(!v.get(i));
    }
    assert_eq!(v.count_true(), 0);
}

#[test]
fn resize_to_zero() {
    let mut v = BitVec::from_array(&[true, false, true]);
    v.resize(0);
    assert_eq!(v.len(), 0);
    assert_eq!(v.count_true(), 0);
    assert_eq!(v.display(), "[]");
}

#[test]
fn clone_copies_contents() {
    let bits: Vec<bool> = (0..70usize).map(|i| i % 3 == 0).collect();
    let v = BitVec::from_bools(&bits);
    let w = v.clone();
    assert_eq!(w.len(), v.len());
    for i in 0..70usize {
        assert_eq!(w.get(i), v.get(i));
    }
}

#[test]
fn shl_nopanic_discards_shifted_out_bits() {
    assert_eq!(shl_nopanic(0xff, 60), 0xf000_0000_0000_0000);
    assert_eq!(shl_nopanic(0x1, 0), 0x1);
    assert_eq!(shl_nopanic(u64::MAX, 63), 0x8000_0000_0000_0000);
}
