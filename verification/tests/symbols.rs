use rolldown::symbol_box::SymbolBox;
use rolldown::union_find::UnionFind;

#[test]
fn should_work() {
    let value1: u32 = 0;
    let value2: u32 = 1;

    let mut union_rel = UnionFind::new();

    union_rel.union(value1, value2);

    let value2_res = union_rel.find(value2);
    assert_eq!(value2_res, Some(1));
    let value1_res = union_rel.find(value1);
    assert_eq!(value1_res, value2_res);

    let value3: u32 = 2;
    union_rel.union(value1, value3);

    let value4: u32 = 3;
    union_rel.union(value4, value1);

    assert_eq!(union_rel.find(value1), union_rel.find(value3));
    assert_eq!(union_rel.find(value2), union_rel.find(value4));
    assert_eq!(union_rel.find(value3), union_rel.find(value4));
    assert_eq!(union_rel.find(value1), union_rel.find(value4));
}

#[test]
fn a_value_takes_part_only_once_it_was_united() {
    let mut u = UnionFind::new();
    assert_eq!(u.find(7u32), None);
    assert_eq!(u.find_index(7u32), None);
    assert!(!u.equiv(7u32, 7u32));
    u.union(7u32, 9u32);
    assert!(u.equiv(7u32, 9u32));
    assert!(!u.equiv(7u32, 8u32));
    assert_eq!(u.find(8u32), None);
    // Every index can take part, the largest too.
    u.union(u32::MAX, 1u32);
    assert_eq!(u.find(1u32), Some(1));
    assert_eq!(u.find(u32::MAX), Some(1));
}

#[test]
fn fresh_marks_stand_alone() {
    let mut sb = SymbolBox::new();
    assert_eq!(sb.mark_count(), 1);
    let a = sb.new_mark();
    let b = sb.new_mark();
    assert_eq!((a, b), (1, 2));
    assert_eq!(sb.find_root(a), a);
    assert_eq!(sb.find_root(b), b);
    assert!(!sb.equiv(a, b));
    assert_eq!(sb.find_root(99), 99);
}

#[test]
fn find_root_is_idempotent_and_union_joins() {
    let mut sb = SymbolBox::new();
    let marks: Vec<u32> = (0..6).map(|_| sb.new_mark()).collect();
    sb.union(marks[0], marks[1]);
    sb.union(marks[2], marks[3]);
    assert!(sb.equiv(marks[0], marks[1]));
    assert!(!sb.equiv(marks[1], marks[2]));
    sb.union(marks[1], marks[3]);
    for m in &marks[0..4] {
        let r = sb.find_root(*m);
        assert_eq!(sb.find_root(r), r);
        assert_eq!(r, sb.find_root(marks[0]));
    }
    assert!(!sb.equiv(marks[4], marks[0]));
    assert!(!sb.equiv(marks[4], marks[5]));
}

#[test]
fn union_with_a_mark_never_handed_out_does_nothing() {
    let mut sb = SymbolBox::new();
    let a = sb.new_mark();
    sb.union(a, 40);
    assert_eq!(sb.find_root(a), a);
    assert_eq!(sb.find_root(40), 40);
    assert_eq!(sb.mark_count(), 2);
}

#[test]
fn union_of_equal_ranks_keeps_the_second_root() {
    let mut sb = SymbolBox::new();
    let a = sb.new_mark();
    let b = sb.new_mark();
    let c = sb.new_mark();
    sb.union(a, b);
    assert_eq!(sb.find_root(a), b);
    // The taller tree keeps its root whichever side it stands on.
    sb.union(b, c);
    assert_eq!(sb.find_root(c), b);
    sb.union(a, a);
    assert_eq!(sb.find_root(a), b);
}

#[test]
fn searching_with_compression_changes_no_class() {
    let mut sb = SymbolBox::new();
    let m: Vec<u32> = (0..8).map(|_| sb.new_mark()).collect();
    // A chain: 0 under 1, then that tree under 3, and so on.
    sb.union(m[0], m[1]);
    sb.union(m[2], m[3]);
    sb.union(m[1], m[3]);
    sb.union(m[4], m[5]);
    sb.union(m[6], m[7]);
    sb.union(m[5], m[7]);
    sb.union(m[3], m[7]);
    let roots: Vec<u32> = (0..10).map(|x| sb.find_root(x)).collect();
    for x in 0..10u32 {
        assert_eq!(sb.find_root_compress(x), roots[x as usize]);
    }
    let after: Vec<u32> = (0..10).map(|x| sb.find_root(x)).collect();
    assert_eq!(after, roots);
    assert_eq!(sb.mark_count(), 9);
    assert_eq!(sb.find_root_compress(77), 77);
}

#[test]
fn the_second_value_stands_for_the_united_class() {
    let mut u = UnionFind::new();
    u.union(0u32, 1u32);
    assert_eq!(u.find_index(0u32), Some(1));
    assert_eq!(u.find_index(1u32), Some(1));
    u.union(1u32, 4u32);
    assert_eq!(u.find_index(0u32), Some(4));
    assert_eq!(u.find_index(1u32), Some(4));
    assert_eq!(u.find_index(4u32), Some(4));
    // The values between were never united: they take no part.
    assert_eq!(u.find_index(2u32), None);
    assert_eq!(u.find_index(3u32), None);
}

#[test]
fn uniting_what_is_united_keeps_what_stands_for_it() {
    let mut u = UnionFind::new();
    u.union(0u32, 1u32);
    u.union(0u32, 1u32);
    assert_eq!(u.find(0u32), Some(1));
    u.union(1u32, 0u32);
    assert_eq!(u.find(0u32), Some(1));
    assert_eq!(u.find(1u32), Some(1));
    u.union(1u32, 1u32);
    assert_eq!(u.find(1u32), Some(1));
    // What stands for a class stands for itself.
    let r = u.find(0u32).unwrap();
    assert_eq!(u.find(r), Some(r));
}

#[test]
fn a_value_united_with_itself_takes_part_alone() {
    let mut u = UnionFind::new();
    u.union(3u32, 3u32);
    assert_eq!(u.find_index(3u32), Some(3));
    assert!(u.equiv(3u32, 3u32));
    assert!(!u.equiv(3u32, 2u32));
    assert_eq!(u.find_index(2u32), None);
}
