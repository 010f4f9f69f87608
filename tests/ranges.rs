use property_ranges::ranges::{CodepointRangeMap, RangeError};

fn set(map: &mut CodepointRangeMap<String>, first: u32, last: u32, value: &str) {
    map.set(first, last, |_v: String| value.to_string()).unwrap();
}

fn add(map: &mut CodepointRangeMap<String>, first: u32, last: u32, value: &str) {
    map.set(first, last, |v: String| v + value).unwrap();
}

fn check_count(map: &CodepointRangeMap<String>, count: usize) {
    assert_eq!(map.count(), count, "expected {} ranges, it was {}", count, map.count());
}

fn check(map: &CodepointRangeMap<String>, index: usize, first: u32, last: u32, value: &str) {
    assert!(index < map.count(), "checking #{}: index out of range", index);
    let row = map.get(index);
    assert_eq!((row.first, row.last), (first, last), "checking #{}: range", index);
    assert_eq!(row.value, value, "checking #{}: value", index);
}

#[test]
fn default_is_empty() {
    let map: CodepointRangeMap<()> = Default::default();
    assert_eq!(map.count(), 0);
}

#[test]
fn invalid_range_is_rejected_without_change() {
    let mut map: CodepointRangeMap<String> = CodepointRangeMap::new();
    set(&mut map, 0, 10, "a");
    let r = map.set(20, 19, |v: String| v + "x");
    assert_eq!(r, Err(RangeError::InvalidRange));
    check_count(&map, 1);
    check(&map, 0, 0, 10, "a");
}

#[test]
fn can_insert_a_single_range() {
    let mut map = CodepointRangeMap::new();
    set(&mut map, 0, 10, "some range");
    check_count(&map, 1);
    check(&map, 0, 0, 10, "some range");

    let mut map = CodepointRangeMap::new();
    set(&mut map, 10, 20, "other range");
    check_count(&map, 1);
    check(&map, 0, 10, 20, "other range");
}

#[test]
fn can_insert_multiple_ranges() {
    let mut map = CodepointRangeMap::new();
    set(&mut map, 10, 20, "a");
    set(&mut map, 30, 40, "b");
    check_count(&map, 2);
    check(&map, 0, 10, 20, "a");
    check(&map, 1, 30, 40, "b");
}

#[test]
fn can_modify_a_range() {
    let mut map = CodepointRangeMap::new();
    set(&mut map, 10, 20, "a");
    add(&mut map, 10, 20, "b");
    check_count(&map, 1);
    check(&map, 0, 10, 20, "ab");

    let mut map = CodepointRangeMap::new();
    set(&mut map, 10, 20, "a");
    set(&mut map, 30, 40, "b");
    add(&mut map, 30, 40, "c");
    check_count(&map, 2);
    check(&map, 0, 10, 20, "a");
    check(&map, 1, 30, 40, "bc");
}

#[test]
fn set_passes_current_value_for_range() {
    let mut map = CodepointRangeMap::new();
    map.set(0, 10, |v: i32| {
        assert_eq!(v, 0);
        100
    })
    .unwrap();

    map.set(0, 10, |v: i32| {
        assert_eq!(v, 100);
        v
    })
    .unwrap();
}

#[test]
fn updates_accumulate_across_split() {
    let mut map = CodepointRangeMap::new();
    map.set(0, 5, |_v: i32| 100).unwrap();
    map.set(3, 9, |v: i32| v + 25).unwrap();
    assert_eq!(map.count(), 3);
    assert!((map.get(0).first, map.get(0).last, map.get(0).value) == (0, 2, 100));
    assert!((map.get(1).first, map.get(1).last, map.get(1).value) == (3, 5, 125));
    assert!((map.get(2).first, map.get(2).last, map.get(2).value) == (6, 9, 25));
}

#[test]
fn split_inside_a_single_range() {
    // a <= b <= c <= d, with the degenerate cases a == b and c == d
    let cases: [(u32, u32, u32, u32, usize); 4] =
        [(10, 20, 30, 40, 3), (10, 10, 30, 40, 2), (10, 20, 40, 40, 2), (10, 10, 40, 40, 1)];
    for (a, b, c, d, n) in cases {
        let mut map = CodepointRangeMap::new();
        set(&mut map, a, d, "f");
        add(&mut map, b, c, "g");
        check_count(&map, n);
        let mut i = 0;
        if a < b {
            check(&map, i, a, b - 1, "f");
            i += 1;
        }
        check(&map, i, b, c, "fg");
        if c < d {
            check(&map, i + 1, c + 1, d, "f");
        }
    }
}

#[test]
fn touching_ranges_stay_apart() {
    let mut map = CodepointRangeMap::new();
    set(&mut map, 0, 9, "a");
    add(&mut map, 10, 19, "b");
    check_count(&map, 2);
    check(&map, 0, 0, 9, "a");
    check(&map, 1, 10, 19, "b");
}

#[test]
fn covers_the_largest_codepoint_range() {
    let mut map = CodepointRangeMap::new();
    set(&mut map, 0, u32::MAX, "all");
    add(&mut map, u32::MAX, u32::MAX, "!");
    check_count(&map, 2);
    check(&map, 0, 0, u32::MAX - 1, "all");
    check(&map, 1, u32::MAX, u32::MAX, "all!");
}

#[test]
fn ranges_are_sorted() {
    let mut map = CodepointRangeMap::new();
    for (first, value) in [(40, "4"), (10, "1"), (90, "9"), (60, "6"), (70, "7"), (80, "8"), (30, "3"), (20, "2"), (50, "5")] {
        set(&mut map, first, first + 9, value);
    }
    check_count(&map, 9);
    for i in 0..9u32 {
        let first = 10 * (i + 1);
        check(&map, i as usize, first, first + 9, &(i + 1).to_string());
    }
}

#[test]
fn set_split_ranges_on_overlap() {
    // single overlap - start
    let mut map = CodepointRangeMap::new();
    set(&mut map, 10, 50, "a");
    add(&mut map, 10, 20, "b");
    check_count(&map, 2);
    check(&map, 0, 10, 20, "ab");
    check(&map, 1, 21, 50, "a");

    // single overlap - end
    let mut map = CodepointRangeMap::new();
    set(&mut map, 10, 50, "a");
    add(&mut map, 20, 50, "b");
    check_count(&map, 2);
    check(&map, 0, 10, 19, "a");
    check(&map, 1, 20, 50, "ab");

    // single overlap - middle
    let mut map = CodepointRangeMap::new();
    set(&mut map, 10, 50, "a");
    add(&mut map, 20, 30, "b");
    check_count(&map, 3);
    check(&map, 0, 10, 19, "a");
    check(&map, 1, 20, 30, "ab");
    check(&map, 2, 31, 50, "a");

    // double overlap
    let mut map = CodepointRangeMap::new();
    set(&mut map, 10, 29, "a");
    set(&mut map, 30, 50, "b");
    add(&mut map, 20, 40, "c");
    check_count(&map, 4);
    check(&map, 0, 10, 19, "a");
    check(&map, 1, 20, 29, "ac");
    check(&map, 2, 30, 40, "bc");
    check(&map, 3, 41, 50, "b");

    // triple overlap - full
    let mut map = CodepointRangeMap::new();
    set(&mut map, 10, 19, "a");
    set(&mut map, 20, 29, "b");
    set(&mut map, 30, 39, "c");
    add(&mut map, 10, 39, "d");
    check_count(&map, 3);
    check(&map, 0, 10, 19, "ad");
    check(&map, 1, 20, 29, "bd");
    check(&map, 2, 30, 39, "cd");

    // triple overlap - contained
    let mut map = CodepointRangeMap::new();
    set(&mut map, 20, 29, "a");
    set(&mut map, 30, 39, "b");
    set(&mut map, 40, 49, "c");
    add(&mut map, 10, 60, "d");
    check_count(&map, 5);
    check(&map, 0, 10, 19, "d");
    check(&map, 1, 20, 29, "ad");
    check(&map, 2, 30, 39, "bd");
    check(&map, 3, 40, 49, "cd");
    check(&map, 4, 50, 60, "d");

    // triple overlap - start
    let mut map = CodepointRangeMap::new();
    set(&mut map, 10, 19, "a");
    set(&mut map, 20, 29, "b");
    set(&mut map, 30, 39, "c");
    add(&mut map, 10, 35, "d");
    check_count(&map, 4);
    check(&map, 0, 10, 19, "ad");
    check(&map, 1, 20, 29, "bd");
    check(&map, 2, 30, 35, "cd");
    check(&map, 3, 36, 39, "c");

    // triple overlap - end
    let mut map = CodepointRangeMap::new();
    set(&mut map, 10, 19, "a");
    set(&mut map, 20, 29, "b");
    set(&mut map, 30, 39, "c");
    add(&mut map, 15, 39, "d");
    check_count(&map, 4);
    check(&map, 0, 10, 14, "a");
    check(&map, 1, 15, 19, "ad");
    check(&map, 2, 20, 29, "bd");
    check(&map, 3, 30, 39, "cd");

    // triple overlap - middle
    let mut map = CodepointRangeMap::new();
    set(&mut map, 10, 19, "a");
    set(&mut map, 20, 29, "b");
    set(&mut map, 30, 39, "c");
    add(&mut map, 15, 35, "d");
    check_count(&map, 5);
    check(&map, 0, 10, 14, "a");
    check(&map, 1, 15, 19, "ad");
    check(&map, 2, 20, 29, "bd");
    check(&map, 3, 30, 35, "cd");
    check(&map, 4, 36, 39, "c");

    // triple overlap - spaced
    let mut map = CodepointRangeMap::new();
    set(&mut map, 20, 30, "a");
    set(&mut map, 40, 50, "b");
    set(&mut map, 60, 70, "c");
    add(&mut map, 10, 80, "d");
    check_count(&map, 7);
    check(&map, 0, 10, 19, "d");
    check(&map, 1, 20, 30, "ad");
    check(&map, 2, 31, 39, "d");
    check(&map, 3, 40, 50, "bd");
    check(&map, 4, 51, 59, "d");
    check(&map, 5, 60, 70, "cd");
    check(&map, 6, 71, 80, "d");
}
