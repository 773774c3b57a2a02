use cargo_wipe::stats::DirInfo;

#[test]
fn new_sets_fields() {
    let d = DirInfo::new(3, 7, 4096);
    assert_eq!(d.dir_count, 3);
    assert_eq!(d.file_count, 7);
    assert_eq!(d.size, 4096);
}

#[test]
fn add_is_field_wise() {
    let a = DirInfo::new(1, 2, 30);
    let b = DirInfo::new(4, 5, 60);
    assert_eq!(a.add(b), DirInfo::new(5, 7, 90));
}

#[test]
fn add_zero_is_identity() {
    let zero = DirInfo::new(0, 0, 0);
    let a = DirInfo::new(9, 12, 34567);
    assert_eq!(a.add(zero), a);
    assert_eq!(zero.add(a), a);
    assert_eq!(zero.add(zero), zero);
}

#[test]
fn add_is_commutative() {
    let triples = [(1usize, 2usize, 3usize), (10, 0, 999), (123, 456, 789), (0, 0, 1)];
    for &(x, y, z) in triples.iter() {
        for &(p, q, r) in triples.iter() {
            let a = DirInfo::new(x, y, z);
            let b = DirInfo::new(p, q, r);
            assert_eq!(a.add(b), b.add(a));
        }
    }
}

#[test]
fn add_is_associative() {
    let triples = [(1usize, 2usize, 3usize), (10, 0, 999), (123, 456, 789), (7, 7, 7)];
    for &(x, y, z) in triples.iter() {
        for &(p, q, r) in triples.iter() {
            for &(u, v, w) in triples.iter() {
                let a = DirInfo::new(x, y, z);
                let b = DirInfo::new(p, q, r);
                let c = DirInfo::new(u, v, w);
                assert_eq!(a.add(b).add(c), a.add(b.add(c)));
            }
        }
    }
}

#[test]
fn file_count_formatted_groups_digits() {
    assert_eq!(DirInfo::new(0, 0, 0).file_count_formatted(), "0");
    assert_eq!(DirInfo::new(0, 999, 0).file_count_formatted(), "999");
    assert_eq!(DirInfo::new(0, 1000, 0).file_count_formatted(), "1,000");
    assert_eq!(DirInfo::new(0, 1234567, 0).file_count_formatted(), "1,234,567");
}

#[test]
fn size_formatted_mb_truncates_and_groups() {
    assert_eq!(DirInfo::new(0, 0, 0).size_formatted_mb(), "0");
    assert_eq!(DirInfo::new(0, 0, 1048575).size_formatted_mb(), "0");
    assert_eq!(DirInfo::new(0, 0, 5 * 1048576 + 123).size_formatted_mb(), "5");
    assert_eq!(DirInfo::new(0, 0, 1234567 * 1048576).size_formatted_mb(), "1,234,567");
}
