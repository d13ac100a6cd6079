use rasterizer::helpers::sort_vertices;

fn sort6(mut t: (i32, i32, i32, i32, i32, i32)) -> (i32, i32, i32, i32, i32, i32) {
    sort_vertices(&mut t.0, &mut t.1, &mut t.2, &mut t.3, &mut t.4, &mut t.5);
    t
}

#[test]
fn vertices_come_out_sorted_by_y() {
    let r = sort6((10, 30, 20, 10, 30, 20));
    assert_eq!(r, (20, 10, 30, 20, 10, 30));
    assert!(r.1 <= r.3 && r.3 <= r.5);
}

#[test]
fn sorting_keeps_each_point_together() {
    let r = sort6((7, 5, 1, -2, 4, 9));
    let points = [(r.0, r.1), (r.2, r.3), (r.4, r.5)];
    assert!(points.contains(&(7, 5)));
    assert!(points.contains(&(1, -2)));
    assert!(points.contains(&(4, 9)));
}

#[test]
fn sorting_twice_changes_nothing() {
    let cases = [
        (10, 30, 20, 10, 30, 20),
        (1, 1, 2, 1, 3, 1),
        (0, 0, 0, 0, 0, 0),
        (5, -4, 6, 8, 7, -4),
    ];
    for c in cases {
        let once = sort6(c);
        let twice = sort6(once);
        assert_eq!(once, twice);
    }
}

#[test]
fn equal_keys_keep_their_order() {
    // all three share one y: the x order must be untouched
    let r = sort6((3, 7, 1, 7, 2, 7));
    assert_eq!(r, (3, 7, 1, 7, 2, 7));
}
