use concyclic_search::combinations::CombinationEnumerator;
use concyclic_search::feasibility::has_any_4_concyclic;
use concyclic_search::geometry::Point;
use concyclic_search::search::{
    SearchDriver, SearchEvent, find_first_qualifying, make_grid,
};

fn p(x: i32, y: i32) -> Point {
    Point { x, y }
}

#[test]
fn short_subsets_have_no_quadruple() {
    let pts = vec![p(0, 0), p(1, 0), p(2, 0)];
    assert!(!has_any_4_concyclic(&pts[..0]));
    assert!(!has_any_4_concyclic(&pts[..1]));
    assert!(!has_any_4_concyclic(&pts[..2]));
    assert!(!has_any_4_concyclic(&pts[..3]));
}

#[test]
fn subset_with_square_has_quadruple() {
    let pts = vec![p(5, 5), p(0, 0), p(2, 0), p(2, 2), p(0, 2)];
    assert!(has_any_4_concyclic(&pts));
}

#[test]
fn enumerator_lists_all_combinations_in_order() {
    let mut e = CombinationEnumerator::new(5, 3);
    let mut all: Vec<Vec<usize>> = Vec::new();
    all.push(e.indices.clone());
    while e.advance() {
        all.push(e.indices.clone());
    }
    let expected: Vec<Vec<usize>> = vec![
        vec![0, 1, 2],
        vec![0, 1, 3],
        vec![0, 1, 4],
        vec![0, 2, 3],
        vec![0, 2, 4],
        vec![0, 3, 4],
        vec![1, 2, 3],
        vec![1, 2, 4],
        vec![1, 3, 4],
        vec![2, 3, 4],
    ];
    assert_eq!(all.len(), 10);
    assert_eq!(all, expected);
    for t in &all {
        assert!(t[0] < t[1] && t[1] < t[2]);
    }
}

#[test]
fn grid_is_x_major_y_minor() {
    let g = make_grid(2);
    assert_eq!(g.len(), 9);
    assert_eq!(g[0], p(0, 0));
    assert_eq!(g[1], p(0, 1));
    assert_eq!(g[2], p(0, 2));
    assert_eq!(g[3], p(1, 0));
    assert_eq!(g[8], p(2, 2));
}

#[test]
fn small_grid_smoke_search() {
    let g = make_grid(2);
    let r = find_first_qualifying(&g, 4);
    match r {
        Some(c) => {
            assert_eq!(c, vec![0, 1, 2, 3]);
            let pts: Vec<Point> = c.iter().map(|&i| g[i]).collect();
            assert!(!has_any_4_concyclic(&pts));
        },
        None => panic!("a qualifying 4-subset exists on the 3x3 grid"),
    }
}

#[test]
fn driver_walks_sizes_and_halts_on_failure() {
    // The 2x2 grid is the four corners of a unit square: every 3-subset
    // qualifies, and the single 4-subset is concyclic.
    let g = make_grid(1);
    assert_eq!(g.len(), 4);
    let mut driver = SearchDriver::new(g, 3, 4);
    let mut found: Option<(usize, Vec<usize>)> = None;
    let mut not_found: Option<usize> = None;
    for _ in 0..100 {
        match driver.step() {
            SearchEvent::Examined => {},
            SearchEvent::Found(sz, c, pts) => {
                assert!(found.is_none());
                assert_eq!(pts.len(), c.len());
                found = Some((sz, c));
            },
            SearchEvent::NotFound(sz) => {
                not_found = Some(sz);
                break;
            },
            SearchEvent::Idle => break,
        }
    }
    assert_eq!(found, Some((3, vec![0, 1, 2])));
    assert_eq!(not_found, Some(4));
    assert!(driver.is_halted());
    assert!(matches!(driver.step(), SearchEvent::Idle));
}
