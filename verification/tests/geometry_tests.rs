use concyclic_search::geometry::{
    Point, area2, four_points_are_collinear, four_points_are_concyclic,
};

fn p(x: i32, y: i32) -> Point {
    Point { x, y }
}

#[test]
fn area2_exact_values() {
    assert_eq!(area2(&p(0, 0), &p(1, 0), &p(0, 1)), 1);
    assert_eq!(area2(&p(0, 0), &p(2, 0), &p(0, 2)), 4);
    assert_eq!(area2(&p(0, 0), &p(1, 1), &p(2, 2)), 0);
}

#[test]
fn area2_antisymmetric_under_swap() {
    let triples = [
        (p(0, 0), p(2, 1), p(5, 3)),
        (p(1, 4), p(-3, 2), p(7, -6)),
        (p(0, 0), p(0, 0), p(1, 2)),
    ];
    for (a, b, c) in triples {
        assert_eq!(area2(&a, &b, &c), -area2(&b, &a, &c));
    }
}

#[test]
fn collinear4_on_and_off_the_line() {
    // Three collinear points plus a fourth on the same line.
    assert!(four_points_are_collinear(&p(0, 0), &p(1, 1), &p(2, 2), &p(3, 3)));
    // Perturbing the fourth point off the line breaks it.
    assert!(!four_points_are_collinear(&p(0, 0), &p(1, 1), &p(2, 2), &p(3, 4)));
}

#[test]
fn square_is_concyclic() {
    assert!(four_points_are_concyclic(&p(0, 0), &p(2, 0), &p(2, 2), &p(0, 2)));
}

#[test]
fn collinear_quadruple_counts_as_concyclic() {
    let (a, b, c, d) = (p(0, 0), p(1, 0), p(2, 0), p(3, 0));
    assert!(four_points_are_collinear(&a, &b, &c, &d));
    assert!(four_points_are_concyclic(&a, &b, &c, &d));
}

#[test]
fn generic_quadruple_is_not_concyclic() {
    assert!(!four_points_are_concyclic(&p(0, 0), &p(1, 0), &p(0, 1), &p(2, 2)));
}

#[test]
fn concyclicity_is_permutation_invariant() {
    let pts = [p(0, 0), p(2, 0), p(2, 2), p(0, 2)];
    let mut checked = 0;
    for i in 0..4 {
        for j in 0..4 {
            for k in 0..4 {
                for l in 0..4 {
                    if i != j && i != k && i != l && j != k && j != l && k != l {
                        assert!(four_points_are_concyclic(
                            &pts[i], &pts[j], &pts[k], &pts[l]
                        ));
                        checked += 1;
                    }
                }
            }
        }
    }
    assert_eq!(checked, 24);
}
