use rustracer::distance::{distance_bits, distance_key};
use rustracer::intersection::{hit, is_occluded, media_at, sort_by_distance, Intersection, Media};

fn at(object: usize, t: f64) -> Intersection {
    Intersection::new(object, distance_key(t.to_bits()))
}

#[test]
fn test_smallest_intersection() {
    let i1 = at(0, 1.0);
    let i2 = at(0, 2.0);
    assert_eq!(hit(vec![i1.clone(), i2]).unwrap(), i1);
}

#[test]
fn test_smallest_intersection_2() {
    let i1 = at(0, -1.0);
    let i2 = at(0, 2.0);
    assert_eq!(hit(vec![i1, i2.clone()]).unwrap(), i2);
}

#[test]
fn test_smallest_intersection_3() {
    let i1 = at(0, -2.0);
    let i2 = at(0, -1.0);
    assert!(hit(vec![i1, i2]) == None);
}

#[test]
fn test_smallest_intersection_4() {
    let i1 = at(0, 5.0);
    let i2 = at(0, 7.0);
    let i3 = at(0, -3.0);
    let i4 = at(0, 2.0);
    assert_eq!(hit(vec![i1, i2, i3, i4.clone()]).unwrap(), i4);
}

#[test]
fn test_n1_n2_multi_intersection() {
    // Three glass spheres: a (1.5), b (2.0) and c (2.5), at places 0, 1 and 2.
    let indices = [1.5, 2.0, 2.5];
    let index_of = |medium: Option<usize>| match medium {
        Some(o) => indices[o],
        None => 1.0,
    };
    let intersections = vec![
        at(0, 2.0),
        at(1, 2.75),
        at(2, 3.25),
        at(1, 4.75),
        at(2, 5.25),
        at(0, 6.0),
    ];
    let expected = [
        (1.0, 1.5),
        (1.5, 2.0),
        (2.0, 2.5),
        (2.5, 2.5),
        (2.5, 1.5),
        (1.5, 1.0),
    ];
    for (index, inter) in intersections.iter().enumerate() {
        let media = media_at(&intersections, *inter);
        assert_eq!(index_of(media.leaving), expected[index].0);
        assert_eq!(index_of(media.entering), expected[index].1);
    }
}

#[test]
fn hit_of_empty_list_is_none() {
    assert_eq!(hit(vec![]), None);
}

#[test]
fn hit_counts_both_zeros() {
    assert_eq!(hit(vec![at(0, -0.0), at(1, 3.0)]), Some(at(0, -0.0)));
    assert_eq!(hit(vec![at(0, 3.0), at(1, 0.0)]), Some(at(1, 0.0)));
    assert_eq!(hit(vec![at(2, -0.0)]), Some(at(2, 0.0)));
    assert_eq!(hit(vec![at(3, -1e-300)]), None);
}

#[test]
fn occluded_by_a_shape_at_negative_zero() {
    let light = distance_key(10.0f64.to_bits());
    assert!(is_occluded(vec![at(0, -0.0)], light));
}

#[test]
fn hit_takes_the_first_of_equal_distances() {
    assert_eq!(hit(vec![at(4, 1.0), at(2, 1.0)]), Some(at(4, 1.0)));
}

#[test]
fn sort_orders_by_distance() {
    let sorted = sort_by_distance(vec![at(0, 6.0), at(1, -4.5), at(2, 0.5), at(3, 1e-300), at(4, -0.25)]);
    assert_eq!(sorted, vec![at(1, -4.5), at(4, -0.25), at(3, 1e-300), at(2, 0.5), at(0, 6.0)]);
}

#[test]
fn sort_keeps_every_intersection_at_equal_distances() {
    let mut sorted = sort_by_distance(vec![at(3, 2.0), at(1, -1.0), at(2, 2.0)]);
    assert_eq!(sorted[0], at(1, -1.0));
    sorted[1..].sort_by_key(|i| i.object);
    assert_eq!(sorted[1..].to_vec(), vec![at(2, 2.0), at(3, 2.0)]);
}

#[test]
fn hit_is_the_same_in_any_order() {
    let a = vec![at(0, 5.0), at(1, 7.0), at(2, -3.0), at(3, 2.0)];
    let b = vec![at(2, -3.0), at(3, 2.0), at(1, 7.0), at(0, 5.0)];
    assert_eq!(hit(a.clone()), hit(b.clone()));
    assert_eq!(hit(sort_by_distance(a)), Some(at(3, 2.0)));
}

#[test]
fn sort_of_empty_list_is_empty() {
    assert_eq!(sort_by_distance(vec![]), vec![]);
}

#[test]
fn media_of_an_absent_intersection_are_vacuum() {
    let intersections = vec![at(0, 1.0), at(0, 2.0)];
    let media = media_at(&intersections, at(3, 1.0));
    assert_eq!(media, Media { leaving: None, entering: None });
}

#[test]
fn media_of_a_single_sphere() {
    let intersections = vec![at(7, 4.0), at(7, 6.0)];
    assert_eq!(
        media_at(&intersections, at(7, 4.0)),
        Media { leaving: None, entering: Some(7) }
    );
    assert_eq!(
        media_at(&intersections, at(7, 6.0)),
        Media { leaving: Some(7), entering: None }
    );
}

#[test]
fn occluded_when_a_shape_lies_before_the_light() {
    let light = distance_key(10.0f64.to_bits());
    assert!(is_occluded(vec![at(0, -2.0), at(1, 4.0)], light));
}

#[test]
fn not_occluded_when_shapes_lie_behind_the_light_or_the_point() {
    let light = distance_key(10.0f64.to_bits());
    assert!(!is_occluded(vec![at(0, -2.0), at(1, 14.0)], light));
    assert!(!is_occluded(vec![at(0, -2.0), at(1, -1.0)], light));
    assert!(!is_occluded(vec![at(1, 10.0)], light));
    assert!(!is_occluded(vec![], light));
}

#[test]
fn keys_follow_the_order_of_doubles() {
    let values = [f64::NEG_INFINITY, -1e300, -2.5, -1e-300, 0.0, 1e-300, 2.5, 1e300, f64::INFINITY];
    for pair in values.windows(2) {
        assert!(distance_key(pair[0].to_bits()) < distance_key(pair[1].to_bits()));
    }
    assert_eq!(distance_key((-0.0f64).to_bits()), 0);
    assert_eq!(distance_key(0.0f64.to_bits()), 0);
    assert_eq!(distance_key((-2.5f64).to_bits()), -distance_key(2.5f64.to_bits()));
}

#[test]
fn keys_turn_back_into_their_doubles() {
    for t in [0.0, 1.5, -1.5, 3.25e-7, -8.0e12, f64::MAX, f64::MIN] {
        let back = f64::from_bits(distance_bits(distance_key(t.to_bits())));
        assert_eq!(back.to_bits(), t.to_bits());
    }
    let zero = f64::from_bits(distance_bits(distance_key((-0.0f64).to_bits())));
    assert_eq!(zero.to_bits(), 0.0f64.to_bits());
}

#[test]
fn a_shape_crossed_a_third_time_is_entered_again() {
    let intersections = vec![at(0, 1.0), at(1, 1.5), at(0, 2.0), at(0, 3.0), at(1, 4.0)];
    assert_eq!(
        media_at(&intersections, at(0, 2.0)),
        Media { leaving: Some(1), entering: Some(1) }
    );
    assert_eq!(
        media_at(&intersections, at(0, 3.0)),
        Media { leaving: Some(1), entering: Some(0) }
    );
    assert_eq!(
        media_at(&intersections, at(1, 4.0)),
        Media { leaving: Some(0), entering: Some(0) }
    );
}
