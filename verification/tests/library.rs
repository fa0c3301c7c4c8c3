use unistroke::library::TemplateLibrary;
use unistroke::shape::{NormalizedShape, Point, ShapeError};

fn points_from(seed: u32, n: usize) -> Vec<Point> {
    (0..n as u32).map(|i| Point { x: seed.wrapping_mul(31).wrapping_add(i), y: i * 7 + seed }).collect()
}

fn shape_from(seed: u32) -> NormalizedShape {
    NormalizedShape::new(points_from(seed, 64)).unwrap()
}

#[test]
fn library_starts_empty() {
    let library = TemplateLibrary::new();
    assert_eq!(library.len(), 0);
    assert!(library.is_empty());
    assert!(library.lookup_all().is_empty());
    assert!(library.template(0).is_none());
    assert_eq!(library.count_for("check"), 0);
    assert!(!library.contains("check", &shape_from(1)));
}

#[test]
fn adding_the_same_shape_twice_stores_it_once() {
    let mut library = TemplateLibrary::new();
    assert!(library.add("check", shape_from(1)));
    assert!(!library.add("check", shape_from(1)));
    assert_eq!(library.count_for("check"), 1);
    assert_eq!(library.len(), 1);
    assert!(library.contains("check", &shape_from(1)));
}

#[test]
fn adding_a_duplicate_keeps_the_scan_order() {
    let mut library = TemplateLibrary::new();
    assert!(library.add("a", shape_from(1)));
    assert!(library.add("b", shape_from(2)));
    assert!(library.add("a", shape_from(3)));
    assert!(!library.add("a", shape_from(1)));
    assert!(!library.add("b", shape_from(2)));
    assert_eq!(library.len(), 3);
    let all = library.lookup_all();
    assert_eq!(all[0].label(), "a");
    assert!(all[0].shape().same_as(&shape_from(1)));
    assert_eq!(all[1].label(), "b");
    assert!(all[1].shape().same_as(&shape_from(2)));
    assert_eq!(all[2].label(), "a");
    assert!(all[2].shape().same_as(&shape_from(3)));
}

#[test]
fn one_label_holds_several_shapes() {
    let mut library = TemplateLibrary::new();
    assert!(library.add("check", shape_from(1)));
    assert!(library.add("check", shape_from(2)));
    assert!(library.add("check", shape_from(3)));
    assert_eq!(library.count_for("check"), 3);
    assert_eq!(library.count_for("circle"), 0);
    assert_eq!(library.len(), 3);
}

#[test]
fn one_shape_may_stand_under_several_labels() {
    let mut library = TemplateLibrary::new();
    assert!(library.add("check", shape_from(1)));
    assert!(library.add("tick", shape_from(1)));
    assert_eq!(library.count_for("check"), 1);
    assert_eq!(library.count_for("tick"), 1);
    assert_eq!(library.len(), 2);
    assert!(library.contains("tick", &shape_from(1)));
    assert!(!library.contains("tock", &shape_from(1)));
    assert!(!library.contains("tick", &shape_from(2)));
}

#[test]
fn a_shape_that_differs_in_one_coordinate_is_another_template() {
    let mut library = TemplateLibrary::new();
    let mut points = points_from(1, 64);
    assert!(library.add("check", NormalizedShape::new(points.clone()).unwrap()));
    points[63].y += 1;
    assert!(library.add("check", NormalizedShape::new(points).unwrap()));
    assert_eq!(library.count_for("check"), 2);
}

#[test]
fn labels_are_told_apart_exactly() {
    let mut library = TemplateLibrary::new();
    assert!(library.add("check", shape_from(1)));
    assert!(library.add("Check", shape_from(1)));
    assert!(library.add("check ", shape_from(1)));
    assert!(library.add("", shape_from(1)));
    assert_eq!(library.len(), 4);
    assert_eq!(library.count_for("check"), 1);
    assert_eq!(library.count_for(""), 1);
}

#[test]
fn template_is_found_by_its_position() {
    let mut library = TemplateLibrary::new();
    library.add("a", shape_from(1));
    library.add("b", shape_from(2));
    let first = library.template(0).unwrap();
    assert_eq!(first.label(), "a");
    assert!(first.shape().same_as(&shape_from(1)));
    let second = library.template(1).unwrap();
    assert_eq!(second.label(), "b");
    assert!(second.shape().same_as(&shape_from(2)));
    assert!(library.template(2).is_none());
}

#[test]
fn seed_is_inserted_in_order() {
    let seed = vec![
        ("line".to_string(), points_from(1, 64)),
        ("circle".to_string(), points_from(2, 64)),
        ("line".to_string(), points_from(3, 64)),
    ];
    let library = TemplateLibrary::from_seed(&seed).ok().unwrap();
    assert_eq!(library.len(), 3);
    assert_eq!(library.count_for("line"), 2);
    assert_eq!(library.count_for("circle"), 1);
    let all = library.lookup_all();
    assert_eq!(all[0].label(), "line");
    assert_eq!(all[0].shape().points(), &points_from(1, 64));
    assert_eq!(all[1].label(), "circle");
    assert_eq!(all[1].shape().points(), &points_from(2, 64));
    assert_eq!(all[2].label(), "line");
    assert_eq!(all[2].shape().points(), &points_from(3, 64));
}

#[test]
fn seed_with_a_repeated_template_stores_it_once() {
    let seed = vec![
        ("line".to_string(), points_from(1, 64)),
        ("line".to_string(), points_from(1, 64)),
    ];
    let library = TemplateLibrary::from_seed(&seed).ok().unwrap();
    assert_eq!(library.len(), 1);
}

#[test]
fn empty_seed_gives_an_empty_library() {
    let library = TemplateLibrary::from_seed(&Vec::new()).ok().unwrap();
    assert!(library.is_empty());
}

#[test]
fn seed_with_a_short_entry_is_rejected() {
    let seed = vec![
        ("line".to_string(), points_from(1, 64)),
        ("dot".to_string(), points_from(2, 1)),
        ("circle".to_string(), points_from(3, 64)),
    ];
    assert_eq!(TemplateLibrary::from_seed(&seed).err(), Some(ShapeError::InsufficientInput));
}
