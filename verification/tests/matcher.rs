use unistroke::library::TemplateLibrary;
use unistroke::matcher::{best_match, recognize, Matcher};
use unistroke::score::WORST_SCORE;
use unistroke::search::{THETA_MAX, THETA_MIN};
use unistroke::shape::{NormalizedShape, Point};

fn shape_from(seed: u32) -> NormalizedShape {
    let points = (0..64u32).map(|i| Point { x: seed * 1000 + i, y: i }).collect();
    NormalizedShape::new(points).unwrap()
}

fn library_of(labels: &[&str]) -> TemplateLibrary {
    let mut library = TemplateLibrary::new();
    for (i, label) in labels.iter().enumerate() {
        assert!(library.add(label, shape_from(i as u32)));
    }
    library
}

#[test]
fn best_match_of_no_scores_is_none() {
    assert_eq!(best_match(&Vec::new()), None);
}

#[test]
fn best_match_is_the_least_score() {
    assert_eq!(best_match(&vec![5, 3, 9]), Some(1));
    assert_eq!(best_match(&vec![1, 3, 9]), Some(0));
    assert_eq!(best_match(&vec![5, 3, 2]), Some(2));
    assert_eq!(best_match(&vec![0]), Some(0));
}

#[test]
fn best_match_is_the_first_of_equal_scores() {
    assert_eq!(best_match(&vec![5, 3, 3, 9]), Some(1));
    assert_eq!(best_match(&vec![4, 4, 4]), Some(0));
    assert_eq!(best_match(&vec![9, 4, 7, 4]), Some(1));
}

#[test]
fn best_match_needs_a_score_below_the_worst() {
    assert_eq!(best_match(&vec![WORST_SCORE]), None);
    assert_eq!(best_match(&vec![WORST_SCORE, u32::MAX, f32::INFINITY.to_bits()]), None);
    assert_eq!(best_match(&vec![WORST_SCORE, WORST_SCORE - 1]), Some(1));
    assert_eq!(best_match(&vec![f32::NAN.to_bits(), 7]), Some(1));
}

#[test]
fn empty_library_is_not_recognized() {
    let library = TemplateLibrary::new();
    let outcome = recognize(&library, &Vec::new());
    assert_eq!(outcome.label, "not recognized");
    assert_eq!(outcome.score, WORST_SCORE);
    assert_eq!(f32::from_bits(outcome.score), f32::MAX);
}

#[test]
fn empty_library_is_not_recognized_whatever_the_scores() {
    let library = TemplateLibrary::new();
    let outcome = recognize(&library, &vec![0, 1, 2]);
    assert_eq!(outcome.label, "not recognized");
    assert_eq!(outcome.score, WORST_SCORE);
}

#[test]
fn recognize_names_the_least_score() {
    let library = library_of(&["line", "circle", "check"]);
    let outcome = recognize(&library, &vec![40, 12, 30]);
    assert_eq!(outcome.label, "circle");
    assert_eq!(outcome.score, 12);
}

#[test]
fn recognize_names_the_first_of_equal_scores() {
    let library = library_of(&["line", "circle", "check"]);
    let outcome = recognize(&library, &vec![40, 12, 12]);
    assert_eq!(outcome.label, "circle");
    let outcome = recognize(&library, &vec![12, 12, 12]);
    assert_eq!(outcome.label, "line");
}

#[test]
fn recognize_without_a_score_below_the_worst_is_not_recognized() {
    let library = library_of(&["line", "circle"]);
    let outcome = recognize(&library, &vec![WORST_SCORE, u32::MAX]);
    assert_eq!(outcome.label, "not recognized");
    assert_eq!(outcome.score, WORST_SCORE);
}

#[test]
fn recognize_counts_one_score_for_each_template() {
    let library = library_of(&["line", "circle"]);
    let outcome = recognize(&library, &vec![40, 12, 1]);
    assert_eq!(outcome.label, "circle");
    assert_eq!(outcome.score, 12);
    let outcome = recognize(&library, &vec![40]);
    assert_eq!(outcome.label, "line");
    assert_eq!(outcome.score, 40);
}

#[test]
fn matcher_over_an_empty_library_is_done_at_once() {
    let library = TemplateLibrary::new();
    let query = shape_from(77);
    let mut matcher = Matcher::new(&query, &library);
    assert!(matcher.pending().is_none());
    let outcome = matcher.outcome().unwrap();
    assert_eq!(outcome.label, "not recognized");
    assert_eq!(outcome.score, WORST_SCORE);
    matcher.observe(0);
    let outcome = matcher.outcome().unwrap();
    assert_eq!(outcome.label, "not recognized");
    assert_eq!(outcome.score, WORST_SCORE);
}

#[test]
fn matcher_asks_ten_scores_for_each_template_in_scan_order() {
    let library = library_of(&["line", "circle", "check"]);
    let query = shape_from(77);
    let mut matcher = Matcher::new(&query, &library);
    let mut asked = Vec::new();
    while let Some(probe) = matcher.pending() {
        assert!(matcher.outcome().is_none());
        assert!(THETA_MIN <= probe.angle && probe.angle <= THETA_MAX);
        assert!(probe.shape.same_as(&shape_from(77)));
        assert!(probe.template.shape().same_as(&shape_from(probe.index as u32)));
        asked.push((probe.index, probe.template.label().clone()));
        matcher.observe(100 + probe.index as u32);
        assert!(asked.len() <= 1000);
    }
    assert_eq!(asked.len(), 30);
    for (i, (index, label)) in asked.iter().enumerate() {
        assert_eq!(*index, i / 10);
        assert_eq!(label, ["line", "circle", "check"][i / 10]);
    }
    let outcome = matcher.outcome().unwrap();
    assert_eq!(outcome.label, "line");
    assert_eq!(outcome.score, 100);
}

#[test]
fn matcher_begins_each_search_afresh() {
    let library = library_of(&["line", "circle"]);
    let query = shape_from(77);
    let mut matcher = Matcher::new(&query, &library);
    let mut firsts = Vec::new();
    let mut told = 0;
    while let Some(probe) = matcher.pending() {
        if told % 10 == 0 {
            firsts.push(probe.angle);
        }
        matcher.observe(told);
        told += 1;
    }
    assert_eq!(firsts, vec![-185_407_357, -185_407_357]);
}

#[test]
fn matcher_scores_a_template_by_its_least_score() {
    let library = library_of(&["line", "circle", "check"]);
    let query = shape_from(77);
    let mut matcher = Matcher::new(&query, &library);
    let mut told = 0u32;
    while matcher.pending().is_some() {
        // line: 50..=59, circle: 40, 41, .., 45, 7, 47, .., check: 20..=29 shifted up
        let score = match told {
            0..=9 => 50 + told,
            16 => 7,
            10..=19 => 30 + told,
            _ => told,
        };
        matcher.observe(score);
        told += 1;
    }
    let outcome = matcher.outcome().unwrap();
    assert_eq!(outcome.label, "circle");
    assert_eq!(outcome.score, 7);
}

#[test]
fn matcher_names_the_first_of_equal_templates() {
    let library = library_of(&["line", "circle", "check"]);
    let query = shape_from(77);
    let mut matcher = Matcher::new(&query, &library);
    while matcher.pending().is_some() {
        matcher.observe(9);
    }
    let outcome = matcher.outcome().unwrap();
    assert_eq!(outcome.label, "line");
    assert_eq!(outcome.score, 9);
}

#[test]
fn matcher_ignores_scores_once_done() {
    let library = library_of(&["line", "circle"]);
    let query = shape_from(77);
    let mut matcher = Matcher::new(&query, &library);
    let mut told = 0u32;
    while matcher.pending().is_some() {
        matcher.observe(if told < 10 { 80 } else { 60 });
        told += 1;
    }
    matcher.observe(0);
    matcher.observe(0);
    assert!(matcher.pending().is_none());
    let outcome = matcher.outcome().unwrap();
    assert_eq!(outcome.label, "circle");
    assert_eq!(outcome.score, 60);
}

#[test]
fn matcher_with_only_worst_scores_is_not_recognized() {
    let library = library_of(&["line", "circle"]);
    let query = shape_from(77);
    let mut matcher = Matcher::new(&query, &library);
    while matcher.pending().is_some() {
        matcher.observe(f32::INFINITY.to_bits());
    }
    let outcome = matcher.outcome().unwrap();
    assert_eq!(outcome.label, "not recognized");
    assert_eq!(outcome.score, WORST_SCORE);
}
