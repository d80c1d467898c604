use svg_splitter::engine::{get_outlines, ImportOptions, PipelineError, RawLoop};
use svg_splitter::outline::{Outline, Point};

fn pt(x: i64, y: i64) -> Point {
    Point { x, y }
}

#[test]
fn bbox_of_several_points_is_tight() {
    let v = vec![pt(3, -2), pt(-1, 7), pt(0, 0), pt(5, 1)];
    let (min, max) = Outline::bbox(&v);
    assert_eq!(min, pt(-1, -2));
    assert_eq!(max, pt(5, 7));
}

#[test]
fn bbox_holds_every_vertex() {
    let v = vec![pt(10, 10), pt(-10, 4), pt(2, -30), pt(2, 2), pt(9, 40)];
    let (min, max) = Outline::bbox(&v);
    for p in &v {
        assert!(min.x <= p.x && p.x <= max.x);
        assert!(min.y <= p.y && p.y <= max.y);
    }
}

#[test]
fn bbox_of_one_point_is_that_point() {
    let (min, max) = Outline::bbox(&[pt(4, -9)]);
    assert_eq!(min, pt(4, -9));
    assert_eq!(max, pt(4, -9));
}

#[test]
fn bbox_of_nothing_is_the_empty_box() {
    let (min, max) = Outline::bbox(&[]);
    assert_eq!(min, pt(i64::MAX, i64::MAX));
    assert_eq!(max, pt(i64::MIN, i64::MIN));
}

#[test]
fn empty_box_differs_from_every_real_box() {
    let empty = Outline::bbox(&[]);
    assert!(empty.0.x > empty.1.x && empty.0.y > empty.1.y);
    let extremes = vec![pt(i64::MAX, i64::MAX), pt(i64::MIN, i64::MIN)];
    let real = Outline::bbox(&extremes);
    assert!(real.0.x <= real.1.x && real.0.y <= real.1.y);
    assert_ne!(real, empty);
    let corner = Outline::bbox(&[pt(i64::MAX, i64::MIN)]);
    assert_ne!(corner, empty);
}

#[test]
fn bbox_with_extreme_coordinates() {
    let (min, max) = Outline::bbox(&[pt(i64::MAX, 0), pt(i64::MIN, 1)]);
    assert_eq!(min, pt(i64::MIN, 0));
    assert_eq!(max, pt(i64::MAX, 1));
}

#[test]
fn outline_keeps_what_it_was_made_of() {
    let v = vec![pt(0, 0), pt(4, 0), pt(4, 3)];
    let o = Outline::new(v.clone(), false);
    assert_eq!(o.vertices(), &v);
    assert!(!o.positive());
    assert_eq!(o.bounds(), (pt(0, 0), pt(4, 3)));
    assert_eq!(o.bounds(), Outline::bbox(&v));
}

#[test]
fn outline_without_vertices_has_the_empty_box() {
    let o = Outline::new(Vec::new(), true);
    assert!(o.vertices().is_empty());
    assert!(o.positive());
    assert_eq!(o.bounds(), Outline::bbox(&[]));
}

#[test]
fn get_outlines_copies_each_loop_in_order() {
    let loops = vec![
        RawLoop { positive: true, vertices: vec![pt(0, 0), pt(10, 0), pt(10, 10), pt(0, 10)] },
        RawLoop { positive: false, vertices: vec![pt(2, 2), pt(3, 2), pt(3, 3)] },
        RawLoop { positive: true, vertices: vec![] },
    ];
    let outlines = get_outlines(0, &loops).unwrap();
    assert_eq!(outlines.len(), 3);
    for (o, l) in outlines.iter().zip(loops.iter()) {
        assert_eq!(o.vertices(), &l.vertices);
        assert_eq!(o.positive(), l.positive);
    }
    assert_eq!(outlines[0].bounds(), (pt(0, 0), pt(10, 10)));
    assert_eq!(outlines[1].bounds(), (pt(2, 2), pt(3, 3)));
    assert_eq!(outlines[2].bounds(), (pt(i64::MAX, i64::MAX), pt(i64::MIN, i64::MIN)));
}

#[test]
fn get_outlines_of_no_loops_is_empty() {
    let outlines = get_outlines(0, &Vec::new()).unwrap();
    assert!(outlines.is_empty());
}

#[test]
fn get_outlines_fails_on_any_other_status() {
    let loops = vec![RawLoop { positive: true, vertices: vec![pt(1, 1)] }];
    for status in [1, -1, 7, i32::MIN, i32::MAX] {
        match get_outlines(status, &loops) {
            Err(e) => assert_eq!(e, PipelineError::ExtractionError),
            Ok(_) => panic!("status {} gave outlines", status),
        }
    }
}

#[test]
fn standard_options() {
    let o = ImportOptions::default();
    assert_eq!(o.angle_tolerance, 1);
    assert_eq!(o.max_segments, 1);
    assert_eq!(o.max_segment_length, 1);
    assert_eq!(o.dpi, 72);
    assert!(o.center);
}

#[test]
fn options_must_be_positive() {
    assert_eq!(ImportOptions::new(0, 1, 1, 72, true), None);
    assert_eq!(ImportOptions::new(1, 0, 1, 72, true), None);
    assert_eq!(ImportOptions::new(1, 1, 0, 72, true), None);
    assert_eq!(ImportOptions::new(1, 1, 1, 0, false), None);
    assert_eq!(
        ImportOptions::new(2, 30, 4, 96, false),
        Some(ImportOptions {
            angle_tolerance: 2,
            max_segments: 30,
            max_segment_length: 4,
            dpi: 96,
            center: false,
        })
    );
    assert_eq!(ImportOptions::new(1, 1, 1, 72, true), Some(ImportOptions::default()));
}

#[test]
fn error_messages() {
    assert_eq!(PipelineError::DocumentParseError.message(), "Failed to convert SVG to polygon");
    assert_eq!(PipelineError::ExtractionError.message(), "Failed to get outlines");
    assert_eq!(PipelineError::SplitError.message(), "Failed to split polygon");
}
