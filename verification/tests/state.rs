use hashmin::aggregate::App;
use hashmin::hash::is_less;

fn digest(fill: u8) -> Vec<u8> {
    vec![fill; 32]
}

#[test]
fn new_app_starts_maximal_and_empty() {
    let app = App::new(vec![0, 1, 2], "alice".to_string());
    assert_eq!(app.minimum.0, digest(255));
    assert_eq!(app.minimum.1, "");
    assert_eq!(app.prefix, "alice");
    assert_eq!(app.display.len(), 3);
    for (k, row) in app.display.iter().enumerate() {
        assert_eq!(row.0, k);
        assert!(row.1.is_none());
    }
}

#[test]
fn improvement_updates_row_and_minimum() {
    let mut app = App::new(vec![0, 1], "alice".to_string());
    app.handle((1, Some((digest(7), "B".to_string()))));
    assert_eq!(app.minimum.0, digest(7));
    assert_eq!(app.minimum.1, "B");
    assert_eq!(app.display[1].1, Some((digest(7), "B".to_string())));
    assert!(app.display[0].1.is_none());
}

#[test]
fn larger_report_updates_row_but_not_minimum() {
    let mut app = App::new(vec![0, 1], "alice".to_string());
    app.handle((0, Some((digest(7), "B".to_string()))));
    app.handle((1, Some((digest(9), "C".to_string()))));
    assert_eq!(app.minimum.0, digest(7));
    assert_eq!(app.minimum.1, "B");
    assert_eq!(app.display[1].1, Some((digest(9), "C".to_string())));
}

#[test]
fn tie_never_replaces_minimum() {
    let mut app = App::new(vec![0, 1], "alice".to_string());
    app.handle((0, Some((digest(7), "B".to_string()))));
    app.handle((1, Some((digest(7), "Z".to_string()))));
    assert_eq!(app.minimum.1, "B");
}

#[test]
fn exhaustion_changes_nothing() {
    let mut app = App::new(vec![0, 1], "alice".to_string());
    app.handle((0, Some((digest(7), "B".to_string()))));
    app.handle((0, None));
    assert_eq!(app.minimum.0, digest(7));
    assert_eq!(app.display[0].1, Some((digest(7), "B".to_string())));
}

#[test]
fn minimum_is_monotonic_and_bounds_reports() {
    let mut app = App::new(vec![0, 1, 2], "alice".to_string());
    let reports = vec![
        (0, Some((digest(200), "A".to_string()))),
        (1, Some((digest(50), "B".to_string()))),
        (2, None),
        (2, Some((digest(120), "C".to_string()))),
        (0, Some((digest(3), "D".to_string()))),
    ];
    let mut improved = Vec::new();
    let mut previous = app.minimum.0.clone();
    for report in reports {
        if let Some(h) = &report.1 {
            improved.push(h.0.clone());
        }
        app.handle(report);
        // Non-increasing over time...
        assert!(!is_less(&previous, &app.minimum.0));
        previous = app.minimum.0.clone();
        // ...and never above any improvement received so far.
        for d in &improved {
            assert!(!is_less(d, &app.minimum.0));
        }
    }
    assert_eq!(app.minimum.0, digest(3));
    assert_eq!(app.minimum.1, "D");
}
