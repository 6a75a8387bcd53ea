use vault::window::{make_field_path, DbFields, Debounce, WindowRegistry};

#[test]
fn field_paths() {
    assert_eq!(make_field_path(3, &DbFields::Title), "3-Title");
    assert_eq!(make_field_path(0, &DbFields::Id), "0-Id");
    assert_eq!(make_field_path(42, &DbFields::Fields(12)), "42-Fields(12)");
}

#[test]
fn registry_open_close() {
    let mut r = WindowRegistry::empty();
    assert!(!r.is_open("a"));
    r.register("a".to_string(), 10);
    r.register("b".to_string(), 11);
    r.register("c".to_string(), 12);
    assert!(r.is_open("b"));
    assert_eq!(r.closing("b"), Some(11));
    assert!(!r.is_open("b"));
    assert_eq!(r.closing("b"), None);
    assert_eq!(r.close_all(), vec![12, 10]);
    assert!(!r.is_open("a"));
}

#[test]
fn debounce_runs_last_call_only() {
    let mut d = Debounce::default();
    assert_eq!(d.duration_ms, 100);
    let t1 = d.ticket();
    let t2 = d.ticket();
    assert_eq!((t1, t2), (1, 2));
    assert!(!d.fire(t1));
    assert!(d.fire(t2));
    assert_eq!(d.counter, 0);
}
