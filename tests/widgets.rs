use deskwidgets::adapter::{surface_mode, StackLevel, SurfaceMode};
use deskwidgets::config::WidgetConfig;
use deskwidgets::error::WidgetError;
use deskwidgets::geometry::{over_widget, WidgetRect};
use deskwidgets::lifecycle::{window_label, WindowManager};
use deskwidgets::passthrough::{InputGate, Point};
use deskwidgets::registry::Registry;

fn config(id: &str, x: i32, y: i32, width: i32, height: i32, background: bool) -> WidgetConfig {
    WidgetConfig::with_defaults(
        id.to_string(),
        "clock".to_string(),
        Some(x),
        Some(y),
        Some(width),
        Some(height),
        Some(background),
    )
}

fn add(manager: &mut WindowManager, kind: &str, x: Option<i32>, y: Option<i32>, w: Option<i32>, h: Option<i32>, bg: Option<bool>) -> WidgetConfig {
    let request = manager.plan_add(kind.to_string(), x, y, w, h, bg).expect("fresh id");
    let copy = request.config.duplicate();
    manager.commit_add(request.config, Ok(())).expect("added");
    copy
}

#[test]
fn add_clock_in_foreground() {
    let mut manager = WindowManager::new();
    let request = manager
        .plan_add("clock".to_string(), Some(50), Some(50), Some(200), Some(100), Some(false))
        .expect("fresh id");
    assert_eq!(request.mode.level, StackLevel::Normal);
    assert!(!request.mode.ignore_input);
    let id = request.config.id.clone();
    manager.commit_add(request.config, Ok(())).expect("added");
    let list = manager.list();
    assert_eq!(list.len(), 1);
    let c = &list[0];
    assert_eq!(c.id, id);
    assert_eq!(c.kind, "clock");
    assert_eq!((c.x, c.y, c.width, c.height), (50, 50, 200, 100));
    assert!(!c.background);
    let mode = manager.mode_of(&id).expect("surface");
    assert!(!mode.ignore_input);
    assert_eq!(c.rect(), WidgetRect { x: 50, y: 50, width: 200, height: 100 });
}

#[test]
fn add_uses_defaults() {
    let mut manager = WindowManager::new();
    let c = add(&mut manager, "notes", None, None, None, None, None);
    assert_eq!((c.x, c.y, c.width, c.height), (100, 100, 300, 200));
    assert!(c.background);
    assert_eq!(c.id.len(), 36);
    let mode = manager.mode_of(&c.id).expect("surface");
    assert_eq!(mode, SurfaceMode { level: StackLevel::Desktop, all_workspaces: true, ignore_input: true });
}

#[test]
fn added_ids_differ() {
    let mut manager = WindowManager::new();
    let a = add(&mut manager, "clock", None, None, None, None, None);
    let b = add(&mut manager, "clock", None, None, None, None, None);
    assert_ne!(a.id, b.id);
    assert_eq!(manager.list().len(), 2);
}

#[test]
fn duplicate_id_is_refused() {
    let mut manager = WindowManager::new();
    assert!(manager.commit_add(config("a", 0, 0, 10, 10, true), Ok(())).is_ok());
    let r = manager.commit_add(config("a", 5, 5, 10, 10, true), Ok(()));
    assert!(matches!(r, Err(WidgetError::DuplicateId)));
    assert!(matches!(
        manager.plan_add_with_id("a".to_string(), "clock".to_string(), None, None, None, None, None),
        Err(WidgetError::DuplicateId)
    ));
    assert_eq!(manager.list().len(), 1);
    assert_eq!(manager.list()[0].x, 0);
}

#[test]
fn failed_creation_leaves_registry_unchanged() {
    let mut manager = WindowManager::new();
    let r = manager.commit_add(config("a", 0, 0, 10, 10, true), Err("no display".to_string()));
    match r {
        Err(WidgetError::WindowCreationFailure(m)) => assert_eq!(m, "no display"),
        _ => panic!("expected a creation failure"),
    }
    assert!(manager.list().is_empty());
    assert!(manager.mode_of(&"a".to_string()).is_none());
}

#[test]
fn remove_twice_is_a_no_op() {
    let mut manager = WindowManager::new();
    manager.commit_add(config("a", 0, 0, 10, 10, true), Ok(())).unwrap();
    manager.commit_add(config("b", 20, 0, 10, 10, true), Ok(())).unwrap();
    assert!(manager.remove(&"a".to_string()));
    let after_first = manager.list();
    assert!(!manager.remove(&"a".to_string()));
    let after_second = manager.list();
    assert_eq!(after_first.len(), 1);
    assert_eq!(after_second.len(), 1);
    assert_eq!(after_second[0].id, "b");
    assert!(manager.mode_of(&"a".to_string()).is_none());
    assert!(manager.mode_of(&"b".to_string()).is_some());
    assert!(!manager.remove(&"zzz".to_string()));
}

#[test]
fn update_replaces_known_entry_only() {
    let mut manager = WindowManager::new();
    manager.commit_add(config("a", 0, 0, 10, 10, true), Ok(())).unwrap();
    assert!(manager.update(config("a", 7, 8, 9, 10, true)).is_some());
    assert_eq!(manager.list()[0].x, 7);
    assert!(manager.update(config("b", 1, 1, 1, 1, true)).is_none());
    assert_eq!(manager.list().len(), 1);
}

#[test]
fn set_background_twice_is_stable() {
    let mut manager = WindowManager::new();
    manager.commit_add(config("a", 0, 0, 10, 10, true), Ok(())).unwrap();
    let id = "a".to_string();
    let first = manager.set_background(&id, false).expect("known");
    assert_eq!(first.level, StackLevel::Normal);
    assert!(!first.ignore_input);
    let second = manager.set_background(&id, false).expect("known");
    assert_eq!(first, second);
    assert!(!manager.list()[0].background);
    let back = manager.set_background(&id, true).expect("known");
    assert_eq!(back, SurfaceMode { level: StackLevel::Desktop, all_workspaces: true, ignore_input: true });
    assert!(manager.set_background(&"x".to_string(), true).is_none());
}

#[test]
fn restore_replaces_everything() {
    let mut manager = WindowManager::new();
    manager.commit_add(config("old", 0, 0, 10, 10, true), Ok(())).unwrap();
    manager.commit_add(config("b", 0, 0, 10, 10, true), Ok(())).unwrap();
    let list = vec![config("a", 1, 2, 3, 4, false), config("b", 5, 6, 7, 8, true)];
    let stale = manager.restore(list, vec![true, true]).expect("unique ids");
    assert_eq!(stale, vec!["old".to_string()]);
    let now = manager.list();
    assert_eq!(now.len(), 2);
    assert_eq!(now[0].id, "a");
    assert_eq!((now[0].x, now[0].y, now[0].width, now[0].height), (1, 2, 3, 4));
    assert!(!now[0].background);
    assert_eq!(now[1].id, "b");
    assert_eq!((now[1].x, now[1].y, now[1].width, now[1].height), (5, 6, 7, 8));
    assert!(manager.mode_of(&"a".to_string()).is_some());
    assert!(manager.mode_of(&"b".to_string()).is_some());
    assert!(manager.mode_of(&"old".to_string()).is_none());
}

#[test]
fn restore_keeps_only_created_surfaces() {
    let mut manager = WindowManager::new();
    let list = vec![config("a", 1, 2, 3, 4, false), config("b", 5, 6, 7, 8, true)];
    let stale = manager.restore(list, vec![false, true]).expect("unique ids");
    assert!(stale.is_empty());
    let now = manager.list();
    assert_eq!(now.len(), 1);
    assert_eq!(now[0].id, "b");
}

#[test]
fn restore_with_repeated_id_is_refused() {
    let mut manager = WindowManager::new();
    manager.commit_add(config("keep", 0, 0, 10, 10, true), Ok(())).unwrap();
    let list = vec![config("a", 1, 2, 3, 4, false), config("a", 5, 6, 7, 8, true)];
    assert!(matches!(manager.restore(list, vec![true, true]), Err(WidgetError::DuplicateId)));
    assert_eq!(manager.list().len(), 1);
    assert_eq!(manager.list()[0].id, "keep");
}

#[test]
fn hit_test_includes_boundary() {
    let rects = vec![WidgetRect { x: 10, y: 10, width: 100, height: 50 }];
    assert!(over_widget(10, 10, &rects));
    assert!(over_widget(110, 60, &rects));
    assert!(over_widget(50, 30, &rects));
    assert!(!over_widget(111, 30, &rects));
    assert!(!over_widget(9, 30, &rects));
    assert!(!over_widget(50, 61, &rects));
    assert!(!over_widget(0, 0, &Vec::new()));
}

#[test]
fn hit_test_at_extremes_does_not_overflow() {
    let rects = vec![WidgetRect { x: i32::MAX - 1, y: i32::MAX - 1, width: i32::MAX, height: i32::MAX }];
    assert!(over_widget(i32::MAX, i32::MAX, &rects));
    assert!(!over_widget(i32::MIN, 0, &rects));
}

#[test]
fn cursor_far_away_issues_nothing() {
    let mut manager = WindowManager::new();
    add(&mut manager, "clock", Some(0), Some(0), Some(100), Some(100), Some(true));
    add(&mut manager, "notes", Some(200), Some(0), Some(100), Some(100), Some(true));
    let rects = manager.rects();
    let mut gate = InputGate::new(true);
    assert_eq!(gate.tick(Some(Point { x: 10000, y: 10000 }), &rects), None);
    assert!(gate.ignoring());
}

#[test]
fn entering_and_leaving_issue_one_change_each() {
    let rects = vec![WidgetRect { x: 0, y: 0, width: 100, height: 100 }];
    let mut gate = InputGate::new(true);
    assert_eq!(gate.tick(Some(Point { x: 500, y: 500 }), &rects), None);
    assert_eq!(gate.tick(Some(Point { x: 50, y: 50 }), &rects), Some(false));
    assert_eq!(gate.tick(Some(Point { x: 60, y: 60 }), &rects), None);
    assert_eq!(gate.tick(Some(Point { x: 500, y: 50 }), &rects), Some(true));
    assert_eq!(gate.tick(Some(Point { x: 600, y: 50 }), &rects), None);
}

#[test]
fn staying_inside_issues_one_change() {
    let rects = vec![WidgetRect { x: 0, y: 0, width: 100, height: 100 }];
    let path: Vec<Option<Point>> = (0..20).map(|i| Some(Point { x: 10 + i, y: 10 })).collect();
    let mut gate = InputGate::new(true);
    assert_eq!(gate.run_path(&path, &rects), vec![false]);
    assert!(!gate.ignoring());
}

#[test]
fn unreadable_cursor_skips_tick() {
    let rects = vec![WidgetRect { x: 0, y: 0, width: 100, height: 100 }];
    let mut gate = InputGate::new(true);
    assert_eq!(gate.tick(None, &rects), None);
    assert!(gate.ignoring());
    let path = vec![Some(Point { x: 1, y: 1 }), None, Some(Point { x: 1000, y: 1 })];
    assert_eq!(gate.run_path(&path, &rects), vec![false, true]);
}

#[test]
fn labels_and_modes() {
    assert_eq!(window_label(&"abc".to_string()), "widget-abc");
    let m = surface_mode(false, true, true);
    assert_eq!(m, SurfaceMode { level: StackLevel::Floating, all_workspaces: true, ignore_input: false });
}

#[test]
fn registry_operations() {
    let mut registry = Registry::new();
    assert!(registry.add(config("a", 0, 0, 1, 1, true)).is_ok());
    assert!(registry.add(config("a", 0, 0, 1, 1, true)).is_err());
    assert!(registry.contains(&"a".to_string()));
    assert_eq!(registry.find(&"a".to_string()), Some(0));
    assert!(registry.get(&"b".to_string()).is_none());
    assert!(registry.set_background(&"a".to_string(), false));
    assert!(!registry.get(&"a".to_string()).unwrap().background);
    assert_eq!(registry.rects(), vec![WidgetRect { x: 0, y: 0, width: 1, height: 1 }]);
    assert!(registry.remove(&"a".to_string()));
    assert_eq!(registry.len(), 0);
}

#[test]
fn update_out_of_background_takes_input() {
    let mut manager = WindowManager::new();
    manager.commit_add(config("a", 0, 0, 100, 100, true), Ok(())).unwrap();
    assert!(manager.mode_of(&"a".to_string()).unwrap().ignore_input);
    let mode = manager.update(config("a", 0, 0, 100, 100, false)).expect("known");
    assert_eq!(mode, SurfaceMode { level: StackLevel::Normal, all_workspaces: false, ignore_input: false });
    assert_eq!(manager.mode_of(&"a".to_string()), Some(mode));
    let rects = manager.rects();
    let mut gate = InputGate::new(true);
    assert_eq!(gate.tick(Some(Point { x: 50, y: 50 }), &rects), Some(false));
    assert!(manager.apply_input_ignoring(false).is_empty());
    assert!(!manager.mode_of(&"a".to_string()).unwrap().ignore_input);
    let back = manager.update(config("a", 0, 0, 100, 100, true)).expect("known");
    assert!(back.ignore_input);
    assert_eq!(manager.apply_input_ignoring(false), vec!["a".to_string()]);
}
