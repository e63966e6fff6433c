use deskwidgets::adapter::{native_stacking, surface_mode, NativeStacking, Platform, StackLevel};
use deskwidgets::commands::{command_outcome, shell_invocation};
use deskwidgets::config::WidgetConfig;
use deskwidgets::lifecycle::WindowManager;
use deskwidgets::packages::{package_dir_name, package_type};
use deskwidgets::passthrough::{InputGate, Point};
use deskwidgets::stats::{memory_usage, ProcessSample};

fn config(id: &str, x: i32, background: bool) -> WidgetConfig {
    WidgetConfig::with_defaults(id.to_string(), "clock".to_string(), Some(x), Some(0), Some(100), Some(100), Some(background))
}

#[test]
fn package_names() {
    assert_eq!(package_type("clock.widget", true), Some("clock".to_string()));
    assert_eq!(package_type("clock.widget", false), None);
    assert_eq!(package_type("clock", true), None);
    assert_eq!(package_type("clock.widgets", true), None);
    assert_eq!(package_type(".widget", true), Some(String::new()));
    assert_eq!(package_type("a.widget.b.widget", true), Some("a.b".to_string()));
    assert_eq!(package_type("ünï.widget", true), Some("ünï".to_string()));
    assert_eq!(package_dir_name("clock"), "clock.widget");
}

#[test]
fn shell_invocations() {
    let w = shell_invocation("dir", true);
    assert_eq!(w.program, "cmd");
    assert_eq!(w.args, vec!["/C".to_string(), "dir".to_string()]);
    let u = shell_invocation("ls -l", false);
    assert_eq!(u.program, "sh");
    assert_eq!(u.args, vec!["-c".to_string(), "ls -l".to_string()]);
}

#[test]
fn command_outcomes() {
    assert_eq!(command_outcome(true, "out".to_string(), "err".to_string()), Ok("out".to_string()));
    assert_eq!(command_outcome(false, "out".to_string(), "err".to_string()), Err("err".to_string()));
}

#[test]
fn memory_totals() {
    let samples = vec![
        ProcessSample { pid: 7, parent: Some(1), memory: 1048576 * 3 },
        ProcessSample { pid: 8, parent: Some(7), memory: 1048576 * 2 },
        ProcessSample { pid: 9, parent: Some(7), memory: 1048576 / 2 + 1048576 },
        ProcessSample { pid: 10, parent: None, memory: 1048576 * 50 },
        ProcessSample { pid: 11, parent: Some(8), memory: 1048576 * 9 },
    ];
    let usage = memory_usage(7, 1048576 * 3 + 1048576 / 2, &samples);
    assert_eq!(usage.main_mib, 3);
    assert_eq!(usage.renderer_mib, 3);
    assert_eq!(usage.total_mib, 7);
    let empty = memory_usage(7, 0, &Vec::new());
    assert_eq!((empty.main_mib, empty.renderer_mib, empty.total_mib), (0, 0, 0));
    let big = vec![ProcessSample { pid: 2, parent: Some(1), memory: u64::MAX }; 3];
    let usage = memory_usage(1, u64::MAX, &big);
    assert_eq!(usage.total_mib, (4 * (u64::MAX as u128)) / 1048576);
}

#[test]
fn stacking_degrades_per_platform() {
    assert_eq!(native_stacking(Platform::DesktopLevel, StackLevel::Desktop), NativeStacking::DesktopWindowLevel);
    assert_eq!(native_stacking(Platform::LegacyDesktop, StackLevel::Desktop), NativeStacking::AlwaysBelow);
    assert_eq!(native_stacking(Platform::Compositor, StackLevel::Desktop), NativeStacking::AlwaysBelow);
    assert_eq!(native_stacking(Platform::Fallback, StackLevel::Desktop), NativeStacking::Unchanged);
    assert_eq!(native_stacking(Platform::Compositor, StackLevel::Floating), NativeStacking::AlwaysOnTop);
    assert_eq!(native_stacking(Platform::DesktopLevel, StackLevel::Normal), NativeStacking::Unchanged);
    let bg = surface_mode(true, true, false);
    assert_eq!(bg.level, StackLevel::Desktop);
    assert!(bg.all_workspaces && bg.ignore_input);
}

#[test]
fn gate_drives_background_surfaces() {
    let mut manager = WindowManager::new();
    manager.commit_add(config("a", 0, true), Ok(())).unwrap();
    manager.commit_add(config("b", 200, true), Ok(())).unwrap();
    manager.commit_add(config("c", 400, false), Ok(())).unwrap();
    let rects = manager.rects();
    let mut gate = InputGate::new(true);
    assert_eq!(gate.tick(Some(Point { x: 10000, y: 10000 }), &rects), None);
    assert!(manager.apply_input_ignoring(true).is_empty());
    assert!(manager.mode_of(&"a".to_string()).unwrap().ignore_input);
    assert!(manager.mode_of(&"b".to_string()).unwrap().ignore_input);

    let change = gate.tick(Some(Point { x: 50, y: 50 }), &rects).expect("one change");
    assert!(!change);
    let ids = manager.apply_input_ignoring(change);
    assert_eq!(ids, vec!["a".to_string(), "b".to_string()]);
    assert!(!manager.mode_of(&"a".to_string()).unwrap().ignore_input);
    assert!(!manager.mode_of(&"c".to_string()).unwrap().ignore_input);
    assert!(manager.apply_input_ignoring(false).is_empty());

    let back = gate.tick(Some(Point { x: 10000, y: 10000 }), &rects).expect("one change");
    assert!(back);
    assert_eq!(manager.apply_input_ignoring(back).len(), 2);
    assert!(!manager.mode_of(&"c".to_string()).unwrap().ignore_input);
}
