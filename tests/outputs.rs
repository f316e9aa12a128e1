use sway_mirror::outputs::{Output, OutputEvent, OutputManager};

fn named(m: &mut OutputManager<u8>, id: u32, name: &str) {
    m.handle_event(id, OutputEvent::Name { name: name.to_string() });
}

#[test]
fn new_output_is_empty() {
    let o = Output::new(7, 'h');
    assert_eq!(o.name, "");
    assert_eq!(o.description, "");
    assert_eq!((o.width, o.height, o.refresh, o.x, o.y, o.scale), (0, 0, 0, 0, 0, 1));
    assert_eq!(o.wl_output, 'h');
    assert_eq!(o.global_name, 7);
}

#[test]
fn empty_extension_name_keeps_base_name() {
    let mut m: OutputManager<u8> = OutputManager::new();
    m.add_output(3, 0);
    named(&mut m, 3, "DP-7");
    m.handle_event(3, OutputEvent::XdgName { name: String::new() });
    assert_eq!(m.get_by_name("DP-7").unwrap().global_name, 3);
}

#[test]
fn non_empty_extension_name_overrides() {
    let mut m: OutputManager<u8> = OutputManager::new();
    m.add_output(3, 0);
    named(&mut m, 3, "DP-7");
    m.handle_event(3, OutputEvent::XdgName { name: "HDMI-A-1".to_string() });
    assert!(m.get_by_name("DP-7").is_none());
    assert_eq!(m.get_by_name("HDMI-A-1").unwrap().global_name, 3);
}

#[test]
fn property_events_update_matching_output() {
    let mut m: OutputManager<u8> = OutputManager::new();
    m.add_output(1, 10);
    m.add_output(2, 20);
    m.handle_event(2, OutputEvent::Mode { current: true, width: 2560, height: 1440, refresh: 59951 });
    m.handle_event(2, OutputEvent::Mode { current: false, width: 640, height: 480, refresh: 60000 });
    m.handle_event(2, OutputEvent::Scale { factor: 2 });
    m.handle_event(2, OutputEvent::Description { description: "Philips PHL 276E8V".to_string() });
    m.handle_event(2, OutputEvent::LogicalPosition { x: 1920, y: 0 });
    named(&mut m, 2, "DP-2");
    m.handle_event(9, OutputEvent::Scale { factor: 3 });
    let o = m.get_by_name("DP-2").unwrap();
    assert_eq!((o.width, o.height, o.refresh), (2560, 1440, 59951));
    assert_eq!((o.x, o.y, o.scale), (1920, 0, 2));
    assert_eq!(o.description, "Philips PHL 276E8V");
    assert_eq!(o.wl_output, 20);
    let all = m.list();
    assert_eq!(all.len(), 2);
    assert_eq!(all[0].global_name, 1);
    assert_eq!(all[0].scale, 1);
}

#[test]
fn lookup_is_exact_and_case_sensitive() {
    let mut m: OutputManager<u8> = OutputManager::new();
    m.add_output(1, 0);
    named(&mut m, 1, "eDP-1");
    assert!(m.get_by_name("edp-1").is_none());
    assert!(m.get_by_name("eDP-").is_none());
    assert!(m.get_by_name("eDP-1").is_some());
}

#[test]
fn re_announced_output_replaces_entry() {
    let mut m: OutputManager<u8> = OutputManager::new();
    m.add_output(4, 1);
    named(&mut m, 4, "DP-1");
    m.add_output(4, 2);
    let all = m.list();
    assert_eq!(all.len(), 1);
    assert_eq!(all[0].name, "");
    assert_eq!(all[0].wl_output, 2);
}

#[test]
fn targets_default_to_all_but_source() {
    let mut m: OutputManager<u8> = OutputManager::new();
    for (id, name) in [(1u32, "eDP-1"), (2, "DP-1"), (3, "DP-2")].iter() {
        m.add_output(*id, 0);
        named(&mut m, *id, name);
    }
    let t = m.select_targets("eDP-1", &vec![]);
    let names: Vec<&str> = t.iter().map(|o| o.name.as_str()).collect();
    assert_eq!(names, vec!["DP-1", "DP-2"]);
}

#[test]
fn targets_follow_requested_names() {
    let mut m: OutputManager<u8> = OutputManager::new();
    for (id, name) in [(1u32, "eDP-1"), (2, "DP-1"), (3, "DP-2")].iter() {
        m.add_output(*id, 0);
        named(&mut m, *id, name);
    }
    let to = vec!["DP-2".to_string(), "missing".to_string(), "DP-1".to_string()];
    let t = m.select_targets("eDP-1", &to);
    let ids: Vec<u32> = t.iter().map(|o| o.global_name).collect();
    assert_eq!(ids, vec![3, 2]);
    let none = m.select_targets("eDP-1", &vec!["nope".to_string()]);
    assert!(none.is_empty());
}

#[test]
fn base_name_after_extension_name_does_not_override() {
    let mut m: OutputManager<u8> = OutputManager::new();
    m.add_output(3, 0);
    m.handle_event(3, OutputEvent::XdgName { name: "HDMI-A-1".to_string() });
    named(&mut m, 3, "DP-7");
    assert!(m.get_by_name("DP-7").is_none());
    assert_eq!(m.get_by_name("HDMI-A-1").unwrap().global_name, 3);
    assert!(m.list()[0].xdg_named);
}

#[test]
fn base_name_after_empty_extension_name_applies() {
    let mut m: OutputManager<u8> = OutputManager::new();
    m.add_output(3, 0);
    m.handle_event(3, OutputEvent::XdgName { name: String::new() });
    named(&mut m, 3, "DP-7");
    assert_eq!(m.get_by_name("DP-7").unwrap().global_name, 3);
}
