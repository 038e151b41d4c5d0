use centerpiece::apps::{get_applications_group, select_desktop_paths, to_list_item, DesktopFile};
use centerpiece::clock::{clock_entries, local_now, ClockPlugin, ClockTime};
use centerpiece::controller::Controller;
use centerpiece::filter::search_entries;
use centerpiece::git::GitRepositoriesPlugin;
use centerpiece::mailbox::Mailbox;
use centerpiece::model::{ControllerMessage, Entry, PluginRequest};
use centerpiece::worker::PluginWorker;

fn entry(id: &str, title: &str, action: &str, meta: &str) -> Entry {
    Entry {
        id: id.to_string(),
        title: title.to_string(),
        action: action.to_string(),
        meta: meta.to_string(),
    }
}

fn sample_entries() -> Vec<Entry> {
    vec![
        entry("a", "Firefox", "open", "App"),
        entry("b", "Files", "open", "App"),
        entry("c", "14:05:30", "", "Clock Time"),
        entry("d", "Terminal", "open", "App"),
    ]
}

#[test]
fn filter_matches_title_case_insensitively() {
    let r = search_entries(&sample_entries(), "fIrE");
    assert_eq!(r.len(), 1);
    assert_eq!(r[0].id, "a");
}

#[test]
fn filter_matches_meta_case_insensitively() {
    let r = search_entries(&sample_entries(), "clock t");
    assert_eq!(r.len(), 1);
    assert_eq!(r[0].id, "c");
}

#[test]
fn filter_empty_query_returns_all_unchanged() {
    let r = search_entries(&sample_entries(), "");
    assert_eq!(r.len(), 4);
    let ids: Vec<&str> = r.iter().map(|e| e.id.as_str()).collect();
    assert_eq!(ids, vec!["a", "b", "c", "d"]);
}

#[test]
fn filter_preserves_relative_order() {
    let r = search_entries(&sample_entries(), "fi");
    let ids: Vec<&str> = r.iter().map(|e| e.id.as_str()).collect();
    assert_eq!(ids, vec!["a", "b"]);
}

#[test]
fn filter_no_match_returns_empty() {
    let r = search_entries(&sample_entries(), "zzz");
    assert_eq!(r.len(), 0);
}

#[test]
fn mailbox_is_bounded_and_fifo() {
    let mut m = Mailbox::new(2);
    assert!(m.try_send(PluginRequest::Search("a".to_string())));
    assert!(m.try_send(PluginRequest::Search("b".to_string())));
    assert!(!m.try_send(PluginRequest::Search("c".to_string())));
    match m.try_recv() {
        Some(PluginRequest::Search(q)) => assert_eq!(q, "a"),
        _ => panic!("expected the oldest request first"),
    }
    match m.try_recv() {
        Some(PluginRequest::Search(q)) => assert_eq!(q, "b"),
        _ => panic!("expected the second request next"),
    }
    assert!(m.try_recv().is_none());
}

fn worker_with(entries: Vec<Entry>) -> PluginWorker {
    PluginWorker::new("test".to_string(), 10, "Test".to_string(), entries)
}

#[test]
fn search_emits_clear_then_filtered_appends() {
    let mut w = worker_with(sample_entries());
    let out = w.on_search("fi".to_string());
    assert_eq!(out.len(), 3);
    match &out[0] {
        ControllerMessage::Clear { plugin_id } => assert_eq!(plugin_id, "test"),
        _ => panic!("expected a leading Clear"),
    }
    match &out[1] {
        ControllerMessage::AppendEntry { plugin_id, entry } => {
            assert_eq!(plugin_id, "test");
            assert_eq!(entry.id, "a");
        },
        _ => panic!("expected AppendEntry"),
    }
    match &out[2] {
        ControllerMessage::AppendEntry { entry, .. } => assert_eq!(entry.id, "b"),
        _ => panic!("expected AppendEntry"),
    }
}

#[test]
fn search_twice_emits_identical_sequences() {
    let mut w = worker_with(sample_entries());
    let first = w.on_search("fi".to_string());
    let second = w.on_search("fi".to_string());
    assert_eq!(first.len(), second.len());
    for (a, b) in first.iter().zip(second.iter()) {
        match (a, b) {
            (
                ControllerMessage::Clear { plugin_id: p1 },
                ControllerMessage::Clear { plugin_id: p2 },
            ) => assert_eq!(p1, p2),
            (
                ControllerMessage::AppendEntry { plugin_id: p1, entry: e1 },
                ControllerMessage::AppendEntry { plugin_id: p2, entry: e2 },
            ) => {
                assert_eq!(p1, p2);
                assert_eq!(e1.id, e2.id);
                assert_eq!(e1.title, e2.title);
            },
            _ => panic!("sequences differ in shape"),
        }
    }
}

#[test]
fn timeout_refreshes_entries_and_reapplies_last_query() {
    let mut w = worker_with(sample_entries());
    let _ = w.on_search("termi".to_string());
    let fresh = vec![entry("d", "Terminal II", "open", "App"), entry("e", "Editor", "open", "App")];
    let out = w.on_timeout(fresh);
    assert_eq!(out.len(), 2);
    match &out[1] {
        ControllerMessage::AppendEntry { entry, .. } => assert_eq!(entry.title, "Terminal II"),
        _ => panic!("expected the refreshed entry to match the stored query"),
    }
}

#[test]
fn activate_unknown_id_is_a_silent_noop() {
    let mut w = worker_with(sample_entries());
    let (out, activated) = w.handle_request(
        PluginRequest::Activate("missing".to_string()),
        Vec::new(),
    );
    assert!(out.is_empty());
    assert!(activated.is_none());
}

#[test]
fn activate_known_id_finds_the_entry() {
    let mut w = worker_with(sample_entries());
    let (out, activated) = w.handle_request(PluginRequest::Activate("c".to_string()), Vec::new());
    assert!(out.is_empty());
    assert_eq!(activated, Some(2));
}

#[test]
fn registration_keeps_priority_order_with_ties_by_arrival() {
    let mut c = Controller::new();
    assert!(c.handle_register(
        "git".to_string(),
        28,
        "Git".to_string(),
        vec![entry("g1", "repo", "focus", "windows")]
    ));
    assert!(c.handle_register(
        "clock".to_string(),
        10,
        "Clock".to_string(),
        vec![entry("t1", "14:05:30", "", "Clock Time")]
    ));
    assert!(c.handle_register(
        "windows".to_string(),
        28,
        "Windows".to_string(),
        vec![entry("w1", "editor", "focus", "windows")]
    ));
    let merged = c.merged_entries();
    let ids: Vec<&str> = merged.iter().map(|e| e.id.as_str()).collect();
    assert_eq!(ids, vec!["t1", "g1", "w1"]);
}

#[test]
fn duplicate_registration_is_rejected() {
    let mut c = Controller::new();
    assert!(c.handle_register("clock".to_string(), 10, "Clock".to_string(), Vec::new()));
    assert!(!c.handle_register("clock".to_string(), 7, "Clock II".to_string(), Vec::new()));
    assert_eq!(c.plugin_count(), 1);
}

#[test]
fn search_reaches_every_registered_plugin() {
    let mut c = Controller::new();
    assert!(c.handle_register("clock".to_string(), 10, "Clock".to_string(), Vec::new()));
    assert!(c.handle_register("git".to_string(), 28, "Git".to_string(), Vec::new()));
    c.search("a".to_string());
    for i in 0..2 {
        match c.take_request(i) {
            Some(PluginRequest::Search(q)) => assert_eq!(q, "a"),
            _ => panic!("plugin {} did not receive the search", i),
        }
    }
}

#[test]
fn clear_and_append_update_the_owning_plugin_only() {
    let mut c = Controller::new();
    assert!(c.handle_register(
        "clock".to_string(),
        10,
        "Clock".to_string(),
        vec![entry("t1", "14:05:30", "", "Clock Time")]
    ));
    assert!(c.handle_register(
        "git".to_string(),
        28,
        "Git".to_string(),
        vec![entry("g1", "repo", "focus", "windows")]
    ));
    c.handle_clear(&"clock".to_string());
    c.handle_append(&"clock".to_string(), entry("t2", "14:05:31", "", "Clock Time"));
    c.handle_append(&"unknown".to_string(), entry("x", "dropped", "", ""));
    let merged = c.merged_entries();
    let ids: Vec<&str> = merged.iter().map(|e| e.id.as_str()).collect();
    assert_eq!(ids, vec!["t2", "g1"]);
}

#[test]
fn navigation_wraps_both_ways() {
    let mut c = Controller::new();
    assert!(c.handle_register(
        "p".to_string(),
        10,
        "P".to_string(),
        vec![
            entry("a", "one", "", ""),
            entry("b", "two", "", ""),
            entry("c", "three", "", "")
        ]
    ));
    assert_eq!(c.active_entry_index, 0);
    c.navigate_up();
    assert_eq!(c.active_entry_index, 2);
    c.navigate_down();
    assert_eq!(c.active_entry_index, 0);
    c.navigate_down();
    assert_eq!(c.active_entry_index, 1);
    c.navigate_up();
    assert_eq!(c.active_entry_index, 0);
}

#[test]
fn navigating_an_empty_list_stays_at_zero() {
    let mut c = Controller::new();
    c.navigate_up();
    assert_eq!(c.active_entry_index, 0);
    c.navigate_down();
    assert_eq!(c.active_entry_index, 0);
    assert!(c.active_entry_id().is_none());
}

#[test]
fn activation_is_routed_to_the_owning_plugin() {
    let mut c = Controller::new();
    assert!(c.handle_register(
        "clock".to_string(),
        10,
        "Clock".to_string(),
        vec![entry("t1", "14:05:30", "", "Clock Time")]
    ));
    assert!(c.handle_register(
        "git".to_string(),
        28,
        "Git".to_string(),
        vec![entry("g1", "repo", "focus", "windows")]
    ));
    c.navigate_down();
    assert_eq!(c.active_entry_id(), Some("g1".to_string()));
    let owner = c.activate();
    assert_eq!(owner, Some(1));
    assert!(c.take_request(0).is_none());
    match c.take_request(1) {
        Some(PluginRequest::Activate(id)) => assert_eq!(id, "g1"),
        _ => panic!("the owning plugin did not receive the activation"),
    }
}

#[test]
fn exit_message_is_advisory_and_reported() {
    let mut c = Controller::new();
    assert!(!c.handle_message(ControllerMessage::Clear { plugin_id: "p".to_string() }));
    assert!(c.handle_message(ControllerMessage::Exit));
}

#[test]
fn clock_emits_exactly_two_entries_for_a_simulated_instant() {
    let t = ClockTime { year: 2024, month: 6, day: 14, weekday: 4, hour: 14, minute: 5, second: 30 };
    let entries = clock_entries(&t);
    assert_eq!(entries.len(), 2);
    assert_eq!(entries[0].id, "time-entry");
    assert_eq!(entries[0].title, "14:05:30");
    assert_eq!(entries[0].meta, "Clock Time");
    assert_eq!(entries[1].id, "date");
    assert_eq!(entries[1].title, "Friday, 14. June 2024");
    assert_eq!(entries[1].meta, "Clock Date");
}

#[test]
fn clock_pads_single_digit_days_with_a_space() {
    let t = ClockTime { year: 2023, month: 6, day: 5, weekday: 0, hour: 0, minute: 0, second: 0 };
    let entries = clock_entries(&t);
    assert_eq!(entries[0].title, "00:00:00");
    assert_eq!(entries[1].title, "Monday,  5. June 2023");
}

#[test]
fn clock_timeout_advances_time_and_reapplies_query() {
    let t1 = ClockTime { year: 2024, month: 6, day: 14, weekday: 4, hour: 14, minute: 5, second: 30 };
    let mut plugin = ClockPlugin::new(&t1);
    let _ = plugin.worker.on_search("14:05".to_string());
    let t2 = ClockTime { second: 31, ..t1 };
    let out = plugin.worker.on_timeout(clock_entries(&t2));
    assert_eq!(out.len(), 2);
    match &out[1] {
        ControllerMessage::AppendEntry { plugin_id, entry } => {
            assert_eq!(plugin_id, "clock");
            assert_eq!(entry.title, "14:05:31");
        },
        _ => panic!("expected the refreshed time entry"),
    }
}

#[test]
fn local_now_stays_within_calendar_ranges() {
    let t = local_now();
    assert!(1 <= t.month && t.month <= 12);
    assert!(1 <= t.day && t.day <= 31);
    assert!(t.weekday < 7);
    assert!(t.hour < 24);
    assert!(t.minute < 60);
    assert!(t.second < 60);
}

#[test]
fn git_entries_shorten_home_to_tilde() {
    let paths = vec!["/home/user/project".to_string(), "/srv/repo".to_string()];
    let plugin = GitRepositoriesPlugin::new(&paths, "/home/user");
    let reg = plugin.worker.register_message();
    match reg {
        ControllerMessage::RegisterPlugin { id, priority, entries, .. } => {
            assert_eq!(id, "git-repositories");
            assert_eq!(priority, 28);
            assert_eq!(entries.len(), 2);
            assert_eq!(entries[0].id, "/home/user/project");
            assert_eq!(entries[0].title, "~/project");
            assert_eq!(entries[0].action, "focus");
            assert_eq!(entries[1].title, "/srv/repo");
        },
        _ => panic!("expected a registration message"),
    }
}

#[test]
fn git_activation_spawns_three_tools_then_exits() {
    let paths = vec!["/home/user/project".to_string()];
    let plugin = GitRepositoriesPlugin::new(&paths, "/home/user");
    let cmds = plugin.activate(&"/home/user/project".to_string()).expect("known id");
    assert_eq!(cmds.len(), 3);
    assert_eq!(cmds[0].program, "alacritty");
    assert_eq!(cmds[0].args, vec!["--working-directory", "/home/user/project"]);
    assert_eq!(cmds[1].program, "sublime_text");
    assert_eq!(cmds[2].program, "sublime_merge");
    assert!(plugin.activate(&"/elsewhere".to_string()).is_none());
}

#[test]
fn select_desktop_paths_keeps_only_descriptors() {
    let paths = vec![
        "/usr/share/applications/firefox.desktop".to_string(),
        "/usr/share/applications/README".to_string(),
        "/opt/editor.desktop".to_string(),
    ];
    let r = select_desktop_paths(&paths);
    assert_eq!(
        r,
        vec![
            "/usr/share/applications/firefox.desktop".to_string(),
            "/opt/editor.desktop".to_string()
        ]
    );
}

#[test]
fn to_list_item_parses_a_displayable_application() {
    let contents = "[Desktop Entry]\nName=Firefox\nExec=firefox %u\nType=Application\n";
    let item = to_list_item("/usr/share/applications/firefox.desktop", contents)
        .expect("a displayable application");
    assert_eq!(item.title, "Firefox");
    assert_eq!(item.actions.len(), 1);
    assert_eq!(item.actions[0].keys, vec!["↵"]);
    assert_eq!(item.actions[0].text, "open");
    assert_eq!(item.actions[0].command.program, "sh");
    assert_eq!(item.actions[0].command.args, vec!["-c", "gtk-launch firefox"]);
}

#[test]
fn to_list_item_skips_malformed_or_hidden_descriptors() {
    let no_name = "[Desktop Entry]\nExec=x\nType=Application\n";
    assert!(to_list_item("/a/x.desktop", no_name).is_none());
    let no_exec = "[Desktop Entry]\nName=X\nType=Application\n";
    assert!(to_list_item("/a/x.desktop", no_exec).is_none());
    let hidden = "[Desktop Entry]\nName=X\nExec=x\nHidden=true\nType=Application\n";
    assert!(to_list_item("/a/x.desktop", hidden).is_none());
    let no_display = "[Desktop Entry]\nName=X\nExec=x\nNoDisplay=true\nType=Application\n";
    assert!(to_list_item("/a/x.desktop", no_display).is_none());
    let not_application = "[Desktop Entry]\nName=X\nExec=x\nType=Link\n";
    assert!(to_list_item("/a/x.desktop", not_application).is_none());
}

#[test]
fn to_list_item_requires_a_stem_bearing_path() {
    let good = "[Desktop Entry]\nName=X\nExec=x\nType=Application\n";
    assert!(to_list_item("x.desktop", good).is_none());
    assert!(to_list_item("/a/.desktop", good).is_none());
    assert!(to_list_item("/a/x.desktop", good).is_some());
}

fn desktop_file(path: &str, name: &str) -> DesktopFile {
    DesktopFile {
        path: path.to_string(),
        contents: format!("[Desktop Entry]\nName={}\nExec=run\nType=Application\n", name),
    }
}

#[test]
fn applications_group_is_sorted_and_deduplicated_case_insensitively() {
    let files = vec![
        desktop_file("/a/zed.desktop", "Zed"),
        desktop_file("/a/firefox.desktop", "firefox"),
        desktop_file("/b/firefox.desktop", "Firefox"),
        desktop_file("/a/alacritty.desktop", "Alacritty"),
    ];
    let group = get_applications_group(&files);
    assert_eq!(group.name, "Apps");
    assert_eq!(group.icon, "Rocket");
    let titles: Vec<String> = group
        .items
        .iter()
        .map(|i| i.title.to_lowercase())
        .collect();
    assert_eq!(titles, vec!["alacritty", "firefox", "zed"]);
    // Of the two firefox descriptors, the one later in walk order wins.
    assert_eq!(group.items[1].title, "Firefox");
}
