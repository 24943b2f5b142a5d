use envy_linux::json::{Json, JsonNumber};
use envy_linux::tray::{
    bar_colour, changes_what_shows, click_action, current_eye, enable_step, eye_svg, hide_in_tray,
    hypr_socket, icon_file_name, icon_generation_dir, icon_size_list, icon_theme_index,
    launch_script, parse_hex, parse_hex_would_panic, shell_quote, size_dir_name,
    toml_section_value, tray_menu, visible_titles, widget_placement, ClickAction, EnableStep, Eye,
    MenuAction, MenuEntry, TemplateRef, WindowState,
};

fn to_json(v: &serde_json::Value) -> Json {
    match v {
        serde_json::Value::Null => Json::Null,
        serde_json::Value::Bool(b) => Json::Bool(*b),
        serde_json::Value::Number(n) => {
            if let Some(u) = n.as_u64() {
                Json::Number(JsonNumber::PosInt(u))
            } else if let Some(i) = n.as_i64() {
                Json::Number(JsonNumber::NegInt(i))
            } else {
                Json::Number(JsonNumber::Float(n.to_string()))
            }
        }
        serde_json::Value::String(s) => Json::Str(s.clone()),
        serde_json::Value::Array(a) => Json::Array(a.iter().map(to_json).collect()),
        serde_json::Value::Object(o) => {
            Json::Object(o.iter().map(|(k, v)| (k.clone(), to_json(v))).collect())
        }
    }
}

fn from_json(v: &Json) -> serde_json::Value {
    match v {
        Json::Null => serde_json::Value::Null,
        Json::Bool(b) => serde_json::Value::Bool(*b),
        Json::Number(JsonNumber::PosInt(u)) => serde_json::Value::from(*u),
        Json::Number(JsonNumber::NegInt(i)) => serde_json::Value::from(*i),
        Json::Number(JsonNumber::Float(s)) => serde_json::from_str(s).unwrap(),
        Json::Str(s) => serde_json::Value::String(s.clone()),
        Json::Array(a) => serde_json::Value::Array(a.iter().map(from_json).collect()),
        Json::Object(ms) => {
            let mut map = serde_json::Map::new();
            for (k, v) in ms {
                map.insert(k.clone(), from_json(v));
            }
            serde_json::Value::Object(map)
        }
    }
}

fn parse(text: &str) -> Json {
    to_json(&serde_json::from_str::<serde_json::Value>(text).unwrap())
}

fn window(exists: bool, visible: bool, minimized: bool, title: &str) -> WindowState {
    WindowState { exists, visible, minimized, title: title.to_string() }
}

#[test]
fn reads_bar_text_from_a_shell_toml_section() {
    let text = "[popups]\ntext = \"#111111\"\n[bar]\n# comment\nbackground = \"#000000\"\ntext = \"#ABCDEF\"\n";
    assert_eq!(toml_section_value(text, "bar", "text").as_deref(), Some("#ABCDEF"));
    assert_eq!(parse_hex("#ABCDEF"), Some([0xab, 0xcd, 0xef]));
    assert_eq!(parse_hex("red"), None);
}

#[test]
fn svg_has_the_iris_only_when_the_eye_is_open() {
    assert!(eye_svg(Eye::Open, [0, 0, 0]).contains("<circle"));
    assert!(eye_svg(Eye::Squint, [0, 0, 0]).contains("<circle"));
    assert!(!eye_svg(Eye::Closed, [0, 0, 0]).contains("<circle"));
}

#[test]
fn hide_in_tray_appends_to_the_list_and_keeps_the_rest_verbatim() {
    // Key order and an existing scalar `hidden` (what the shell's IPC path
    // leaves behind) both have to survive.
    let root = parse(
        r#"{"bar":{"layout":{"right":[{"id":"omarchy.tray","hidden":"other"},{"zeta":"x","alpha":"y"}]}},"plugins":[]}"#,
    );
    let edited = hide_in_tray(root).expect("changed");
    let value = from_json(&edited);
    let text = serde_json::to_string_pretty(&value).unwrap() + "\n";
    assert_eq!(
        value.pointer("/bar/layout/right/0/hidden").unwrap(),
        &serde_json::Value::Array(vec![
            serde_json::Value::String("other".into()),
            serde_json::Value::String("envy".into())
        ])
    );
    // Not alphabetical: the file must come back in the order it was written.
    assert!(text.find("\"zeta\"").unwrap() < text.find("\"alpha\"").unwrap(), "key order kept");
    assert!(hide_in_tray(parse(&text)).is_none(), "second run is a no-op");
}

#[test]
fn hide_in_tray_adds_a_missing_list_and_leaves_other_sides() {
    let root = parse(
        r#"{"bar":{"layout":{"left":[{"id":"omarchy.tray"}],"center":[{"id":"clock"}]}}}"#,
    );
    let value = from_json(&hide_in_tray(root).unwrap());
    assert_eq!(
        value.pointer("/bar/layout/left/0/hidden").unwrap(),
        &serde_json::Value::Array(vec![serde_json::Value::String("envy".into())])
    );
    assert!(value.pointer("/bar/layout/center/0/hidden").is_none());
}

#[test]
fn hide_in_tray_with_envy_already_hidden_changes_nothing() {
    let root = parse(r#"{"bar":{"layout":{"right":[{"id":"omarchy.tray","hidden":["envy"]}]}}}"#);
    assert!(hide_in_tray(root).is_none());
    assert!(hide_in_tray(parse(r#"{"plugins":[]}"#)).is_none());
}

#[test]
fn the_widget_goes_after_a_hidden_bar_chevron() {
    let with = parse(r#"{"bar":{"layout":{"right":[{"id":"skuthus.hidden-om-bar"}]}}}"#);
    assert_eq!(widget_placement(Some(&with)), r#"{"after":"skuthus.hidden-om-bar"}"#);
    let without = parse(r#"{"bar":{"layout":{"right":[{"id":"clock"}]}}}"#);
    assert_eq!(widget_placement(Some(&without)), r#"{"section":"right","index":0}"#);
    assert_eq!(widget_placement(None), r#"{"section":"right","index":0}"#);
}

#[test]
fn enabling_asks_again_once_on_unknown() {
    assert_eq!(enable_step(Some("ok"), false), EnableStep::Placed);
    assert_eq!(enable_step(Some("unknown"), false), EnableStep::AskAgain);
    assert_eq!(enable_step(Some("unknown"), true), EnableStep::GiveUp);
    assert_eq!(enable_step(Some("error"), false), EnableStep::GiveUp);
    assert_eq!(enable_step(None, false), EnableStep::GiveUp);
}

#[test]
fn the_eye_follows_the_windows() {
    let shown = window(true, true, false, "Envy");
    let hidden = window(true, false, false, "Pinned note");
    let pinned = window(true, true, false, "Pinned note");
    assert_eq!(current_eye(&shown, &hidden, &None), Eye::Open);
    assert_eq!(current_eye(&hidden, &pinned, &None), Eye::Squint);
    assert_eq!(current_eye(&hidden, &hidden, &None), Eye::Closed);
    let minimised = window(true, true, true, "Envy");
    assert_eq!(current_eye(&minimised, &hidden, &None), Eye::Closed);
    // On Hyprland the window must also be among the titles shown.
    let titles = Some(vec!["Pinned note".to_string()]);
    assert_eq!(current_eye(&shown, &pinned, &titles), Eye::Squint);
    assert_eq!(current_eye(&shown, &pinned, &Some(vec![])), Eye::Closed);
}

#[test]
fn visible_titles_keeps_this_processes_shown_windows() {
    let clients = parse(
        r#"[
        {"pid": 7, "title": "Envy", "workspace": {"id": 1}},
        {"pid": 7, "title": "Pinned note", "workspace": {"id": 5}},
        {"pid": 7, "title": "Parked", "workspace": {"id": -98}, "mapped": true},
        {"pid": 7, "title": "Hidden", "hidden": true},
        {"pid": 7, "title": "Unmapped", "mapped": false},
        {"pid": 7, "title": "Nowhere"},
        {"pid": 8, "title": "Other app", "workspace": {"id": 1}}
    ]"#,
    );
    let monitors = parse(
        r#"[{"activeWorkspace": {"id": 1}, "specialWorkspace": {"id": -98}}]"#,
    );
    assert_eq!(
        visible_titles(&clients, &monitors, 7),
        Some(vec!["Envy".to_string(), "Parked".to_string(), "Nowhere".to_string()])
    );
    assert_eq!(visible_titles(&parse("{}"), &monitors, 7), None);
}

#[test]
fn only_events_that_change_what_shows_refresh_the_eye() {
    assert!(changes_what_shows("workspace>>2"));
    assert!(changes_what_shows("closewindow>>abc"));
    assert!(changes_what_shows("activespecialv2>>x,y"));
    assert!(!changes_what_shows("activewindow>>kitty,~"));
    assert!(!changes_what_shows(""));
}

#[test]
fn the_hyprland_socket_needs_both_variables() {
    assert_eq!(
        hypr_socket(Some("abc"), Some("/run/user/1000"), ".socket.sock").as_deref(),
        Some("/run/user/1000/hypr/abc/.socket.sock")
    );
    assert!(hypr_socket(None, Some("/run"), ".socket.sock").is_none());
    assert!(hypr_socket(Some("abc"), None, ".socket.sock").is_none());
}

#[test]
fn the_icon_theme_lists_every_size() {
    assert_eq!(icon_size_list(), vec![16, 22, 24, 32, 48]);
    assert_eq!(size_dir_name(22), "22x22/apps");
    let index = icon_theme_index();
    assert!(index.starts_with(
        "[Icon Theme]\nName=Envy\nComment=Envy bar icon\nDirectories=scalable/apps,16x16/apps,22x22/apps,24x24/apps,32x32/apps,48x48/apps\n"
    ));
    assert!(index.contains("\n[48x48/apps]\nSize=48\nType=Fixed\nContext=Applications\n"));
    assert_eq!(icon_generation_dir(1234, 2), "1234-2");
    assert_ne!(icon_generation_dir(12, 3), icon_generation_dir(1, 23));
    assert_ne!(icon_generation_dir(7, 0), icon_generation_dir(7, 1));
    assert_eq!(icon_file_name(Eye::Squint, "png"), "envy-squint-symbolic.png");
    assert_eq!(Eye::Closed.icon_name(), "envy-closed-symbolic");
}

#[test]
fn the_svg_is_drawn_in_the_bar_colour() {
    let svg = eye_svg(Eye::Closed, [0xca, 0xcc, 0x0f]);
    assert_eq!(
        svg,
        "<svg xmlns=\"http://www.w3.org/2000/svg\" viewBox=\"0 0 18 18\" width=\"18\" height=\"18\">\
         <path d=\"M2.5 9 C6 13.7 12 13.7 15.5 9\" fill=\"none\" stroke=\"#cacc0f\" stroke-width=\"2\" \
         stroke-linecap=\"round\" stroke-linejoin=\"round\"/></svg>"
    );
}

#[test]
fn the_bar_colour_falls_back_in_order() {
    assert_eq!(bar_colour(Some("#010203"), Some("#040506")), [1, 2, 3]);
    assert_eq!(bar_colour(None, Some(" #040506 ")), [4, 5, 6]);
    assert_eq!(bar_colour(Some("red"), Some("#040506")), [0xca, 0xcc, 0xcc]);
    assert_eq!(bar_colour(None, None), [0xca, 0xcc, 0xcc]);
}

#[test]
fn hex_colours_need_six_digits_after_a_hash() {
    assert_eq!(parse_hex("#abcdef00"), Some([0xab, 0xcd, 0xef]));
    assert_eq!(parse_hex("abcdef"), None);
    assert_eq!(parse_hex("#abc"), None);
    assert_eq!(parse_hex("#abcdeg"), None);
    // A colour written out reads back, in either case, white space around it.
    assert_eq!(parse_hex("#0a0bfc"), Some([0x0a, 0x0b, 0xfc]));
    assert_eq!(parse_hex("  #0A0BFC\n"), Some([0x0a, 0x0b, 0xfc]));
    // `from_str_radix` takes a leading `+`.
    assert_eq!(parse_hex("#+1+1+1"), Some([1, 1, 1]));
    assert!(!parse_hex_would_panic("#abcdef"));
    // A slice at byte 2 would land inside the `é`.
    assert!(parse_hex_would_panic("#a\u{e9}1234"));
}

#[test]
fn shell_quoting_survives_a_quote() {
    assert_eq!(shell_quote("it's"), "'it'\\''s'");
    assert_eq!(launch_script("/opt/envy"), "#!/bin/sh\nexec '/opt/envy' \"$@\"\n");
}

#[test]
fn a_click_opens_the_pinned_note_first() {
    assert_eq!(click_action(true, true), ClickAction::TogglePinned);
    assert_eq!(click_action(false, true), ClickAction::ToggleMain);
    assert_eq!(click_action(false, false), ClickAction::Nothing);
}

#[test]
fn the_menu_offers_each_template() {
    let templates = vec![TemplateRef { name: "Daily".into(), path: "/t/Daily.md".into() }];
    let menu = tray_menu(&templates, false, true);
    assert_eq!(menu.len(), 10);
    match &menu[2] {
        MenuEntry::Sub { label, items } => {
            assert_eq!(label, "New Pinned Note from Template");
            assert_eq!(items.len(), 1);
            assert!(matches!(&items[0], MenuEntry::Item { label, enabled: true, action: MenuAction::NewPinnedFromTemplate(p) } if label == "Daily" && p == "/t/Daily.md"));
        }
        _ => panic!("the templates submenu"),
    }
    assert!(matches!(&menu[3], MenuEntry::Item { enabled: false, action: MenuAction::Unpin, .. }));
    assert!(matches!(&menu[5], MenuEntry::Check { checked: true, .. }));
    assert!(matches!(&menu[4], MenuEntry::Separator));
    let empty = tray_menu(&vec![], true, false);
    match &empty[2] {
        MenuEntry::Sub { items, .. } => {
            assert!(matches!(&items[0], MenuEntry::Item { label, enabled: false, action: MenuAction::Nothing } if label == "No Templates"));
        }
        _ => panic!("the templates submenu"),
    }
    assert!(matches!(&empty[3], MenuEntry::Item { enabled: true, .. }));
}
