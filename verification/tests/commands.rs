use envy_linux::commands::{
    attachment_inside_verdict, check_attachment, check_attachment_inside, check_clippings_size, check_external_url,
    clippings_read_error, clippings_source, date_pattern_to_strftime, explorer_select_arg,
    file_uri, fragment_needle, inbox_count, installer_command, installer_file_name,
    matches_fragment, name_taken_in_folder, needle_matches, no_note_with_id,
    no_trashed_note_with_id, page_range, selected_notes, sort_field, toggle_window_action,
    vanished_during_save, visible_rows, web_link_allowed, InterlinksDto, SortField,
    WindowToggle, MAX_CLIPPINGS_BYTES,
};

#[test]
fn date_tokens_become_strftime_longest_first() {
    assert_eq!(date_pattern_to_strftime("yyyy-MM-dd"), "%Y-%m-%d");
    assert_eq!(date_pattern_to_strftime("EEEE, MMMM dd"), "%A, %B %d");
    assert_eq!(date_pattern_to_strftime("MMMMM"), "%BM");
    assert_eq!(date_pattern_to_strftime("no tokens"), "no tokens");
}

#[test]
fn the_sort_field_falls_back_to_date() {
    assert_eq!(sort_field("name"), SortField::Name);
    assert_eq!(sort_field("due"), SortField::Due);
    assert_eq!(sort_field("date"), SortField::Date);
    assert_eq!(sort_field("Name"), SortField::Date);
}

#[test]
fn a_page_is_skip_then_take() {
    assert_eq!(page_range(100, 10, 20), (10, 30));
    assert_eq!(page_range(25, 10, 20), (10, 25));
    assert_eq!(page_range(5, 10, 20), (5, 5));
    assert_eq!(page_range(5, 0, usize::MAX), (0, 5));
}

#[test]
fn only_web_links_are_opened() {
    assert_eq!(check_external_url("https://example.com"), Ok(()));
    assert_eq!(check_external_url("HTTP://EXAMPLE.COM"), Ok(()));
    assert_eq!(
        check_external_url("file:///etc/passwd"),
        Err("refusing to open a non-web link: file:///etc/passwd".to_string())
    );
    assert!(check_external_url("javascript:alert(1)").is_err());
    assert!(web_link_allowed("http://x"));
    assert!(!web_link_allowed("HTTP://x"));
}

#[test]
fn a_fragment_filters_by_name_in_any_case() {
    assert!(matches_fragment("", "Anything"));
    assert!(matches_fragment("  dai ", "Daily Notes {{date}}"));
    assert!(matches_fragment("NOTES", "Study Notes"));
    assert!(!matches_fragment("todo", "Study Notes"));
    assert_eq!(fragment_needle("  MiXeD "), "mixed");
    assert!(needle_matches("", "x"));
    assert!(!needle_matches("y", "x"));
}

#[test]
fn file_uris_escape_what_a_path_may_not_hold() {
    assert_eq!(file_uri(b"/home/u/a b/#1.md"), "file:///home/u/a%20b/%231.md");
    assert_eq!(file_uri(b"/x/Az09-._~"), "file:///x/Az09-._~");
    assert_eq!(file_uri("/x/\u{e9}".as_bytes()), "file:///x/%C3%A9");
    assert_eq!(file_uri(b""), "file://");
    // Decoding the escapes gives the bytes back.
    let bytes: &[u8] = b"/x/%a b\xff";
    let uri = file_uri(bytes);
    assert_eq!(uri, "file:///x/%25a%20b%FF");
    let path = &uri["file://".len()..];
    let mut decoded = Vec::new();
    let mut i = 0;
    let raw = path.as_bytes();
    while i < raw.len() {
        if raw[i] == b'%' {
            decoded.push(u8::from_str_radix(&path[i + 1..i + 3], 16).unwrap());
            i += 3;
        } else {
            decoded.push(raw[i]);
            i += 1;
        }
    }
    assert_eq!(decoded, bytes);
}

#[test]
fn error_messages_name_what_was_missing() {
    assert_eq!(no_note_with_id("a/b.md"), "no note with id a/b.md");
    assert_eq!(no_trashed_note_with_id("x"), "no trashed note with id x");
    assert_eq!(vanished_during_save("x"), "note x vanished during save");
    assert_eq!(
        name_taken_in_folder("Plan"),
        "A note named \u{201c}Plan\u{201d} already exists in that folder."
    );
}

#[test]
fn a_batch_delete_takes_the_listed_notes_in_order() {
    let notes: Vec<String> = vec!["a".into(), "b".into(), "c".into(), "d".into()];
    let ids: Vec<String> = vec!["d".into(), "b".into(), "zzz".into()];
    assert_eq!(selected_notes(&notes, &ids), vec![1, 3]);
    assert_eq!(selected_notes(&notes, &vec![]), Vec::<usize>::new());
}

#[test]
fn hiding_fleeting_notes_drops_only_inbox_rows() {
    let flags = vec![false, true, false, true];
    assert_eq!(visible_rows(&flags, true), vec![0, 2]);
    assert_eq!(visible_rows(&flags, false), vec![0, 1, 2, 3]);
}

#[test]
fn the_inbox_badge_counts_only_while_the_inbox_is_on() {
    let flags = vec![true, false, true, true];
    assert_eq!(inbox_count(true, &flags), 3);
    assert_eq!(inbox_count(false, &flags), 0);
    assert_eq!(inbox_count(true, &vec![]), 0);
}

#[test]
fn summoning_hides_only_a_window_on_screen() {
    assert_eq!(toggle_window_action(true, false), WindowToggle::Hide);
    assert_eq!(toggle_window_action(true, true), WindowToggle::Show);
    assert_eq!(toggle_window_action(false, false), WindowToggle::Show);
    assert_eq!(toggle_window_action(false, true), WindowToggle::Show);
}

#[test]
fn a_clippings_file_comes_from_the_choice_or_the_kindle() {
    assert_eq!(clippings_source(Some("/a.txt".into()), Some("/k.txt".into())), Ok("/a.txt".to_string()));
    assert_eq!(clippings_source(None, Some("/k.txt".into())), Ok("/k.txt".to_string()));
    assert_eq!(
        clippings_source(None, None),
        Err("No Kindle detected: plug it in and refresh, or choose the file by hand.".to_string())
    );
    assert_eq!(check_clippings_size(MAX_CLIPPINGS_BYTES), Ok(()));
    assert_eq!(
        check_clippings_size(64 * 1024 * 1024 + 1),
        Err("That file is over 64 MB \u{2014} it isn't a Kindle Clippings file.".to_string())
    );
    assert_eq!(clippings_read_error("gone"), "Couldn't read the Clippings file: gone");
}

#[test]
fn an_attachment_must_be_an_image_file_inside_the_vault() {
    assert_eq!(check_attachment(false, true), Err("that isn't an image attachment".to_string()));
    assert_eq!(check_attachment(true, false), Err("no such image".to_string()));
    assert_eq!(check_attachment(true, true), Ok(()));
    assert_eq!(check_attachment_inside("/v/Attachments/a.png", "/v/Attachments"), Ok(()));
    assert_eq!(
        check_attachment_inside("/etc/passwd", "/v/Attachments"),
        Err("that image is outside the vault".to_string())
    );
    assert_eq!(attachment_inside_verdict(true), Ok(()));
    assert_eq!(
        attachment_inside_verdict(false),
        Err("that image is outside the vault".to_string())
    );
    // Repeated separators, a trailing one and an inner `.` are normalised.
    assert_eq!(check_attachment_inside("/v//Attachments/./a.png", "/v/Attachments/"), Ok(()));
    assert_eq!(check_attachment_inside("a/b", "a/./"), Ok(()));
    // A leading `.` is a component of its own.
    assert!(check_attachment_inside("./a/b", "a").is_err());
    // Components, not characters: a sibling with a longer name is outside.
    assert!(check_attachment_inside("/v/AttachmentsX/a.png", "/v/Attachments").is_err());
}

#[test]
fn the_installer_runs_after_a_pause_as_an_upgrade() {
    assert_eq!(installer_file_name("1.2.3"), "Envy_1.2.3_x64-setup.exe");
    assert_eq!(
        installer_command("C:\\T\\Envy_1.2.3_x64-setup.exe"),
        "ping -n 5 127.0.0.1 >nul & \"C:\\T\\Envy_1.2.3_x64-setup.exe\" /P /R /UPDATE"
    );
    assert_eq!(explorer_select_arg("D:\\My Notes\\a.md"), "/select,\"D:\\My Notes\\a.md\"");
}

#[test]
fn an_unknown_note_has_no_links() {
    let empty = InterlinksDto::empty();
    assert!(empty.links.is_empty() && empty.backlinks.is_empty() && empty.suggested.is_empty());
}
