use envy_linux::settings::{
    check_index_directory, index_directory_refusal, needs_welcome_note, keep_on_top_text, parse_keep_on_top,
    remembered_index, reveal_folder_path, sample_templates, subfolder_target,
    template_file_name, toggled_keep_on_top, DEFAULT_DATE_PATTERN, WELCOME_FILE, WELCOME_NOTE,
};

#[test]
fn keep_on_top_reads_true_only() {
    assert!(parse_keep_on_top(Some("true")));
    assert!(parse_keep_on_top(Some(" true\n")));
    assert!(!parse_keep_on_top(Some("True")));
    assert!(!parse_keep_on_top(Some("false")));
    assert!(!parse_keep_on_top(None));
    assert_eq!(keep_on_top_text(true), "true");
    assert_eq!(keep_on_top_text(false), "false");
}

#[test]
fn toggling_keep_on_top_flips_what_is_read_back() {
    for start in [None, Some("true"), Some("false"), Some("junk")] {
        let before = parse_keep_on_top(start);
        let (on, text) = toggled_keep_on_top(start);
        assert_eq!(on, !before);
        assert_eq!(parse_keep_on_top(Some(text)), on);
    }
}

#[test]
fn the_remembered_index_is_trimmed_and_never_empty() {
    assert_eq!(remembered_index(Some("  /home/u/Notes\n")).as_deref(), Some("/home/u/Notes"));
    assert_eq!(remembered_index(Some(" \n")), None);
    assert_eq!(remembered_index(None), None);
}

#[test]
fn the_filesystem_root_and_files_are_refused_as_an_index() {
    assert_eq!(
        check_index_directory("/", true, true),
        Err("Choose a folder, not the whole filesystem.".to_string())
    );
    assert_eq!(
        check_index_directory("", false, false),
        Err("Choose a folder, not the whole filesystem.".to_string())
    );
    assert_eq!(
        check_index_directory("/home/u/notes.txt", true, false),
        Err("That is a file, not a folder.".to_string())
    );
    assert_eq!(check_index_directory("/home/u/Notes", true, true), Ok(()));
    assert_eq!(check_index_directory("/home/u/New", false, false), Ok(()));
    assert_eq!(index_directory_refusal(true, false, false), None);
    // Repeated separators and `.` are normalised away: these are the root.
    assert!(check_index_directory("//", true, true).is_err());
    assert!(check_index_directory("/.", true, true).is_err());
    // A relative path's leading `.` is a component of its own.
    assert_eq!(check_index_directory("./", true, true), Ok(()));
    assert_eq!(check_index_directory("notes", true, true), Ok(()));
}

#[test]
fn reveal_opens_the_index_or_one_of_its_folders() {
    assert_eq!(reveal_folder_path(b"/v", "templates"), b"/v/Templates".to_vec());
    assert_eq!(reveal_folder_path(b"/v/", "trash"), b"/v/.trash".to_vec());
    assert_eq!(reveal_folder_path(b"/v", "index"), b"/v".to_vec());
    assert_eq!(reveal_folder_path(b"/v", "anything"), b"/v".to_vec());
}

#[test]
fn a_move_target_loses_its_slashes_and_spaces() {
    assert_eq!(subfolder_target(Some(" /Projects/Work/ ")), "Projects/Work");
    assert_eq!(subfolder_target(Some("/ /")), "");
    assert_eq!(subfolder_target(Some("a b")), "a b");
    assert_eq!(subfolder_target(None), "");
}

#[test]
fn the_starter_templates_and_welcome_note() {
    let t = sample_templates();
    assert_eq!(t.len(), 3);
    assert_eq!(t[0].0, "Daily Notes {{date}}");
    assert!(t[0].1.starts_with("# {{date}}\n"));
    assert_eq!(t[1].0, "To-Do List");
    assert_eq!(t[1].1, "# {{title}}\n\n- [ ]\n- [ ]\n- [ ]");
    assert_eq!(t[2].0, "Study Notes");
    assert_eq!(template_file_name(t[1].0), "To-Do List.md");
    assert_eq!(WELCOME_FILE, "Welcome to Envy.md");
    assert!(WELCOME_NOTE.starts_with("# Welcome to Envy\n\nEnvy is one search box."));
    assert_eq!(DEFAULT_DATE_PATTERN, "yyyy-MM-dd");
}

#[test]
fn the_welcome_note_goes_only_into_an_empty_index() {
    assert!(needs_welcome_note(true, false));
    assert!(!needs_welcome_note(true, true));
    assert!(!needs_welcome_note(false, false));
}
