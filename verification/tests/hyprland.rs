use envy_linux::hyprland::{
    bindings_file, bindings_update, checkout_lua, has_managed_line, lua_source, mentions_envy,
    updated, MARKER,
};

fn src() -> &'static str {
    "/usr/share/envy/hyprland-envy.lua"
}

#[test]
fn adds_one_marked_line_and_removes_only_it() {
    let base = "o.bind(\"SUPER + Q\", \"Quit\", hl.dsp.killactive())\n";
    let on = updated(base, true, src()).expect("added");
    assert!(on.starts_with(base));
    assert!(on.contains(MARKER));
    assert!(on.contains("pcall(dofile, \"/usr/share/envy/hyprland-envy.lua\")"));
    // Already there: nothing to do, in either direction of the same state.
    assert!(updated(&on, true, src()).is_none());
    let off = updated(&on, false, src()).expect("removed");
    assert_eq!(off, base);
    assert!(updated(&off, false, src()).is_none());
}

#[test]
fn leaves_a_hand_written_line_alone() {
    let theirs = "pcall(dofile, os.getenv(\"HOME\") .. \"/Work/Envy-omarchy/linux/hyprland-envy.lua\")\n";
    // On: theirs already loads the file, so no second copy.
    assert!(updated(theirs, true, src()).is_none());
    // Off: it is not ours to remove.
    assert!(updated(theirs, false, src()).is_none());
}

#[test]
fn a_commented_out_mention_does_not_count() {
    let text = "-- pcall(dofile, \"/usr/share/envy/hyprland-envy.lua\")\n";
    assert!(updated(text, true, src()).is_some());
}

#[test]
fn turning_on_writes_the_comment_and_the_marked_line() {
    let on = updated("a = 1", true, src()).unwrap();
    assert_eq!(
        on,
        "a = 1\n\n-- Envy: Ctrl+Alt+Return shows/hides the note app; Ctrl+Alt+C centres it.\n\
         pcall(dofile, \"/usr/share/envy/hyprland-envy.lua\") -- managed by Envy Settings\n"
    );
}

#[test]
fn turning_on_an_empty_file_adds_no_leading_newline_of_its_own() {
    let on = updated("", true, src()).unwrap();
    assert!(on.starts_with("\n-- Envy: "));
}

#[test]
fn turning_off_then_on_again_is_settled() {
    let base = "x = 2\n";
    let on = updated(base, true, src()).unwrap();
    let off = updated(&on, false, src()).unwrap();
    assert_eq!(off, base);
    let again = updated(&off, true, src()).unwrap();
    assert_eq!(again, on);
}

#[test]
fn turning_off_an_empty_result_leaves_an_empty_file() {
    let on = updated("", true, src()).unwrap();
    assert_eq!(updated(&on, false, src()).unwrap(), "");
}

#[test]
fn a_mention_must_load_the_lua_file() {
    assert!(mentions_envy("dofile(\"/x/hyprland-envy.lua\")\n"));
    assert!(!mentions_envy("  -- dofile(\"/x/hyprland-envy.lua\")\n"));
    assert!(!mentions_envy("nothing here\n"));
}

#[test]
fn the_bindings_file_sits_under_home() {
    assert_eq!(
        bindings_file(Some(b"/home/u".as_slice())).unwrap(),
        b"/home/u/.config/hypr/bindings.lua".to_vec()
    );
    assert_eq!(
        bindings_file(Some(b"/home/u/".as_slice())).unwrap(),
        b"/home/u/.config/hypr/bindings.lua".to_vec()
    );
    assert!(bindings_file(None).is_none());
}

#[test]
fn the_packaged_lua_wins_over_the_checkout() {
    assert_eq!(
        lua_source(true, b"/src/../linux/hyprland-envy.lua", true, None).unwrap(),
        b"/usr/share/envy/hyprland-envy.lua".to_vec()
    );
    assert_eq!(
        lua_source(false, b"/src/../linux/x.lua", true, Some(b"/linux/x.lua".to_vec())).unwrap(),
        b"/linux/x.lua".to_vec()
    );
    assert_eq!(
        lua_source(false, b"/src/../linux/x.lua", true, None).unwrap(),
        b"/src/../linux/x.lua".to_vec()
    );
    assert!(lua_source(false, b"/src/x.lua", false, None).is_none());
    assert_eq!(checkout_lua(b"/src"), b"/src/../linux/hyprland-envy.lua".to_vec());
}

#[test]
fn a_missing_bindings_file_is_created_only_to_turn_on() {
    let created = bindings_update(None, true, true, src()).unwrap();
    assert!(created.contains(MARKER));
    assert!(bindings_update(None, true, false, src()).is_none());
    assert!(bindings_update(None, false, true, src()).is_none());
    assert!(bindings_update(Some("x\n"), false, true, src()).is_none());
}

#[test]
fn off_removes_the_marked_line_whatever_file_it_loads() {
    let base = "a = 1\n";
    let on = updated(base, true, "/x/other.lua").unwrap();
    assert!(has_managed_line(&on));
    assert_eq!(updated(&on, false, "/y/another.lua").unwrap(), base);
    assert!(!has_managed_line(base));
    assert!(updated(base, false, "/x/other.lua").is_none());
}
