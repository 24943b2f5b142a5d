use std::hash::{Hash, Hasher};

use envy_linux::popouts::{label_for_hash, PopoutAction, PopoutRegistry};

fn created(a: PopoutAction) -> (String, usize) {
    match a {
        PopoutAction::Create { label, cascade } => (label, cascade),
        PopoutAction::Surface { .. } => panic!("expected a new window"),
    }
}

fn surfaced(a: PopoutAction) -> String {
    match a {
        PopoutAction::Surface { label } => label,
        PopoutAction::Create { .. } => panic!("expected the existing window"),
    }
}

#[test]
fn labels_are_the_hash_in_hex() {
    assert_eq!(label_for_hash(0), "popout-0");
    assert_eq!(label_for_hash(255), "popout-ff");
    assert_eq!(label_for_hash(u64::MAX), "popout-ffffffffffffffff");
}

#[test]
fn popping_out_again_surfaces_the_same_window() {
    let mut r = PopoutRegistry::new();
    let (label, step) = created(r.open_hashed("/v/a.md", 0xabc));
    assert_eq!(label, "popout-abc");
    assert_eq!(step, 0);
    assert_eq!(surfaced(r.open_hashed("/v/a.md", 0x999)), "popout-abc");
    assert_eq!(r.len(), 1);
    assert_eq!(r.note_for("popout-abc").as_deref(), Some("/v/a.md"));
    assert_eq!(r.note_for("popout-def"), None);
}

fn id_hash(id: &str) -> u64 {
    let mut hasher = std::collections::hash_map::DefaultHasher::new();
    id.hash(&mut hasher);
    hasher.finish()
}

#[test]
fn a_new_window_is_labelled_by_its_notes_hash() {
    let mut r = PopoutRegistry::new();
    let (label, _) = created(r.open("/v/note.md"));
    assert_eq!(label, format!("popout-{:x}", id_hash("/v/note.md")));
    assert_eq!(label, label_for_hash(id_hash("/v/note.md")));
}

#[test]
fn the_real_hash_is_stable_for_one_id() {
    let mut r = PopoutRegistry::new();
    let (label, _) = created(r.open("/v/b.md"));
    assert!(label.starts_with("popout-"));
    assert_eq!(surfaced(r.open("/v/b.md")), label);
    let (other, step) = created(r.open("/v/c.md"));
    assert_ne!(other, label);
    assert_eq!(step, 1);
}

#[test]
fn new_windows_cascade_and_wrap_every_eight() {
    let mut r = PopoutRegistry::new();
    for i in 0..8u64 {
        let (_, step) = created(r.open_hashed(&format!("/v/{i}.md"), i));
        assert_eq!(step, i as usize);
    }
    let (_, step) = created(r.open_hashed("/v/8.md", 8));
    assert_eq!(step, 0);
}

#[test]
fn a_sweep_forgets_closed_windows() {
    let mut r = PopoutRegistry::new();
    created(r.open_hashed("/v/a.md", 1));
    created(r.open_hashed("/v/b.md", 2));
    created(r.open_hashed("/v/c.md", 3));
    assert_eq!(r.labels(), vec!["popout-1", "popout-2", "popout-3"]);
    r.sweep(&vec![true, false, true]);
    assert_eq!(r.labels(), vec!["popout-1", "popout-3"]);
    assert_eq!(r.note_for("popout-2"), None);
    // The cascade counts the windows still open.
    let (_, step) = created(r.open_hashed("/v/b.md", 2));
    assert_eq!(step, 2);
}

#[test]
fn a_failed_build_is_forgotten() {
    let mut r = PopoutRegistry::new();
    created(r.open_hashed("/v/a.md", 1));
    r.remove("popout-1");
    assert_eq!(r.len(), 0);
    r.remove("popout-9");
    assert_eq!(r.len(), 0);
    let (label, _) = created(r.open_hashed("/v/a.md", 1));
    assert_eq!(label, "popout-1");
}

#[test]
fn a_label_clash_moves_the_label_to_the_new_note() {
    let mut r = PopoutRegistry::new();
    created(r.open_hashed("/v/a.md", 7));
    let (label, step) = created(r.open_hashed("/v/b.md", 7));
    assert_eq!(label, "popout-7");
    assert_eq!(step, 1);
    assert_eq!(r.len(), 1);
    assert_eq!(r.note_for("popout-7").as_deref(), Some("/v/b.md"));
}
