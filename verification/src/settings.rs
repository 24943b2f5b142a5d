//! The small settings files and fixed content the shell keeps: the
//! remembered Index, the keep-on-top flag, where "Reveal" opens, which
//! folder a note may be moved to, the starter templates and the welcome note.
use vstd::prelude::*;

use crate::shortcuts::split;
use crate::hyprland::{ascii_bytes, ascii_of, join_path, path_join};
use crate::text::{append_chars, chars_eq, chars_of, string_of, trim, trim_chars};

verus! {

// ---------------------------------------------------------------------------
// Fixed names and content
// ---------------------------------------------------------------------------
/// The `{{date}}` pattern until the frontend sends the user's.
pub const DEFAULT_DATE_PATTERN: &'static str = "yyyy-MM-dd";

/// The strftime form `{{time}}` is written in.
pub const TIME_FORMAT: &'static str = "%-I:%M %p";

/// The file, under the app's config directory, that remembers the Index.
pub const INDEX_PATH_FILE: &'static str = "index-path";

/// The file, under the app's config directory, that remembers keep-on-top.
pub const KEEP_ON_TOP_FILE: &'static str = "keep-on-top";

/// The marker, under the app's config directory, that the starter templates
/// were written once.
pub const SEEDED_TEMPLATES_MARKER: &'static str = "seeded-templates";

/// The Index's folder for templates.
pub const TEMPLATES_DIR: &'static str = "Templates";

/// The Index's trash folder.
pub const TRASH_DIR: &'static str = ".trash";

/// The note a brand-new Index gets.
pub const WELCOME_FILE: &'static str = "Welcome to Envy.md";

/// The starter templates, name then body. The daily note carries `{{date}}`
/// in its name, so a note made from it is titled with the day.
pub const DAILY_NOTES_NAME: &'static str = "Daily Notes {{date}}";

pub const DAILY_NOTES_BODY: &'static str =
    "# {{date}}\n\n## Top Priorities\n-\n\n## Notes\n\n\n## Follow Up\n-";

pub const TO_DO_LIST_NAME: &'static str = "To-Do List";

pub const TO_DO_LIST_BODY: &'static str = "# {{title}}\n\n- [ ]\n- [ ]\n- [ ]";

pub const STUDY_NOTES_NAME: &'static str = "Study Notes";

pub const STUDY_NOTES_BODY: &'static str =
    "# {{title}}\n\n## Key Concepts\n\n\n## Questions\n\n\n## Summary\n";

/// The text of the welcome note.
pub const WELCOME_NOTE: &'static str = "# Welcome to Envy

Envy is one search box. Type to filter, press Return to open the top match \u{2014}
or to create a new note from whatever you typed if nothing matches.

Every note is a plain `.md` file in one folder called The Index. No database,
no proprietary format. Open them in anything.

## Try it

- **Bold**, *italic*, ~~struck through~~, and `code` all render as you type.
- ==highlight== marks text with a background, like ==this==.
- Link notes with [[Another Note]] \u{2014} following a link creates it if it doesn't
  exist yet.
- Tag anything with #hashtags and search `tag:name` to find it again.
- Write a due date anywhere: @today, @friday, or @12-31-26.
- Task lists work too:

- [ ] Try creating a note
- [ ] Link to it from here
- [x] Read this far

## Search operators

`tag:` `due:` `date:` `link:` `todo:` `orphan:` `linked:` `ai:` `inbox:`

Put a `-` in front of any of them to exclude instead. Separate terms with a
comma to search for either rather than both.
";

/// Whether a launch writes the welcome note: only into an Index with no
/// notes, and never over a file already under that name.
pub fn needs_welcome_note(index_is_empty: bool, welcome_exists: bool) -> (b: bool)
    ensures
        b == (index_is_empty && !welcome_exists),
{
    index_is_empty && !welcome_exists
}

/// The starter templates in the order they are written.
pub fn sample_templates() -> (v: Vec<(&'static str, &'static str)>)
    ensures
        v@ == seq![
            (DAILY_NOTES_NAME, DAILY_NOTES_BODY),
            (TO_DO_LIST_NAME, TO_DO_LIST_BODY),
            (STUDY_NOTES_NAME, STUDY_NOTES_BODY),
        ],
{
    let mut v = Vec::new();
    v.push((DAILY_NOTES_NAME, DAILY_NOTES_BODY));
    v.push((TO_DO_LIST_NAME, TO_DO_LIST_BODY));
    v.push((STUDY_NOTES_NAME, STUDY_NOTES_BODY));
    assert(v@ =~= seq![
        (DAILY_NOTES_NAME, DAILY_NOTES_BODY),
        (TO_DO_LIST_NAME, TO_DO_LIST_BODY),
        (STUDY_NOTES_NAME, STUDY_NOTES_BODY),
    ]);
    v
}

/// A template's file: its name with `.md`.
pub fn template_file_name(name: &str) -> (r: String)
    ensures
        r@ == name@ + ".md"@,
{
    let mut v = chars_of(name);
    append_chars(&mut v, &chars_of(".md"));
    string_of(&v)
}

// ---------------------------------------------------------------------------
// Keep on top
// ---------------------------------------------------------------------------
/// The remembered keep-on-top flag: on only when the file reads `true`
/// (surrounding whitespace aside); off when there is no file.
pub fn parse_keep_on_top(text: Option<&str>) -> (on: bool)
    ensures
        on == match text {
            Some(t) => trim(t@) == "true"@,
            None => false,
        },
{
    match text {
        Some(t) => chars_eq(&trim_chars(&chars_of(t)), &chars_of("true")),
        None => false,
    }
}

/// What the keep-on-top file holds for a flag.
pub fn keep_on_top_text(on: bool) -> (s: &'static str)
    ensures
        s@ == if on {
            "true"@
        } else {
            "false"@
        },
{
    if on {
        "true"
    } else {
        "false"
    }
}

/// Toggling keep-on-top from the remembered file: the new flag, and what the
/// file is to hold.
pub fn toggled_keep_on_top(text: Option<&str>) -> (r: (bool, &'static str))
    ensures
        r.0 == !match text {
            Some(t) => trim(t@) == "true"@,
            None => false,
        },
        r.1@ == if r.0 {
            "true"@
        } else {
            "false"@
        },
{
    let on = !parse_keep_on_top(text);
    (on, keep_on_top_text(on))
}

/// Reading the keep-on-top file and toggling: the flag flips.
pub proof fn law_toggle_flips_keep_on_top(t: Seq<char>)
    ensures
        trim(if trim(t) == "true"@ {
            "false"@
        } else {
            "true"@
        }) == "true"@ <==> !(trim(t) == "true"@),
{
    reveal_strlit("true");
    reveal_strlit("false");
    let on_text = "true"@;
    let off_text = "false"@;
    assert(trim(on_text) == on_text) by {
        assert(!crate::text::is_ws(on_text[0]));
        assert(!crate::text::is_ws(on_text.last()));
        assert(crate::text::trim_start(on_text) == on_text);
        assert(crate::text::trim_end(on_text) == on_text);
    }
    assert(trim(off_text) == off_text) by {
        assert(!crate::text::is_ws(off_text[0]));
        assert(!crate::text::is_ws(off_text.last()));
        assert(crate::text::trim_start(off_text) == off_text);
        assert(crate::text::trim_end(off_text) == off_text);
    }
    assert(off_text != on_text) by {
        assert(off_text.len() != on_text.len());
    }
}

// ---------------------------------------------------------------------------
// The remembered Index
// ---------------------------------------------------------------------------
/// The Index the record names: its trimmed text, unless that is empty or
/// there is no record (then the default is used, and written back).
pub fn remembered_index(raw: Option<&str>) -> (r: Option<String>)
    ensures
        match r {
            Some(p) => raw is Some && p@ == trim(raw->0@) && p@.len() > 0,
            None => raw is None || trim(raw->0@).len() == 0,
        },
{
    match raw {
        Some(t) => {
            let v = trim_chars(&chars_of(t));
            if v.len() == 0 {
                None
            } else {
                Some(string_of(&v))
            }
        },
        None => None,
    }
}

/// The pieces between separators that are path components: those neither
/// empty nor `.`.
pub open spec fn normal_pieces(ps: Seq<Seq<char>>) -> Seq<Seq<char>>
    decreases ps.len(),
{
    if ps.len() == 0 {
        Seq::empty()
    } else if ps.last().len() == 0 || ps.last() == seq!['.'] {
        normal_pieces(ps.drop_last())
    } else {
        normal_pieces(ps.drop_last()).push(ps.last())
    }
}

/// `Path::components` on Unix, each written as its text: `/` for the root,
/// `.` for a current-directory component (kept only at the start of a
/// relative path), then every piece between separators that is neither empty
/// nor `.` (repeated separators and inner `.` are normalised away).
pub open spec fn path_components(p: Seq<char>) -> Seq<Seq<char>> {
    let pieces = split(p, '/');
    if p.len() > 0 && p[0] == '/' {
        seq![seq!['/']] + normal_pieces(pieces)
    } else if pieces[0] == seq!['.'] {
        seq![seq!['.']] + normal_pieces(pieces)
    } else {
        normal_pieces(pieces)
    }
}

/// `Path::parent(..).is_some()`: the path has a last component and it is not
/// the root.
pub open spec fn path_has_parent(p: Seq<char>) -> bool {
    let c = path_components(p);
    c.len() > 0 && c.last() != seq!['/']
}

/// `Path::parent(..).is_some()` on Unix. Its documentation: the path without
/// its final component, `None` when the path terminates in a root or is
/// empty; the components are as `Path::components` documents them.
#[verifier::external_body]
fn has_parent(p: &str) -> (b: bool)
    ensures
        b == path_has_parent(p@),
{
    std::path::Path::new(p).parent().is_some()
}

/// The empty path has no components, so no parent.
pub proof fn lemma_empty_path_has_no_parent()
    ensures
        !path_has_parent(Seq::empty()),
{
    let e = Seq::<char>::empty();
    assert(split(e, '/') =~= seq![e]);
    assert(seq![e].drop_last() =~= Seq::<Seq<char>>::empty());
    assert(seq![e].last().len() == 0);
    assert(normal_pieces(seq![e]) == normal_pieces(Seq::<Seq<char>>::empty()));
    assert(normal_pieces(seq![e]) =~= Seq::<Seq<char>>::empty());
    assert(e != seq!['.']);
    assert(path_components(e) =~= Seq::<Seq<char>>::empty());
}

/// The refusal for a folder that would scan the whole machine.
pub open spec fn whole_filesystem_message() -> Seq<char> {
    "Choose a folder, not the whole filesystem."@
}

/// The refusal for a path that names a file.
pub open spec fn not_a_folder_message() -> Seq<char> {
    "That is a file, not a folder."@
}

/// Whether a new Index may be opened at a path, given whether the path has a
/// parent and, on disk, whether it exists and is a folder.
pub fn index_directory_refusal(has_parent: bool, exists: bool, is_dir: bool) -> (r: Option<String>)
    ensures
        match r {
            None => has_parent && !(exists && !is_dir),
            Some(m) => if !has_parent {
                m@ == whole_filesystem_message()
            } else {
                exists && !is_dir && m@ == not_a_folder_message()
            },
        },
{
    if !has_parent {
        return Some(string_of(&chars_of("Choose a folder, not the whole filesystem.")));
    }
    if exists && !is_dir {
        return Some(string_of(&chars_of("That is a file, not a folder.")));
    }
    None
}

/// Checks a folder chosen as the new Index: the filesystem root (or an empty
/// path) is refused, and so is a file.
pub fn check_index_directory(path: &str, exists: bool, is_dir: bool) -> (r: Result<(), String>)
    ensures
        match r {
            Ok(()) => path_has_parent(path@) && !(exists && !is_dir),
            Err(m) => if !path_has_parent(path@) {
                m@ == whole_filesystem_message()
            } else {
                exists && !is_dir && m@ == not_a_folder_message()
            },
        },
        path@.len() == 0 ==> r is Err,
{
    proof {
        if path@.len() == 0 {
            lemma_empty_path_has_no_parent();
            assert(path@ =~= Seq::<char>::empty());
        }
    }
    match index_directory_refusal(has_parent(path), exists, is_dir) {
        Some(m) => Err(m),
        None => Ok(()),
    }
}

// ---------------------------------------------------------------------------
// Folders
// ---------------------------------------------------------------------------
/// The folder "Reveal" opens for `which`: `Templates/` and `.trash/` inside
/// the Index, the Index itself for anything else.
pub open spec fn spec_reveal_folder(dir: Seq<u8>, which: Seq<char>) -> Seq<u8> {
    if which == "templates"@ {
        path_join(dir, ascii_bytes(TEMPLATES_DIR@))
    } else if which == "trash"@ {
        path_join(dir, ascii_bytes(TRASH_DIR@))
    } else {
        dir
    }
}

/// The folder "Reveal" opens for `which` ("index", "templates" or "trash").
pub fn reveal_folder_path(dir: &[u8], which: &str) -> (r: Vec<u8>)
    ensures
        r@ == spec_reveal_folder(dir@, which@),
{
    proof {
        reveal_strlit("Templates");
        reveal_strlit(".trash");
    }
    let w = chars_of(which);
    if chars_eq(&w, &chars_of("templates")) {
        join_path(dir, &ascii_of(TEMPLATES_DIR))
    } else if chars_eq(&w, &chars_of("trash")) {
        join_path(dir, &ascii_of(TRASH_DIR))
    } else {
        let mut v: Vec<u8> = Vec::new();
        let mut i: usize = 0;
        while i < dir.len()
            invariant
                i <= dir.len(),
                v@ == dir@.take(i as int),
            decreases dir.len() - i,
        {
            v.push(dir[i]);
            i += 1;
            assert(v@ =~= dir@.take(i as int));
        }
        assert(dir@.take(dir.len() as int) =~= dir@);
        v
    }
}

/// A character `trim_matches(['/', ' '])` strips.
pub open spec fn is_edge(c: char) -> bool {
    c == '/' || c == ' '
}

/// `s` without its leading slashes and spaces.
pub open spec fn strip_edge_start(s: Seq<char>) -> Seq<char>
    decreases s.len(),
{
    if s.len() > 0 && is_edge(s[0]) {
        strip_edge_start(s.drop_first())
    } else {
        s
    }
}

/// `s` without its trailing slashes and spaces.
pub open spec fn strip_edge_end(s: Seq<char>) -> Seq<char>
    decreases s.len(),
{
    if s.len() > 0 && is_edge(s.last()) {
        strip_edge_end(s.drop_last())
    } else {
        s
    }
}

proof fn lemma_strip_start_skip(s: Seq<char>, i: int)
    requires
        0 <= i <= s.len(),
        forall|j: int| 0 <= j < i ==> is_edge(s[j]),
    ensures
        strip_edge_start(s) == strip_edge_start(s.skip(i)),
    decreases i,
{
    if i > 0 {
        assert(s.drop_first().skip(i - 1) =~= s.skip(i));
        lemma_strip_start_skip(s.drop_first(), i - 1);
    } else {
        assert(s.skip(0) =~= s);
    }
}

proof fn lemma_strip_end_take(s: Seq<char>, i: int)
    requires
        0 <= i <= s.len(),
        forall|j: int| i <= j < s.len() ==> is_edge(s[j]),
    ensures
        strip_edge_end(s) == strip_edge_end(s.take(i)),
    decreases s.len() - i,
{
    if i < s.len() {
        assert(s.drop_last().take(i) =~= s.take(i));
        lemma_strip_end_take(s.drop_last(), i);
    } else {
        assert(s.take(i) =~= s);
    }
}

/// The folder a note is to be moved to, as `trim_matches(['/', ' '])` leaves
/// it; the root (no folder) reads as empty.
pub fn subfolder_target(subfolder: Option<&str>) -> (r: String)
    ensures
        r@ == match subfolder {
            Some(s) => strip_edge_end(strip_edge_start(s@)),
            None => Seq::empty(),
        },
{
    let v = match subfolder {
        Some(s) => chars_of(s),
        None => Vec::new(),
    };
    let mut lo: usize = 0;
    while lo < v.len() && (v[lo] == '/' || v[lo] == ' ')
        invariant
            lo <= v.len(),
            forall|j: int| 0 <= j < lo ==> is_edge(v@[j]),
        decreases v.len() - lo,
    {
        lo += 1;
    }
    proof {
        lemma_strip_start_skip(v@, lo as int);
    }
    let ghost rest = v@.skip(lo as int);
    assert(lo == v.len() || !is_edge(rest[0]));
    let mut hi: usize = v.len();
    while hi > lo && (v[hi - 1] == '/' || v[hi - 1] == ' ')
        invariant
            lo <= hi <= v.len(),
            forall|j: int| hi <= j < v.len() ==> is_edge(v@[j]),
        decreases hi,
    {
        hi -= 1;
    }
    proof {
        assert forall|j: int| hi - lo <= j < rest.len() implies is_edge(rest[j]) by {
            assert(rest[j] == v@[lo + j]);
        }
        lemma_strip_end_take(rest, hi - lo);
        let t = rest.take(hi - lo);
        assert(t =~= v@.subrange(lo as int, hi as int));
        assert(strip_edge_start(rest) == rest);
        if hi > lo {
            assert(t.last() == v@[hi - 1]);
        }
        assert(strip_edge_end(t) == t);
    }
    let mut out: Vec<char> = Vec::new();
    let mut i: usize = lo;
    while i < hi
        invariant
            lo <= i <= hi,
            hi <= v.len(),
            out@ == v@.subrange(lo as int, i as int),
        decreases hi - i,
    {
        out.push(v[i]);
        i += 1;
        assert(out@ =~= v@.subrange(lo as int, i as int));
    }
    string_of(&out)
}

} // verus!
