//! The Hyprland side of the summon: one line in the user's bindings file.
//!
//! Wayland has no app-registered global hotkeys, so Ctrl+Alt+Return only works
//! as a compositor bind, and the float rule that makes Envy a centred panel
//! lives in the same Lua file (`linux/hyprland-envy.lua`, installed to
//! `/usr/share/envy`). Loading that file takes one `pcall(dofile, ...)` line
//! in `~/.config/hypr/bindings.lua`. The `system.hyprland_bind` setting puts
//! that line there and takes it away again.
//!
//! Paths are handled as the bytes of the file name, the way Unix holds them.
use vstd::prelude::*;

use crate::text::{
    append_chars, chars_of, contains, contains_chars, join, join_chars, lacks, lemma_join_lines,
    lemma_lines_append, lemma_lines_join, lemma_lines_lack_newline, lemma_lines_one, lines,
    lines_of, no_crlf, occurs_at, slice_of, starts_with, starts_with_chars, string_of, strip_cr,
    trim, trim_chars, trim_start, trim_start_chars, views,
};

verus! {

/// Marks the line as ours. Only a line carrying it is ever removed: a user
/// who wrote their own `dofile` line keeps it whatever the setting says.
pub const MARKER: &'static str = "-- managed by Envy Settings";

/// The file whose loading the setting controls.
pub const LUA_NAME: &'static str = "hyprland-envy.lua";

/// The comment written above the managed line.
pub const ENVY_COMMENT: &'static str = "-- Envy: Ctrl+Alt+Return shows/hides the note app; Ctrl+Alt+C centres it.";

/// How the comment above the managed line is recognised when it is removed.
pub const ENVY_COMMENT_PREFIX: &'static str = "-- Envy: Ctrl+Alt+Return shows/hides";

/// Where the package installs the Lua file.
pub const PACKAGED_LUA: &'static str = "/usr/share/envy/hyprland-envy.lua";

/// The bindings file, relative to the home directory.
pub const BINDINGS_RELATIVE: &'static str = ".config/hypr/bindings.lua";

/// The Lua file in a source checkout, relative to the crate's manifest directory.
pub const CHECKOUT_RELATIVE: &'static str = "../linux/hyprland-envy.lua";

// ---------------------------------------------------------------------------
// Model
// ---------------------------------------------------------------------------
/// `PathBuf::join` with a relative path: a `/` goes between the two unless
/// the base is empty or already ends in one.
pub open spec fn path_join(base: Seq<u8>, rel: Seq<u8>) -> Seq<u8> {
    if base.len() == 0 || base.last() == 0x2Fu8 {
        base + rel
    } else {
        base + seq![0x2Fu8] + rel
    }
}

/// The bytes of a string's characters, for the ASCII literals above.
pub open spec fn ascii_bytes(s: Seq<char>) -> Seq<u8> {
    s.map_values(|c: char| c as u8)
}

/// A line that loads the Envy file and is not commented out.
pub open spec fn loads_envy(l: Seq<char>) -> bool {
    contains(l, LUA_NAME@) && !starts_with(trim_start(l), "--"@)
}

/// Whether any line loads the Envy file, ours or the user's own.
pub open spec fn spec_mentions_envy(text: Seq<char>) -> bool {
    exists|i: int| 0 <= i < lines(text).len() && loads_envy(#[trigger] lines(text)[i])
}

/// Whether any line carries the marker.
pub open spec fn spec_has_managed_line(text: Seq<char>) -> bool {
    exists|i: int| 0 <= i < lines(text).len() && contains(#[trigger] lines(text)[i], MARKER@)
}

/// The line that loads `source`, marked as ours.
pub open spec fn spec_managed_line(source: Seq<char>) -> Seq<char> {
    "pcall(dofile, \""@ + source + "\") "@ + MARKER@
}

/// A line the setting owns: the marked line or the comment above it.
pub open spec fn is_ours(l: Seq<char>) -> bool {
    contains(l, MARKER@) || starts_with(l, ENVY_COMMENT_PREFIX@)
}

/// The lines that are not ours, in order.
pub open spec fn kept_lines(ls: Seq<Seq<char>>) -> Seq<Seq<char>>
    decreases ls.len(),
{
    if ls.len() == 0 {
        Seq::empty()
    } else if is_ours(ls.last()) {
        kept_lines(ls.drop_last())
    } else {
        kept_lines(ls.drop_last()).push(ls.last())
    }
}

/// A line holding nothing but white space.
pub open spec fn is_blank(l: Seq<char>) -> bool {
    trim(l).len() == 0
}

/// The lines without the blank ones at the end.
pub open spec fn drop_blank_tail(ls: Seq<Seq<char>>) -> Seq<Seq<char>>
    decreases ls.len(),
{
    if ls.len() > 0 && is_blank(ls.last()) {
        drop_blank_tail(ls.drop_last())
    } else {
        ls
    }
}

/// The text with a final `\n` added when its last line has none.
pub open spec fn ended(text: Seq<char>) -> Seq<char> {
    if text.len() > 0 && text.last() != '\n' {
        text.push('\n')
    } else {
        text
    }
}

/// The bindings file as it should read with the setting `wanted`, or `None`
/// when nothing needs to change.
///
/// On: unless some line already loads the file, the text (ended by a `\n`)
/// gains a blank line, the comment and the managed line. Off: unless no line
/// carries the marker, the lines that are ours go, then the blank lines at
/// the end, and what is left is written back one per line.
pub open spec fn spec_updated(text: Seq<char>, wanted: bool, source: Seq<char>) -> Option<Seq<char>> {
    if wanted {
        if spec_mentions_envy(text) {
            None
        } else {
            Some(
                ended(text) + seq!['\n'] + ENVY_COMMENT@ + seq!['\n'] + spec_managed_line(source)
                    + seq!['\n'],
            )
        }
    } else {
        if !spec_has_managed_line(text) {
            None
        } else {
            let out = join(drop_blank_tail(kept_lines(lines(text))), seq!['\n']);
            Some(
                if out.len() > 0 {
                    out.push('\n')
                } else {
                    out
                },
            )
        }
    }
}

/// The view of an optional string.
pub open spec fn opt_view(o: Option<String>) -> Option<Seq<char>> {
    match o {
        Some(s) => Some(s@),
        None => None,
    }
}

/// The view of an optional byte vector.
pub open spec fn opt_bytes(o: Option<Vec<u8>>) -> Option<Seq<u8>> {
    match o {
        Some(v) => Some(v@),
        None => None,
    }
}

// ---------------------------------------------------------------------------
// Executable
// ---------------------------------------------------------------------------
/// The bytes of an ASCII literal.
pub(crate) fn ascii_of(s: &str) -> (v: Vec<u8>)
    requires
        forall|i: int| 0 <= i < s@.len() ==> (s@[i] as u32) < 128,
    ensures
        v@ == ascii_bytes(s@),
{
    let cs = chars_of(s);
    let mut v: Vec<u8> = Vec::new();
    let mut i: usize = 0;
    while i < cs.len()
        invariant
            i <= cs.len(),
            cs@ == s@,
            forall|k: int| 0 <= k < s@.len() ==> (s@[k] as u32) < 128,
            v@ == ascii_bytes(cs@.take(i as int)),
        decreases cs.len() - i,
    {
        v.push(cs[i] as u8);
        i += 1;
        assert(ascii_bytes(cs@.take(i as int)) =~= ascii_bytes(cs@.take((i - 1) as int)).push(
            cs@[i - 1] as u8,
        ));
    }
    assert(cs@.take(cs.len() as int) =~= cs@);
    v
}

/// `base.join(rel)` for a relative `rel`.
pub(crate) fn join_path(base: &[u8], rel: &Vec<u8>) -> (r: Vec<u8>)
    ensures
        r@ == path_join(base@, rel@),
{
    let mut r: Vec<u8> = Vec::new();
    let mut i: usize = 0;
    while i < base.len()
        invariant
            i <= base.len(),
            r@ == base@.take(i as int),
        decreases base.len() - i,
    {
        r.push(base[i]);
        i += 1;
        assert(r@ =~= base@.take(i as int));
    }
    assert(base@.take(base.len() as int) =~= base@);
    if base.len() > 0 && base[base.len() - 1] != 0x2Fu8 {
        r.push(0x2Fu8);
    }
    let ghost before = r@;
    let mut j: usize = 0;
    while j < rel.len()
        invariant
            j <= rel.len(),
            r@ == before + rel@.take(j as int),
        decreases rel.len() - j,
    {
        r.push(rel[j]);
        j += 1;
        assert(r@ =~= before + rel@.take(j as int));
    }
    assert(rel@.take(rel.len() as int) =~= rel@);
    r
}

/// The user's bindings file, `~/.config/hypr/bindings.lua`, given the home
/// directory (`None` when it is unknown).
pub fn bindings_file(home: Option<&[u8]>) -> (r: Option<Vec<u8>>)
    ensures
        opt_bytes(r) == match home {
            Some(h) => Some(path_join(h@, ascii_bytes(BINDINGS_RELATIVE@))),
            None => None::<Seq<u8>>,
        },
{
    match home {
        Some(h) => {
            proof {
                reveal_strlit(".config/hypr/bindings.lua");
            }
            let rel = ascii_of(BINDINGS_RELATIVE);
            Some(join_path(h, &rel))
        },
        None => None,
    }
}

/// Where a source checkout keeps the Lua file, given the crate's manifest
/// directory.
pub fn checkout_lua(manifest_dir: &[u8]) -> (r: Vec<u8>)
    ensures
        r@ == path_join(manifest_dir@, ascii_bytes(CHECKOUT_RELATIVE@)),
{
    proof {
        reveal_strlit("../linux/hyprland-envy.lua");
    }
    let rel = ascii_of(CHECKOUT_RELATIVE);
    join_path(manifest_dir, &rel)
}

/// The Lua file to load: the package's copy when it is a file, else the
/// checkout's (as its canonical path, when that could be had), else none.
pub fn lua_source(
    packaged_is_file: bool,
    checkout: &[u8],
    checkout_is_file: bool,
    checkout_canonical: Option<Vec<u8>>,
) -> (r: Option<Vec<u8>>)
    ensures
        opt_bytes(r) == if packaged_is_file {
            Some(ascii_bytes(PACKAGED_LUA@))
        } else if checkout_is_file {
            match checkout_canonical {
                Some(c) => Some(c@),
                None => Some(checkout@),
            }
        } else {
            None::<Seq<u8>>
        },
{
    if packaged_is_file {
        proof {
            reveal_strlit("/usr/share/envy/hyprland-envy.lua");
        }
        return Some(ascii_of(PACKAGED_LUA));
    }
    if checkout_is_file {
        match checkout_canonical {
            Some(c) => Some(c),
            None => {
                let mut v: Vec<u8> = Vec::new();
                let mut i: usize = 0;
                while i < checkout.len()
                    invariant
                        i <= checkout.len(),
                        v@ == checkout@.take(i as int),
                    decreases checkout.len() - i,
                {
                    v.push(checkout[i]);
                    i += 1;
                    assert(v@ =~= checkout@.take(i as int));
                }
                assert(checkout@.take(checkout.len() as int) =~= checkout@);
                Some(v)
            },
        }
    } else {
        None
    }
}

/// The line that loads `source` (its display form), marked as ours.
fn managed_line(source: &str) -> (s: String)
    ensures
        s@ == spec_managed_line(source@),
{
    let mut v = chars_of("pcall(dofile, \"");
    append_chars(&mut v, &chars_of(source));
    append_chars(&mut v, &chars_of("\") "));
    append_chars(&mut v, &chars_of(MARKER));
    string_of(&v)
}

/// Whether any line loads the Envy file, ours or the user's own.
pub fn mentions_envy(text: &str) -> (b: bool)
    ensures
        b == spec_mentions_envy(text@),
{
    let ls = lines_of(&chars_of(text));
    let name = chars_of(LUA_NAME);
    let dashes = chars_of("--");
    let mut i: usize = 0;
    while i < ls.len()
        invariant
            i <= ls.len(),
            views(ls@) == lines(text@),
            name@ == LUA_NAME@,
            dashes@ == "--"@,
            forall|k: int| 0 <= k < i ==> !loads_envy(#[trigger] lines(text@)[k]),
        decreases ls.len() - i,
    {
        let l = &ls[i];
        assert(l@ == lines(text@)[i as int]);
        if contains_chars(l, &name) && !starts_with_chars(&trim_start_chars(l), &dashes) {
            return true;
        }
        i += 1;
    }
    false
}

/// Whether any line carries the marker.
pub fn has_managed_line(text: &str) -> (b: bool)
    ensures
        b == spec_has_managed_line(text@),
{
    let ls = lines_of(&chars_of(text));
    let marker = chars_of(MARKER);
    let mut i: usize = 0;
    while i < ls.len()
        invariant
            i <= ls.len(),
            views(ls@) == lines(text@),
            marker@ == MARKER@,
            forall|k: int| 0 <= k < i ==> !contains(#[trigger] lines(text@)[k], MARKER@),
        decreases ls.len() - i,
    {
        assert(ls@[i as int]@ == lines(text@)[i as int]);
        if contains_chars(&ls[i], &marker) {
            return true;
        }
        i += 1;
    }
    false
}

/// The bindings file as it should read with the setting `wanted`, or `None`
/// when nothing needs to change. `source` is the Lua file's path as shown.
pub fn updated(text: &str, wanted: bool, source: &str) -> (res: Option<String>)
    ensures
        opt_view(res) == spec_updated(text@, wanted, source@),
{
    if wanted {
        if mentions_envy(text) {
            return None;
        }
        let mut out = chars_of(text);
        if out.len() > 0 && out[out.len() - 1] != '\n' {
            out.push('\n');
        }
        assert(out@ == ended(text@));
        out.push('\n');
        append_chars(&mut out, &chars_of(ENVY_COMMENT));
        out.push('\n');
        append_chars(&mut out, &chars_of(managed_line(source).as_str()));
        out.push('\n');
        assert(out@ =~= ended(text@) + seq!['\n'] + ENVY_COMMENT@ + seq!['\n'] + spec_managed_line(
            source@,
        ) + seq!['\n']);
        Some(string_of(&out))
    } else {
        if !has_managed_line(text) {
            return None;
        }
        let ls = lines_of(&chars_of(text));
        let marker = chars_of(MARKER);
        let prefix = chars_of(ENVY_COMMENT_PREFIX);
        let mut kept: Vec<Vec<char>> = Vec::new();
        let mut i: usize = 0;
        while i < ls.len()
            invariant
                i <= ls.len(),
                views(ls@) == lines(text@),
                marker@ == MARKER@,
                prefix@ == ENVY_COMMENT_PREFIX@,
                views(kept@) == kept_lines(lines(text@).take(i as int)),
            decreases ls.len() - i,
        {
            let l = &ls[i];
            let ghost all = lines(text@).take((i + 1) as int);
            assert(all.drop_last() =~= lines(text@).take(i as int));
            assert(all.last() == l@);
            if !(contains_chars(l, &marker) || starts_with_chars(l, &prefix)) {
                let copy = slice_of(l, 0, l.len());
                assert(copy@ =~= l@);
                kept.push(copy);
                assert(views(kept@) =~= kept_lines(lines(text@).take(i as int)).push(l@));
            }
            i += 1;
        }
        assert(lines(text@).take(ls.len() as int) =~= lines(text@));
        let ghost full = views(kept@);
        while kept.len() > 0 && trim_chars(&kept[kept.len() - 1]).len() == 0
            invariant
                drop_blank_tail(full) == drop_blank_tail(views(kept@)),
            decreases kept.len(),
        {
            let ghost before = views(kept@);
            assert(is_blank(before.last()));
            kept.pop();
            assert(views(kept@) =~= before.drop_last());
        }
        assert(drop_blank_tail(views(kept@)) == views(kept@));
        let sep = vec!['\n'];
        assert(sep@ =~= seq!['\n']);
        let mut out = join_chars(&kept, &sep);
        if out.len() > 0 {
            out.push('\n');
        }
        Some(string_of(&out))
    }
}

/// What to write to the bindings file, or `None` when it is to be left as
/// it is. `current` is its text, `None` when it could not be read; a missing
/// file is created only to turn the setting on, and only where its directory
/// exists.
pub fn bindings_update(
    current: Option<&str>,
    wanted: bool,
    directory_exists: bool,
    source: &str,
) -> (res: Option<String>)
    ensures
        opt_view(res) == match current {
            Some(t) => spec_updated(t@, wanted, source@),
            None => if wanted && directory_exists {
                spec_updated(Seq::empty(), true, source@)
            } else {
                None
            },
        },
{
    match current {
        Some(t) => updated(t, wanted, source),
        None => {
            if wanted && directory_exists {
                proof {
                    reveal_strlit("");
                }
                updated("", true, source)
            } else {
                None
            }
        },
    }
}

// ---------------------------------------------------------------------------
// Laws
// ---------------------------------------------------------------------------
proof fn lemma_literals()
    ensures
        MARKER@.len() > 0,
        lacks(MARKER@, '\n'),
        MARKER@.last() != '\r',
        ENVY_COMMENT_PREFIX@.len() > 0,
        lacks(ENVY_COMMENT@, '\n'),
        ENVY_COMMENT@.len() > 0,
        ENVY_COMMENT@.last() != '\r',
        starts_with(ENVY_COMMENT@, ENVY_COMMENT_PREFIX@),
        "pcall(dofile, \""@.len() == 15,
        lacks("pcall(dofile, \""@, '\n'),
        "pcall(dofile, \""@[0] == 'p',
        lacks("\") "@, '\n'),
        "--"@ == seq!['-', '-'],
{
    reveal_strlit("-- managed by Envy Settings");
    reveal_strlit("-- Envy: Ctrl+Alt+Return shows/hides the note app; Ctrl+Alt+C centres it.");
    reveal_strlit("-- Envy: Ctrl+Alt+Return shows/hides");
    reveal_strlit("pcall(dofile, \"");
    reveal_strlit("\") ");
    reveal_strlit("--");
    assert(ENVY_COMMENT@.take(ENVY_COMMENT_PREFIX@.len() as int) =~= ENVY_COMMENT_PREFIX@);
}

/// Facts about the managed line for a source path that names the Lua file.
proof fn lemma_managed_line(source: Seq<char>)
    requires
        lacks(source, '\n'),
    ensures
        lacks(spec_managed_line(source), '\n'),
        spec_managed_line(source).len() > 0,
        spec_managed_line(source).last() != '\r',
        contains(spec_managed_line(source), MARKER@),
        contains(source, LUA_NAME@) ==> loads_envy(spec_managed_line(source)),
{
    reveal(contains);
    lemma_literals();
    let head = "pcall(dofile, \""@;
    let m = spec_managed_line(source);
    assert(m =~= head + source + "\") "@ + MARKER@);
    assert(m.last() == MARKER@.last());
    assert(occurs_at(m, MARKER@, m.len() - MARKER@.len())) by {
        assert(m.subrange(m.len() - MARKER@.len(), m.len() as int) =~= MARKER@);
    }
    if contains(source, LUA_NAME@) {
        let i = choose|i: int| occurs_at(source, LUA_NAME@, i);
        assert(occurs_at(m, LUA_NAME@, i + 15)) by {
            assert(m.subrange(i + 15, i + 15 + LUA_NAME@.len()) =~= source.subrange(
                i,
                i + LUA_NAME@.len(),
            ));
        }
        assert(m[0] == 'p');
        assert(trim_start(m) == m);
        if starts_with(m, "--"@) {
            assert(m.take(2)[0] == '-');
        }
    }
}

proof fn lemma_contains_strip_cr(l: Seq<char>, p: Seq<char>)
    requires
        contains(strip_cr(l), p),
    ensures
        contains(l, p),
{
    reveal(contains);
    let i = choose|i: int| occurs_at(strip_cr(l), p, i);
    assert(l.subrange(i, i + p.len()) =~= strip_cr(l).subrange(i, i + p.len()));
    assert(occurs_at(l, p, i));
}

proof fn lemma_kept_lines(ls: Seq<Seq<char>>)
    requires
        forall|j: int| 0 <= j < ls.len() ==> lacks(#[trigger] ls[j], '\n'),
    ensures
        forall|i: int|
            0 <= i < kept_lines(ls).len() ==> lacks(#[trigger] kept_lines(ls)[i], '\n')
                && !is_ours(kept_lines(ls)[i]),
    decreases ls.len(),
{
    if ls.len() > 0 {
        let init = ls.drop_last();
        assert forall|j: int| 0 <= j < init.len() implies lacks(#[trigger] init[j], '\n') by {
            assert(init[j] == ls[j]);
        }
        lemma_kept_lines(init);
        assert(lacks(ls[ls.len() - 1], '\n'));
        let k = kept_lines(ls);
        let ki = kept_lines(init);
        if !is_ours(ls.last()) {
            assert(k == ki.push(ls.last()));
            assert forall|i: int| 0 <= i < k.len() implies lacks(#[trigger] k[i], '\n') && !is_ours(
                k[i],
            ) by {
                if i < ki.len() {
                    assert(k[i] == ki[i]);
                }
            }
        }
    }
}

proof fn lemma_kept_lines_append(a: Seq<Seq<char>>, b: Seq<Seq<char>>)
    ensures
        kept_lines(a + b) == kept_lines(a) + kept_lines(b),
    decreases b.len(),
{
    if b.len() == 0 {
        assert(a + b =~= a);
        assert(kept_lines(a) + kept_lines(b) =~= kept_lines(a));
    } else {
        assert((a + b).drop_last() =~= a + b.drop_last());
        lemma_kept_lines_append(a, b.drop_last());
        assert((a + b).last() == b.last());
        if is_ours(b.last()) {
        } else {
            assert(kept_lines(a + b) =~= kept_lines(a) + kept_lines(b));
        }
    }
}

proof fn lemma_kept_lines_none_ours(ls: Seq<Seq<char>>)
    requires
        forall|j: int| 0 <= j < ls.len() ==> !is_ours(#[trigger] ls[j]),
    ensures
        kept_lines(ls) == ls,
    decreases ls.len(),
{
    if ls.len() > 0 {
        let init = ls.drop_last();
        assert forall|j: int| 0 <= j < init.len() implies !is_ours(#[trigger] init[j]) by {
            assert(init[j] == ls[j]);
        }
        lemma_kept_lines_none_ours(init);
        assert(!is_ours(ls[ls.len() - 1]));
        assert(init.push(ls.last()) =~= ls);
    }
}

proof fn lemma_drop_blank_tail_prefix(ls: Seq<Seq<char>>)
    ensures
        drop_blank_tail(ls).len() <= ls.len(),
        forall|i: int| 0 <= i < drop_blank_tail(ls).len() ==> #[trigger] drop_blank_tail(ls)[i] == ls[i],
    decreases ls.len(),
{
    if ls.len() > 0 && is_blank(ls.last()) {
        lemma_drop_blank_tail_prefix(ls.drop_last());
    }
}

/// The lines of the text the setting on produces.
proof fn lemma_lines_of_on(t: Seq<char>, c: Seq<char>, m: Seq<char>)
    requires
        t.len() == 0 || t.last() == '\n',
        lacks(c, '\n'),
        lacks(m, '\n'),
        c.len() > 0 && c.last() != '\r',
        m.len() > 0 && m.last() != '\r',
    ensures
        lines(t + (seq!['\n'] + (c.push('\n') + m.push('\n')))) == lines(t) + seq![
            Seq::<char>::empty(),
            c,
            m,
        ],
{
    let tail = seq!['\n'] + (c.push('\n') + m.push('\n'));
    lemma_lines_append(t, tail);
    lemma_lines_one(Seq::<char>::empty());
    assert(seq!['\n'] =~= Seq::<char>::empty().push('\n'));
    lemma_lines_append(seq!['\n'], c.push('\n') + m.push('\n'));
    lemma_lines_append(c.push('\n'), m.push('\n'));
    lemma_lines_one(c);
    lemma_lines_one(m);
    assert(strip_cr(Seq::<char>::empty()) =~= Seq::<char>::empty());
    assert(lines(tail) =~= seq![Seq::<char>::empty(), c, m]);
}

/// Turning the setting on settles the file: asked again, nothing changes.
/// (`source` is the Lua file's path, which names `hyprland-envy.lua`.)
pub proof fn law_on_is_settled(text: Seq<char>, source: Seq<char>)
    requires
        contains(source, LUA_NAME@),
        lacks(source, '\n'),
        spec_updated(text, true, source) is Some,
    ensures
        spec_updated(spec_updated(text, true, source)->0, true, source) is None,
{
    lemma_literals();
    lemma_managed_line(source);
    let t = ended(text);
    let m = spec_managed_line(source);
    let c = ENVY_COMMENT@;
    let on = spec_updated(text, true, source)->0;
    let tail = seq!['\n'] + (c.push('\n') + m.push('\n'));
    assert(on =~= t + tail);
    if t.len() > 0 {
        assert(t.last() == '\n');
    }
    lemma_lines_of_on(t, c, m);
    let lt = lines(t);
    assert(lines(on) =~= lt + seq![Seq::<char>::empty(), c, m]);
    assert(lines(on)[lt.len() + 2int] == m);
    assert(loads_envy(lines(on)[lt.len() + 2int]));
}

/// Turning the setting off settles the file: asked again, nothing changes.
pub proof fn law_off_is_settled(text: Seq<char>, source: Seq<char>)
    requires
        spec_updated(text, false, source) is Some,
    ensures
        spec_updated(spec_updated(text, false, source)->0, false, source) is None,
{
    let ls = lines(text);
    lemma_lines_lack_newline(text);
    lemma_kept_lines(ls);
    let kl = kept_lines(ls);
    let kept = drop_blank_tail(kl);
    lemma_drop_blank_tail_prefix(kl);
    let out = join(kept, seq!['\n']);
    let y = spec_updated(text, false, source)->0;
    if kept.len() == 0 {
        assert(out.len() == 0);
        assert(lines(y) =~= Seq::<Seq<char>>::empty());
    } else {
        assert forall|i: int| 0 <= i < kept.len() implies lacks(#[trigger] kept[i], '\n') by {
            assert(kept[i] == kl[i]);
        }
        lemma_lines_join(kept);
        let ly = kept.map_values(|l: Seq<char>| strip_cr(l));
        assert(lines(out.push('\n')) == ly);
        if out.len() == 0 {
            assert(lines(y).len() == 0);
        } else {
            assert(y == out.push('\n'));
        }
        assert forall|i: int| 0 <= i < lines(y).len() implies !contains(
            #[trigger] lines(y)[i],
            MARKER@,
        ) by {
            assert(lines(y)[i] == strip_cr(kept[i]));
            assert(kept[i] == kl[i]);
            assert(!is_ours(kl[i]));
            if contains(lines(y)[i], MARKER@) {
                lemma_contains_strip_cr(kept[i], MARKER@);
            }
        }
    }
}

/// A line the user wrote to load the file themselves is left alone: with it
/// present and no marked line, neither setting changes anything.
pub proof fn law_hand_written_line_is_left_alone(text: Seq<char>, source: Seq<char>)
    requires
        spec_mentions_envy(text),
        !spec_has_managed_line(text),
    ensures
        spec_updated(text, true, source) is None,
        spec_updated(text, false, source) is None,
{
}

/// Turning the setting off changes the file exactly when some line carries
/// the marker, whichever file the line loads.
pub proof fn law_off_acts_only_on_a_marked_line(text: Seq<char>, source: Seq<char>)
    ensures
        spec_has_managed_line(text) <==> spec_updated(text, false, source) is Some,
{
}

/// Turning the setting on only appends: the new text begins with the old.
pub proof fn law_on_keeps_the_text(text: Seq<char>, source: Seq<char>)
    requires
        spec_updated(text, true, source) is Some,
    ensures
        (spec_updated(text, true, source)->0).take(text.len() as int) == text,
{
    let on = spec_updated(text, true, source)->0;
    assert(on.take(text.len() as int) =~= text);
}

/// Turning the setting on and then off gives the text back (with a final
/// line ending added if it lacked one), for a text whose lines the setting
/// does not own, that does not already load the file, has no `\r\n` line
/// endings and does not end in blank lines.
pub proof fn law_off_undoes_on(text: Seq<char>, source: Seq<char>)
    requires
        lacks(source, '\n'),
        !spec_mentions_envy(text),
        no_crlf(ended(text)),
        forall|i: int| 0 <= i < lines(ended(text)).len() ==> !is_ours(#[trigger] lines(ended(text))[i]),
        ended(text).len() == 0 || !is_blank(lines(ended(text)).last()),
    ensures
        spec_updated(spec_updated(text, true, source)->0, false, source) == Some(ended(text)),
{
    lemma_literals();
    lemma_managed_line(source);
    let t = ended(text);
    let m = spec_managed_line(source);
    let c = ENVY_COMMENT@;
    let on = spec_updated(text, true, source)->0;
    let tail = seq!['\n'] + (c.push('\n') + m.push('\n'));
    assert(on =~= t + tail);
    if t.len() > 0 {
        assert(t.last() == '\n');
    }
    lemma_lines_of_on(t, c, m);
    let lt = lines(t);
    let empty = Seq::<char>::empty();
    assert(lines(on) =~= lt + seq![empty, c, m]);
    assert(lines(on)[lt.len() + 2int] == m);
    assert(spec_has_managed_line(on));
    // What survives the filter: the text's own lines and the blank line.
    assert(!contains(empty, MARKER@)) by {
        reveal(contains);
        if contains(empty, MARKER@) {
            let i = choose|i: int| occurs_at(empty, MARKER@, i);
        }
    }
    assert(!is_ours(empty));
    assert(is_ours(c));
    assert(is_ours(m));
    lemma_kept_lines_append(lt, seq![empty, c, m]);
    lemma_kept_lines_none_ours(lt);
    let three = seq![empty, c, m];
    assert(three.drop_last() =~= seq![empty, c]);
    assert(seq![empty, c].drop_last() =~= seq![empty]);
    assert(seq![empty].drop_last() =~= Seq::<Seq<char>>::empty());
    assert(kept_lines(three) == kept_lines(seq![empty, c]));
    assert(kept_lines(seq![empty, c]) == kept_lines(seq![empty]));
    assert(kept_lines(seq![empty]) == kept_lines(Seq::<Seq<char>>::empty()).push(empty));
    assert(kept_lines(three) =~= seq![empty]);
    let kl = lt.push(empty);
    assert(kept_lines(lines(on)) =~= kl);
    assert(is_blank(empty)) by {
        assert(trim_start(empty) =~= empty);
    }
    assert(kl.drop_last() =~= lt);
    assert(drop_blank_tail(kl) == drop_blank_tail(lt));
    if lt.len() > 0 {
        assert(!is_blank(lt.last()));
    }
    assert(drop_blank_tail(lt) == lt);
    if t.len() == 0 {
        assert(lt =~= Seq::<Seq<char>>::empty());
    } else {
        lemma_join_lines(t);
        let out = join(lt, seq!['\n']);
        if out.len() == 0 {
            assert(t =~= seq!['\n']);
            lemma_lines_one(empty);
            assert(lt =~= seq![strip_cr(empty)]);
            assert(is_blank(lt.last())) by {
                assert(strip_cr(empty) =~= empty);
                assert(trim_start(empty) =~= empty);
            }
        }
    }
}

} // verus!
