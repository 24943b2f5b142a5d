//! The bar icon and the Omarchy bar around it: which eye shows, how the
//! icon files are named and drawn as SVG, the bar's text colour, the bar
//! widget's placement, and hiding the tray's own copy of the icon.
use vstd::prelude::*;

use crate::json::{
    as_bool, as_i64, as_str, as_u64, at_path, find_key, get, get_member, items_view, key_index,
    lemma_key_index, lemma_view_array, lemma_view_object, member, members_view, opt_as_bool,
    opt_as_i64, opt_as_str, opt_as_u64, opt_json_view, put, str_is, Json, JsonView,
};
use crate::text::{
    append_chars, chars_eq, chars_of, contains, index_of, occurs_at, lemma_index_of, lemma_index_of_is, lines,
    lines_of, replace, replace_chars, slice_of, starts_with, starts_with_chars, string_of, trim,
    trim_chars, views, before_first, before_first_chars, decimal, decimal_of,
};
use vstd::utf8::{encode_utf8, is_char_boundary};
use crate::commands::upper_hex_digit;
use crate::text::{is_ws, trim_end, trim_start};

verus! {

// ---------------------------------------------------------------------------
// The eye
// ---------------------------------------------------------------------------
/// The three lid positions: open while the main window shows, squinting
/// while only the pinned note does, closed while both are hidden.
#[derive(Clone, Copy, PartialEq, Eq, Debug, Structural)]
pub enum Eye {
    Open,
    Squint,
    Closed,
}

impl Eye {
    /// The icon's theme name; `-symbolic` so the bar recolours it.
    pub fn icon_name(self) -> (s: &'static str)
        ensures
            s@ == match self {
                Eye::Open => "envy-open-symbolic"@,
                Eye::Squint => "envy-squint-symbolic"@,
                Eye::Closed => "envy-closed-symbolic"@,
            },
    {
        match self {
            Eye::Open => "envy-open-symbolic",
            Eye::Squint => "envy-squint-symbolic",
            Eye::Closed => "envy-closed-symbolic",
        }
    }
}

/// What the eye needs to know of a window.
pub struct WindowState {
    /// The window exists.
    pub exists: bool,
    /// It is mapped (GTK's word for shown).
    pub visible: bool,
    /// It is minimised.
    pub minimized: bool,
    /// Its title.
    pub title: String,
}

/// A window is on screen when it exists, is shown and not minimised, and,
/// where the compositor was asked, is among the titles it is showing.
pub open spec fn on_screen(w: WindowState, shown: Option<Seq<Seq<char>>>) -> bool {
    &&& w.exists
    &&& w.visible
    &&& !w.minimized
    &&& match shown {
        Some(titles) => names(titles, w.title@),
        None => true,
    }
}

/// `t` is among `titles`.
pub open spec fn names(titles: Seq<Seq<char>>, t: Seq<char>) -> bool {
    exists|i: int| 0 <= i < titles.len() && titles[i] == t
}

/// The views of a list of strings.
pub open spec fn strings_view(v: Seq<String>) -> Seq<Seq<char>> {
    Seq::new(v.len(), |i: int| v[i]@)
}

/// The view of an optional list of strings.
pub open spec fn opt_strings_view(v: Option<Vec<String>>) -> Option<Seq<Seq<char>>> {
    match v {
        Some(l) => Some(strings_view(l@)),
        None => None,
    }
}

fn window_on_screen(w: &WindowState, shown: &Option<Vec<String>>) -> (b: bool)
    ensures
        b == on_screen(*w, opt_strings_view(*shown)),
{
    if !w.exists || !w.visible || w.minimized {
        return false;
    }
    match shown {
        Some(titles) => {
            let t = chars_of(w.title.as_str());
            let mut i: usize = 0;
            while i < titles.len()
                invariant
                    i <= titles.len(),
                    t@ == w.title@,
                    opt_strings_view(*shown) == Some(strings_view(titles@)),
                    w.exists && w.visible && !w.minimized,
                    forall|j: int| 0 <= j < i ==> titles@[j]@ != w.title@,
                decreases titles.len() - i,
            {
                if chars_eq(&chars_of(titles[i].as_str()), &t) {
                    let ghost sv = strings_view(titles@);
                    assert(sv[i as int] == w.title@);
                    assert(names(sv, w.title@));
                    return true;
                }
                i += 1;
            }
            assert forall|j: int| 0 <= j < strings_view(titles@).len() implies strings_view(
                titles@,
            )[j] != w.title@ by {}
            false
        },
        None => true,
    }
}

/// The lid position: open while the main window is on screen, squinting
/// while only the pinned note is, closed otherwise. `shown` is the titles
/// the compositor reports showing, `None` when it could not be asked.
pub fn current_eye(main: &WindowState, pinned: &WindowState, shown: &Option<Vec<String>>) -> (e: Eye)
    ensures
        e == if on_screen(*main, opt_strings_view(*shown)) {
            Eye::Open
        } else if on_screen(*pinned, opt_strings_view(*shown)) {
            Eye::Squint
        } else {
            Eye::Closed
        },
{
    if window_on_screen(main, shown) {
        Eye::Open
    } else if window_on_screen(pinned, shown) {
        Eye::Squint
    } else {
        Eye::Closed
    }
}

/// A lower-case hexadecimal digit.
pub open spec fn hex_digit(n: u8) -> char {
    if n < 10 {
        ((n + 0x30) as u8) as char
    } else {
        ((n - 10 + 0x61) as u8) as char
    }
}

/// A colour as `#rrggbb`, lower case.
pub open spec fn colour_hex(c: Seq<u8>) -> Seq<char> {
    seq![
        '#',
        hex_digit(c[0] / 16),
        hex_digit(c[0] % 16),
        hex_digit(c[1] / 16),
        hex_digit(c[1] % 16),
        hex_digit(c[2] / 16),
        hex_digit(c[2] % 16),
    ]
}

fn hex_digit_exec(n: u8) -> (c: char)
    requires
        n < 16,
    ensures
        c == hex_digit(n),
{
    if n < 10 {
        (n + 0x30) as char
    } else {
        (n - 10 + 0x61) as char
    }
}

fn colour_hex_exec(c: [u8; 3]) -> (v: Vec<char>)
    ensures
        v@ == colour_hex(c@),
{
    let v = vec![
        '#',
        hex_digit_exec(c[0] / 16),
        hex_digit_exec(c[0] % 16),
        hex_digit_exec(c[1] / 16),
        hex_digit_exec(c[1] % 16),
        hex_digit_exec(c[2] / 16),
        hex_digit_exec(c[2] % 16),
    ];
    assert(v@ =~= colour_hex(c@));
    v
}

/// The lens outline: the lower rim from corner to corner, and for an open
/// or squinting eye the upper lid back to the start, closed. Points are the
/// eye's on an 18-unit canvas, y running downwards.
pub open spec fn lens_path(eye: Eye) -> Seq<char> {
    match eye {
        Eye::Closed => "M2.5 9 C6 13.7 12 13.7 15.5 9"@,
        Eye::Open => "M2.5 9 C6 13.7 12 13.7 15.5 9"@ + " C12 4.3 6 4.3 2.5 9Z"@,
        Eye::Squint => "M2.5 9 C6 13.7 12 13.7 15.5 9"@ + " C12 8.4 6 8.4 2.5 9Z"@,
    }
}

/// The iris: a disc clipped to the lens, absent while the eye is closed.
pub open spec fn iris_element(eye: Eye, hex: Seq<char>) -> Seq<char> {
    if eye == Eye::Closed {
        Seq::empty()
    } else {
        "<defs><clipPath id=\"l\"><path d=\""@ + lens_path(eye) + "\"/></clipPath></defs><circle cx=\"9\" cy=\"9.2\" r=\"2.5\" fill=\""@
            + hex + "\" clip-path=\"url(#l)\"/>"@
    }
}

/// One eye as an SVG in a single colour: the iris, then the rim stroked.
pub open spec fn spec_eye_svg(eye: Eye, colour: Seq<u8>) -> Seq<char> {
    let hex = colour_hex(colour);
    "<svg xmlns=\"http://www.w3.org/2000/svg\" viewBox=\"0 0 18 18\" width=\"18\" height=\"18\">"@
        + iris_element(eye, hex) + "<path d=\""@ + lens_path(eye)
        + "\" fill=\"none\" stroke=\""@ + hex
        + "\" stroke-width=\"2\" stroke-linecap=\"round\" stroke-linejoin=\"round\"/></svg>"@
}

fn lens_path_exec(eye: Eye) -> (v: Vec<char>)
    ensures
        v@ == lens_path(eye),
{
    let mut v = chars_of("M2.5 9 C6 13.7 12 13.7 15.5 9");
    match eye {
        Eye::Closed => {},
        Eye::Open => append_chars(&mut v, &chars_of(" C12 4.3 6 4.3 2.5 9Z")),
        Eye::Squint => append_chars(&mut v, &chars_of(" C12 8.4 6 8.4 2.5 9Z")),
    }
    v
}

/// One eye drawn as an SVG in `colour`; the iris (a `<circle>`) is drawn
/// only while the eye is open or squinting.
pub fn eye_svg(eye: Eye, colour: [u8; 3]) -> (s: String)
    ensures
        s@ == spec_eye_svg(eye, colour@),
{
    let hex = colour_hex_exec(colour);
    let lens = lens_path_exec(eye);
    let mut v = chars_of(
        "<svg xmlns=\"http://www.w3.org/2000/svg\" viewBox=\"0 0 18 18\" width=\"18\" height=\"18\">",
    );
    if eye != Eye::Closed {
        append_chars(&mut v, &chars_of("<defs><clipPath id=\"l\"><path d=\""));
        append_chars(&mut v, &lens);
        append_chars(
            &mut v,
            &chars_of("\"/></clipPath></defs><circle cx=\"9\" cy=\"9.2\" r=\"2.5\" fill=\""),
        );
        append_chars(&mut v, &hex);
        append_chars(&mut v, &chars_of("\" clip-path=\"url(#l)\"/>"));
    }
    append_chars(&mut v, &chars_of("<path d=\""));
    append_chars(&mut v, &lens);
    append_chars(&mut v, &chars_of("\" fill=\"none\" stroke=\""));
    append_chars(&mut v, &hex);
    append_chars(
        &mut v,
        &chars_of("\" stroke-width=\"2\" stroke-linecap=\"round\" stroke-linejoin=\"round\"/></svg>"),
    );
    assert(v@ =~= spec_eye_svg(eye, colour@));
    string_of(&v)
}

/// No `<` in `s` from position `i` on is directly followed by a `c`.
pub open spec fn lt_c_free_from(s: Seq<char>, i: int) -> bool
    decreases s.len() - i,
{
    if i < 0 || i + 1 >= s.len() {
        true
    } else {
        !(s[i] == '<' && s[i + 1] == 'c') && lt_c_free_from(s, i + 1)
    }
}

/// No `<` in `s` is directly followed by a `c`, so no tag there starts `<c`.
pub open spec fn no_lt_c(s: Seq<char>) -> bool {
    forall|k: int| 0 <= k && k + 1 < s.len() ==> !(#[trigger] s[k] == '<' && s[k + 1] == 'c')
}

proof fn lemma_lt_c_free_from(s: Seq<char>, i: int)
    requires
        0 <= i,
        lt_c_free_from(s, i),
    ensures
        forall|k: int| i <= k && k + 1 < s.len() ==> !(#[trigger] s[k] == '<' && s[k + 1] == 'c'),
    decreases s.len() - i,
{
    if i + 1 < s.len() {
        lemma_lt_c_free_from(s, i + 1);
    }
}

proof fn lemma_no_lt_c_concat(a: Seq<char>, b: Seq<char>)
    requires
        no_lt_c(a),
        no_lt_c(b),
        a.len() > 0 && b.len() > 0 ==> !(a.last() == '<' && b[0] == 'c'),
    ensures
        no_lt_c(a + b),
{
    assert forall|k: int| 0 <= k && k + 1 < (a + b).len() implies !(#[trigger] (a + b)[k] == '<'
        && (a + b)[k + 1] == 'c') by {
        if k + 1 < a.len() {
            assert(a[k] == (a + b)[k] && a[k + 1] == (a + b)[k + 1]);
        } else if k + 1 == a.len() {
            assert((a + b)[k] == a.last() && (a + b)[k + 1] == b[0]);
        } else {
            assert(b[k - a.len()] == (a + b)[k] && b[k + 1 - a.len()] == (a + b)[k + 1]);
        }
    }
}

proof fn lemma_no_lt_c_hex(c: Seq<u8>)
    requires
        c.len() == 3,
    ensures
        no_lt_c(colour_hex(c)),
        colour_hex(c).len() == 7,
        colour_hex(c)[0] == '#',
        colour_hex(c)[6] != '<',
{
    let h = colour_hex(c);
    assert forall|k: int| 0 <= k < 7 implies #[trigger] h[k] != '<' by {
        if k > 0 {
            let n: u8 = if k == 1 {
                c[0] / 16
            } else if k == 2 {
                c[0] % 16
            } else if k == 3 {
                c[1] / 16
            } else if k == 4 {
                c[1] % 16
            } else if k == 5 {
                c[2] / 16
            } else {
                c[2] % 16
            };
            assert(h[k] == hex_digit(n));
            assert(n < 16);
            if n < 10 {
                assert(((n + 0x30) as u8) as u32 != 0x3C);
            } else {
                assert(((n - 10 + 0x61) as u8) as u32 != 0x3C);
            }
        }
    }
}

/// The SVG of an eye has an iris (a `<circle>`) exactly while the eye is
/// open or squinting, whatever its colour.
pub proof fn law_iris_only_when_open(eye: Eye, colour: Seq<u8>)
    requires
        colour.len() == 3,
    ensures
        contains(spec_eye_svg(eye, colour), "<circle"@) <==> eye != Eye::Closed,
{
    reveal(contains);
    let head = "<svg xmlns=\"http://www.w3.org/2000/svg\" viewBox=\"0 0 18 18\" width=\"18\" height=\"18\">"@;
    let path_open = "<path d=\""@;
    let rim = "M2.5 9 C6 13.7 12 13.7 15.5 9"@;
    let stroke = "\" fill=\"none\" stroke=\""@;
    let tail = "\" stroke-width=\"2\" stroke-linecap=\"round\" stroke-linejoin=\"round\"/></svg>"@;
    let circle = "<circle"@;
    reveal_strlit("<svg xmlns=\"http://www.w3.org/2000/svg\" viewBox=\"0 0 18 18\" width=\"18\" height=\"18\">");
    reveal_strlit("<path d=\"");
    reveal_strlit("M2.5 9 C6 13.7 12 13.7 15.5 9");
    reveal_strlit("\" fill=\"none\" stroke=\"");
    reveal_strlit("\" stroke-width=\"2\" stroke-linecap=\"round\" stroke-linejoin=\"round\"/></svg>");
    reveal_strlit("<circle");
    let hex = colour_hex(colour);
    lemma_no_lt_c_hex(colour);
    if eye == Eye::Closed {
        let svg = spec_eye_svg(eye, colour);
        assert(iris_element(eye, hex) =~= Seq::<char>::empty());
        assert(svg =~= head + path_open + rim + stroke + hex + tail);
        reveal_with_fuel(lt_c_free_from, 100);
        assert(lt_c_free_from(head, 0));
        assert(lt_c_free_from(path_open, 0));
        assert(lt_c_free_from(rim, 0));
        assert(lt_c_free_from(stroke, 0));
        assert(lt_c_free_from(tail, 0));
        lemma_lt_c_free_from(head, 0);
        lemma_lt_c_free_from(path_open, 0);
        lemma_lt_c_free_from(rim, 0);
        lemma_lt_c_free_from(stroke, 0);
        lemma_lt_c_free_from(tail, 0);
        lemma_no_lt_c_concat(head, path_open);
        lemma_no_lt_c_concat(head + path_open, rim);
        lemma_no_lt_c_concat(head + path_open + rim, stroke);
        lemma_no_lt_c_concat(head + path_open + rim + stroke, hex);
        lemma_no_lt_c_concat(head + path_open + rim + stroke + hex, tail);
        if contains(svg, circle) {
            let i = choose|i: int| #[trigger] occurs_at(svg, circle, i);
            assert(svg.subrange(i, i + 7)[0] == svg[i]);
            assert(svg.subrange(i, i + 7)[1] == svg[i + 1]);
            assert(circle[0] == '<' && circle[1] == 'c');
            assert(false);
        }
    } else {
        let defs = "<defs><clipPath id=\"l\"><path d=\""@;
        let clip = "\"/></clipPath></defs><circle cx=\"9\" cy=\"9.2\" r=\"2.5\" fill=\""@;
        reveal_strlit("<defs><clipPath id=\"l\"><path d=\"");
        reveal_strlit("\"/></clipPath></defs><circle cx=\"9\" cy=\"9.2\" r=\"2.5\" fill=\"");
        let svg = spec_eye_svg(eye, colour);
        let lens = lens_path(eye);
        let at: int = (head.len() + defs.len() + lens.len() + 21) as int;
        let front = head + defs + lens;
        assert(svg =~= front + clip + (hex + "\" clip-path=\"url(#l)\"/>"@ + path_open + lens + stroke
            + hex + tail));
        assert(svg.subrange(at, at + 7) =~= circle) by {
            assert forall|j: int| 0 <= j < 7 implies svg.subrange(at, at + 7)[j] == circle[j] by {
                assert(svg[at + j] == clip[21 + j]);
            }
        }
        assert(occurs_at(svg, circle, at));
    }
}

// ---------------------------------------------------------------------------
// The bar's text colour (shell.toml / colors.toml)
// ---------------------------------------------------------------------------
/// Leading `"` removed.
pub open spec fn strip_leading_quotes(s: Seq<char>) -> Seq<char>
    decreases s.len(),
{
    if s.len() > 0 && s[0] == '"' {
        strip_leading_quotes(s.drop_first())
    } else {
        s
    }
}

/// Trailing `"` removed.
pub open spec fn strip_trailing_quotes(s: Seq<char>) -> Seq<char>
    decreases s.len(),
{
    if s.len() > 0 && s.last() == '"' {
        strip_trailing_quotes(s.drop_last())
    } else {
        s
    }
}

/// `str::trim_matches('"')`.
pub open spec fn strip_quotes(s: Seq<char>) -> Seq<char> {
    strip_trailing_quotes(strip_leading_quotes(s))
}

/// Reading one line of a small TOML file while looking for `key` under
/// `[section]`: the state is whether the line is in that section and the
/// value once found. A `[...]` line enters or leaves the section; in it, a
/// line that is not a `#` comment and has a `=` whose left side (trimmed)
/// is `key` gives the right side, trimmed and unquoted.
pub open spec fn toml_step(
    st: (bool, Option<Seq<char>>),
    raw: Seq<char>,
    section: Seq<char>,
    key: Seq<char>,
) -> (bool, Option<Seq<char>>) {
    let line = trim(raw);
    if st.1 is Some {
        st
    } else if starts_with(line, "["@) {
        (line == "["@ + section + "]"@, None)
    } else if !st.0 || starts_with(line, "#"@) {
        st
    } else {
        let k = index_of(line, '=');
        if k >= line.len() {
            st
        } else if trim(line.take(k)) == key {
            (st.0, Some(strip_quotes(trim(line.skip(k + 1)))))
        } else {
            st
        }
    }
}

/// The lines read in order.
pub open spec fn toml_scan(ls: Seq<Seq<char>>, section: Seq<char>, key: Seq<char>) -> (
    bool,
    Option<Seq<char>>,
)
    decreases ls.len(),
{
    if ls.len() == 0 {
        (false, None)
    } else {
        toml_step(toml_scan(ls.drop_last(), section, key), ls.last(), section, key)
    }
}

/// `key = "value"` under `[section]` in a small TOML file: the first such
/// value.
pub open spec fn spec_toml_section_value(text: Seq<char>, section: Seq<char>, key: Seq<char>) -> Option<
    Seq<char>,
> {
    toml_scan(lines(text), section, key).1
}

proof fn lemma_toml_found_stays(ls: Seq<Seq<char>>, n: int, section: Seq<char>, key: Seq<char>)
    requires
        0 <= n <= ls.len(),
        toml_scan(ls.take(n), section, key).1 is Some,
    ensures
        toml_scan(ls, section, key).1 == toml_scan(ls.take(n), section, key).1,
    decreases ls.len() - n,
{
    if n < ls.len() {
        let m = n + 1;
        assert(ls.take(m).drop_last() =~= ls.take(n));
        lemma_toml_found_stays(ls, m, section, key);
    } else {
        assert(ls.take(n) =~= ls);
    }
}

/// A `[...]` section header line.
pub open spec fn is_header(l: Seq<char>) -> bool {
    starts_with(trim(l), "["@)
}

/// Line `i` lies under `[section]`: the nearest header line above it is
/// exactly `[section]`.
pub open spec fn under_section(ls: Seq<Seq<char>>, i: int, section: Seq<char>) -> bool {
    exists|h: int|
        0 <= h < i && #[trigger] trim(ls[h]) == "["@ + section + "]"@ && forall|j: int|
            h < j < i ==> !is_header(#[trigger] ls[j])
}

/// The value a line gives `key`, wherever it stands: a line that is neither
/// a header nor a `#` comment and has a `=` whose left side, trimmed, is
/// `key` gives its right side trimmed and unquoted.
pub open spec fn line_value(l: Seq<char>, key: Seq<char>) -> Option<Seq<char>> {
    let line = trim(l);
    let k = index_of(line, '=');
    if is_header(l) || starts_with(line, "#"@) || k >= line.len() || trim(line.take(k)) != key {
        None
    } else {
        Some(strip_quotes(trim(line.skip(k + 1))))
    }
}

/// Line `i` gives `key` a value under `[section]`.
pub open spec fn reads_key_at(ls: Seq<Seq<char>>, i: int, section: Seq<char>, key: Seq<char>) -> bool {
    under_section(ls, i, section) && line_value(ls[i], key) is Some
}

proof fn lemma_header_of_section(section: Seq<char>)
    ensures
        starts_with("["@ + section + "]"@, "["@),
{
    reveal_strlit("[");
    reveal_strlit("]");
    let h = "["@ + section + "]"@;
    assert(h.take(1) =~= "["@);
}

proof fn lemma_toml_scan_reads(ls: Seq<Seq<char>>, n: int, section: Seq<char>, key: Seq<char>)
    requires
        0 <= n <= ls.len(),
    ensures
        toml_scan(ls.take(n), section, key).1 is None ==> (toml_scan(ls.take(n), section, key).0
            <==> under_section(ls, n, section)) && forall|i: int|
            0 <= i < n ==> !#[trigger] reads_key_at(ls, i, section, key),
        toml_scan(ls.take(n), section, key).1 is Some ==> exists|i: int|
            0 <= i < n && #[trigger] reads_key_at(ls, i, section, key) && line_value(ls[i], key)
                == toml_scan(ls.take(n), section, key).1 && forall|i2: int|
                0 <= i2 < i ==> !#[trigger] reads_key_at(ls, i2, section, key),
    decreases n,
{
    let hdr = "["@ + section + "]"@;
    lemma_header_of_section(section);
    if n == 0 {
        assert(ls.take(0) =~= Seq::<Seq<char>>::empty());
    } else {
        let m = n - 1;
        lemma_toml_scan_reads(ls, m, section, key);
        assert(ls.take(n).drop_last() =~= ls.take(m));
        assert(ls.take(n).last() == ls[m]);
        let st = toml_scan(ls.take(m), section, key);
        let l = ls[m];
        if st.1 is None {
            if is_header(l) {
                assert(line_value(l, key) is None);
                assert(!reads_key_at(ls, m, section, key));
                if trim(l) == hdr {
                    assert(under_section(ls, n, section));
                }
                if under_section(ls, n, section) {
                    let h = choose|h: int|
                        0 <= h < n && #[trigger] trim(ls[h]) == hdr && forall|j: int|
                            h < j < n ==> !is_header(#[trigger] ls[j]);
                    if h < m {
                        assert(!is_header(ls[m]));
                    }
                }
            } else {
                // A non-header line neither enters nor leaves a section.
                assert(under_section(ls, n, section) <==> under_section(ls, m, section)) by {
                    if under_section(ls, m, section) {
                        let h = choose|h: int|
                            0 <= h < m && #[trigger] trim(ls[h]) == hdr && forall|j: int|
                                h < j < m ==> !is_header(#[trigger] ls[j]);
                        assert forall|j: int| h < j < n implies !is_header(#[trigger] ls[j]) by {}
                    }
                    if under_section(ls, n, section) {
                        let h = choose|h: int|
                            0 <= h < n && #[trigger] trim(ls[h]) == hdr && forall|j: int|
                                h < j < n ==> !is_header(#[trigger] ls[j]);
                        if h == m {
                            assert(is_header(ls[m]));
                        }
                        assert forall|j: int| h < j < m implies !is_header(#[trigger] ls[j]) by {}
                    }
                }
                if reads_key_at(ls, m, section, key) {
                    assert(toml_scan(ls.take(n), section, key).1 == line_value(l, key));
                    assert forall|i2: int| 0 <= i2 < m implies !#[trigger] reads_key_at(
                        ls,
                        i2,
                        section,
                        key,
                    ) by {}
                }
            }
        }
    }
}

/// The value read for `key` comes from a line under `[section]` itself (the
/// nearest header above it is exactly `[section]`), the first such line;
/// when no line under `[section]` gives `key`, there is none, whatever
/// other sections hold.
pub proof fn law_toml_value_comes_from_its_section(
    text: Seq<char>,
    section: Seq<char>,
    key: Seq<char>,
)
    ensures
        spec_toml_section_value(text, section, key) is None <==> forall|i: int|
            0 <= i < lines(text).len() ==> !#[trigger] reads_key_at(lines(text), i, section, key),
        spec_toml_section_value(text, section, key) is Some ==> exists|i: int|
            0 <= i < lines(text).len() && #[trigger] reads_key_at(lines(text), i, section, key)
                && line_value(lines(text)[i], key) == spec_toml_section_value(text, section, key)
                && forall|i2: int|
                0 <= i2 < i ==> !#[trigger] reads_key_at(lines(text), i2, section, key),
{
    let ls = lines(text);
    lemma_toml_scan_reads(ls, ls.len() as int, section, key);
    assert(ls.take(ls.len() as int) =~= ls);
}

fn strip_quotes_exec(v: &Vec<char>) -> (r: Vec<char>)
    ensures
        r@ == strip_quotes(v@),
{
    let mut lo: usize = 0;
    assert(v@.skip(0) =~= v@);
    while lo < v.len() && v[lo] == '"'
        invariant
            lo <= v.len(),
            strip_leading_quotes(v@) == strip_leading_quotes(v@.skip(lo as int)),
        decreases v.len() - lo,
    {
        assert(v@.skip(lo as int).drop_first() =~= v@.skip(lo + 1));
        lo += 1;
    }
    let a = slice_of(v, lo, v.len());
    assert(a@ =~= v@.skip(lo as int));
    proof {
        if a@.len() > 0 {
            assert(a@[0] == v@[lo as int]);
        }
    }
    assert(strip_leading_quotes(a@) == a@);
    let mut hi: usize = a.len();
    assert(a@.take(a.len() as int) =~= a@);
    while hi > 0 && a[hi - 1] == '"'
        invariant
            hi <= a.len(),
            strip_trailing_quotes(a@) == strip_trailing_quotes(a@.take(hi as int)),
        decreases hi,
    {
        assert(a@.take(hi as int).drop_last() =~= a@.take(hi - 1));
        hi -= 1;
    }
    let r = slice_of(&a, 0, hi);
    assert(r@ =~= a@.take(hi as int));
    proof {
        if r@.len() > 0 {
            assert(r@.last() == a@[hi - 1]);
        }
    }
    assert(strip_trailing_quotes(r@) == r@);
    r
}

/// `key = "value"` under `[section]` in a small TOML file, nothing fancier.
pub fn toml_section_value(text: &str, section: &str, key: &str) -> (r: Option<String>)
    ensures
        opt_string_view(r) == spec_toml_section_value(text@, section@, key@),
{
    let ls = lines_of(&chars_of(text));
    let mut header = chars_of("[");
    append_chars(&mut header, &chars_of(section));
    append_chars(&mut header, &chars_of("]"));
    let key_chars = chars_of(key);
    let open = chars_of("[");
    let hash = chars_of("#");
    let mut in_section = false;
    let mut i: usize = 0;
    while i < ls.len()
        invariant
            i <= ls.len(),
            views(ls@) == lines(text@),
            header@ == "["@ + section@ + "]"@,
            key_chars@ == key@,
            open@ == "["@,
            hash@ == "#"@,
            toml_scan(lines(text@).take(i as int), section@, key@) == (in_section, None::<Seq<char>>),
        decreases ls.len() - i,
    {
        let ghost ls_v = lines(text@);
        let ghost st = (in_section, None::<Seq<char>>);
        assert(ls_v.take(i + 1).drop_last() =~= ls_v.take(i as int));
        assert(ls_v.take(i + 1).last() == ls@[i as int]@);
        let line = trim_chars(&ls[i]);
        if starts_with_chars(&line, &open) {
            in_section = chars_eq(&line, &header);
            i += 1;
            continue;
        }
        if !in_section || starts_with_chars(&line, &hash) {
            i += 1;
            continue;
        }
        let mut k: usize = 0;
        while k < line.len() && line[k] != '='
            invariant
                k <= line.len(),
                forall|j: int| 0 <= j < k ==> line@[j] != '=',
            decreases line.len() - k,
        {
            k += 1;
        }
        proof {
            lemma_index_of_is(line@, '=', k as int);
        }
        if k < line.len() {
            let left = trim_chars(&slice_of(&line, 0, k));
            if chars_eq(&left, &key_chars) {
                let right = trim_chars(&slice_of(&line, k + 1, line.len()));
                let value = strip_quotes_exec(&right);
                proof {
                    assert(line@.subrange(k + 1, line@.len() as int) =~= line@.skip(k + 1));
                    assert(line@.subrange(0, k as int) =~= line@.take(k as int));
                    lemma_toml_found_stays(ls_v, i + 1, section@, key@);
                }
                return Some(string_of(&value));
            }
            proof {
                assert(line@.subrange(0, k as int) =~= line@.take(k as int));
            }
        }
        i += 1;
    }
    assert(lines(text@).take(ls.len() as int) =~= lines(text@));
    None
}

/// The view of an optional string.
pub open spec fn opt_string_view(o: Option<String>) -> Option<Seq<char>> {
    match o {
        Some(s) => Some(s@),
        None => None,
    }
}

/// The value of an ASCII hexadecimal digit byte.
pub open spec fn hex_value(b: u8) -> Option<u8> {
    if 0x30 <= b <= 0x39 {
        Some((b - 0x30) as u8)
    } else if 0x61 <= b <= 0x66 {
        Some((b - 0x61 + 10) as u8)
    } else if 0x41 <= b <= 0x46 {
        Some((b - 0x41 + 10) as u8)
    } else {
        None
    }
}

/// `u8::from_str_radix(s, 16)` on a two-byte `s`: two hex digits, or a `+`
/// and one.
pub open spec fn hex_pair(b0: u8, b1: u8) -> Option<u8> {
    if b0 == 0x2B {
        hex_value(b1)
    } else {
        match (hex_value(b0), hex_value(b1)) {
            (Some(x), Some(y)) => Some((16 * x + y) as u8),
            _ => None,
        }
    }
}

/// What follows the `#` of a trimmed colour.
pub open spec fn hex_body(hex: Seq<char>) -> Option<Seq<char>> {
    let t = trim(hex);
    if t.len() > 0 && t[0] == '#' {
        Some(t.drop_first())
    } else {
        None
    }
}

/// `#rrggbb` (anything may follow) as red, green and blue: the first six
/// bytes after the `#`, two per channel.
pub open spec fn spec_parse_hex(hex: Seq<char>) -> Option<(u8, u8, u8)> {
    match hex_body(hex) {
        None => None,
        Some(h) => {
            let b = encode_utf8(h);
            if b.len() < 6 || !is_char_boundary(b, 6) {
                None
            } else {
                match (hex_pair(b[0], b[1]), hex_pair(b[2], b[3]), hex_pair(b[4], b[5])) {
                    (Some(r), Some(g), Some(bl)) => Some((r, g, bl)),
                    _ => None,
                }
            }
        },
    }
}

/// The inputs on which reading a colour slices a string inside a character
/// (and so panics): at least six bytes follow the `#` with a character
/// boundary at the sixth, but not at the second, or not at the fourth once
/// the first channel has read.
pub open spec fn parse_hex_panics(hex: Seq<char>) -> bool {
    match hex_body(hex) {
        None => false,
        Some(h) => {
            let b = encode_utf8(h);
            &&& b.len() >= 6
            &&& is_char_boundary(b, 6)
            &&& (!is_char_boundary(b, 2) || (hex_pair(b[0], b[1]) is Some && !is_char_boundary(
                b,
                4,
            )))
        },
    }
}

fn hex_value_exec(b: u8) -> (r: Option<u8>)
    ensures
        r == hex_value(b),
{
    if 0x30 <= b && b <= 0x39 {
        Some(b - 0x30)
    } else if 0x61 <= b && b <= 0x66 {
        Some(b - 0x61 + 10)
    } else if 0x41 <= b && b <= 0x46 {
        Some(b - 0x41 + 10)
    } else {
        None
    }
}

fn hex_pair_exec(b0: u8, b1: u8) -> (r: Option<u8>)
    ensures
        r == hex_pair(b0, b1),
{
    if b0 == 0x2B {
        hex_value_exec(b1)
    } else {
        match (hex_value_exec(b0), hex_value_exec(b1)) {
            (Some(x), Some(y)) => Some(16 * x + y),
            _ => None,
        }
    }
}

fn hex_body_exec(hex: &str) -> (r: Option<String>)
    ensures
        opt_string_view(r) == hex_body(hex@),
{
    let t = trim_chars(&chars_of(hex));
    if t.len() > 0 && t[0] == '#' {
        let body = slice_of(&t, 1, t.len());
        assert(body@ =~= t@.drop_first());
        Some(string_of(&body))
    } else {
        None
    }
}

/// Whether reading `hex` as a colour would slice inside a character.
pub fn parse_hex_would_panic(hex: &str) -> (b: bool)
    ensures
        b == parse_hex_panics(hex@),
{
    match hex_body_exec(hex) {
        None => false,
        Some(h) => {
            let s = h.as_str();
            let b = s.as_bytes();
            if b.len() < 6 || !s.is_char_boundary(6) {
                return false;
            }
            if !s.is_char_boundary(2) {
                return true;
            }
            hex_pair_exec(b[0], b[1]).is_some() && !s.is_char_boundary(4)
        },
    }
}

/// Reads `#rrggbb` as a colour (anything may follow the six digits).
pub fn parse_hex(hex: &str) -> (r: Option<[u8; 3]>)
    requires
        !parse_hex_panics(hex@),
    ensures
        match r {
            Some(c) => spec_parse_hex(hex@) == Some((c@[0], c@[1], c@[2])),
            None => spec_parse_hex(hex@) is None,
        },
{
    match hex_body_exec(hex) {
        None => None,
        Some(h) => {
            let s = h.as_str();
            let b = s.as_bytes();
            if b.len() < 6 || !s.is_char_boundary(6) {
                return None;
            }
            let r = match hex_pair_exec(b[0], b[1]) {
                Some(v) => v,
                None => return None,
            };
            let g = match hex_pair_exec(b[2], b[3]) {
                Some(v) => v,
                None => return None,
            };
            let bl = match hex_pair_exec(b[4], b[5]) {
                Some(v) => v,
                None => return None,
            };
            let c = [r, g, bl];
            assert(c@[0] == r && c@[1] == g && c@[2] == bl);
            Some(c)
        },
    }
}

/// A colour as `#RRGGBB`, upper case.
pub open spec fn colour_hex_upper(c: Seq<u8>) -> Seq<char> {
    seq![
        '#',
        upper_hex_digit(c[0] / 16),
        upper_hex_digit(c[0] % 16),
        upper_hex_digit(c[1] / 16),
        upper_hex_digit(c[1] % 16),
        upper_hex_digit(c[2] / 16),
        upper_hex_digit(c[2] % 16),
    ]
}

/// A hexadecimal digit character (either case) for `n`, as a byte, reads as
/// `n`.
proof fn lemma_hex_digit_value(n: u8)
    requires
        n < 16,
    ensures
        '\0' <= hex_digit(n) <= '\u{7f}',
        '\0' <= upper_hex_digit(n) <= '\u{7f}',
        hex_value(hex_digit(n) as u8) == Some(n),
        hex_value(upper_hex_digit(n) as u8) == Some(n),
        !is_ws(hex_digit(n)),
        !is_ws(upper_hex_digit(n)),
{
}

/// Six ASCII characters whose pairs read as `r`, `g`, `b` parse as that
/// colour, without slicing inside a character.
proof fn lemma_six_digits(s: Seq<char>, h: Seq<char>, r: u8, g: u8, b: u8)
    requires
        hex_body(s) == Some(h),
        h.len() == 6,
        forall|i: int| 0 <= i < 6 ==> '\0' <= #[trigger] h[i] <= '\u{7f}',
        hex_pair(h[0] as u8, h[1] as u8) == Some(r),
        hex_pair(h[2] as u8, h[3] as u8) == Some(g),
        hex_pair(h[4] as u8, h[5] as u8) == Some(b),
    ensures
        spec_parse_hex(s) == Some((r, g, b)),
        !parse_hex_panics(s),
{
    assert(vstd::utf8::is_ascii_chars(h));
    vstd::utf8::is_ascii_chars_encode_utf8(h);
    let bytes = encode_utf8(h);
    vstd::utf8::encode_utf8_valid_utf8(h);
    vstd::utf8::is_char_boundary_start_end_of_seq(bytes);
    assert(bytes.len() == 6);
    assert(bytes[0] == h[0] as u8 && bytes[1] == h[1] as u8 && bytes[2] == h[2] as u8);
    assert(bytes[3] == h[3] as u8 && bytes[4] == h[4] as u8 && bytes[5] == h[5] as u8);
    vstd::utf8::is_char_boundary_iff_is_leading_byte(bytes, 2);
    vstd::utf8::is_char_boundary_iff_is_leading_byte(bytes, 4);
    assert(vstd::utf8::is_leading_byte_width_1(bytes[2]));
    assert(vstd::utf8::is_leading_byte_width_1(bytes[4]));
    assert(is_char_boundary(bytes, 6));
    assert(is_char_boundary(bytes, 2));
    assert(is_char_boundary(bytes, 4));
}

/// A digit pair written for `x` reads back as `x`.
proof fn lemma_pair(x: u8, upper: bool)
    ensures
        ({
            let d0 = if upper { upper_hex_digit(x / 16) } else { hex_digit(x / 16) };
            let d1 = if upper { upper_hex_digit(x % 16) } else { hex_digit(x % 16) };
            &&& hex_pair(d0 as u8, d1 as u8) == Some(x)
            &&& '\0' <= d0 <= '\u{7f}'
            &&& '\0' <= d1 <= '\u{7f}'
        }),
{
    lemma_hex_digit_value(x / 16);
    lemma_hex_digit_value(x % 16);
}

/// Reading back a colour written as `#rrggbb` gives the colour: in lower case
/// as the icon files write it, and in upper case with white space around it,
/// as a theme file may hold it. A text with no `#` first (once trimmed), or
/// with fewer than six bytes after it, is no colour.
#[verifier::spinoff_prover]
#[verifier::rlimit(40)]
pub proof fn law_hex_colour_reads_back(r: u8, g: u8, b: u8, other: Seq<char>)
    ensures
        spec_parse_hex(colour_hex(seq![r, g, b])) == Some((r, g, b)),
        !parse_hex_panics(colour_hex(seq![r, g, b])),
        spec_parse_hex("  "@ + colour_hex_upper(seq![r, g, b]) + "\n"@) == Some((r, g, b)),
        !parse_hex_panics("  "@ + colour_hex_upper(seq![r, g, b]) + "\n"@),
        hex_body(other) is None ==> spec_parse_hex(other) is None,
        (hex_body(other) matches Some(h) && encode_utf8(h).len() < 6) ==> spec_parse_hex(other) is None,
{
    let c = seq![r, g, b];
    lemma_pair(r, false);
    lemma_pair(g, false);
    lemma_pair(b, false);
    lemma_pair(r, true);
    lemma_pair(g, true);
    lemma_pair(b, true);
    lemma_hex_digit_value(b % 16);
    // Lower case.
    let low = colour_hex(c);
    assert(trim_start(low) == low);
    assert(trim_end(low) == low);
    assert(trim(low) == low);
    let lh = low.drop_first();
    assert forall|i: int| 0 <= i < 6 implies '\0' <= #[trigger] lh[i] <= '\u{7f}' by {
        assert(lh[i] == low[i + 1]);
    }
    lemma_six_digits(low, lh, r, g, b);
    // Upper case, with white space around it.
    reveal_strlit("  ");
    reveal_strlit("\n");
    let up = colour_hex_upper(c);
    let padded = "  "@ + up + "\n"@;
    assert(padded.len() == 10);
    crate::text::lemma_trim_start_skip(padded, 2);
    let rest = padded.skip(2);
    assert(rest[0] == '#');
    assert(trim_start(rest) == rest);
    assert(rest =~= up + "\n"@);
    crate::text::lemma_trim_end_take(rest, 7);
    assert(rest.take(7) =~= up);
    assert(trim_end(up) == up);
    assert(trim(padded) == up);
    let uh = up.drop_first();
    assert forall|i: int| 0 <= i < 6 implies '\0' <= #[trigger] uh[i] <= '\u{7f}' by {
        assert(uh[i] == up[i + 1]);
    }
    lemma_six_digits(padded, uh, r, g, b);
}

/// The colour used when neither theme file gives one.
pub open spec fn default_bar_colour() -> (u8, u8, u8) {
    (0xca, 0xcc, 0xcc)
}

/// The colour the bar draws its own glyphs in: the theme's `[bar] text`
/// from `shell.toml` if there is one, else the palette's foreground, read
/// as `#rrggbb`; the shell's built-in default when neither gives a colour.
pub fn bar_colour(from_shell: Option<&str>, from_palette: Option<&str>) -> (c: [u8; 3])
    requires
        match (from_shell, from_palette) {
            (Some(s), _) => !parse_hex_panics(s@),
            (None, Some(p)) => !parse_hex_panics(p@),
            (None, None) => true,
        },
    ensures
        (c@[0], c@[1], c@[2]) == match (from_shell, from_palette) {
            (Some(s), _) => match spec_parse_hex(s@) {
                Some(rgb) => rgb,
                None => default_bar_colour(),
            },
            (None, Some(p)) => match spec_parse_hex(p@) {
                Some(rgb) => rgb,
                None => default_bar_colour(),
            },
            (None, None) => default_bar_colour(),
        },
{
    let chosen = match from_shell {
        Some(s) => Some(s),
        None => from_palette,
    };
    let parsed = match chosen {
        Some(h) => parse_hex(h),
        None => None,
    };
    match parsed {
        Some(c) => c,
        None => {
            let c = [0xcau8, 0xccu8, 0xccu8];
            assert(c@[0] == 0xca && c@[1] == 0xcc && c@[2] == 0xcc);
            c
        },
    }
}

// ---------------------------------------------------------------------------
// The bar widget's launcher
// ---------------------------------------------------------------------------
/// `s` in single quotes for `sh`, each `'` inside written `'\''`.
pub open spec fn spec_shell_quote(s: Seq<char>) -> Seq<char> {
    seq!['\''] + replace(s, seq!['\''], "'\\''"@) + seq!['\'']
}

/// Quotes `s` for `sh`.
pub fn shell_quote(s: &str) -> (r: String)
    ensures
        r@ == spec_shell_quote(s@),
{
    let q = vec!['\''];
    let mut v = vec!['\''];
    let body = replace_chars(&chars_of(s), &q, &chars_of("'\\''"));
    assert(q@ =~= seq!['\'']);
    append_chars(&mut v, &body);
    v.push('\'');
    assert(v@ =~= spec_shell_quote(s@));
    string_of(&v)
}

/// The script the bar widget runs to launch Envy: `exe`, quoted, with the
/// widget's arguments.
pub fn launch_script(exe: &str) -> (r: String)
    ensures
        r@ == "#!/bin/sh\nexec "@ + spec_shell_quote(exe@) + " \"$@\"\n"@,
{
    let mut v = chars_of("#!/bin/sh\nexec ");
    append_chars(&mut v, &chars_of(shell_quote(exe).as_str()));
    append_chars(&mut v, &chars_of(" \"$@\"\n"));
    string_of(&v)
}

// ---------------------------------------------------------------------------
// Hiding the tray's copy (shell.json)
// ---------------------------------------------------------------------------
/// The id the bar's tray widget goes by.
pub open spec fn tray_widget_id() -> Seq<char> {
    "omarchy.tray"@
}

/// The id Envy's item goes by in the tray.
pub open spec fn envy_id() -> Seq<char> {
    "envy"@
}

/// A `hidden` value as a list, and whether it had to become one: a list
/// stays, a lone string becomes a list of it, anything else an empty list,
/// and a missing one starts empty.
pub open spec fn hidden_as_list(h: Option<JsonView>) -> (Seq<JsonView>, bool) {
    match h {
        None => (Seq::empty(), false),
        Some(JsonView::Array(l)) => (l, false),
        Some(JsonView::Str(s)) => (seq![JsonView::Str(s)], true),
        Some(_) => (Seq::empty(), true),
    }
}

/// Whether a list names Envy.
pub open spec fn lists_envy(l: Seq<JsonView>) -> bool {
    exists|i: int| 0 <= i < l.len() && l[i] == JsonView::Str(envy_id())
}

/// The `hidden` value with Envy in it, and whether that changed anything.
pub open spec fn hidden_with_envy(h: Option<JsonView>) -> (JsonView, bool) {
    let (l, c) = hidden_as_list(h);
    if lists_envy(l) {
        (JsonView::Array(l), c)
    } else {
        (JsonView::Array(l.push(JsonView::Str(envy_id()))), true)
    }
}

/// One layout entry: the tray widget's entry gets Envy in its `hidden` list;
/// every other entry stays as it is.
pub open spec fn entry_hiding_envy(e: JsonView) -> (JsonView, bool) {
    match e {
        JsonView::Object(ms) => if as_str(member(ms, "id"@)) == Some(tray_widget_id()) {
            let (h, c) = hidden_with_envy(member(ms, "hidden"@));
            (JsonView::Object(put(ms, "hidden"@, h)), c)
        } else {
            (e, false)
        },
        _ => (e, false),
    }
}

/// Every entry of a layout section, in order, and whether any changed.
pub open spec fn entries_hiding_envy(es: Seq<JsonView>) -> (Seq<JsonView>, bool)
    decreases es.len(),
{
    if es.len() == 0 {
        (Seq::empty(), false)
    } else {
        let (init, c) = entries_hiding_envy(es.drop_last());
        let (e, c2) = entry_hiding_envy(es.last());
        (init.push(e), c || c2)
    }
}

/// The section the member names of `path` lead to, its entries treated as
/// above; everything else as it was. Nothing changes when the path does
/// not lead to a list.
pub open spec fn section_hiding_envy(v: JsonView, path: Seq<Seq<char>>) -> (JsonView, bool)
    decreases path.len(),
{
    if path.len() == 0 {
        match v {
            JsonView::Array(es) => {
                let (es2, c) = entries_hiding_envy(es);
                (JsonView::Array(es2), c)
            },
            _ => (v, false),
        }
    } else {
        match v {
            JsonView::Object(ms) => match member(ms, path[0]) {
                Some(w) => {
                    let (w2, c) = section_hiding_envy(w, path.drop_first());
                    (JsonView::Object(put(ms, path[0], w2)), c)
                },
                None => (v, false),
            },
            _ => (v, false),
        }
    }
}

/// The path to one side of the bar's layout.
pub open spec fn side_path(side: Seq<char>) -> Seq<Seq<char>> {
    seq!["bar"@, "layout"@, side]
}

/// `shell.json` with "envy" in the tray widget's `hidden` list on every
/// side of the bar (left, then center, then right), or `None` when it is
/// there already and nothing changes.
pub open spec fn spec_hide_in_tray(root: JsonView) -> Option<JsonView> {
    let (r1, c1) = section_hiding_envy(root, side_path("left"@));
    let (r2, c2) = section_hiding_envy(r1, side_path("center"@));
    let (r3, c3) = section_hiding_envy(r2, side_path("right"@));
    if c1 || c2 || c3 {
        Some(r3)
    } else {
        None
    }
}

/// The view of an optional value owned.
pub open spec fn opt_owned_view(v: Option<Json>) -> Option<JsonView> {
    match v {
        Some(w) => Some(w.view()),
        None => None,
    }
}

fn string_lit(s: &str) -> (r: String)
    ensures
        r@ == s@,
{
    string_of(&chars_of(s))
}

fn hidden_with_envy_exec(h: Option<Json>) -> (r: (Json, bool))
    ensures
        (r.0.view(), r.1) == hidden_with_envy(opt_owned_view(h)),
{
    let (mut list, mut changed): (Vec<Json>, bool) = match h {
        None => {
            let l: Vec<Json> = Vec::new();
            assert(items_view(l@) =~= Seq::<JsonView>::empty());
            (l, false)
        },
        Some(Json::Array(l)) => {
            proof {
                lemma_view_array(l);
            }
            (l, false)
        },
        Some(Json::Str(s)) => {
            let ghost sv = s@;
            let l = vec![Json::Str(s)];
            assert(items_view(l@) =~= seq![JsonView::Str(sv)]);
            (l, true)
        },
        Some(_) => {
            let l: Vec<Json> = Vec::new();
            assert(items_view(l@) =~= Seq::<JsonView>::empty());
            (l, true)
        },
    };
    let ghost l0 = items_view(list@);
    assert(hidden_as_list(opt_owned_view(h)) == (l0, changed));
    let mut found = false;
    let mut i: usize = 0;
    while i < list.len()
        invariant
            i <= list.len(),
            l0 == items_view(list@),
            found == exists|j: int| 0 <= j < i && l0[j] == JsonView::Str(envy_id()),
        decreases list.len() - i,
    {
        let hit = match &list[i] {
            Json::Str(s) => str_is(s, "envy"),
            _ => false,
        };
        assert(hit == (l0[i as int] == JsonView::Str(envy_id())));
        found = found || hit;
        i += 1;
    }
    if !found {
        let ghost before = list@;
        list.push(Json::Str(string_lit("envy")));
        assert(items_view(list@) =~= l0.push(JsonView::Str(envy_id())));
        changed = true;
    }
    proof {
        lemma_view_array(list);
    }
    (Json::Array(list), changed)
}

fn member_str_is(ms: &Vec<(String, Json)>, k: &str, want: &str) -> (b: bool)
    ensures
        b == (as_str(member(members_view(ms@), k@)) == Some(want@)),
{
    proof {
        lemma_key_index(members_view(ms@), k@);
    }
    let i = find_key(ms, k);
    if i < ms.len() {
        match &ms[i].1 {
            Json::Str(s) => str_is(s, want),
            _ => false,
        }
    } else {
        false
    }
}

fn entry_hiding_envy_exec(e: Json) -> (r: (Json, bool))
    ensures
        (r.0.view(), r.1) == entry_hiding_envy(e.view()),
{
    match e {
        Json::Object(mut ms) => {
            proof {
                lemma_view_object(ms);
            }
            let ghost mv = members_view(ms@);
            if !member_str_is(&ms, "id", "omarchy.tray") {
                return (Json::Object(ms), false);
            }
            proof {
                lemma_key_index(mv, "hidden"@);
            }
            let i = find_key(&ms, "hidden");
            if i < ms.len() {
                let (k, h) = ms.remove(i);
                let ghost hv = h.view();
                assert(member(mv, "hidden"@) == Some(hv));
                let (h2, c) = hidden_with_envy_exec(Some(h));
                ms.insert(i, (k, h2));
                proof {
                    lemma_view_object(ms);
                    assert(members_view(ms@) =~= mv.update(i as int, ("hidden"@, h2.view())));
                }
                (Json::Object(ms), c)
            } else {
                let (h2, c) = hidden_with_envy_exec(None);
                ms.push((string_lit("hidden"), h2));
                proof {
                    lemma_view_object(ms);
                    assert(members_view(ms@) =~= mv.push(("hidden"@, h2.view())));
                }
                (Json::Object(ms), c)
            }
        },
        other => (other, false),
    }
}

fn entries_hiding_envy_exec(es: Vec<Json>) -> (r: (Vec<Json>, bool))
    ensures
        (items_view(r.0@), r.1) == entries_hiding_envy(items_view(es@)),
{
    let ghost orig = items_view(es@);
    let mut rest = es;
    let mut out: Vec<Json> = Vec::new();
    let mut changed = false;
    assert(orig.take(0) =~= Seq::<JsonView>::empty());
    assert(items_view(out@) =~= Seq::<JsonView>::empty());
    while rest.len() > 0
        invariant
            out.len() + rest.len() == orig.len(),
            items_view(rest@) == orig.skip(out.len() as int),
            (items_view(out@), changed) == entries_hiding_envy(orig.take(out.len() as int)),
        decreases rest.len(),
    {
        let ghost old_rest = rest@;
        let ghost n = out.len();
        assert(items_view(old_rest)[0] == orig.skip(n as int)[0]);
        let e = rest.remove(0);
        assert(e.view() == orig[n as int]);
        let (e2, c) = entry_hiding_envy_exec(e);
        out.push(e2);
        changed = changed || c;
        proof {
            assert forall|j: int| 0 <= j < rest@.len() implies items_view(rest@)[j] == orig.skip(
                out.len() as int,
            )[j] by {
                assert(rest@[j] == old_rest[j + 1]);
                assert(items_view(old_rest)[j + 1] == orig.skip(n as int)[j + 1]);
            }
            assert(items_view(rest@) =~= orig.skip(out.len() as int));
            assert(orig.take(out.len() as int).drop_last() =~= orig.take(n as int));
            assert(items_view(out@) =~= entries_hiding_envy(orig.take(n as int)).0.push(e2.view()));
        }
    }
    assert(orig.take(out.len() as int) =~= orig);
    (out, changed)
}

/// The views of a list of names.
pub open spec fn names_view(p: Seq<&str>) -> Seq<Seq<char>> {
    Seq::new(p.len(), |i: int| p[i]@)
}

fn section_hiding_envy_exec(v: Json, path: &Vec<&str>, at: usize) -> (r: (Json, bool))
    requires
        at <= path.len(),
    ensures
        (r.0.view(), r.1) == section_hiding_envy(v.view(), names_view(path@).skip(at as int)),
    decreases path.len() - at,
{
    let ghost p = names_view(path@).skip(at as int);
    if at == path.len() {
        match v {
            Json::Array(es) => {
                proof {
                    lemma_view_array(es);
                }
                let (es2, c) = entries_hiding_envy_exec(es);
                proof {
                    lemma_view_array(es2);
                }
                (Json::Array(es2), c)
            },
            other => (other, false),
        }
    } else {
        assert(p[0] == path@[at as int]@);
        assert(p.drop_first() =~= names_view(path@).skip(at + 1));
        match v {
            Json::Object(mut ms) => {
                proof {
                    lemma_view_object(ms);
                    lemma_key_index(members_view(ms@), p[0]);
                }
                let ghost mv = members_view(ms@);
                let i = find_key(&ms, path[at]);
                if i >= ms.len() {
                    return (Json::Object(ms), false);
                }
                let (k, w) = ms.remove(i);
                let (w2, c) = section_hiding_envy_exec(w, path, at + 1);
                ms.insert(i, (k, w2));
                proof {
                    lemma_view_object(ms);
                    assert(members_view(ms@) =~= mv.update(i as int, (p[0], w2.view())));
                }
                (Json::Object(ms), c)
            },
            other => (other, false),
        }
    }
}

fn side_hiding_envy(root: Json, side: &str) -> (r: (Json, bool))
    ensures
        (r.0.view(), r.1) == section_hiding_envy(root.view(), side_path(side@)),
{
    let path = vec!["bar", "layout", side];
    assert(names_view(path@).skip(0) =~= side_path(side@));
    section_hiding_envy_exec(root, &path, 0)
}

/// Adds "envy" to the tray widget's `hidden` list in `shell.json`, keeping
/// everything else (member order included) exactly as it was. `None` when
/// nothing had to change.
pub fn hide_in_tray(root: Json) -> (r: Option<Json>)
    ensures
        opt_owned_view(r) == spec_hide_in_tray(root.view()),
{
    let (r1, c1) = side_hiding_envy(root, "left");
    let (r2, c2) = side_hiding_envy(r1, "center");
    let (r3, c3) = side_hiding_envy(r2, "right");
    if c1 || c2 || c3 {
        Some(r3)
    } else {
        None
    }
}

/// Reading back a member just put.
pub proof fn lemma_put(ms: Seq<(Seq<char>, JsonView)>, k: Seq<char>, v: JsonView, k2: Seq<char>)
    ensures
        member(put(ms, k, v), k) == Some(v),
        k2 != k ==> member(put(ms, k, v), k2) == member(ms, k2),
{
    lemma_key_index(ms, k);
    lemma_key_index(ms, k2);
    let i = key_index(ms, k);
    let ps = put(ms, k, v);
    let i2 = key_index(ms, k2);
    if i < ms.len() {
        crate::json::lemma_key_index_is(ps, k, i);
        if k2 != k {
            assert forall|j: int| 0 <= j < i2 implies ps[j].0 != k2 by {}
            if i2 < ms.len() {
                assert(ps[i2].0 == k2);
            }
            crate::json::lemma_key_index_is(ps, k2, i2);
        }
    } else {
        assert forall|j: int| 0 <= j < i implies ps[j].0 != k by {}
        crate::json::lemma_key_index_is(ps, k, i);
        if k2 != k {
            if i2 < ms.len() {
                assert(ps[i2].0 == k2);
                crate::json::lemma_key_index_is(ps, k2, i2);
            } else {
                assert forall|j: int| 0 <= j < ps.len() implies ps[j].0 != k2 by {
                    if j < ms.len() {
                    }
                }
                crate::json::lemma_key_index_is(ps, k2, ps.len() as int);
            }
        }
    }
}

/// Whether a section changes depends only on the value at its path.
proof fn lemma_section_changed(v: JsonView, p: Seq<Seq<char>>)
    ensures
        section_hiding_envy(v, p).1 == match crate::json::at_path(v, p) {
            Some(JsonView::Array(es)) => entries_hiding_envy(es).1,
            _ => false,
        },
    decreases p.len(),
{
    if p.len() > 0 {
        match v {
            JsonView::Object(ms) => match member(ms, p[0]) {
                Some(w) => lemma_section_changed(w, p.drop_first()),
                None => {},
            },
            _ => {},
        }
    }
}

/// After a section is treated, its path leads to the treated entries.
proof fn lemma_section_at_path(v: JsonView, p: Seq<Seq<char>>)
    ensures
        crate::json::at_path(section_hiding_envy(v, p).0, p) == match crate::json::at_path(v, p) {
            Some(JsonView::Array(es)) => Some(JsonView::Array(entries_hiding_envy(es).0)),
            other => other,
        },
    decreases p.len(),
{
    if p.len() > 0 {
        match v {
            JsonView::Object(ms) => match member(ms, p[0]) {
                Some(w) => {
                    lemma_section_at_path(w, p.drop_first());
                    let w2 = section_hiding_envy(w, p.drop_first()).0;
                    lemma_put(ms, p[0], w2, p[0]);
                },
                None => {},
            },
            _ => {},
        }
    }
}

/// Treating one section leaves the value at any other path of the same
/// length as it was.
proof fn lemma_section_elsewhere(v: JsonView, q: Seq<Seq<char>>, p: Seq<Seq<char>>)
    requires
        p.len() == q.len(),
        p != q,
    ensures
        crate::json::at_path(section_hiding_envy(v, q).0, p) == crate::json::at_path(v, p),
    decreases q.len(),
{
    if q.len() == 0 {
        assert(p =~= q);
    } else {
        match v {
            JsonView::Object(ms) => match member(ms, q[0]) {
                Some(w) => {
                    let w2 = section_hiding_envy(w, q.drop_first()).0;
                    lemma_put(ms, q[0], w2, p[0]);
                    if p[0] == q[0] {
                        if p.drop_first() =~= q.drop_first() {
                            assert forall|i: int| 0 <= i < p.len() implies p[i] == q[i] by {
                                if i > 0 {
                                    assert(p[i] == p.drop_first()[i - 1]);
                                    assert(q[i] == q.drop_first()[i - 1]);
                                }
                            }
                            assert(p =~= q);
                        }
                        lemma_section_elsewhere(w, q.drop_first(), p.drop_first());
                    }
                },
                None => {},
            },
            _ => {},
        }
    }
}

proof fn lemma_lists_envy_push(l: Seq<JsonView>)
    ensures
        lists_envy(l.push(JsonView::Str(envy_id()))),
{
    assert(l.push(JsonView::Str(envy_id()))[l.len() as int] == JsonView::Str(envy_id()));
}

/// A treated entry needs no further change.
proof fn lemma_entry_settled(e: JsonView)
    ensures
        entry_hiding_envy(entry_hiding_envy(e).0).1 == false,
{
    match e {
        JsonView::Object(ms) => {
            if as_str(member(ms, "id"@)) == Some(tray_widget_id()) {
                let (h, c) = hidden_with_envy(member(ms, "hidden"@));
                reveal_strlit("id");
                reveal_strlit("hidden");
                assert("id"@ != "hidden"@) by {
                    assert("id"@.len() != "hidden"@.len());
                }
                lemma_put(ms, "hidden"@, h, "id"@);
                let (l, c0) = hidden_as_list(member(ms, "hidden"@));
                if !lists_envy(l) {
                    lemma_lists_envy_push(l);
                }
            }
        },
        _ => {},
    }
}

/// Treated entries need no further change.
proof fn lemma_entries_settled(es: Seq<JsonView>)
    ensures
        entries_hiding_envy(entries_hiding_envy(es).0).1 == false,
    decreases es.len(),
{
    if es.len() > 0 {
        lemma_entries_settled(es.drop_last());
        lemma_entry_settled(es.last());
        let once = entries_hiding_envy(es).0;
        assert(once.drop_last() =~= entries_hiding_envy(es.drop_last()).0);
    }
}

/// A layout entry that is the tray widget's (`"id": "omarchy.tray"`) and
/// whose `hidden` value is not a list naming `"envy"`.
pub open spec fn tray_entry_lacks_envy(e: JsonView) -> bool {
    &&& e is Object
    &&& as_str(get(e, "id"@)) == Some("omarchy.tray"@)
    &&& !(get(e, "hidden"@) matches Some(JsonView::Array(l)) && l.contains(JsonView::Str("envy"@)))
}

/// `side` of the bar's layout is a list holding such an entry.
pub open spec fn side_lacks_envy(root: JsonView, side: Seq<char>) -> bool {
    at_path(root, seq!["bar"@, "layout"@, side]) matches Some(JsonView::Array(es)) && exists|j: int|
        0 <= j < es.len() && #[trigger] tray_entry_lacks_envy(es[j])
}

proof fn lemma_entry_changed(e: JsonView)
    ensures
        entry_hiding_envy(e).1 == tray_entry_lacks_envy(e),
{
    match e {
        JsonView::Object(ms) => {
            let h = member(ms, "hidden"@);
            match h {
                Some(JsonView::Array(l)) => {
                    if l.contains(JsonView::Str("envy"@)) {
                        let i = choose|i: int| 0 <= i < l.len() && l[i] == JsonView::Str("envy"@);
                        assert(lists_envy(l));
                    } else {
                        assert(!lists_envy(l));
                    }
                },
                Some(JsonView::Str(t)) => {},
                _ => {},
            }
        },
        _ => {},
    }
}

proof fn lemma_entries_changed(es: Seq<JsonView>)
    ensures
        entries_hiding_envy(es).1 == exists|j: int|
            0 <= j < es.len() && #[trigger] tray_entry_lacks_envy(es[j]),
    decreases es.len(),
{
    if es.len() > 0 {
        let init = es.drop_last();
        lemma_entries_changed(init);
        lemma_entry_changed(es.last());
        if entries_hiding_envy(es).1 {
            if entries_hiding_envy(init).1 {
                let j = choose|j: int| 0 <= j < init.len() && #[trigger] tray_entry_lacks_envy(init[j]);
                assert(es[j] == init[j]);
            } else {
                assert(tray_entry_lacks_envy(es[es.len() - 1]));
            }
        }
        if exists|j: int| 0 <= j < es.len() && #[trigger] tray_entry_lacks_envy(es[j]) {
            let j = choose|j: int| 0 <= j < es.len() && #[trigger] tray_entry_lacks_envy(es[j]);
            if j < init.len() {
                assert(init[j] == es[j]);
            }
        }
    }
}

/// Hiding Envy changes `shell.json` exactly when one of the bar's three
/// sides (left, center or right) holds a tray widget entry whose `hidden`
/// list lacks `"envy"`; each side counts, whichever the others hold.
pub proof fn law_hide_in_tray_acts_on_every_side(root: JsonView)
    ensures
        spec_hide_in_tray(root) is Some <==> (side_lacks_envy(root, "left"@) || side_lacks_envy(
            root,
            "center"@,
        ) || side_lacks_envy(root, "right"@)),
{
    let l = side_path("left"@);
    let c = side_path("center"@);
    let r = side_path("right"@);
    reveal_strlit("left");
    reveal_strlit("center");
    reveal_strlit("right");
    assert(l != c) by {
        assert(l[2] != c[2]) by {
            assert(l[2].len() != c[2].len());
        }
    }
    assert(l != r) by {
        assert(l[2] != r[2]) by {
            assert(l[2][0] != r[2][0]);
        }
    }
    assert(c != r) by {
        assert(c[2] != r[2]) by {
            assert(c[2].len() != r[2].len());
        }
    }
    let r1 = section_hiding_envy(root, l).0;
    let r2 = section_hiding_envy(r1, c).0;
    lemma_section_changed(root, l);
    lemma_section_changed(r1, c);
    lemma_section_changed(r2, r);
    lemma_section_elsewhere(root, l, c);
    lemma_section_elsewhere(root, l, r);
    lemma_section_elsewhere(r1, c, r);
    match at_path(root, l) {
        Some(JsonView::Array(es)) => lemma_entries_changed(es),
        _ => {},
    }
    match at_path(root, c) {
        Some(JsonView::Array(es)) => lemma_entries_changed(es),
        _ => {},
    }
    match at_path(root, r) {
        Some(JsonView::Array(es)) => lemma_entries_changed(es),
        _ => {},
    }
}

/// Hiding Envy in the tray settles `shell.json`: a second run changes
/// nothing.
pub proof fn law_hide_in_tray_is_settled(root: JsonView)
    requires
        spec_hide_in_tray(root) is Some,
    ensures
        spec_hide_in_tray(spec_hide_in_tray(root)->0) is None,
{
    let l = side_path("left"@);
    let c = side_path("center"@);
    let r = side_path("right"@);
    reveal_strlit("left");
    reveal_strlit("center");
    reveal_strlit("right");
    assert(l != c) by {
        assert(l[2] != c[2]) by {
            assert(l[2].len() != c[2].len());
        }
    }
    assert(l != r) by {
        assert(l[2] != r[2]) by {
            assert(l[2][0] != r[2][0]);
        }
    }
    assert(c != r) by {
        assert(c[2] != r[2]) by {
            assert(c[2].len() != r[2].len());
        }
    }
    let r1 = section_hiding_envy(root, l).0;
    let r2 = section_hiding_envy(r1, c).0;
    let r3 = section_hiding_envy(r2, r).0;
    // The left section of the result is the left section as first treated.
    lemma_section_at_path(root, l);
    lemma_section_elsewhere(r1, c, l);
    lemma_section_elsewhere(r2, r, l);
    // The center section likewise.
    lemma_section_at_path(r1, c);
    lemma_section_elsewhere(r2, r, c);
    // And the right.
    lemma_section_at_path(r2, r);
    // Each is settled.
    match crate::json::at_path(root, l) {
        Some(JsonView::Array(es)) => lemma_entries_settled(es),
        _ => {},
    }
    match crate::json::at_path(r1, c) {
        Some(JsonView::Array(es)) => lemma_entries_settled(es),
        _ => {},
    }
    match crate::json::at_path(r2, r) {
        Some(JsonView::Array(es)) => lemma_entries_settled(es),
        _ => {},
    }
    lemma_section_changed(r3, l);
    let s1 = section_hiding_envy(r3, l).0;
    lemma_section_elsewhere(r3, l, c);
    lemma_section_changed(s1, c);
    let s2 = section_hiding_envy(s1, c).0;
    lemma_section_elsewhere(r3, l, r);
    lemma_section_elsewhere(s1, c, r);
    lemma_section_changed(s2, r);
}

/// After hiding, no side of the bar holds a tray widget entry whose
/// `hidden` list lacks `"envy"`.
pub proof fn law_hidden_on_every_side_after(root: JsonView)
    requires
        spec_hide_in_tray(root) is Some,
    ensures
        !side_lacks_envy(spec_hide_in_tray(root)->0, "left"@),
        !side_lacks_envy(spec_hide_in_tray(root)->0, "center"@),
        !side_lacks_envy(spec_hide_in_tray(root)->0, "right"@),
{
    law_hide_in_tray_is_settled(root);
    law_hide_in_tray_acts_on_every_side(spec_hide_in_tray(root)->0);
}

// ---------------------------------------------------------------------------
// Placing the bar widget
// ---------------------------------------------------------------------------
/// Whether some entry in any section of the bar's layout has the id `id`.
pub open spec fn layout_has_id(root: JsonView, id: Seq<char>) -> bool {
    match at_path(root, seq!["bar"@, "layout"@]) {
        Some(JsonView::Object(ms)) => sections_have_id(ms, id),
        _ => false,
    }
}

/// Some section among `ms` has an entry with the id `id`.
pub open spec fn sections_have_id(ms: Seq<(Seq<char>, JsonView)>, id: Seq<char>) -> bool {
    exists|i: int, j: int| 0 <= i < ms.len() && #[trigger] section_entry_has_id(ms[i].1, j, id)
}

/// Entry `j` of a layout section is an entry with the id `id`.
pub open spec fn section_entry_has_id(section: JsonView, j: int, id: Seq<char>) -> bool {
    match section {
        JsonView::Array(es) => 0 <= j < es.len() && as_str(get(es[j], "id"@)) == Some(id),
        _ => false,
    }
}

/// The chevron widget that hides part of the bar.
pub open spec fn hidden_bar_id() -> Seq<char> {
    "skuthus.hidden-om-bar"@
}

/// Where the bar widget is first placed: straight after a hidden-bar
/// chevron when the layout has one, otherwise at the start of the right
/// section. `layout` is `shell.json` when it could be read.
pub fn widget_placement(layout: Option<&Json>) -> (p: &'static str)
    ensures
        p@ == if layout is Some && layout_has_id(layout->0.view(), hidden_bar_id()) {
            "{\"after\":\"skuthus.hidden-om-bar\"}"@
        } else {
            "{\"section\":\"right\",\"index\":0}"@
        },
{
    let found = match layout {
        Some(root) => has_hidden_bar(root),
        None => false,
    };
    if found {
        "{\"after\":\"skuthus.hidden-om-bar\"}"
    } else {
        "{\"section\":\"right\",\"index\":0}"
    }
}

fn has_hidden_bar(root: &Json) -> (b: bool)
    ensures
        b == layout_has_id(root.view(), hidden_bar_id()),
{
    let layout = path_value(root, "bar", "layout");
    match layout {
        Some(Json::Object(ms)) => {
            proof {
                lemma_view_object(*ms);
            }
            let ghost mv = members_view(ms@);
            assert(at_path(root.view(), seq!["bar"@, "layout"@]) == Some(JsonView::Object(mv)));
            let mut i: usize = 0;
            while i < ms.len()
                invariant
                    i <= ms.len(),
                    mv == members_view(ms@),
                    at_path(root.view(), seq!["bar"@, "layout"@]) == Some(JsonView::Object(mv)),
                    forall|a: int, j: int|
                        0 <= a < i ==> !#[trigger] section_entry_has_id(mv[a].1, j, hidden_bar_id()),
                decreases ms.len() - i,
            {
                match &ms[i].1 {
                    Json::Array(es) => {
                        proof {
                            lemma_view_array(*es);
                        }
                        let mut j: usize = 0;
                        while j < es.len()
                            invariant
                                j <= es.len(),
                                i < ms.len(),
                                mv == members_view(ms@),
                                at_path(root.view(), seq!["bar"@, "layout"@]) == Some(JsonView::Object(mv)),
                                mv[i as int].1 == JsonView::Array(items_view(es@)),
                                forall|k: int|
                                    0 <= k < j ==> !#[trigger] section_entry_has_id(
                                        mv[i as int].1,
                                        k,
                                        hidden_bar_id(),
                                    ),
                            decreases es.len() - j,
                        {
                            let id = opt_as_str(get_member(&es[j], "id"));
                            let hit = match id {
                                Some(s) => str_is(s, "skuthus.hidden-om-bar"),
                                None => false,
                            };
                            if hit {
                                assert(section_entry_has_id(mv[i as int].1, j as int, hidden_bar_id()));
                                assert(sections_have_id(mv, hidden_bar_id()));
                                return true;
                            }
                            j += 1;
                        }
                        assert forall|k: int| !section_entry_has_id(mv[i as int].1, k, hidden_bar_id()) by {
                            if 0 <= k < j {
                            }
                        }
                    },
                    _ => {},
                }
                i += 1;
            }
            false
        },
        _ => false,
    }
}

// ---------------------------------------------------------------------------
// What Hyprland is showing
// ---------------------------------------------------------------------------
/// A monitor shows the workspace `id`, as its active or its open special one.
pub open spec fn shows_workspace(monitors: Seq<JsonView>, id: int) -> bool {
    exists|i: int|
        0 <= i < monitors.len() && #[trigger] monitor_shows(monitors[i], id)
}

/// One monitor shows the workspace `id`.
pub open spec fn monitor_shows(m: JsonView, id: int) -> bool {
    ||| as_i64(at_path(m, seq!["activeWorkspace"@, "id"@])) == Some(id)
    ||| as_i64(at_path(m, seq!["specialWorkspace"@, "id"@])) == Some(id)
}

/// A boolean member, or `default` when it is missing or not a boolean.
pub open spec fn flag(c: JsonView, k: Seq<char>, default: bool) -> bool {
    match as_bool(get(c, k)) {
        Some(b) => b,
        None => default,
    }
}

/// The title of a client that belongs to process `pid` and is showing:
/// mapped, not hidden, and on a shown workspace (or on none Hyprland names).
pub open spec fn showing_title(c: JsonView, monitors: Seq<JsonView>, pid: int) -> Option<Seq<char>> {
    if as_u64(get(c, "pid"@)) == Some(pid) && flag(c, "mapped"@, true) && !flag(c, "hidden"@, false)
        && match as_i64(at_path(c, seq!["workspace"@, "id"@])) {
        Some(id) => shows_workspace(monitors, id),
        None => true,
    } {
        as_str(get(c, "title"@))
    } else {
        None
    }
}

/// The titles of the showing clients, in order.
pub open spec fn showing_titles(cs: Seq<JsonView>, monitors: Seq<JsonView>, pid: int) -> Seq<Seq<char>>
    decreases cs.len(),
{
    if cs.len() == 0 {
        Seq::empty()
    } else {
        let t = showing_titles(cs.drop_last(), monitors, pid);
        match showing_title(cs.last(), monitors, pid) {
            Some(x) => t.push(x),
            None => t,
        }
    }
}

/// Titles of process `pid`'s windows that Hyprland is showing right now,
/// from its `clients` and `monitors` replies; `None` when either is not a
/// list.
pub open spec fn spec_visible_titles(clients: JsonView, monitors: JsonView, pid: int) -> Option<
    Seq<Seq<char>>,
> {
    match (monitors, clients) {
        (JsonView::Array(ms), JsonView::Array(cs)) => Some(showing_titles(cs, ms, pid)),
        _ => None,
    }
}

/// A client of process `pid` that Hyprland maps and does not hide, on
/// workspace `w`, titled `t`.
pub open spec fn client_on_workspace(c: JsonView, pid: int, w: int, t: Seq<char>) -> bool {
    &&& as_u64(get(c, "pid"@)) == Some(pid)
    &&& get(c, "mapped"@) != Some(JsonView::Bool(false))
    &&& get(c, "hidden"@) != Some(JsonView::Bool(true))
    &&& as_i64(at_path(c, seq!["workspace"@, "id"@])) == Some(w)
    &&& as_str(get(c, "title"@)) == Some(t)
}

/// Some monitor, wherever it stands in the list, has workspace `w` as its
/// active or its special workspace.
pub open spec fn some_monitor_on(ms: Seq<JsonView>, w: int) -> bool {
    exists|k: int|
        0 <= k < ms.len() && (as_i64(at_path(#[trigger] ms[k], seq!["activeWorkspace"@, "id"@]))
            == Some(w) || as_i64(at_path(ms[k], seq!["specialWorkspace"@, "id"@])) == Some(w))
}

/// A window of Envy's on workspace `w` counts as shown exactly when some
/// monitor (any of them, in any position) shows `w` as its active or special
/// workspace: appending such a client to Hyprland's list appends its title
/// to the shown titles then, and leaves them as they were otherwise.
pub proof fn law_any_monitor_shows_a_workspace(
    cs: Seq<JsonView>,
    c: JsonView,
    ms: Seq<JsonView>,
    pid: int,
    w: int,
    t: Seq<char>,
)
    requires
        client_on_workspace(c, pid, w, t),
    ensures
        some_monitor_on(ms, w) ==> spec_visible_titles(
            JsonView::Array(cs.push(c)),
            JsonView::Array(ms),
            pid,
        ) == Some(showing_titles(cs, ms, pid).push(t)),
        !some_monitor_on(ms, w) ==> spec_visible_titles(
            JsonView::Array(cs.push(c)),
            JsonView::Array(ms),
            pid,
        ) == Some(showing_titles(cs, ms, pid)),
{
    let all = cs.push(c);
    assert(all.drop_last() =~= cs);
    assert(all.last() == c);
    assert(flag(c, "mapped"@, true));
    assert(!flag(c, "hidden"@, false));
    if some_monitor_on(ms, w) {
        let k = choose|k: int|
            0 <= k < ms.len() && (as_i64(at_path(#[trigger] ms[k], seq!["activeWorkspace"@, "id"@]))
                == Some(w) || as_i64(at_path(ms[k], seq!["specialWorkspace"@, "id"@])) == Some(w));
        assert(monitor_shows(ms[k], w));
        assert(shows_workspace(ms, w));
    } else {
        assert forall|k: int| 0 <= k < ms.len() implies !#[trigger] monitor_shows(ms[k], w) by {
            if monitor_shows(ms[k], w) {
                assert(some_monitor_on(ms, w));
            }
        }
        assert(!shows_workspace(ms, w));
    }
}

fn path_value<'a>(v: &'a Json, a: &str, b: &str) -> (r: Option<&'a Json>)
    ensures
        opt_json_view(r) == at_path(v.view(), seq![a@, b@]),
{
    let ghost p = seq![a@, b@];
    assert(p.drop_first() =~= seq![b@]);
    assert(p.drop_first().drop_first() =~= Seq::<Seq<char>>::empty());
    proof {
        reveal_with_fuel(at_path, 3);
    }
    match get_member(v, a) {
        Some(w) => get_member(w, b),
        None => None,
    }
}

fn monitor_shows_exec(m: &Json, id: i64) -> (b: bool)
    ensures
        b == monitor_shows(m.view(), id as int),
{
    let active = opt_as_i64(path_value(m, "activeWorkspace", "id"));
    let special = opt_as_i64(path_value(m, "specialWorkspace", "id"));
    active == Some(id) || special == Some(id)
}

fn shows_workspace_exec(monitors: &Vec<Json>, id: i64) -> (b: bool)
    ensures
        b == shows_workspace(items_view(monitors@), id as int),
{
    let mut i: usize = 0;
    while i < monitors.len()
        invariant
            i <= monitors.len(),
            forall|k: int| 0 <= k < i ==> !#[trigger] monitor_shows(items_view(monitors@)[k], id as int),
        decreases monitors.len() - i,
    {
        if monitor_shows_exec(&monitors[i], id) {
            assert(monitor_shows(items_view(monitors@)[i as int], id as int));
            return true;
        }
        i += 1;
    }
    false
}

fn flag_exec(c: &Json, k: &str, default: bool) -> (b: bool)
    ensures
        b == flag(c.view(), k@, default),
{
    match opt_as_bool(get_member(c, k)) {
        Some(b) => b,
        None => default,
    }
}

fn showing_title_exec(c: &Json, monitors: &Vec<Json>, pid: u64) -> (r: Option<String>)
    ensures
        opt_string_view(r) == showing_title(c.view(), items_view(monitors@), pid as int),
{
    let owner = opt_as_u64(get_member(c, "pid"));
    if owner != Some(pid) || !flag_exec(c, "mapped", true) || flag_exec(c, "hidden", false) {
        return None;
    }
    let on_shown = match opt_as_i64(path_value(c, "workspace", "id")) {
        Some(id) => shows_workspace_exec(monitors, id),
        None => true,
    };
    if !on_shown {
        return None;
    }
    match opt_as_str(get_member(c, "title")) {
        Some(t) => Some(t.clone()),
        None => None,
    }
}

/// Titles of process `pid`'s windows that Hyprland is showing right now: on
/// a monitor's active workspace, or on its open special workspace. `None`
/// when the replies are not lists, so the caller falls back to GTK.
pub fn visible_titles(clients: &Json, monitors: &Json, pid: u64) -> (r: Option<Vec<String>>)
    ensures
        opt_strings_view(r) == spec_visible_titles(clients.view(), monitors.view(), pid as int),
{
    let ms = match monitors {
        Json::Array(ms) => ms,
        _ => return None,
    };
    let cs = match clients {
        Json::Array(cs) => cs,
        _ => return None,
    };
    proof {
        lemma_view_array(*ms);
        lemma_view_array(*cs);
    }
    let ghost mv = items_view(ms@);
    let ghost cv = items_view(cs@);
    let mut out: Vec<String> = Vec::new();
    let mut i: usize = 0;
    while i < cs.len()
        invariant
            i <= cs.len(),
            mv == items_view(ms@),
            cv == items_view(cs@),
            strings_view(out@) == showing_titles(cv.take(i as int), mv, pid as int),
        decreases cs.len() - i,
    {
        let t = showing_title_exec(&cs[i], ms, pid);
        let ghost before = strings_view(out@);
        assert(cv.take(i + 1).drop_last() =~= cv.take(i as int));
        assert(cv.take(i + 1).last() == cs@[i as int].view());
        match t {
            Some(x) => {
                out.push(x);
                assert(strings_view(out@) =~= before.push(out@.last()@));
            },
            None => {},
        }
        i += 1;
    }
    assert(cv.take(cs.len() as int) =~= cv);
    Some(out)
}

/// The compositor events after which the eye is looked at again.
pub open spec fn eye_events() -> Seq<Seq<char>> {
    seq![
        "activespecial"@,
        "activespecialv2"@,
        "workspace"@,
        "workspacev2"@,
        "focusedmon"@,
        "focusedmonv2"@,
        "movewindow"@,
        "movewindowv2"@,
        "openwindow"@,
        "closewindow"@,
        "minimized"@,
    ]
}

/// Whether a line of Hyprland's event stream (`name>>data`) can change
/// what is on screen: its name, what comes before the first `>>`, is one of
/// the events above.
pub open spec fn spec_changes_what_shows(line: Seq<char>) -> bool {
    eye_events().contains(before_first(line, ">>"@))
}

/// Whether a line of Hyprland's event stream calls for the eye to be
/// looked at again.
pub fn changes_what_shows(line: &str) -> (b: bool)
    ensures
        b == spec_changes_what_shows(line@),
{
    let sep = chars_of(">>");
    proof {
        reveal_strlit(">>");
    }
    let name = before_first_chars(&chars_of(line), &sep);
    let events: Vec<&str> = vec![
        "activespecial",
        "activespecialv2",
        "workspace",
        "workspacev2",
        "focusedmon",
        "focusedmonv2",
        "movewindow",
        "movewindowv2",
        "openwindow",
        "closewindow",
        "minimized",
    ];
    let ghost ev = eye_events();
    assert(names_view(events@) =~= ev);
    let mut i: usize = 0;
    while i < events.len()
        invariant
            i <= events.len(),
            names_view(events@) == ev,
            ev == eye_events(),
            name@ == before_first(line@, ">>"@),
            forall|k: int| 0 <= k < i ==> ev[k] != name@,
        decreases events.len() - i,
    {
        if chars_eq(&name, &chars_of(events[i])) {
            assert(ev[i as int] == name@);
            assert(ev.contains(name@));
            return true;
        }
        i += 1;
    }
    false
}

/// `base` with `p` pushed onto it as `PathBuf::push` does: an absolute `p`
/// replaces it, a relative one is joined with a `/` unless `base` is empty
/// or already ends in one.
pub open spec fn path_push(base: Seq<char>, p: Seq<char>) -> Seq<char> {
    if p.len() > 0 && p[0] == '/' {
        p
    } else if base.len() == 0 || base.last() == '/' {
        base + p
    } else {
        base + seq!['/'] + p
    }
}

fn path_push_exec(base: &Vec<char>, p: &Vec<char>) -> (r: Vec<char>)
    ensures
        r@ == path_push(base@, p@),
{
    if p.len() > 0 && p[0] == '/' {
        return slice_of(p, 0, p.len());
    }
    let mut r = slice_of(base, 0, base.len());
    if base.len() > 0 && base[base.len() - 1] != '/' {
        r.push('/');
    }
    append_chars(&mut r, p);
    r
}

/// Hyprland's socket `name` for the running instance:
/// `$XDG_RUNTIME_DIR/hypr/$HYPRLAND_INSTANCE_SIGNATURE/name`, `None` off
/// Hyprland (either variable unset).
pub fn hypr_socket(signature: Option<&str>, runtime: Option<&str>, name: &str) -> (r: Option<String>)
    ensures
        opt_string_view(r) == match (signature, runtime) {
            (Some(sig), Some(run)) => Some(
                path_push(path_push(path_push(run@, "hypr"@), sig@), name@),
            ),
            _ => None,
        },
{
    let sig = match signature {
        Some(s) => s,
        None => return None,
    };
    let run = match runtime {
        Some(r) => r,
        None => return None,
    };
    let a = path_push_exec(&chars_of(run), &chars_of("hypr"));
    let b = path_push_exec(&a, &chars_of(sig));
    let c = path_push_exec(&b, &chars_of(name));
    Some(string_of(&c))
}

// ---------------------------------------------------------------------------
// The icon files
// ---------------------------------------------------------------------------
/// The pixel sizes every eye is drawn at.
pub open spec fn icon_sizes() -> Seq<u32> {
    seq![16u32, 22u32, 24u32, 32u32, 48u32]
}

/// The pixel sizes every eye is drawn at.
pub fn icon_size_list() -> (v: Vec<u32>)
    ensures
        v@ == icon_sizes(),
{
    let v = vec![16u32, 22u32, 24u32, 32u32, 48u32];
    assert(v@ =~= icon_sizes());
    v
}

/// `{s}x{s}/apps`, the theme directory for one size.
pub open spec fn size_dir(s: u32) -> Seq<char> {
    decimal(s as nat) + seq!['x'] + decimal(s as nat) + "/apps"@
}

/// The theme's `Directories=` list after `scalable/apps`.
pub open spec fn size_dir_list(sizes: Seq<u32>) -> Seq<char>
    decreases sizes.len(),
{
    if sizes.len() == 0 {
        Seq::empty()
    } else {
        size_dir_list(sizes.drop_last()) + seq![','] + size_dir(sizes.last())
    }
}

/// The theme's section for each size.
pub open spec fn size_sections(sizes: Seq<u32>) -> Seq<char>
    decreases sizes.len(),
{
    if sizes.len() == 0 {
        Seq::empty()
    } else {
        size_sections(sizes.drop_last()) + "\n["@ + size_dir(sizes.last()) + "]\nSize="@ + decimal(
            sizes.last() as nat,
        ) + "\nType=Fixed\nContext=Applications\n"@
    }
}

/// The `index.theme` of the icon theme the eyes are written into.
pub open spec fn spec_icon_theme_index() -> Seq<char> {
    "[Icon Theme]\nName=Envy\nComment=Envy bar icon\nDirectories=scalable/apps"@ + size_dir_list(
        icon_sizes(),
    ) + "\n\n[scalable/apps]\nSize=32\nMinSize=8\nMaxSize=512\nType=Scalable\nContext=Applications\n"@
        + size_sections(icon_sizes())
}

/// `{s}x{s}/apps`.
pub fn size_dir_name(s: u32) -> (r: String)
    ensures
        r@ == size_dir(s),
{
    string_of(&size_dir_chars(s))
}

fn size_dir_chars(s: u32) -> (v: Vec<char>)
    ensures
        v@ == size_dir(s),
{
    let d = decimal_of(s as u64);
    let mut v = slice_of(&d, 0, d.len());
    v.push('x');
    append_chars(&mut v, &d);
    append_chars(&mut v, &chars_of("/apps"));
    assert(v@ =~= size_dir(s));
    v
}

/// The `index.theme` of the icon theme the eyes are written into.
pub fn icon_theme_index() -> (r: String)
    ensures
        r@ == spec_icon_theme_index(),
{
    let sizes = icon_size_list();
    let mut v = chars_of("[Icon Theme]\nName=Envy\nComment=Envy bar icon\nDirectories=scalable/apps");
    let ghost head = v@;
    let mut i: usize = 0;
    while i < sizes.len()
        invariant
            i <= sizes.len(),
            sizes@ == icon_sizes(),
            v@ == head + size_dir_list(sizes@.take(i as int)),
        decreases sizes.len() - i,
    {
        v.push(',');
        append_chars(&mut v, &size_dir_chars(sizes[i]));
        proof {
            assert(sizes@.take(i + 1).drop_last() =~= sizes@.take(i as int));
        }
        i += 1;
        assert(v@ =~= head + size_dir_list(sizes@.take(i as int)));
    }
    assert(sizes@.take(sizes.len() as int) =~= sizes@);
    append_chars(
        &mut v,
        &chars_of(
            "\n\n[scalable/apps]\nSize=32\nMinSize=8\nMaxSize=512\nType=Scalable\nContext=Applications\n",
        ),
    );
    let ghost mid = v@;
    let mut j: usize = 0;
    while j < sizes.len()
        invariant
            j <= sizes.len(),
            sizes@ == icon_sizes(),
            v@ == mid + size_sections(sizes@.take(j as int)),
        decreases sizes.len() - j,
    {
        append_chars(&mut v, &chars_of("\n["));
        append_chars(&mut v, &size_dir_chars(sizes[j]));
        append_chars(&mut v, &chars_of("]\nSize="));
        append_chars(&mut v, &decimal_of(sizes[j] as u64));
        append_chars(&mut v, &chars_of("\nType=Fixed\nContext=Applications\n"));
        proof {
            assert(sizes@.take(j + 1).drop_last() =~= sizes@.take(j as int));
        }
        j += 1;
        assert(v@ =~= mid + size_sections(sizes@.take(j as int)));
    }
    assert(sizes@.take(sizes.len() as int) =~= sizes@);
    assert(v@ =~= spec_icon_theme_index());
    string_of(&v)
}

/// The directory one generation of icon files is written to:
/// `{pid}-{generation}`.
pub fn icon_generation_dir(pid: u32, generation: u32) -> (r: String)
    ensures
        r@ == decimal(pid as nat) + seq!['-'] + decimal(generation as nat),
{
    let mut v = decimal_of(pid as u64);
    v.push('-');
    append_chars(&mut v, &decimal_of(generation as u64));
    string_of(&v)
}

/// Every character of a decimal numeral is a digit, and there is at least one.
proof fn lemma_decimal_digits(n: nat)
    ensures
        decimal(n).len() >= 1,
        n >= 10 ==> decimal(n).len() >= 2,
        forall|i: int| 0 <= i < decimal(n).len() ==> '0' <= #[trigger] decimal(n)[i] <= '9',
    decreases n,
{
    if n >= 10 {
        lemma_decimal_digits(n / 10);
        let d = decimal(n / 10);
        assert forall|i: int| 0 <= i < decimal(n).len() implies '0' <= #[trigger] decimal(n)[i]
            <= '9' by {
            if i < d.len() {
                assert(decimal(n)[i] == d[i]);
            }
        }
    }
}

/// Different numbers are written differently.
proof fn lemma_decimal_injective(a: nat, b: nat)
    requires
        decimal(a) == decimal(b),
    ensures
        a == b,
    decreases a,
{
    lemma_decimal_digits(a);
    lemma_decimal_digits(b);
    if a >= 10 && b >= 10 {
        assert(decimal(a).drop_last() =~= decimal(a / 10));
        assert(decimal(b).drop_last() =~= decimal(b / 10));
        lemma_decimal_injective(a / 10, b / 10);
        assert(decimal(a).last() == decimal(b).last());
        assert(decimal(a).last() as u8 == (a % 10) + 0x30);
        assert(decimal(b).last() as u8 == (b % 10) + 0x30);
    } else {
        assert(decimal(a)[0] == decimal(b)[0]);
        if a < 10 && b < 10 {
            assert(decimal(a)[0] as u8 == a + 0x30);
            assert(decimal(b)[0] as u8 == b + 0x30);
        }
    }
}

/// Each generation of icon files gets a directory of its own: two different
/// process ids or generation numbers never name the same directory.
pub proof fn law_generations_get_their_own_directory(pid1: u32, gen1: u32, pid2: u32, gen2: u32)
    requires
        pid1 != pid2 || gen1 != gen2,
    ensures
        decimal(pid1 as nat) + seq!['-'] + decimal(gen1 as nat) != decimal(pid2 as nat) + seq!['-']
            + decimal(gen2 as nat),
{
    let p1 = decimal(pid1 as nat);
    let p2 = decimal(pid2 as nat);
    let g1 = decimal(gen1 as nat);
    let g2 = decimal(gen2 as nat);
    let x = p1 + seq!['-'] + g1;
    let y = p2 + seq!['-'] + g2;
    lemma_decimal_digits(pid1 as nat);
    lemma_decimal_digits(pid2 as nat);
    lemma_decimal_digits(gen1 as nat);
    lemma_decimal_digits(gen2 as nat);
    if x == y {
        if p1.len() < p2.len() {
            assert(x[p1.len() as int] == '-');
            assert(y[p1.len() as int] == p2[p1.len() as int]);
        } else if p2.len() < p1.len() {
            assert(y[p2.len() as int] == '-');
            assert(x[p2.len() as int] == p1[p2.len() as int]);
        } else {
            assert(p1 =~= x.take(p1.len() as int));
            assert(p2 =~= y.take(p2.len() as int));
            lemma_decimal_injective(pid1 as nat, pid2 as nat);
            assert(g1 =~= x.skip(p1.len() as int + 1));
            assert(g2 =~= y.skip(p2.len() as int + 1));
            lemma_decimal_injective(gen1 as nat, gen2 as nat);
        }
    }
}

/// An icon file's name: the eye's icon name and an extension.
pub fn icon_file_name(eye: Eye, extension: &str) -> (r: String)
    ensures
        r@ == eye.icon_name_spec() + seq!['.'] + extension@,
{
    let mut v = chars_of(eye.icon_name());
    v.push('.');
    append_chars(&mut v, &chars_of(extension));
    string_of(&v)
}

impl Eye {
    /// The icon name, as a spec.
    pub open spec fn icon_name_spec(self) -> Seq<char> {
        match self {
            Eye::Open => "envy-open-symbolic"@,
            Eye::Squint => "envy-squint-symbolic"@,
            Eye::Closed => "envy-closed-symbolic"@,
        }
    }
}

// ---------------------------------------------------------------------------
// Clicks and the menu
// ---------------------------------------------------------------------------
/// What a left click on the item does.
#[derive(Clone, Copy, PartialEq, Eq, Debug, Structural)]
pub enum ClickAction {
    /// Show or hide the pinned note's window.
    TogglePinned,
    /// Show or hide the main window.
    ToggleMain,
    /// Nothing to show.
    Nothing,
}

/// Left click: with a note pinned it opens that note rather than summoning
/// the app; without one it shows or hides Envy.
pub fn click_action(note_pinned: bool, main_window_exists: bool) -> (a: ClickAction)
    ensures
        a == if note_pinned {
            ClickAction::TogglePinned
        } else if main_window_exists {
            ClickAction::ToggleMain
        } else {
            ClickAction::Nothing
        },
{
    if note_pinned {
        ClickAction::TogglePinned
    } else if main_window_exists {
        ClickAction::ToggleMain
    } else {
        ClickAction::Nothing
    }
}

/// A template offered in the menu: its name and file path.
pub struct TemplateRef {
    pub name: String,
    pub path: String,
}

/// What a menu item does when chosen.
pub enum MenuAction {
    /// Bring the main window forward and hand the frontend this event.
    Summon(&'static str),
    /// Create a note, pin it, and show it.
    NewPinnedNote,
    /// The same, from the template at this path.
    NewPinnedFromTemplate(String),
    /// Unpin the pinned note.
    Unpin,
    /// Flip "Keep Envy on Top".
    ToggleKeepOnTop,
    /// Run the update check, reporting even "up to date".
    CheckForUpdates,
    /// Quit.
    Quit,
    /// Nothing (a disabled item).
    Nothing,
}

/// One entry of the item's menu.
pub enum MenuEntry {
    Item { label: String, enabled: bool, action: MenuAction },
    Check { label: String, checked: bool, action: MenuAction },
    Sub { label: String, items: Vec<MenuEntry> },
    Separator,
}

/// An enabled item with this label and action.
pub open spec fn is_item(e: MenuEntry, label: Seq<char>, enabled: bool) -> bool {
    e matches MenuEntry::Item { label: l, enabled: en, .. } && l@ == label && en == enabled
}

/// The action of an item or checkbox.
pub open spec fn action_of(e: MenuEntry) -> Option<MenuAction> {
    match e {
        MenuEntry::Item { action, .. } => Some(action),
        MenuEntry::Check { action, .. } => Some(action),
        _ => None,
    }
}

/// The submenu's entries for the templates: one per template, named after
/// it and making a pinned note from it; or, with none, a disabled
/// "No Templates" so the feature is discoverable.
pub open spec fn template_items_ok(items: Seq<MenuEntry>, templates: Seq<TemplateRef>) -> bool {
    if templates.len() == 0 {
        &&& items.len() == 1
        &&& is_item(items[0], "No Templates"@, false)
        &&& action_of(items[0]) matches Some(MenuAction::Nothing)
    } else {
        &&& items.len() == templates.len()
        &&& forall|i: int|
            0 <= i < items.len() ==> is_item(#[trigger] items[i], templates[i].name@, true)
                && (action_of(items[i]) matches Some(MenuAction::NewPinnedFromTemplate(p))
                && p@ == templates[i].path@)
    }
}

fn label(s: &str) -> (r: String)
    ensures
        r@ == s@,
{
    string_of(&chars_of(s))
}

fn copy_string(s: &String) -> (r: String)
    ensures
        r@ == s@,
{
    string_of(&chars_of(s.as_str()))
}

/// The item's menu: New Note, New Pinned Note, the templates submenu, Unpin
/// Note (enabled only while a note is pinned), a separator, Keep Envy on Top
/// (checked as it is), Import from Kindle, Settings…, Check for Updates…,
/// Quit Envy.
pub fn tray_menu(templates: &Vec<TemplateRef>, note_pinned: bool, keep_on_top: bool) -> (m: Vec<MenuEntry>)
    ensures
        m@.len() == 10,
        is_item(m@[0], "New Note"@, true),
        action_of(m@[0]) matches Some(MenuAction::Summon(ev)) && ev@ == "new-note"@,
        is_item(m@[1], "New Pinned Note"@, true),
        action_of(m@[1]) matches Some(MenuAction::NewPinnedNote),
        m@[2] matches MenuEntry::Sub { label, items } && label@ == "New Pinned Note from Template"@
            && template_items_ok(items@, templates@),
        is_item(m@[3], "Unpin Note"@, note_pinned),
        action_of(m@[3]) matches Some(MenuAction::Unpin),
        m@[4] matches MenuEntry::Separator,
        m@[5] matches MenuEntry::Check { label, checked, action: MenuAction::ToggleKeepOnTop }
            && label@ == "Keep Envy on Top"@ && checked == keep_on_top,
        is_item(m@[6], "Import from Kindle"@, true),
        action_of(m@[6]) matches Some(MenuAction::Summon(ev)) && ev@ == "import-from-kindle"@,
        is_item(m@[7], "Settings…"@, true),
        action_of(m@[7]) matches Some(MenuAction::Summon(ev)) && ev@ == "open-settings"@,
        is_item(m@[8], "Check for Updates…"@, true),
        action_of(m@[8]) matches Some(MenuAction::CheckForUpdates),
        is_item(m@[9], "Quit Envy"@, true),
        action_of(m@[9]) matches Some(MenuAction::Quit),
{
    let mut items: Vec<MenuEntry> = Vec::new();
    if templates.len() == 0 {
        items.push(MenuEntry::Item { label: label("No Templates"), enabled: false, action: MenuAction::Nothing });
    } else {
        let mut i: usize = 0;
        while i < templates.len()
            invariant
                i <= templates.len(),
                items@.len() == i,
                forall|k: int|
                    0 <= k < i ==> is_item(#[trigger] items@[k], templates@[k].name@, true)
                        && (action_of(items@[k]) matches Some(MenuAction::NewPinnedFromTemplate(p))
                        && p@ == templates@[k].path@),
            decreases templates.len() - i,
        {
            let t = &templates[i];
            items.push(
                MenuEntry::Item {
                    label: copy_string(&t.name),
                    enabled: true,
                    action: MenuAction::NewPinnedFromTemplate(copy_string(&t.path)),
                },
            );
            i += 1;
        }
    }
    let mut m: Vec<MenuEntry> = Vec::new();
    m.push(MenuEntry::Item { label: label("New Note"), enabled: true, action: MenuAction::Summon("new-note") });
    m.push(MenuEntry::Item { label: label("New Pinned Note"), enabled: true, action: MenuAction::NewPinnedNote });
    m.push(MenuEntry::Sub { label: label("New Pinned Note from Template"), items });
    m.push(MenuEntry::Item { label: label("Unpin Note"), enabled: note_pinned, action: MenuAction::Unpin });
    m.push(MenuEntry::Separator);
    m.push(MenuEntry::Check { label: label("Keep Envy on Top"), checked: keep_on_top, action: MenuAction::ToggleKeepOnTop });
    m.push(MenuEntry::Item { label: label("Import from Kindle"), enabled: true, action: MenuAction::Summon("import-from-kindle") });
    m.push(MenuEntry::Item { label: label("Settings…"), enabled: true, action: MenuAction::Summon("open-settings") });
    m.push(MenuEntry::Item { label: label("Check for Updates…"), enabled: true, action: MenuAction::CheckForUpdates });
    m.push(MenuEntry::Item { label: label("Quit Envy"), enabled: true, action: MenuAction::Quit });
    m
}

// ---------------------------------------------------------------------------
// Enabling the bar widget
// ---------------------------------------------------------------------------
/// What to do after asking the shell to enable the widget.
#[derive(Clone, Copy, PartialEq, Eq, Debug, Structural)]
pub enum EnableStep {
    /// Ask once more: a rescan may still be settling.
    AskAgain,
    /// It is enabled: hide the tray's copy and remember it was placed.
    Placed,
    /// Leave it: the shell refused or could not be asked.
    GiveUp,
}

/// The shell's reply to enabling the widget: `ok` means placed; `unknown`
/// the first time means ask once more; anything else, or a second
/// `unknown`, means give up.
pub fn enable_step(reply: Option<&str>, asked_again: bool) -> (s: EnableStep)
    ensures
        s == match reply {
            Some(r) => if r@ == "ok"@ {
                EnableStep::Placed
            } else if r@ == "unknown"@ && !asked_again {
                EnableStep::AskAgain
            } else {
                EnableStep::GiveUp
            },
            None => EnableStep::GiveUp,
        },
{
    match reply {
        Some(r) => {
            let rc = chars_of(r);
            if chars_eq(&rc, &chars_of("ok")) {
                EnableStep::Placed
            } else if chars_eq(&rc, &chars_of("unknown")) && !asked_again {
                EnableStep::AskAgain
            } else {
                EnableStep::GiveUp
            }
        },
        None => EnableStep::GiveUp,
    }
}

} // verus!
