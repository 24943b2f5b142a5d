//! The rules behind the commands the frontend calls: what crosses the
//! boundary (the DTOs), which pages a webview may navigate to, which links
//! may be opened, how a date pattern becomes strftime, how a search page is
//! cut, how folder paths and `file://` URIs are built, and how the small
//! settings files read.
use vstd::prelude::*;

use crate::settings::path_components;
use crate::tray::hex_value;

use crate::text::{
    append_chars, chars_eq, chars_of, contains, contains_chars, replace, replace_chars, slice_of,
    starts_with, starts_with_chars, string_of, trim, trim_chars,
};

verus! {

// ---------------------------------------------------------------------------
// What crosses to the frontend
// ---------------------------------------------------------------------------
/// A note as the frontend sees it: the derived values resolved (title,
/// preview, due) rather than the raw content alone.
pub struct NoteDto {
    pub id: String,
    pub title: String,
    pub preview: String,
    /// Only sent for the note actually open in the editor.
    pub content: Option<String>,
    pub modified_ms: u64,
    pub due: Option<String>,
    pub due_count: usize,
    pub tags: Vec<String>,
    pub is_inbox: bool,
    pub ai_provenance: String,
    pub has_unchecked_task: bool,
    /// The folder the note sits in, relative to the Index root; `None` at
    /// the root.
    pub subfolder: Option<String>,
}

/// A template as the picker lists it.
pub struct TemplateDto {
    pub id: String,
    pub name: String,
}

/// A note a note links to, or is linked from.
pub struct InterlinkRefDto {
    pub id: String,
    pub title: String,
}

/// A title found in a note's text that could become a link.
pub struct SuggestionDto {
    pub title: String,
    /// UTF-16 offsets, so the editor can use them as string indices directly.
    pub start: usize,
    pub end: usize,
}

/// A note's links, backlinks and link suggestions.
pub struct InterlinksDto {
    pub links: Vec<InterlinkRefDto>,
    pub backlinks: Vec<InterlinkRefDto>,
    pub suggested: Vec<SuggestionDto>,
}

/// What a Kindle import did: the two numbers the Settings status line shows.
pub struct KindleImportSummary {
    pub imported: usize,
    pub already_imported: usize,
}

/// Progress of a Kindle import.
pub struct KindleProgress {
    pub done: usize,
    pub total: usize,
}

/// One page of the note list, and how long the list is.
pub struct SearchPage {
    pub notes: Vec<NoteDto>,
    pub total: usize,
}

/// One row of a browse catalog: a folder or tag name and how many notes it
/// holds.
pub struct CatalogRow {
    pub name: String,
    pub count: usize,
}

/// Whole-vault totals for the footer.
pub struct VaultCounts {
    pub notes: usize,
    pub folders: usize,
}

impl InterlinksDto {
    /// No links, backlinks or suggestions: what an unknown note has.
    pub fn empty() -> (r: Self)
        ensures
            r.links@.len() == 0,
            r.backlinks@.len() == 0,
            r.suggested@.len() == 0,
    {
        InterlinksDto { links: Vec::new(), backlinks: Vec::new(), suggested: Vec::new() }
    }
}

// ---------------------------------------------------------------------------
// Templates' {{date}}
// ---------------------------------------------------------------------------
/// The Settings pane's date tokens in strftime: `yyyy`, `MMMM`, `EEEE`, `MM`, `dd`
/// replaced in that order, longest first so `MM` cannot take the front of
/// `MMMM`.
pub open spec fn spec_date_pattern_to_strftime(p: Seq<char>) -> Seq<char> {
    replace(
        replace(replace(replace(replace(p, "yyyy"@, "%Y"@), "MMMM"@, "%B"@), "EEEE"@, "%A"@), "MM"@, "%m"@),
        "dd"@,
        "%d"@,
    )
}

fn replace_with(v: &Vec<char>, pat: &str, rep: &str) -> (r: Vec<char>)
    requires
        pat@.len() > 0,
    ensures
        r@ == replace(v@, pat@, rep@),
{
    replace_chars(v, &chars_of(pat), &chars_of(rep))
}

/// Translates the Settings pane's date tokens (`yyyy MM dd MMMM EEEE`) to strftime.
pub fn date_pattern_to_strftime(pattern: &str) -> (r: String)
    ensures
        r@ == spec_date_pattern_to_strftime(pattern@),
{
    proof {
        reveal_strlit("yyyy");
        reveal_strlit("MMMM");
        reveal_strlit("EEEE");
        reveal_strlit("MM");
        reveal_strlit("dd");
    }
    let a = replace_with(&chars_of(pattern), "yyyy", "%Y");
    let b = replace_with(&a, "MMMM", "%B");
    let c = replace_with(&b, "EEEE", "%A");
    let d = replace_with(&c, "MM", "%m");
    let e = replace_with(&d, "dd", "%d");
    string_of(&e)
}

// ---------------------------------------------------------------------------
// Search
// ---------------------------------------------------------------------------
/// The field the list is ordered by.
#[derive(Clone, Copy, PartialEq, Eq, Debug, Structural)]
pub enum SortField {
    Name,
    Date,
    Due,
}

/// The list header's field: "name" and "due" name theirs; anything else
/// falls back to date, the frontend's own default.
pub fn sort_field(name: &str) -> (f: SortField)
    ensures
        f == if name@ == "name"@ {
            SortField::Name
        } else if name@ == "due"@ {
            SortField::Due
        } else {
            SortField::Date
        },
{
    let n = chars_of(name);
    if chars_eq(&n, &chars_of("name")) {
        SortField::Name
    } else if chars_eq(&n, &chars_of("due")) {
        SortField::Due
    } else {
        SortField::Date
    }
}

/// The rows of one page: from `offset` (or the end), at most `limit` of
/// them, as `skip(offset).take(limit)` gives.
pub fn page_range(total: usize, offset: usize, limit: usize) -> (r: (usize, usize))
    ensures
        r.0 == (if offset < total {
            offset
        } else {
            total
        }),
        r.1 == (if r.0 + limit < total {
            r.0 + limit
        } else {
            total as int
        }),
{
    let start = if offset < total {
        offset
    } else {
        total
    };
    let end = if limit < total - start {
        start + limit
    } else {
        total
    };
    (start, end)
}

// ---------------------------------------------------------------------------
// Navigation
// ---------------------------------------------------------------------------
/// The parts of a URL the navigation rule reads.
pub struct NavUrl {
    pub scheme: String,
    /// `None` when the URL has no host.
    pub host: Option<String>,
    /// The port, when one other than the scheme's default is given.
    pub port: Option<u16>,
    pub path: String,
}

/// The app's own pages only: `tauri://localhost`, `http(s)://tauri.localhost`
/// (and in a development build the Vite server on `localhost:1420`), and
/// WebKitGTK's `about:blank`.
pub open spec fn spec_navigation_allowed(url: NavUrl, dev_build: bool) -> bool {
    let host = match url.host {
        Some(h) => h@,
        None => Seq::empty(),
    };
    let scheme = url.scheme@;
    if scheme == "tauri"@ {
        host == "localhost"@
    } else if scheme == "http"@ || scheme == "https"@ {
        host == "tauri.localhost"@ || (dev_build && host == "localhost"@ && url.port == Some(1420u16))
    } else if scheme == "about"@ {
        url.path@ == "blank"@
    } else {
        false
    }
}

/// Refuses any navigation away from the app's own pages: a remote page in
/// the webview would keep the IPC bridge and reach every command.
pub fn navigation_allowed(url: &NavUrl, dev_build: bool) -> (b: bool)
    ensures
        b == spec_navigation_allowed(*url, dev_build),
{
    let host = match &url.host {
        Some(h) => chars_of(h.as_str()),
        None => Vec::new(),
    };
    assert(host@ == match url.host {
        Some(h) => h@,
        None => Seq::<char>::empty(),
    });
    let scheme = chars_of(url.scheme.as_str());
    if chars_eq(&scheme, &chars_of("tauri")) {
        chars_eq(&host, &chars_of("localhost"))
    } else if chars_eq(&scheme, &chars_of("http")) || chars_eq(&scheme, &chars_of("https")) {
        chars_eq(&host, &chars_of("tauri.localhost")) || (dev_build && chars_eq(
            &host,
            &chars_of("localhost"),
        ) && url.port == Some(1420u16))
    } else if chars_eq(&scheme, &chars_of("about")) {
        chars_eq(&chars_of(url.path.as_str()), &chars_of("blank"))
    } else {
        false
    }
}

// ---------------------------------------------------------------------------
// Lower-casing (std's Unicode `to_lowercase`)
// ---------------------------------------------------------------------------
/// What `str::to_lowercase` gives for a string.
pub uninterp spec fn lowercase(s: Seq<char>) -> Seq<char>;

/// `str::to_lowercase`: the Unicode lower-case mapping of every character.
/// Its result is named (`lowercase`), a function of the string alone;
/// nothing more is stated of it.
#[verifier::external_body]
fn to_lowercase(s: &str) -> (r: String)
    ensures
        r@ == lowercase(s@),
{
    s.to_lowercase()
}

// ---------------------------------------------------------------------------
// External links
// ---------------------------------------------------------------------------
/// A lower-cased link may be opened only as http or https.
pub open spec fn is_web_link(lowered: Seq<char>) -> bool {
    starts_with(lowered, "http://"@) || starts_with(lowered, "https://"@)
}

/// Whether a link, already lower-cased, is a web link.
pub fn web_link_allowed(lowered: &str) -> (b: bool)
    ensures
        b == is_web_link(lowered@),
{
    let l = chars_of(lowered);
    starts_with_chars(&l, &chars_of("http://")) || starts_with_chars(&l, &chars_of("https://"))
}

/// A link from a note may be opened only when it is http or https (in any
/// letter case); otherwise the refusal, naming the link.
pub fn check_external_url(url: &str) -> (r: Result<(), String>)
    ensures
        match r {
            Ok(()) => is_web_link(lowercase(url@)),
            Err(msg) => !is_web_link(lowercase(url@)) && msg@
                == "refusing to open a non-web link: "@ + url@,
        },
{
    let lowered = to_lowercase(url);
    if web_link_allowed(lowered.as_str()) {
        Ok(())
    } else {
        let mut m = chars_of("refusing to open a non-web link: ");
        append_chars(&mut m, &chars_of(url));
        Err(string_of(&m))
    }
}

// ---------------------------------------------------------------------------
// Filtering by a typed fragment (template:, trash:)
// ---------------------------------------------------------------------------
/// A lower-cased name matches a needle (the typed fragment, trimmed and
/// lower-cased) when the needle is empty or occurs in it.
pub open spec fn spec_needle_matches(needle: Seq<char>, lowered_name: Seq<char>) -> bool {
    needle.len() == 0 || contains(lowered_name, needle)
}

/// Whether a lower-cased name matches a needle.
pub fn needle_matches(needle: &str, lowered_name: &str) -> (b: bool)
    ensures
        b == spec_needle_matches(needle@, lowered_name@),
{
    let n = chars_of(needle);
    n.len() == 0 || contains_chars(&chars_of(lowered_name), &n)
}

/// The needle a typed fragment gives: trimmed, then lower-cased.
pub fn fragment_needle(fragment: &str) -> (r: String)
    ensures
        r@ == lowercase(trim(fragment@)),
{
    let t = string_of(&trim_chars(&chars_of(fragment)));
    to_lowercase(t.as_str())
}

/// Whether `name` is listed for the typed `fragment`: an empty fragment
/// matches everything, any other must occur in the name, letter case aside.
pub fn matches_fragment(fragment: &str, name: &str) -> (b: bool)
    ensures
        b == spec_needle_matches(lowercase(trim(fragment@)), lowercase(name@)),
{
    let needle = fragment_needle(fragment);
    let lowered = to_lowercase(name);
    needle_matches(needle.as_str(), lowered.as_str())
}

// ---------------------------------------------------------------------------
// file:// URIs
// ---------------------------------------------------------------------------
/// A byte RFC 3986 allows unescaped in a path: letters, digits, `-._~` and `/`.
pub open spec fn unreserved(b: u8) -> bool {
    ||| 0x41 <= b <= 0x5A
    ||| 0x61 <= b <= 0x7A
    ||| 0x30 <= b <= 0x39
    ||| b == 0x2D
    ||| b == 0x2E
    ||| b == 0x5F
    ||| b == 0x7E
    ||| b == 0x2F
}

/// An upper-case hexadecimal digit.
pub open spec fn upper_hex_digit(n: u8) -> char {
    if n < 10 {
        ((n + 0x30) as u8) as char
    } else {
        ((n - 10 + 0x41) as u8) as char
    }
}

/// One byte of a path as it appears in the URI.
pub open spec fn uri_byte(b: u8) -> Seq<char> {
    if unreserved(b) {
        seq![b as char]
    } else {
        seq!['%', upper_hex_digit(b / 16), upper_hex_digit(b % 16)]
    }
}

/// The bytes of a path as they appear in the URI.
pub open spec fn uri_path(bytes: Seq<u8>) -> Seq<char>
    decreases bytes.len(),
{
    if bytes.len() == 0 {
        Seq::empty()
    } else {
        uri_path(bytes.drop_last()) + uri_byte(bytes.last())
    }
}

/// A character that stands for itself in a URI path: a letter, a digit,
/// `-`, `.`, `_`, `~` or `/`.
pub open spec fn unescaped_char(c: char) -> bool {
    ||| 'A' <= c <= 'Z'
    ||| 'a' <= c <= 'z'
    ||| '0' <= c <= '9'
    ||| c == '-'
    ||| c == '.'
    ||| c == '_'
    ||| c == '~'
    ||| c == '/'
}

/// An upper-case hexadecimal digit character.
pub open spec fn is_upper_hex_char(c: char) -> bool {
    ('0' <= c <= '9') || ('A' <= c <= 'F')
}

/// A URI path as `file_uri` writes one: every character stands for itself,
/// or is a `%` followed by two upper-case hexadecimal digits.
pub open spec fn escaped_form(s: Seq<char>) -> bool
    decreases s.len(),
{
    if s.len() == 0 {
        true
    } else if s[0] == '%' {
        s.len() >= 3 && is_upper_hex_char(s[1]) && is_upper_hex_char(s[2]) && escaped_form(
            s.skip(3),
        )
    } else {
        unescaped_char(s[0]) && escaped_form(s.drop_first())
    }
}

/// Percent-decoding: `%` and two hexadecimal digits give the byte they
/// spell; any other character gives its own code.
pub open spec fn percent_decode(s: Seq<char>) -> Seq<u8>
    decreases s.len(),
{
    if s.len() == 0 {
        Seq::empty()
    } else if s.len() >= 3 && s[0] == '%' && hex_value(s[1] as u8) is Some && hex_value(
        s[2] as u8,
    ) is Some {
        seq![(16 * hex_value(s[1] as u8)->0 + hex_value(s[2] as u8)->0) as u8] + percent_decode(
            s.skip(3),
        )
    } else {
        seq![s[0] as u8] + percent_decode(s.drop_first())
    }
}

proof fn lemma_uri_path_front(bytes: Seq<u8>)
    requires
        bytes.len() > 0,
    ensures
        uri_path(bytes) == uri_byte(bytes[0]) + uri_path(bytes.drop_first()),
    decreases bytes.len(),
{
    if bytes.len() == 1 {
        assert(bytes.drop_last() =~= Seq::<u8>::empty());
        assert(bytes.drop_first() =~= Seq::<u8>::empty());
        assert(uri_path(bytes) =~= uri_byte(bytes[0]) + uri_path(bytes.drop_first()));
    } else {
        lemma_uri_path_front(bytes.drop_last());
        assert(bytes.drop_last().drop_first() =~= bytes.drop_first().drop_last());
        assert(bytes.drop_first().last() == bytes.last());
        assert(uri_path(bytes) =~= uri_byte(bytes[0]) + uri_path(bytes.drop_first()));
    }
}

proof fn lemma_upper_hex_digit(n: u8)
    requires
        n < 16,
    ensures
        is_upper_hex_char(upper_hex_digit(n)),
        hex_value(upper_hex_digit(n) as u8) == Some(n),
        upper_hex_digit(n) != '%',
{
}

/// What one byte becomes decodes back to it, and is in the escaped form.
proof fn lemma_uri_byte(x: u8, rest: Seq<char>)
    ensures
        percent_decode(uri_byte(x) + rest) == seq![x] + percent_decode(rest),
        escaped_form(uri_byte(x) + rest) == escaped_form(rest),
{
    let s = uri_byte(x) + rest;
    if unreserved(x) {
        assert((x as char) as u8 == x);
        assert(s[0] == x as char);
        assert(s[0] != '%');
        assert(unescaped_char(s[0]));
        assert(s.drop_first() =~= rest);
    } else {
        lemma_upper_hex_digit(x / 16);
        lemma_upper_hex_digit(x % 16);
        assert(s[0] == '%');
        assert(s[1] == upper_hex_digit(x / 16));
        assert(s[2] == upper_hex_digit(x % 16));
        assert(s.skip(3) =~= rest);
        assert((16 * (x / 16) + x % 16) as u8 == x);
    }
}

/// `file_uri` can be read back: its path is in the escaped form (every
/// character stands for itself or is a `%XX` escape in upper-case hex), and
/// percent-decoding it gives the path's bytes exactly.
pub proof fn law_file_uri_decodes_back(bytes: Seq<u8>)
    ensures
        escaped_form(uri_path(bytes)),
        percent_decode(uri_path(bytes)) == bytes,
    decreases bytes.len(),
{
    if bytes.len() == 0 {
        assert(uri_path(bytes) =~= Seq::<char>::empty());
        assert(percent_decode(Seq::<char>::empty()) =~= bytes);
    } else {
        lemma_uri_path_front(bytes);
        law_file_uri_decodes_back(bytes.drop_first());
        lemma_uri_byte(bytes[0], uri_path(bytes.drop_first()));
        assert(seq![bytes[0]] + bytes.drop_first() =~= bytes);
    }
}

/// A character `file_uri` may leave in a path: a letter, a digit, `-`, `.`,
/// `_`, `~`, `/`, or the `%` of an escape (whose digits are among these).
pub open spec fn uri_path_char(c: char) -> bool {
    ||| 'A' <= c <= 'Z'
    ||| 'a' <= c <= 'z'
    ||| '0' <= c <= '9'
    ||| c == '-'
    ||| c == '.'
    ||| c == '_'
    ||| c == '~'
    ||| c == '/'
    ||| c == '%'
}

/// A byte stands for itself in `file_uri` exactly when it is an ASCII
/// letter, a digit, `-`, `.`, `_`, `~` or `/`; every other byte (`?`, `#`,
/// a space, any non-ASCII byte) becomes `%` and two upper-case hexadecimal
/// digits.
pub proof fn law_uri_escapes_all_but_unreserved(b: u8)
    ensures
        uri_byte(b) == seq![b as char] <==> (0x41 <= b <= 0x5A || 0x61 <= b <= 0x7A || 0x30 <= b
            <= 0x39 || b == 0x2D || b == 0x2E || b == 0x5F || b == 0x7E || b == 0x2F),
        !(0x41 <= b <= 0x5A || 0x61 <= b <= 0x7A || 0x30 <= b <= 0x39 || b == 0x2D || b == 0x2E
            || b == 0x5F || b == 0x7E || b == 0x2F) ==> uri_byte(b) == seq![
            '%',
            upper_hex_digit(b / 16),
            upper_hex_digit(b % 16),
        ],
{
}

proof fn lemma_uri_byte_chars(b: u8)
    ensures
        forall|k: int| 0 <= k < uri_byte(b).len() ==> uri_path_char(#[trigger] uri_byte(b)[k]),
{
    if !unreserved(b) {
        let u = uri_byte(b);
        assert(u[1] == upper_hex_digit(b / 16));
        assert(u[2] == upper_hex_digit(b % 16));
    }
}

/// A `file://` URI's path holds only letters, digits, `-`, `.`, `_`, `~`,
/// `/` and `%` escapes, so no `?`, `#` or space that would end or split the
/// path.
pub proof fn law_uri_path_holds_no_query_or_fragment(bytes: Seq<u8>)
    ensures
        forall|k: int|
            0 <= k < uri_path(bytes).len() ==> uri_path_char(#[trigger] uri_path(bytes)[k]),
        forall|k: int|
            0 <= k < uri_path(bytes).len() ==> #[trigger] uri_path(bytes)[k] != '?' && uri_path(
                bytes,
            )[k] != '#' && uri_path(bytes)[k] != ' ',
    decreases bytes.len(),
{
    if bytes.len() > 0 {
        law_uri_path_holds_no_query_or_fragment(bytes.drop_last());
        lemma_uri_byte_chars(bytes.last());
        let a = uri_path(bytes.drop_last());
        let u = uri_byte(bytes.last());
        assert forall|k: int| 0 <= k < uri_path(bytes).len() implies uri_path_char(
            #[trigger] uri_path(bytes)[k],
        ) by {
            if k < a.len() {
                assert(uri_path(bytes)[k] == a[k]);
            } else {
                assert(uri_path(bytes)[k] == u[k - a.len()]);
            }
        }
    }
}

fn upper_hex_digit_exec(n: u8) -> (c: char)
    requires
        n < 16,
    ensures
        c == upper_hex_digit(n),
{
    if n < 10 {
        (n + 0x30) as char
    } else {
        (n - 10 + 0x41) as char
    }
}

/// The `file://` URI for a local path (its bytes), percent-encoding every
/// byte RFC 3986 does not allow unescaped in a path.
pub fn file_uri(path: &[u8]) -> (r: String)
    ensures
        r@ == "file://"@ + uri_path(path@),
{
    let mut v = chars_of("file://");
    let ghost head = v@;
    let mut i: usize = 0;
    while i < path.len()
        invariant
            i <= path.len(),
            v@ == head + uri_path(path@.take(i as int)),
        decreases path.len() - i,
    {
        let b = path[i];
        if (0x41 <= b && b <= 0x5A) || (0x61 <= b && b <= 0x7A) || (0x30 <= b && b <= 0x39) || b
            == 0x2D || b == 0x2E || b == 0x5F || b == 0x7E || b == 0x2F {
            v.push(b as char);
        } else {
            v.push('%');
            v.push(upper_hex_digit_exec(b / 16));
            v.push(upper_hex_digit_exec(b % 16));
        }
        proof {
            assert(path@.take(i + 1).drop_last() =~= path@.take(i as int));
        }
        i += 1;
        assert(v@ =~= head + uri_path(path@.take(i as int)));
    }
    assert(path@.take(path.len() as int) =~= path@);
    string_of(&v)
}

// ---------------------------------------------------------------------------
// Errors the commands answer with
// ---------------------------------------------------------------------------
fn concat(a: &str, b: &str) -> (s: String)
    ensures
        s@ == a@ + b@,
{
    let mut v = chars_of(a);
    append_chars(&mut v, &chars_of(b));
    string_of(&v)
}

/// A command named a note the store does not hold.
pub fn no_note_with_id(id: &str) -> (s: String)
    ensures
        s@ == "no note with id "@ + id@,
{
    concat("no note with id ", id)
}

/// A command named a trashed note the trash does not hold.
pub fn no_trashed_note_with_id(id: &str) -> (s: String)
    ensures
        s@ == "no trashed note with id "@ + id@,
{
    concat("no trashed note with id ", id)
}

/// A note was saved but is no longer in the store.
pub fn vanished_during_save(id: &str) -> (s: String)
    ensures
        s@ == "note "@ + id@ + " vanished during save"@,
{
    let mut v = chars_of("note ");
    append_chars(&mut v, &chars_of(id));
    append_chars(&mut v, &chars_of(" vanished during save"));
    string_of(&v)
}

/// A move refused because the destination already has a note of that name.
pub fn name_taken_in_folder(title: &str) -> (s: String)
    ensures
        s@ == "A note named \u{201c}"@ + title@ + "\u{201d} already exists in that folder."@,
{
    let mut v = chars_of("A note named \u{201c}");
    append_chars(&mut v, &chars_of(title));
    append_chars(&mut v, &chars_of("\u{201d} already exists in that folder."));
    string_of(&v)
}

// ---------------------------------------------------------------------------
// Choosing notes
// ---------------------------------------------------------------------------
/// The views of a list of strings.
pub open spec fn str_views(v: Seq<String>) -> Seq<Seq<char>> {
    v.map_values(|s: String| s@)
}

/// The positions, in order, of the notes whose id is among `ids`: what a
/// batch delete takes as one action.
pub fn selected_notes(note_ids: &Vec<String>, ids: &Vec<String>) -> (r: Vec<usize>)
    ensures
        forall|k: int| 0 <= k < r.len() ==> #[trigger] r@[k] < note_ids.len(),
        forall|a: int, b: int| 0 <= a < b < r.len() ==> #[trigger] r@[a] < #[trigger] r@[b],
        forall|i: int|
            0 <= i < note_ids.len() ==> (r@.contains(i as usize) <==> str_views(ids@).contains(
                #[trigger] note_ids@[i]@,
            )),
{
    let mut r: Vec<usize> = Vec::new();
    let mut i: usize = 0;
    while i < note_ids.len()
        invariant
            0 <= i <= note_ids.len(),
            forall|k: int| 0 <= k < r.len() ==> #[trigger] r@[k] < i,
            forall|a: int, b: int| 0 <= a < b < r.len() ==> #[trigger] r@[a] < #[trigger] r@[b],
            forall|j: int|
                0 <= j < i ==> (r@.contains(j as usize) <==> str_views(ids@).contains(
                    #[trigger] note_ids@[j]@,
                )),
        decreases note_ids.len() - i,
    {
        let mut k: usize = 0;
        let mut hit = false;
        while k < ids.len()
            invariant
                0 <= k <= ids.len(),
                i < note_ids.len(),
                hit <==> exists|m: int| 0 <= m < k && #[trigger] ids@[m]@ == note_ids@[i as int]@,
            decreases ids.len() - k,
        {
            if crate::json::str_is(&ids[k], note_ids[i].as_str()) {
                hit = true;
            }
            k += 1;
        }
        assert(hit <==> str_views(ids@).contains(note_ids@[i as int]@)) by {
            if hit {
                let m = choose|m: int| 0 <= m < k && #[trigger] ids@[m]@ == note_ids@[i as int]@;
                assert(str_views(ids@)[m] == note_ids@[i as int]@);
            }
            if str_views(ids@).contains(note_ids@[i as int]@) {
                let m = choose|m: int|
                    0 <= m < ids.len() && #[trigger] str_views(ids@)[m] == note_ids@[i as int]@;
                assert(ids@[m]@ == note_ids@[i as int]@);
            }
        }
        let ghost before = r@;
        if hit {
            r.push(i);
        }
        assert forall|j: int| 0 <= j < i + 1 implies (r@.contains(j as usize) <==> str_views(
            ids@,
        ).contains(#[trigger] note_ids@[j]@)) by {
            if j < i {
                if r@.contains(j as usize) {
                    let m = choose|m: int| 0 <= m < r.len() && r@[m] == j as usize;
                    if m < before.len() {
                        assert(before[m] == j as usize);
                    }
                }
                if before.contains(j as usize) {
                    let m = choose|m: int| 0 <= m < before.len() && before[m] == j as usize;
                    assert(r@[m] == j as usize);
                }
            } else {
                if hit {
                    assert(r@[r.len() - 1] == i);
                }
                if r@.contains(j as usize) {
                    let m = choose|m: int| 0 <= m < r.len() && r@[m] == j as usize;
                    if m < before.len() {
                        assert(before[m] < i);
                    }
                }
            }
        }
        i += 1;
    }
    r
}

/// Whether row `i` is listed: always, unless fleeting notes are hidden and
/// it is one.
pub open spec fn row_shown(in_inbox: Seq<bool>, hide_inbox: bool, i: int) -> bool {
    !(hide_inbox && in_inbox[i])
}

/// The rows the list shows of the ordered hits: all of them, or, when
/// fleeting notes are hidden, those not in the Inbox, order kept.
pub fn visible_rows(in_inbox: &Vec<bool>, hide_inbox: bool) -> (r: Vec<usize>)
    ensures
        forall|k: int| 0 <= k < r.len() ==> #[trigger] r@[k] < in_inbox.len(),
        forall|a: int, b: int| 0 <= a < b < r.len() ==> #[trigger] r@[a] < #[trigger] r@[b],
        forall|i: int|
            0 <= i < in_inbox.len() ==> (r@.contains(i as usize) <==> #[trigger] row_shown(in_inbox@, hide_inbox, i)),
{
    let mut r: Vec<usize> = Vec::new();
    let mut i: usize = 0;
    while i < in_inbox.len()
        invariant
            0 <= i <= in_inbox.len(),
            forall|k: int| 0 <= k < r.len() ==> #[trigger] r@[k] < i,
            forall|a: int, b: int| 0 <= a < b < r.len() ==> #[trigger] r@[a] < #[trigger] r@[b],
            forall|j: int|
                0 <= j < i ==> (r@.contains(j as usize) <==> #[trigger] row_shown(in_inbox@, hide_inbox, j)),
        decreases in_inbox.len() - i,
    {
        let ghost before = r@;
        if !(hide_inbox && in_inbox[i]) {
            r.push(i);
        }
        assert forall|j: int| 0 <= j < i + 1 implies (r@.contains(j as usize) <==> #[trigger] row_shown(in_inbox@, hide_inbox, j)) by {
            if j < i {
                if r@.contains(j as usize) {
                    let m = choose|m: int| 0 <= m < r.len() && r@[m] == j as usize;
                    if m < before.len() {
                        assert(before[m] == j as usize);
                    }
                }
                if before.contains(j as usize) {
                    let m = choose|m: int| 0 <= m < before.len() && before[m] == j as usize;
                    assert(r@[m] == j as usize);
                }
            } else {
                if row_shown(in_inbox@, hide_inbox, j) {
                    assert(r@[r.len() - 1] == i);
                }
                if r@.contains(j as usize) {
                    let m = choose|m: int| 0 <= m < r.len() && r@[m] == j as usize;
                    if m < before.len() {
                        assert(before[m] < i);
                    }
                }
            }
        }
        i += 1;
    }
    r
}

/// How many of the flags are set.
pub open spec fn count_set(flags: Seq<bool>) -> nat
    decreases flags.len(),
{
    if flags.len() == 0 {
        0
    } else {
        count_set(flags.drop_last()) + if flags.last() {
            1nat
        } else {
            0nat
        }
    }
}

/// The Inbox badge: how many notes wait in `Inbox/`, counted over every
/// note; nothing while the Inbox is turned off.
pub fn inbox_count(enabled: bool, in_inbox: &Vec<bool>) -> (n: usize)
    ensures
        n == if enabled {
            count_set(in_inbox@)
        } else {
            0
        },
{
    if !enabled {
        return 0;
    }
    let mut n: usize = 0;
    let mut i: usize = 0;
    while i < in_inbox.len()
        invariant
            0 <= i <= in_inbox.len(),
            n == count_set(in_inbox@.take(i as int)),
            n <= i,
        decreases in_inbox.len() - i,
    {
        assert(in_inbox@.take(i + 1).drop_last() =~= in_inbox@.take(i as int));
        if in_inbox[i] {
            n += 1;
        }
        i += 1;
    }
    assert(in_inbox@.take(i as int) =~= in_inbox@);
    n
}

// ---------------------------------------------------------------------------
// Windows
// ---------------------------------------------------------------------------
/// What the summon shortcut and the tray click do to a window.
#[derive(Clone, Copy, PartialEq, Eq, Debug, Structural)]
pub enum WindowToggle {
    /// Hide it (it leaves the taskbar and Alt-Tab).
    Hide,
    /// Show, unminimise and focus it, and announce the summon.
    Show,
}

/// Show-or-hide: a window on screen (visible and not minimised) is hidden;
/// anything else, a minimised window included, is brought back.
pub fn toggle_window_action(visible: bool, minimised: bool) -> (t: WindowToggle)
    ensures
        t == if visible && !minimised {
            WindowToggle::Hide
        } else {
            WindowToggle::Show
        },
{
    if visible && !minimised {
        WindowToggle::Hide
    } else {
        WindowToggle::Show
    }
}

// ---------------------------------------------------------------------------
// Kindle import
// ---------------------------------------------------------------------------
/// The largest file taken as a Clippings file: 64 MiB.
pub const MAX_CLIPPINGS_BYTES: u64 = 67108864u64;

/// The refusal when no path was given and no Kindle is mounted.
pub open spec fn no_kindle_message() -> Seq<char> {
    "No Kindle detected: plug it in and refresh, or choose the file by hand."@
}

/// The file to import: the one chosen, else the detected Kindle's.
pub fn clippings_source(path: Option<String>, detected: Option<String>) -> (r: Result<String, String>)
    ensures
        match path {
            Some(p) => r matches Ok(f) && f@ == p@,
            None => match detected {
                Some(d) => r matches Ok(f) && f@ == d@,
                None => r matches Err(m) && m@ == no_kindle_message(),
            },
        },
{
    match path {
        Some(p) => Ok(p),
        None => match detected {
            Some(d) => Ok(d),
            None => Err(
                string_of(
                    &chars_of(
                        "No Kindle detected: plug it in and refresh, or choose the file by hand.",
                    ),
                ),
            ),
        },
    }
}

/// A file over 64 MiB is refused: it is no Clippings file, and reading it
/// would hold it in memory twice.
pub fn check_clippings_size(size: u64) -> (r: Result<(), String>)
    ensures
        r is Ok <==> size <= MAX_CLIPPINGS_BYTES,
        match r {
            Err(m) => m@ == "That file is over 64 MB \u{2014} it isn't a Kindle Clippings file."@,
            Ok(()) => true,
        },
{
    if size > MAX_CLIPPINGS_BYTES {
        Err(string_of(&chars_of("That file is over 64 MB \u{2014} it isn't a Kindle Clippings file.")))
    } else {
        Ok(())
    }
}

/// The refusal when the Clippings file cannot be read.
pub fn clippings_read_error(error: &str) -> (s: String)
    ensures
        s@ == "Couldn't read the Clippings file: "@ + error@,
{
    concat("Couldn't read the Clippings file: ", error)
}

// ---------------------------------------------------------------------------
// Attachments
// ---------------------------------------------------------------------------
/// `Path::starts_with`: `base`'s components lead `path`'s, whole components
/// only.
pub open spec fn path_starts_with(path: Seq<char>, base: Seq<char>) -> bool {
    let p = path_components(path);
    let b = path_components(base);
    b.len() <= p.len() && p.take(b.len() as int) == b
}

/// `Path::starts_with` on Unix. Its documentation: whether `base` is a
/// prefix of the path, matching whole components only; the components are as
/// `Path::components` documents them.
#[verifier::external_body]
fn starts_with_path(path: &str, base: &str) -> (b: bool)
    ensures
        b == path_starts_with(path@, base@),
{
    std::path::Path::new(path).starts_with(base)
}

/// The first checks on an attachment the UI asks for: its name must read as
/// an image, and the path must be a regular file.
pub fn check_attachment(name_is_image: bool, is_file: bool) -> (r: Result<(), String>)
    ensures
        r is Ok <==> name_is_image && is_file,
        match r {
            Err(m) => if !name_is_image {
                m@ == "that isn't an image attachment"@
            } else {
                m@ == "no such image"@
            },
            Ok(()) => true,
        },
{
    if !name_is_image {
        return Err(string_of(&chars_of("that isn't an image attachment")));
    }
    if !is_file {
        return Err(string_of(&chars_of("no such image")));
    }
    Ok(())
}

/// The verdict on where an attachment resolves to: refused unless it lies
/// inside the attachments folder.
pub fn attachment_inside_verdict(inside: bool) -> (r: Result<(), String>)
    ensures
        r is Ok <==> inside,
        match r {
            Err(m) => m@ == "that image is outside the vault"@,
            Ok(()) => true,
        },
{
    if inside {
        Ok(())
    } else {
        Err(string_of(&chars_of("that image is outside the vault")))
    }
}

/// The last check: where the attachment really resolves to (`resolved`,
/// canonical) must lie inside the attachments folder (`dir`, canonical), so
/// a symlink planted there cannot hand out any file on the disk.
pub fn check_attachment_inside(resolved: &str, dir: &str) -> (r: Result<(), String>)
    ensures
        r is Ok <==> path_starts_with(resolved@, dir@),
        match r {
            Err(m) => m@ == "that image is outside the vault"@,
            Ok(()) => true,
        },
{
    attachment_inside_verdict(starts_with_path(resolved, dir))
}

// ---------------------------------------------------------------------------
// Windows: the installer and Explorer
// ---------------------------------------------------------------------------
/// The file a downloaded installer is written to, in the temp directory.
pub fn installer_file_name(version: &str) -> (s: String)
    ensures
        s@ == "Envy_"@ + version@ + "_x64-setup.exe"@,
{
    let mut v = chars_of("Envy_");
    append_chars(&mut v, &chars_of(version));
    append_chars(&mut v, &chars_of("_x64-setup.exe"));
    string_of(&v)
}

/// The `cmd /C` line that starts the installer once this process has had a
/// few seconds to exit: `ping` waits, then the installer runs passive, with
/// restart, as an upgrade.
pub fn installer_command(installer: &str) -> (s: String)
    ensures
        s@ == "ping -n 5 127.0.0.1 >nul & \""@ + installer@ + "\" /P /R /UPDATE"@,
{
    let mut v = chars_of("ping -n 5 127.0.0.1 >nul & \"");
    append_chars(&mut v, &chars_of(installer));
    append_chars(&mut v, &chars_of("\" /P /R /UPDATE"));
    string_of(&v)
}

/// Explorer's argument to select a file: the switch bare and only the path
/// quoted, so a path with spaces still selects the file.
pub fn explorer_select_arg(path: &str) -> (s: String)
    ensures
        s@ == "/select,\""@ + path@ + "\""@,
{
    let mut v = chars_of("/select,\"");
    append_chars(&mut v, &chars_of(path));
    append_chars(&mut v, &chars_of("\""));
    string_of(&v)
}

} // verus!
