//! Global shortcuts: the bindings the frontend sends ("Ctrl+Alt+Shift+P"),
//! read into a key and its modifiers, and the registry that maps a
//! registered shortcut's id back to the action it triggers.
use vstd::prelude::*;
use std::collections::HashMap;

use crate::text::{
    chars_eq, chars_of, index_of, is_ws, lacks, lemma_index_of, lemma_index_of_append,
    lemma_index_of_is, slice_of, trim, trim_chars, trim_end, trim_start,
};

verus! {

/// The keys a binding can name.
#[derive(Clone, Copy, PartialEq, Eq, Debug, Structural)]
pub enum KeyCode {
    Enter,
    Space,
    Backspace,
    ArrowDown,
    ArrowUp,
    ArrowLeft,
    ArrowRight,
    /// A letter key, by its upper-case letter.
    Letter(char),
    /// A digit key, by its digit.
    Digit(char),
    Comma,
    Period,
    Minus,
    Equal,
}

/// A parsed binding: the modifiers held and the key pressed.
#[derive(Clone, Copy, PartialEq, Eq, Debug, Structural)]
pub struct Shortcut {
    pub control: bool,
    pub alt: bool,
    pub shift: bool,
    pub key: KeyCode,
}

impl Shortcut {
    /// Whether no modifier is held (the shortcut is then registered without
    /// modifiers).
    pub fn has_no_modifiers(&self) -> (b: bool)
        ensures
            b == (!self.control && !self.alt && !self.shift),
    {
        !self.control && !self.alt && !self.shift
    }
}

/// The actions a global shortcut can trigger.
#[derive(Clone, Copy, PartialEq, Eq, Debug, Structural)]
pub enum ShortcutAction {
    SummonApp,
    ShowPinnedNote,
    UnpinFromTray,
    KeepOnTop,
}

// ---------------------------------------------------------------------------
// Model
// ---------------------------------------------------------------------------
/// `str::split` on a character: the pieces between separators, empty ones
/// included.
pub open spec fn split(s: Seq<char>, c: char) -> Seq<Seq<char>>
    decreases s.len(),
{
    let k = index_of(s, c);
    if k < 0 || k >= s.len() {
        seq![s]
    } else {
        seq![s.take(k)] + split(s.skip(k + 1), c)
    }
}

/// `char::to_ascii_uppercase`.
pub open spec fn ascii_upper(c: char) -> char {
    if 'a' <= c <= 'z' {
        ((c as u32) - 32) as char
    } else {
        c
    }
}

/// The key a single-character piece names, if any.
pub open spec fn key_of_char(c: char) -> Option<KeyCode> {
    let u = ascii_upper(c);
    if 'A' <= u <= 'Z' {
        Some(KeyCode::Letter(u))
    } else if '0' <= u <= '9' {
        Some(KeyCode::Digit(u))
    } else if u == ',' {
        Some(KeyCode::Comma)
    } else if u == '.' {
        Some(KeyCode::Period)
    } else if u == '-' {
        Some(KeyCode::Minus)
    } else if u == '=' {
        Some(KeyCode::Equal)
    } else {
        None
    }
}

/// What the binding read so far holds: control, alt, shift, and the key.
pub type ParseState = (bool, bool, bool, Option<KeyCode>);

/// Reading one `+`-separated piece (already trimmed). A modifier name adds
/// the modifier, a key name sets the key, one ASCII character sets the key
/// it names (or clears it, naming none), anything else is ignored.
pub open spec fn read_piece(st: ParseState, p: Seq<char>) -> ParseState {
    if p == "Ctrl"@ {
        (true, st.1, st.2, st.3)
    } else if p == "Alt"@ {
        (st.0, true, st.2, st.3)
    } else if p == "Shift"@ {
        (st.0, st.1, true, st.3)
    } else if p == "Enter"@ {
        (st.0, st.1, st.2, Some(KeyCode::Enter))
    } else if p == "Space"@ {
        (st.0, st.1, st.2, Some(KeyCode::Space))
    } else if p == "Backspace"@ {
        (st.0, st.1, st.2, Some(KeyCode::Backspace))
    } else if p == "ArrowDown"@ {
        (st.0, st.1, st.2, Some(KeyCode::ArrowDown))
    } else if p == "ArrowUp"@ {
        (st.0, st.1, st.2, Some(KeyCode::ArrowUp))
    } else if p == "ArrowLeft"@ {
        (st.0, st.1, st.2, Some(KeyCode::ArrowLeft))
    } else if p == "ArrowRight"@ {
        (st.0, st.1, st.2, Some(KeyCode::ArrowRight))
    } else if p.len() == 1 && (p[0] as u32) < 0x80 {
        (st.0, st.1, st.2, key_of_char(p[0]))
    } else {
        st
    }
}

/// Reading the pieces in order, from nothing held.
pub open spec fn read_pieces(ps: Seq<Seq<char>>) -> ParseState
    decreases ps.len(),
{
    if ps.len() == 0 {
        (false, false, false, None)
    } else {
        read_piece(read_pieces(ps.drop_last()), trim(ps.last()))
    }
}

/// The shortcut a binding names: its pieces read in order; `None` when no
/// key was named.
pub open spec fn spec_parse_shortcut(binding: Seq<char>) -> Option<Shortcut> {
    let st = read_pieces(split(binding, '+'));
    match st.3 {
        Some(k) => Some(Shortcut { control: st.0, alt: st.1, shift: st.2, key: k }),
        None => None,
    }
}

// ---------------------------------------------------------------------------
// Executable
// ---------------------------------------------------------------------------
proof fn lemma_split_step(s: Seq<char>, c: char, k: int)
    requires
        0 <= k <= s.len(),
        forall|j: int| 0 <= j < k ==> s[j] != c,
        k < s.len() ==> s[k] == c,
    ensures
        k == s.len() ==> split(s, c) == seq![s],
        k < s.len() ==> split(s, c) == seq![s.take(k)] + split(s.skip(k + 1), c),
{
    lemma_index_of_is(s, c, k);
}

/// `str::split` on a character.
pub fn split_chars(v: &Vec<char>, c: char) -> (r: Vec<Vec<char>>)
    ensures
        r@.map_values(|l: Vec<char>| l@) == split(v@, c),
{
    let mut r: Vec<Vec<char>> = Vec::new();
    let mut start: usize = 0;
    assert(v@.skip(0) =~= v@);
    loop
        invariant
            start <= v.len(),
            split(v@, c) == r@.map_values(|l: Vec<char>| l@) + split(v@.skip(start as int), c),
        decreases v.len() - start,
    {
        let mut k = start;
        while k < v.len() && v[k] != c
            invariant
                start <= k <= v.len(),
                forall|j: int| start <= j < k ==> v@[j] != c,
            decreases v.len() - k,
        {
            k += 1;
        }
        let ghost s = v@.skip(start as int);
        let piece = slice_of(v, start, k);
        let ghost before = r@.map_values(|l: Vec<char>| l@);
        proof {
            assert forall|j: int| 0 <= j < k - start implies s[j] != c by {
                assert(s[j] == v@[start + j]);
            }
            lemma_split_step(s, c, k - start);
        }
        r.push(piece);
        assert(r@.map_values(|l: Vec<char>| l@) =~= before.push(piece@));
        if k == v.len() {
            assert(piece@ =~= s);
            assert(split(v@, c) =~= r@.map_values(|l: Vec<char>| l@));
            return r;
        }
        assert(piece@ =~= s.take(k - start));
        assert(s.skip(k - start + 1) =~= v@.skip(k + 1));
        start = k + 1;
    }
}

/// `char::to_ascii_uppercase`.
fn to_ascii_uppercase(c: char) -> (u: char)
    ensures
        u == ascii_upper(c),
{
    if 'a' <= c && c <= 'z' {
        ((c as u32) - 32) as u8 as char
    } else {
        c
    }
}

/// The key code of an upper-case letter.
pub fn letter_code(c: char) -> (k: KeyCode)
    requires
        'A' <= c <= 'Z',
    ensures
        k == KeyCode::Letter(c),
{
    KeyCode::Letter(c)
}

/// The key code of a digit.
pub fn digit_code(c: char) -> (k: KeyCode)
    requires
        '0' <= c <= '9',
    ensures
        k == KeyCode::Digit(c),
{
    KeyCode::Digit(c)
}

fn key_of(c: char) -> (k: Option<KeyCode>)
    ensures
        k == key_of_char(c),
{
    let u = to_ascii_uppercase(c);
    if 'A' <= u && u <= 'Z' {
        Some(letter_code(u))
    } else if '0' <= u && u <= '9' {
        Some(digit_code(u))
    } else if u == ',' {
        Some(KeyCode::Comma)
    } else if u == '.' {
        Some(KeyCode::Period)
    } else if u == '-' {
        Some(KeyCode::Minus)
    } else if u == '=' {
        Some(KeyCode::Equal)
    } else {
        None
    }
}

fn is_word(p: &Vec<char>, w: &str) -> (b: bool)
    ensures
        b == (p@ == w@),
{
    chars_eq(p, &chars_of(w))
}

fn read_piece_exec(st: ParseState, p: &Vec<char>) -> (r: ParseState)
    ensures
        r == read_piece(st, p@),
{
    if is_word(p, "Ctrl") {
        (true, st.1, st.2, st.3)
    } else if is_word(p, "Alt") {
        (st.0, true, st.2, st.3)
    } else if is_word(p, "Shift") {
        (st.0, st.1, true, st.3)
    } else if is_word(p, "Enter") {
        (st.0, st.1, st.2, Some(KeyCode::Enter))
    } else if is_word(p, "Space") {
        (st.0, st.1, st.2, Some(KeyCode::Space))
    } else if is_word(p, "Backspace") {
        (st.0, st.1, st.2, Some(KeyCode::Backspace))
    } else if is_word(p, "ArrowDown") {
        (st.0, st.1, st.2, Some(KeyCode::ArrowDown))
    } else if is_word(p, "ArrowUp") {
        (st.0, st.1, st.2, Some(KeyCode::ArrowUp))
    } else if is_word(p, "ArrowLeft") {
        (st.0, st.1, st.2, Some(KeyCode::ArrowLeft))
    } else if is_word(p, "ArrowRight") {
        (st.0, st.1, st.2, Some(KeyCode::ArrowRight))
    } else if p.len() == 1 && (p[0] as u32) < 0x80 {
        (st.0, st.1, st.2, key_of(p[0]))
    } else {
        st
    }
}

/// Parses a binding like "Ctrl+Alt+Shift+P" into a shortcut.
///
/// The binding is read piece by piece between the `+` signs, each trimmed:
/// `Ctrl`, `Alt` and `Shift` add a modifier; `Enter`, `Space`, `Backspace`
/// and the four arrows name a key; a single ASCII character names a letter
/// (either case), a digit, `,`, `.`, `-` or `=` (and any other character
/// clears the key); anything else is ignored. `None` when no key is named.
pub fn parse_shortcut(binding: &str) -> (r: Option<Shortcut>)
    ensures
        r == spec_parse_shortcut(binding@),
{
    let parts = split_chars(&chars_of(binding), '+');
    let mut st: ParseState = (false, false, false, None);
    let mut i: usize = 0;
    while i < parts.len()
        invariant
            i <= parts.len(),
            parts@.map_values(|l: Vec<char>| l@) == split(binding@, '+'),
            st == read_pieces(split(binding@, '+').take(i as int)),
        decreases parts.len() - i,
    {
        let ghost ps = split(binding@, '+');
        let piece = trim_chars(&parts[i]);
        proof {
            assert(ps.take(i + 1).drop_last() =~= ps.take(i as int));
            assert(ps.take(i + 1).last() == parts@[i as int]@);
        }
        st = read_piece_exec(st, &piece);
        i += 1;
    }
    assert(split(binding@, '+').take(parts.len() as int) =~= split(binding@, '+'));
    match st.3 {
        Some(k) => Some(Shortcut { control: st.0, alt: st.1, shift: st.2, key: k }),
        None => None,
    }
}

/// The name the frontend uses for an action.
pub fn action_name(a: ShortcutAction) -> (s: &'static str)
    ensures
        s@ == match a {
            ShortcutAction::SummonApp => "summonApp"@,
            ShortcutAction::ShowPinnedNote => "showPinnedNote"@,
            ShortcutAction::UnpinFromTray => "unpinFromTray"@,
            ShortcutAction::KeepOnTop => "keepOnTop"@,
        },
{
    match a {
        ShortcutAction::SummonApp => "summonApp",
        ShortcutAction::ShowPinnedNote => "showPinnedNote",
        ShortcutAction::UnpinFromTray => "unpinFromTray",
        ShortcutAction::KeepOnTop => "keepOnTop",
    }
}

/// Registered global shortcuts, keyed by the shortcut's own id, so the
/// handler dispatches by lookup rather than re-testing chords.
pub struct ShortcutRegistry {
    entries: HashMap<u32, ShortcutAction>,
}

impl ShortcutRegistry {
    /// The registry as a map from shortcut id to action.
    pub closed spec fn model(&self) -> Map<u32, ShortcutAction> {
        self.entries@
    }

    /// An empty registry.
    pub fn new() -> (r: Self)
        ensures
            r.model() == Map::<u32, ShortcutAction>::empty(),
    {
        ShortcutRegistry { entries: HashMap::new() }
    }

    /// Forgets every registration, as a remap starts over.
    pub fn clear(&mut self)
        ensures
            final(self).model() == Map::<u32, ShortcutAction>::empty(),
    {
        self.entries.clear();
    }

    /// Records that the shortcut with `id` triggers `action` (replacing what
    /// it triggered before).
    pub fn record(&mut self, id: u32, action: ShortcutAction)
        ensures
            final(self).model() == old(self).model().insert(id, action),
    {
        self.entries.insert(id, action);
    }

    /// The action the shortcut with `id` triggers, if it is registered.
    pub fn action_for(&self, id: u32) -> (r: Option<ShortcutAction>)
        ensures
            r == (if self.model().dom().contains(id) {
                Some(self.model()[id])
            } else {
                None
            }),
    {
        match self.entries.get(&id) {
            Some(a) => Some(*a),
            None => None,
        }
    }
}

/// What a shortcut event does: only a press acts, and then whatever the
/// registry has for the shortcut's id.
pub fn shortcut_event_action(registry: &ShortcutRegistry, id: u32, pressed: bool) -> (r: Option<ShortcutAction>)
    ensures
        r == (if pressed && registry.model().dom().contains(id) {
            Some(registry.model()[id])
        } else {
            None
        }),
{
    if !pressed {
        return None;
    }
    registry.action_for(id)
}

/// The four remappable shortcuts, each with the binding the frontend sent,
/// in the order they are registered.
pub fn shortcut_bindings(summon: String, show_pinned: String, unpin: String, keep_on_top: String) -> (v: Vec<(ShortcutAction, String)>)
    ensures
        v@.len() == 4,
        v@[0].0 == ShortcutAction::SummonApp && v@[0].1@ == summon@,
        v@[1].0 == ShortcutAction::ShowPinnedNote && v@[1].1@ == show_pinned@,
        v@[2].0 == ShortcutAction::UnpinFromTray && v@[2].1@ == unpin@,
        v@[3].0 == ShortcutAction::KeepOnTop && v@[3].1@ == keep_on_top@,
{
    let mut v = Vec::new();
    v.push((ShortcutAction::SummonApp, summon));
    v.push((ShortcutAction::ShowPinnedNote, show_pinned));
    v.push((ShortcutAction::UnpinFromTray, unpin));
    v.push((ShortcutAction::KeepOnTop, keep_on_top));
    v
}

/// A shortcut recorded for an action triggers that action when pressed, and
/// nothing when released; a cleared registry triggers nothing.
pub proof fn law_recorded_shortcut_dispatches(m: Map<u32, ShortcutAction>, id: u32, a: ShortcutAction)
    ensures
        m.insert(id, a).dom().contains(id) && m.insert(id, a)[id] == a,
        !Map::<u32, ShortcutAction>::empty().dom().contains(id),
{
}

/// Splitting a binding with one more piece after a last `+` gives the pieces
/// before it and then that one.
proof fn lemma_split_append(s: Seq<char>, w: Seq<char>)
    requires
        lacks(w, '+'),
    ensures
        split(s + seq!['+'] + w, '+') == split(s, '+').push(w),
    decreases s.len(),
{
    let whole = s + seq!['+'] + w;
    lemma_index_of(s, '+');
    let k = index_of(s, '+');
    if k < s.len() {
        assert(whole =~= s + (seq!['+'] + w));
        lemma_index_of_append(s, seq!['+'] + w, '+');
        assert(whole.take(k) =~= s.take(k));
        assert(whole.skip(k + 1) =~= s.skip(k + 1) + seq!['+'] + w);
        lemma_split_append(s.skip(k + 1), w);
        assert(split(whole, '+') =~= seq![s.take(k)] + split(s.skip(k + 1), '+').push(w));
        assert(split(s, '+') =~= seq![s.take(k)] + split(s.skip(k + 1), '+'));
        assert(seq![s.take(k)] + split(s.skip(k + 1), '+').push(w) =~= (seq![s.take(k)] + split(
            s.skip(k + 1),
            '+',
        )).push(w));
    } else {
        assert forall|j: int| 0 <= j < s.len() implies whole[j] != '+' by {}
        lemma_index_of_is(whole, '+', s.len() as int);
        assert(whole.take(s.len() as int) =~= s);
        assert(whole.skip(s.len() as int + 1) =~= w);
        lemma_index_of_is(w, '+', w.len() as int);
        assert(split(s, '+') =~= seq![s]);
        assert(split(w, '+') =~= seq![w]);
        assert(split(whole, '+') =~= seq![s, w]);
    }
}

/// A word with no white space at either end trims to itself.
proof fn lemma_trim_word(w: Seq<char>)
    requires
        w.len() > 0,
        !is_ws(w[0]),
        !is_ws(w.last()),
    ensures
        trim(w) == w,
{
    assert(trim_start(w) == w);
    assert(trim_end(w) == w);
}

/// The state after reading a binding's pieces.
pub open spec fn binding_state(s: Seq<char>) -> ParseState {
    read_pieces(split(s, '+'))
}

/// Appending one more piece to a binding reads that piece last.
proof fn lemma_read_one_more(s: Seq<char>, w: Seq<char>)
    requires
        lacks(w, '+'),
        w.len() > 0,
        !is_ws(w[0]),
        !is_ws(w.last()),
    ensures
        binding_state(s + seq!['+'] + w) == read_piece(binding_state(s), w),
{
    lemma_split_append(s, w);
    lemma_trim_word(w);
    let ps = split(s, '+').push(w);
    assert(ps.drop_last() =~= split(s, '+'));
}

/// Whatever comes before it, a last piece that names a key decides the key
/// of the binding, and the modifiers are those named before it: `Enter`,
/// `Space`, `Backspace` and the four arrows each give their own key, an
/// upper-case letter or a digit gives that letter's or digit's key, and `,`
/// `.` `-` `=` give theirs.
pub proof fn law_last_piece_names_the_key(s: Seq<char>, c: char)
    ensures
        ({
            let st = binding_state(s);
            let with = |k: KeyCode| Some(Shortcut { control: st.0, alt: st.1, shift: st.2, key: k });
            &&& spec_parse_shortcut(s + "+Enter"@) == with(KeyCode::Enter)
            &&& spec_parse_shortcut(s + "+Space"@) == with(KeyCode::Space)
            &&& spec_parse_shortcut(s + "+Backspace"@) == with(KeyCode::Backspace)
            &&& spec_parse_shortcut(s + "+ArrowDown"@) == with(KeyCode::ArrowDown)
            &&& spec_parse_shortcut(s + "+ArrowUp"@) == with(KeyCode::ArrowUp)
            &&& spec_parse_shortcut(s + "+ArrowLeft"@) == with(KeyCode::ArrowLeft)
            &&& spec_parse_shortcut(s + "+ArrowRight"@) == with(KeyCode::ArrowRight)
            &&& ('A' <= c <= 'Z' ==> spec_parse_shortcut(s + seq!['+', c]) == with(
                KeyCode::Letter(c),
            ))
            &&& ('0' <= c <= '9' ==> spec_parse_shortcut(s + seq!['+', c]) == with(
                KeyCode::Digit(c),
            ))
            &&& spec_parse_shortcut(s + seq!['+', ',']) == with(KeyCode::Comma)
            &&& spec_parse_shortcut(s + seq!['+', '.']) == with(KeyCode::Period)
            &&& spec_parse_shortcut(s + seq!['+', '-']) == with(KeyCode::Minus)
            &&& spec_parse_shortcut(s + seq!['+', '=']) == with(KeyCode::Equal)
        }),
{
    reveal_strlit("+Enter");
    reveal_strlit("+Space");
    reveal_strlit("+Backspace");
    reveal_strlit("+ArrowDown");
    reveal_strlit("+ArrowUp");
    reveal_strlit("+ArrowLeft");
    reveal_strlit("+ArrowRight");
    reveal_strlit("Ctrl");
    reveal_strlit("Alt");
    reveal_strlit("Shift");
    reveal_strlit("Enter");
    reveal_strlit("Space");
    reveal_strlit("Backspace");
    reveal_strlit("ArrowDown");
    reveal_strlit("ArrowUp");
    reveal_strlit("ArrowLeft");
    reveal_strlit("ArrowRight");
    assert(lacks("Enter"@, '+') && !is_ws("Enter"@[0]) && !is_ws("Enter"@.last()));
    assert(lacks("Space"@, '+') && !is_ws("Space"@[0]) && !is_ws("Space"@.last()));
    assert(lacks("Backspace"@, '+') && !is_ws("Backspace"@[0]) && !is_ws("Backspace"@.last()));
    assert(lacks("ArrowDown"@, '+') && !is_ws("ArrowDown"@[0]) && !is_ws("ArrowDown"@.last()));
    assert(lacks("ArrowUp"@, '+') && !is_ws("ArrowUp"@[0]) && !is_ws("ArrowUp"@.last()));
    assert(lacks("ArrowLeft"@, '+') && !is_ws("ArrowLeft"@[0]) && !is_ws("ArrowLeft"@.last()));
    assert(lacks("ArrowRight"@, '+') && !is_ws("ArrowRight"@[0]) && !is_ws("ArrowRight"@.last()));
    assert("Shift"@[0] != "Enter"@[0]);
    assert("Shift"@[1] != "Space"@[1]);
    assert("Enter"@[0] != "Space"@[0]);
    assert("Backspace"@[0] != "ArrowDown"@[0]);
    assert("Backspace"@[0] != "ArrowLeft"@[0]);
    assert("ArrowDown"@[5] != "ArrowLeft"@[5]);
    assert("+Enter"@ =~= "+"@ + "Enter"@) by { reveal_strlit("+"); }
    assert("+Space"@ =~= "+"@ + "Space"@) by { reveal_strlit("+"); }
    assert("+Backspace"@ =~= "+"@ + "Backspace"@) by { reveal_strlit("+"); }
    assert("+ArrowDown"@ =~= "+"@ + "ArrowDown"@) by { reveal_strlit("+"); }
    assert("+ArrowUp"@ =~= "+"@ + "ArrowUp"@) by { reveal_strlit("+"); }
    assert("+ArrowLeft"@ =~= "+"@ + "ArrowLeft"@) by { reveal_strlit("+"); }
    assert("+ArrowRight"@ =~= "+"@ + "ArrowRight"@) by { reveal_strlit("+"); }
    reveal_strlit("+");
    lemma_read_one_more(s, "Enter"@);
    assert(s + "+Enter"@ =~= s + seq!['+'] + "Enter"@);
    lemma_read_one_more(s, "Space"@);
    assert(s + "+Space"@ =~= s + seq!['+'] + "Space"@);
    lemma_read_one_more(s, "Backspace"@);
    assert(s + "+Backspace"@ =~= s + seq!['+'] + "Backspace"@);
    lemma_read_one_more(s, "ArrowDown"@);
    assert(s + "+ArrowDown"@ =~= s + seq!['+'] + "ArrowDown"@);
    lemma_read_one_more(s, "ArrowUp"@);
    assert(s + "+ArrowUp"@ =~= s + seq!['+'] + "ArrowUp"@);
    lemma_read_one_more(s, "ArrowLeft"@);
    assert(s + "+ArrowLeft"@ =~= s + seq!['+'] + "ArrowLeft"@);
    lemma_read_one_more(s, "ArrowRight"@);
    assert(s + "+ArrowRight"@ =~= s + seq!['+'] + "ArrowRight"@);
    if ('A' <= c <= 'Z') || ('0' <= c <= '9') {
        lemma_read_one_more(s, seq![c]);
        assert(s + seq!['+', c] =~= s + seq!['+'] + seq![c]);
        assert(seq![c] != "Ctrl"@ && seq![c] != "Alt"@ && seq![c] != "Shift"@);
    }
    lemma_read_one_more(s, seq![',']);
    assert(s + seq!['+', ','] =~= s + seq!['+'] + seq![',']);
    lemma_read_one_more(s, seq!['.']);
    assert(s + seq!['+', '.'] =~= s + seq!['+'] + seq!['.']);
    lemma_read_one_more(s, seq!['-']);
    assert(s + seq!['+', '-'] =~= s + seq!['+'] + seq!['-']);
    lemma_read_one_more(s, seq!['=']);
    assert(s + seq!['+', '='] =~= s + seq!['+'] + seq!['=']);
}

/// Naming a modifier anywhere after the other pieces adds that modifier and
/// changes nothing else the binding holds.
pub proof fn law_modifier_pieces_add_modifiers(s: Seq<char>)
    ensures
        ({
            let st = binding_state(s);
            &&& binding_state(s + "+Ctrl"@) == (true, st.1, st.2, st.3)
            &&& binding_state(s + "+Alt"@) == (st.0, true, st.2, st.3)
            &&& binding_state(s + "+Shift"@) == (st.0, st.1, true, st.3)
        }),
{
    reveal_strlit("+Ctrl");
    reveal_strlit("+Alt");
    reveal_strlit("+Shift");
    reveal_strlit("Ctrl");
    reveal_strlit("Alt");
    reveal_strlit("Shift");
    reveal_strlit("+");
    assert(lacks("Ctrl"@, '+') && !is_ws("Ctrl"@[0]) && !is_ws("Ctrl"@.last()));
    assert(lacks("Alt"@, '+') && !is_ws("Alt"@[0]) && !is_ws("Alt"@.last()));
    assert(lacks("Shift"@, '+') && !is_ws("Shift"@[0]) && !is_ws("Shift"@.last()));
    lemma_read_one_more(s, "Ctrl"@);
    assert(s + "+Ctrl"@ =~= s + seq!['+'] + "Ctrl"@);
    lemma_read_one_more(s, "Alt"@);
    assert(s + "+Alt"@ =~= s + seq!['+'] + "Alt"@);
    lemma_read_one_more(s, "Shift"@);
    assert(s + "+Shift"@ =~= s + seq!['+'] + "Shift"@);
}

} // verus!
