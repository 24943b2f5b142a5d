//! Pop-out windows: which window shows which note. A note id is a file path,
//! which a window label cannot hold, so each pop-out gets a label made from a
//! hash of its id and the registry maps the label back to the id. Popping out
//! a note that already has a window surfaces that window instead of opening a
//! second one; each new window is cascaded down and to the right, wrapping
//! every eight.
use std::collections::hash_map::DefaultHasher;
use std::hash::{Hash, Hasher};

use vstd::prelude::*;

use vstd::std_specs::hash::DefaultHasherAdditionalSpecFns;

use crate::json::str_is;
use crate::text::{append_chars, chars_of, string_of};

verus! {

// ---------------------------------------------------------------------------
// Model
// ---------------------------------------------------------------------------
/// The labels of a registry's entries (label, note id).
pub open spec fn labels_of(e: Seq<(Seq<char>, Seq<char>)>) -> Seq<Seq<char>> {
    e.map_values(|p: (Seq<char>, Seq<char>)| p.0)
}

/// The note ids of a registry's entries.
pub open spec fn ids_of(e: Seq<(Seq<char>, Seq<char>)>) -> Seq<Seq<char>> {
    e.map_values(|p: (Seq<char>, Seq<char>)| p.1)
}

/// Where `k` first stands in `keys`, or `keys.len()` when it is absent.
pub open spec fn position(keys: Seq<Seq<char>>, k: Seq<char>) -> int
    decreases keys.len(),
{
    if keys.len() == 0 {
        0
    } else if keys[0] == k {
        0
    } else {
        1 + position(keys.drop_first(), k)
    }
}

/// A lower-case hexadecimal digit.
pub open spec fn hex_digit(n: nat) -> char {
    if n < 10 {
        ((n + 0x30) as u8) as char
    } else {
        ((n - 10 + 0x61) as u8) as char
    }
}

/// `format!("{:x}", n)`: lower-case hexadecimal, no leading zeros.
pub open spec fn hex_lower(n: nat) -> Seq<char>
    decreases n,
{
    if n < 16 {
        seq![hex_digit(n)]
    } else {
        hex_lower(n / 16) + seq![hex_digit(n % 16)]
    }
}

/// The label of the window for a note whose id hashed to `hash`.
pub open spec fn popout_label(hash: u64) -> Seq<char> {
    "popout-"@ + hex_lower(hash as nat)
}

/// Sets `label`'s note to `id`: in place when the label is taken, else at
/// the end.
pub open spec fn put_entry(e: Seq<(Seq<char>, Seq<char>)>, label: Seq<char>, id: Seq<char>) -> Seq<
    (Seq<char>, Seq<char>),
> {
    let i = position(labels_of(e), label);
    if i < e.len() {
        e.update(i, (label, id))
    } else {
        e.push((label, id))
    }
}

/// What popping out a note leads to.
pub enum PopoutStep {
    /// Its window exists: bring that one forward.
    Surface(Seq<char>),
    /// Open a new window with this label, at this cascade step (0 to 7).
    Create(Seq<char>, nat),
}

/// Popping out note `id`, whose id hashed to `hash`: the step, and the
/// registry after it.
pub open spec fn spec_open(e: Seq<(Seq<char>, Seq<char>)>, id: Seq<char>, hash: u64) -> (
    PopoutStep,
    Seq<(Seq<char>, Seq<char>)>,
) {
    let i = position(ids_of(e), id);
    if i < e.len() {
        (PopoutStep::Surface(e[i].0), e)
    } else {
        (
            PopoutStep::Create(popout_label(hash), e.len() % 8),
            put_entry(e, popout_label(hash), id),
        )
    }
}

/// The note shown in the window `label`.
pub open spec fn spec_note_for(e: Seq<(Seq<char>, Seq<char>)>, label: Seq<char>) -> Option<
    Seq<char>,
> {
    let i = position(labels_of(e), label);
    if i < e.len() {
        Some(e[i].1)
    } else {
        None
    }
}

/// The entries whose window is still alive.
pub open spec fn kept(e: Seq<(Seq<char>, Seq<char>)>, live: Seq<bool>) -> Seq<
    (Seq<char>, Seq<char>),
>
    decreases e.len(),
{
    if e.len() == 0 || live.len() != e.len() {
        Seq::empty()
    } else if live.last() {
        kept(e.drop_last(), live.drop_last()).push(e.last())
    } else {
        kept(e.drop_last(), live.drop_last())
    }
}

/// No label and no note appears twice.
pub open spec fn entries_wf(e: Seq<(Seq<char>, Seq<char>)>) -> bool {
    labels_of(e).no_duplicates() && ids_of(e).no_duplicates()
}

// ---------------------------------------------------------------------------
// Facts
// ---------------------------------------------------------------------------
pub proof fn lemma_position(keys: Seq<Seq<char>>, k: Seq<char>)
    ensures
        0 <= position(keys, k) <= keys.len(),
        position(keys, k) < keys.len() ==> keys[position(keys, k)] == k,
        forall|j: int| 0 <= j < position(keys, k) ==> keys[j] != k,
    decreases keys.len(),
{
    if keys.len() > 0 && keys[0] != k {
        lemma_position(keys.drop_first(), k);
        assert forall|j: int| 0 <= j < position(keys, k) implies keys[j] != k by {
            if j > 0 {
                assert(keys[j] == keys.drop_first()[j - 1]);
            }
        }
    }
}

proof fn lemma_position_is(keys: Seq<Seq<char>>, k: Seq<char>, i: int)
    requires
        0 <= i <= keys.len(),
        i < keys.len() ==> keys[i] == k,
        forall|j: int| 0 <= j < i ==> keys[j] != k,
    ensures
        position(keys, k) == i,
{
    lemma_position(keys, k);
}

proof fn lemma_kept(e: Seq<(Seq<char>, Seq<char>)>, live: Seq<bool>)
    requires
        live.len() == e.len(),
    ensures
        forall|p: (Seq<char>, Seq<char>)| #[trigger] kept(e, live).contains(p) ==> e.contains(p),
        entries_wf(e) ==> entries_wf(kept(e, live)),
    decreases e.len(),
{
    if e.len() > 0 {
        let k0 = kept(e.drop_last(), live.drop_last());
        lemma_kept(e.drop_last(), live.drop_last());
        assert forall|p: (Seq<char>, Seq<char>)| #[trigger] kept(e, live).contains(p) implies e.contains(p) by {
            let m = choose|m: int| 0 <= m < kept(e, live).len() && kept(e, live)[m] == p;
            if m < k0.len() {
                assert(k0[m] == p);
                assert(k0.contains(p));
                assert(e.drop_last().contains(p));
                let n = choose|n: int| 0 <= n < e.drop_last().len() && e.drop_last()[n] == p;
                assert(e[n] == p);
            } else {
                assert(e[e.len() - 1] == p);
            }
        }
        if entries_wf(e) {
            assert(entries_wf(e.drop_last())) by {
                assert(labels_of(e.drop_last()) =~= labels_of(e).drop_last());
                assert(ids_of(e.drop_last()) =~= ids_of(e).drop_last());
            }
            if live.last() {
                let last = e.last();
                assert forall|m: int| 0 <= m < k0.len() implies k0[m].0 != last.0 && k0[m].1
                    != last.1 by {
                    assert(k0.contains(k0[m]));
                    let n = choose|n: int| 0 <= n < e.drop_last().len() && e.drop_last()[n] == k0[m];
                    assert(labels_of(e)[n] != labels_of(e)[e.len() - 1]);
                    assert(ids_of(e)[n] != ids_of(e)[e.len() - 1]);
                }
                assert(labels_of(kept(e, live)) =~= labels_of(k0).push(last.0));
                assert(ids_of(kept(e, live)) =~= ids_of(k0).push(last.1));
            }
        }
    }
}

// ---------------------------------------------------------------------------
// Executable
// ---------------------------------------------------------------------------
/// What `open` tells the caller to do.
pub enum PopoutAction {
    /// Bring the existing window with this label forward.
    Surface { label: String },
    /// Build a new window with this label, `cascade` steps (0 to 7) down and
    /// to the right of the first position.
    Create { label: String, cascade: usize },
}

/// The step an action stands for.
pub open spec fn step_of(a: PopoutAction) -> PopoutStep {
    match a {
        PopoutAction::Surface { label } => PopoutStep::Surface(label@),
        PopoutAction::Create { label, cascade } => PopoutStep::Create(label@, cascade as nat),
    }
}

/// What `Hash::hash` of a string into a `DefaultHasher` makes of the writes
/// the hasher has taken so far.
pub uninterp spec fn str_hash_writes(writes: Seq<Seq<u8>>, s: Seq<char>) -> Seq<Seq<u8>>;

/// `Hash::hash` of a `str` into a `DefaultHasher`. What it feeds the hasher
/// is named (`str_hash_writes`), a function of the hasher's writes so far and
/// the string alone; std does not document the bytes, so nothing more is
/// stated.
#[verifier::external_body]
fn hash_str(s: &str, hasher: &mut DefaultHasher)
    ensures
        final(hasher)@ == str_hash_writes(old(hasher)@, s@),
{
    s.hash(hasher);
}

/// The hash a note id's window label is made from: the id hashed into a
/// fresh `DefaultHasher`. Every `DefaultHasher::new()` starts alike (it is
/// not seeded per process), so this depends on the id alone.
pub open spec fn note_hash(id: Seq<char>) -> u64 {
    DefaultHasher::spec_finish(str_hash_writes(Seq::empty(), id))
}

fn note_id_hash(id: &str) -> (h: u64)
    ensures
        h == note_hash(id@),
{
    let mut hasher = DefaultHasher::new();
    hash_str(id, &mut hasher);
    hasher.finish()
}

fn hex_digit_exec(n: u64) -> (c: char)
    requires
        n < 16,
    ensures
        c == hex_digit(n as nat),
{
    if n < 10 {
        ((n + 0x30) as u8) as char
    } else {
        ((n - 10 + 0x61) as u8) as char
    }
}

fn hex_lower_exec(n: u64) -> (v: Vec<char>)
    ensures
        v@ == hex_lower(n as nat),
    decreases n,
{
    if n < 16 {
        let mut v = Vec::new();
        v.push(hex_digit_exec(n));
        v
    } else {
        let mut v = hex_lower_exec(n / 16);
        v.push(hex_digit_exec(n % 16));
        v
    }
}

/// The label of the window for a note whose id hashed to `hash`:
/// `popout-` and the hash in lower-case hexadecimal.
pub fn label_for_hash(hash: u64) -> (r: String)
    ensures
        r@ == popout_label(hash),
{
    let mut v = chars_of("popout-");
    append_chars(&mut v, &hex_lower_exec(hash));
    string_of(&v)
}

/// The pop-out windows that are open, by label, with the note each shows.
pub struct PopoutRegistry {
    entries: Vec<(String, String)>,
}

impl PopoutRegistry {
    /// The entries, as (label, note id).
    pub closed spec fn view(&self) -> Seq<(Seq<char>, Seq<char>)> {
        self.entries@.map_values(|p: (String, String)| (p.0@, p.1@))
    }

    /// No label and no note appears twice.
    pub open spec fn wf(&self) -> bool {
        entries_wf(self.view())
    }

    /// No pop-outs.
    pub fn new() -> (r: Self)
        ensures
            r.wf(),
            r.view() == Seq::<(Seq<char>, Seq<char>)>::empty(),
    {
        let r = PopoutRegistry { entries: Vec::new() };
        assert(r.view() =~= Seq::<(Seq<char>, Seq<char>)>::empty());
        r
    }

    /// How many pop-outs are registered.
    pub fn len(&self) -> (n: usize)
        ensures
            n == self.view().len(),
    {
        self.entries.len()
    }

    /// The labels, in the registry's order: what `sweep` takes a flag for.
    pub fn labels(&self) -> (r: Vec<String>)
        ensures
            r@.map_values(|s: String| s@) == labels_of(self.view()),
    {
        let mut r: Vec<String> = Vec::new();
        let mut i: usize = 0;
        while i < self.entries.len()
            invariant
                0 <= i <= self.entries.len(),
                r.len() == i,
                forall|m: int| 0 <= m < i ==> #[trigger] r@[m]@ == self.entries@[m].0@,
            decreases self.entries.len() - i,
        {
            r.push(self.entries[i].0.clone());
            i += 1;
        }
        assert(r@.map_values(|s: String| s@) =~= labels_of(self.view()));
        r
    }

    fn find_id(&self, id: &str) -> (i: usize)
        ensures
            i as int == position(ids_of(self.view()), id@),
    {
        let ghost ids = ids_of(self.view());
        let mut i: usize = 0;
        while i < self.entries.len()
            invariant
                0 <= i <= self.entries.len(),
                ids == ids_of(self.view()),
                forall|j: int| 0 <= j < i ==> ids[j] != id@,
            decreases self.entries.len() - i,
        {
            if str_is(&self.entries[i].1, id) {
                proof {
                    lemma_position_is(ids, id@, i as int);
                }
                return i;
            }
            i += 1;
        }
        proof {
            lemma_position_is(ids, id@, i as int);
        }
        i
    }

    fn find_label(&self, label: &str) -> (i: usize)
        ensures
            i as int == position(labels_of(self.view()), label@),
    {
        let ghost labels = labels_of(self.view());
        let mut i: usize = 0;
        while i < self.entries.len()
            invariant
                0 <= i <= self.entries.len(),
                labels == labels_of(self.view()),
                forall|j: int| 0 <= j < i ==> labels[j] != label@,
            decreases self.entries.len() - i,
        {
            if str_is(&self.entries[i].0, label) {
                proof {
                    lemma_position_is(labels, label@, i as int);
                }
                return i;
            }
            i += 1;
        }
        proof {
            lemma_position_is(labels, label@, i as int);
        }
        i
    }

    /// Forgets the windows that have since closed: `live[i]` says whether the
    /// window of the `i`-th label (as `labels` lists them) still exists.
    pub fn sweep(&mut self, live: &Vec<bool>)
        requires
            old(self).wf(),
            live.len() == old(self).view().len(),
        ensures
            final(self).wf(),
            final(self).view() == kept(old(self).view(), live@),
    {
        let ghost e = self.view();
        let mut out: Vec<(String, String)> = Vec::new();
        let mut i: usize = 0;
        while i < self.entries.len()
            invariant
                0 <= i <= self.entries.len(),
                live.len() == self.entries.len(),
                e == self.view(),
                out@.map_values(|p: (String, String)| (p.0@, p.1@)) == kept(
                    e.take(i as int),
                    live@.take(i as int),
                ),
            decreases self.entries.len() - i,
        {
            proof {
                assert(e.take(i + 1).drop_last() =~= e.take(i as int));
                assert(live@.take(i + 1).drop_last() =~= live@.take(i as int));
            }
            if live[i] {
                let label = self.entries[i].0.clone();
                let id = self.entries[i].1.clone();
                out.push((label, id));
                assert(out@.map_values(|p: (String, String)| (p.0@, p.1@)) =~= kept(
                    e.take(i as int),
                    live@.take(i as int),
                ).push(e[i as int]));
            }
            i += 1;
        }
        assert(e.take(i as int) =~= e);
        assert(live@.take(i as int) =~= live@);
        proof {
            lemma_kept(e, live@);
        }
        self.entries = out;
    }

    /// Popping out note `id`: surfaces its window when it has one, else
    /// registers the label `popout-` and the id's hash in hexadecimal for it
    /// and says where to cascade the window.
    pub fn open(&mut self, id: &str) -> (a: PopoutAction)
        requires
            old(self).wf(),
        ensures
            final(self).wf(),
            (step_of(a), final(self).view()) == spec_open(old(self).view(), id@, note_hash(id@)),
    {
        let h = note_id_hash(id);
        self.open_hashed(id, h)
    }

    /// `open` once the id's hash is known.
    pub fn open_hashed(&mut self, id: &str, hash: u64) -> (a: PopoutAction)
        requires
            old(self).wf(),
        ensures
            final(self).wf(),
            (step_of(a), final(self).view()) == spec_open(old(self).view(), id@, hash),
    {
        let ghost e = self.view();
        let i = self.find_id(id);
        proof {
            lemma_position(ids_of(e), id@);
        }
        if i < self.entries.len() {
            assert(ids_of(e)[i as int] == id@);
            return PopoutAction::Surface { label: self.entries[i].0.clone() };
        }
        let label = label_for_hash(hash);
        let cascade = self.entries.len() % 8;
        let j = self.find_label(label.as_str());
        proof {
            lemma_position(labels_of(e), label@);
        }
        let ghost put = put_entry(e, label@, id@);
        if j < self.entries.len() {
            let l2 = label.clone();
            self.entries.set(j, (l2, string_of(&chars_of(id))));
            assert(self.view() =~= e.update(j as int, (label@, id@)));
            assert(entries_wf(self.view())) by {
                assert(labels_of(self.view()) =~= labels_of(e));
                assert forall|a: int, b: int|
                    0 <= a < e.len() && 0 <= b < e.len() && a != b implies ids_of(self.view())[a]
                    != ids_of(self.view())[b] by {
                    if a != j && b != j {
                        assert(ids_of(e)[a] != ids_of(e)[b]);
                    } else if a == j {
                        assert(ids_of(e)[b] != id@);
                    } else {
                        assert(ids_of(e)[a] != id@);
                    }
                }
            }
        } else {
            let l2 = label.clone();
            self.entries.push((l2, string_of(&chars_of(id))));
            assert(self.view() =~= e.push((label@, id@)));
            assert(entries_wf(self.view())) by {
                assert(labels_of(self.view()) =~= labels_of(e).push(label@));
                assert(ids_of(self.view()) =~= ids_of(e).push(id@));
                assert forall|a: int| 0 <= a < e.len() implies labels_of(e)[a] != label@ && ids_of(
                    e,
                )[a] != id@ by {}
            }
        }
        PopoutAction::Create { label, cascade }
    }

    /// The note the window `label` shows, if it is a pop-out.
    pub fn note_for(&self, label: &str) -> (r: Option<String>)
        ensures
            match r {
                Some(s) => spec_note_for(self.view(), label@) == Some(s@),
                None => spec_note_for(self.view(), label@) is None,
            },
    {
        let i = self.find_label(label);
        if i < self.entries.len() {
            Some(self.entries[i].1.clone())
        } else {
            None
        }
    }

    /// Forgets the window `label` (one whose build failed).
    pub fn remove(&mut self, label: &str)
        requires
            old(self).wf(),
        ensures
            final(self).wf(),
            position(labels_of(old(self).view()), label@) < old(self).view().len()
                ==> final(self).view() == old(self).view().remove(
                position(labels_of(old(self).view()), label@),
            ),
            position(labels_of(old(self).view()), label@) >= old(self).view().len()
                ==> final(self).view() == old(self).view(),
    {
        let ghost e = self.view();
        let i = self.find_label(label);
        if i < self.entries.len() {
            self.entries.remove(i);
            assert(self.view() =~= e.remove(i as int));
            assert(labels_of(self.view()) =~= labels_of(e).remove(i as int));
            assert(ids_of(self.view()) =~= ids_of(e).remove(i as int));
            assert(entries_wf(self.view())) by {
                assert forall|a: int, b: int|
                    0 <= a < e.len() - 1 && 0 <= b < e.len() - 1 && a != b implies labels_of(
                    self.view(),
                )[a] != labels_of(self.view())[b] && ids_of(self.view())[a] != ids_of(
                    self.view(),
                )[b] by {
                    let a2 = if a < i {
                        a
                    } else {
                        a + 1
                    };
                    let b2 = if b < i {
                        b
                    } else {
                        b + 1
                    };
                    assert(labels_of(e)[a2] != labels_of(e)[b2]);
                    assert(ids_of(e)[a2] != ids_of(e)[b2]);
                }
            }
        }
    }
}

// ---------------------------------------------------------------------------
// Laws
// ---------------------------------------------------------------------------
/// Popping out a note a second time surfaces the window the first time made,
/// and changes nothing, whatever the second hash would have been.
pub proof fn law_second_pop_out_surfaces_the_first(
    e: Seq<(Seq<char>, Seq<char>)>,
    id: Seq<char>,
    h1: u64,
    h2: u64,
)
    ensures
        ({
            let (first, e1) = spec_open(e, id, h1);
            let (second, e2) = spec_open(e1, id, h2);
            &&& second == PopoutStep::Surface(
                match first {
                    PopoutStep::Surface(l) => l,
                    PopoutStep::Create(l, _) => l,
                },
            )
            &&& e2 == e1
        }),
{
    lemma_position(ids_of(e), id);
    let i = position(ids_of(e), id);
    if i >= e.len() {
        let label = popout_label(h1);
        let e1 = put_entry(e, label, id);
        lemma_position(labels_of(e), label);
        let j = position(labels_of(e), label);
        let k = if j < e.len() {
            j
        } else {
            e.len() as int
        };
        assert(e1[k] == (label, id));
        assert(ids_of(e1)[k] == id);
        lemma_position(ids_of(e1), id);
        let p = position(ids_of(e1), id);
        assert(p <= k);
        if p < k {
            assert(ids_of(e1)[p] == id);
            assert(e1[p] == e[p]);
            assert(ids_of(e)[p] == id);
        }
    }
}

/// A window a pop-out created shows the note it was created for.
pub proof fn law_new_window_shows_its_note(e: Seq<(Seq<char>, Seq<char>)>, id: Seq<char>, h: u64)
    requires
        position(ids_of(e), id) >= e.len(),
    ensures
        spec_note_for(spec_open(e, id, h).1, popout_label(h)) == Some(id),
{
    let label = popout_label(h);
    let e1 = put_entry(e, label, id);
    lemma_position(labels_of(e), label);
    let j = position(labels_of(e), label);
    let k = if j < e.len() {
        j
    } else {
        e.len() as int
    };
    assert(e1[k] == (label, id));
    assert(labels_of(e1)[k] == label);
    lemma_position(labels_of(e1), label);
    let p = position(labels_of(e1), label);
    if p < k {
        assert(labels_of(e1)[p] == label);
        assert(e1[p] == e[p]);
        assert(labels_of(e)[p] == label);
    }
}

/// After a sweep, every window left is one whose flag said alive, and each
/// still shows the note it showed.
pub proof fn law_sweep_keeps_only_live_windows(e: Seq<(Seq<char>, Seq<char>)>, live: Seq<bool>)
    requires
        entries_wf(e),
        live.len() == e.len(),
    ensures
        entries_wf(kept(e, live)),
        forall|p: (Seq<char>, Seq<char>)|
            #[trigger] kept(e, live).contains(p) ==> exists|i: int|
                0 <= i < e.len() && e[i] == p && live[i],
    decreases e.len(),
{
    lemma_kept(e, live);
    if e.len() > 0 {
        assert(labels_of(e.drop_last()) =~= labels_of(e).drop_last());
        assert(ids_of(e.drop_last()) =~= ids_of(e).drop_last());
        law_sweep_keeps_only_live_windows(e.drop_last(), live.drop_last());
        let k0 = kept(e.drop_last(), live.drop_last());
        assert forall|p: (Seq<char>, Seq<char>)| #[trigger] kept(e, live).contains(p) implies exists|i: int|
            0 <= i < e.len() && e[i] == p && live[i] by {
            let m = choose|m: int| 0 <= m < kept(e, live).len() && kept(e, live)[m] == p;
            if m < k0.len() {
                assert(k0[m] == p);
                assert(k0.contains(p));
                let i = choose|i: int|
                    0 <= i < e.drop_last().len() && e.drop_last()[i] == p && live.drop_last()[i];
                assert(e[i] == p && live[i]);
            } else {
                assert(e[e.len() - 1] == p && live[e.len() - 1]);
            }
        }
    }
}

} // verus!
