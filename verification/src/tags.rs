//! The tag list behind the search box's ghost-text completion: every tag in
//! use, the most used first, ties in alphabetical (code point) order.
use vstd::prelude::*;

use crate::text::{chars_eq, chars_of, string_of, views};

verus! {

// ---------------------------------------------------------------------------
// The order
// ---------------------------------------------------------------------------
/// `a` sorts before `b` as `str`'s `Ord` has it: by code point, a proper
/// prefix first. (UTF-8 keeps code point order, so this is byte order too.)
pub open spec fn lex_less(a: Seq<char>, b: Seq<char>) -> bool
    decreases a.len(),
{
    if a.len() == 0 {
        b.len() > 0
    } else if b.len() == 0 {
        false
    } else if (a[0] as u32) < (b[0] as u32) {
        true
    } else if a[0] == b[0] {
        lex_less(a.drop_first(), b.drop_first())
    } else {
        false
    }
}

/// How often `t` occurs in one note's tag list.
pub open spec fn count_in(tags: Seq<Seq<char>>, t: Seq<char>) -> nat
    decreases tags.len(),
{
    if tags.len() == 0 {
        0
    } else {
        count_in(tags.drop_last(), t) + if tags.last() == t {
            1nat
        } else {
            0nat
        }
    }
}

/// How many times `t` is used over all notes.
pub open spec fn uses(notes: Seq<Seq<Seq<char>>>, t: Seq<char>) -> nat
    decreases notes.len(),
{
    if notes.len() == 0 {
        0
    } else {
        uses(notes.drop_last(), t) + count_in(notes.last(), t)
    }
}

/// How many tags all notes carry together.
pub open spec fn total_tags(notes: Seq<Seq<Seq<char>>>) -> nat
    decreases notes.len(),
{
    if notes.len() == 0 {
        0
    } else {
        total_tags(notes.drop_last()) + notes.last().len()
    }
}

/// The completion order: more uses first, then by name.
pub open spec fn ranks_before(notes: Seq<Seq<Seq<char>>>, a: Seq<char>, b: Seq<char>) -> bool {
    uses(notes, a) > uses(notes, b) || (uses(notes, a) == uses(notes, b) && lex_less(a, b))
}

/// The tag lists of the notes, as strings.
pub open spec fn tag_lists(notes: Seq<Vec<String>>) -> Seq<Seq<Seq<char>>> {
    notes.map_values(|n: Vec<String>| n@.map_values(|s: String| s@))
}

/// The views of a list of strings.
pub open spec fn string_views(v: Seq<String>) -> Seq<Seq<char>> {
    v.map_values(|s: String| s@)
}

// ---------------------------------------------------------------------------
// Facts about the order
// ---------------------------------------------------------------------------
proof fn lemma_lex_irreflexive(a: Seq<char>)
    ensures
        !lex_less(a, a),
    decreases a.len(),
{
    if a.len() > 0 {
        lemma_lex_irreflexive(a.drop_first());
    }
}

proof fn lemma_lex_transitive(a: Seq<char>, b: Seq<char>, c: Seq<char>)
    requires
        lex_less(a, b),
        lex_less(b, c),
    ensures
        lex_less(a, c),
    decreases a.len(),
{
    if a.len() > 0 && b.len() > 0 && c.len() > 0 && a[0] == b[0] && b[0] == c[0] {
        lemma_lex_transitive(a.drop_first(), b.drop_first(), c.drop_first());
    }
}

proof fn lemma_lex_total(a: Seq<char>, b: Seq<char>)
    requires
        a != b,
    ensures
        lex_less(a, b) || lex_less(b, a),
    decreases a.len(),
{
    if a.len() > 0 && b.len() > 0 {
        if a[0] == b[0] {
            if a.drop_first() == b.drop_first() {
                assert(a =~= seq![a[0]] + a.drop_first());
                assert(b =~= seq![b[0]] + b.drop_first());
            }
            lemma_lex_total(a.drop_first(), b.drop_first());
        } else {
            vstd::utf8::char_u32_cast(a[0], a[0] as u32);
            vstd::utf8::char_u32_cast(b[0], b[0] as u32);
        }
    } else if a.len() == 0 && b.len() == 0 {
        assert(a =~= b);
    }
}

/// The completion order is a strict total order on distinct names.
pub proof fn lemma_ranks_before_order(notes: Seq<Seq<Seq<char>>>)
    ensures
        forall|a: Seq<char>| !#[trigger] ranks_before(notes, a, a),
        forall|a: Seq<char>, b: Seq<char>|
            a != b ==> #[trigger] ranks_before(notes, a, b) || #[trigger] ranks_before(notes, b, a),
        forall|a: Seq<char>, b: Seq<char>, c: Seq<char>|
            #[trigger] ranks_before(notes, a, b) && #[trigger] ranks_before(notes, b, c) ==> ranks_before(
                notes,
                a,
                c,
            ),
{
    assert forall|a: Seq<char>| !#[trigger] ranks_before(notes, a, a) by {
        lemma_lex_irreflexive(a);
    }
    assert forall|a: Seq<char>, b: Seq<char>|
        a != b implies #[trigger] ranks_before(notes, a, b) || #[trigger] ranks_before(notes, b, a) by {
        lemma_lex_total(a, b);
    }
    assert forall|a: Seq<char>, b: Seq<char>, c: Seq<char>|
        #[trigger] ranks_before(notes, a, b) && #[trigger] ranks_before(notes, b, c) implies ranks_before(
            notes,
            a,
            c,
        ) by {
        if lex_less(a, b) && lex_less(b, c) {
            lemma_lex_transitive(a, b, c);
        }
    }
}

// ---------------------------------------------------------------------------
// Facts about counting
// ---------------------------------------------------------------------------
proof fn lemma_count_in_step(l: Seq<Seq<char>>, j: int)
    requires
        0 <= j < l.len(),
    ensures
        forall|t: Seq<char>|
            #[trigger] count_in(l.take(j + 1), t) == count_in(l.take(j), t) + if l[j] == t {
                1nat
            } else {
                0nat
            },
{
    assert(l.take(j + 1).drop_last() =~= l.take(j));
}

proof fn lemma_count_in_bound(l: Seq<Seq<char>>, t: Seq<char>)
    ensures
        count_in(l, t) <= l.len(),
    decreases l.len(),
{
    if l.len() > 0 {
        lemma_count_in_bound(l.drop_last(), t);
    }
}

proof fn lemma_uses_step(notes: Seq<Seq<Seq<char>>>, i: int)
    requires
        0 <= i < notes.len(),
    ensures
        forall|t: Seq<char>|
            #[trigger] uses(notes.take(i + 1), t) == uses(notes.take(i), t) + count_in(notes[i], t),
        total_tags(notes.take(i + 1)) == total_tags(notes.take(i)) + notes[i].len(),
{
    assert(notes.take(i + 1).drop_last() =~= notes.take(i));
}

proof fn lemma_uses_bound(notes: Seq<Seq<Seq<char>>>, t: Seq<char>)
    ensures
        uses(notes, t) <= total_tags(notes),
    decreases notes.len(),
{
    if notes.len() > 0 {
        lemma_uses_bound(notes.drop_last(), t);
        lemma_count_in_bound(notes.last(), t);
    }
}

proof fn lemma_total_prefix(notes: Seq<Seq<Seq<char>>>, a: int)
    requires
        0 <= a <= notes.len(),
    ensures
        total_tags(notes.take(a)) <= total_tags(notes),
    decreases notes.len(),
{
    if a == notes.len() {
        assert(notes.take(a) =~= notes);
    } else {
        lemma_total_prefix(notes.drop_last(), a);
        assert(notes.drop_last().take(a) =~= notes.take(a));
    }
}

// ---------------------------------------------------------------------------
// Executable
// ---------------------------------------------------------------------------
fn lex_less_exec(a: &Vec<char>, b: &Vec<char>) -> (r: bool)
    ensures
        r == lex_less(a@, b@),
{
    let mut i: usize = 0;
    assert(a@.skip(0) =~= a@);
    assert(b@.skip(0) =~= b@);
    while i < a.len() && i < b.len()
        invariant
            i <= a.len(),
            i <= b.len(),
            lex_less(a@, b@) == lex_less(a@.skip(i as int), b@.skip(i as int)),
        decreases a.len() - i,
    {
        assert(a@.skip(i as int)[0] == a@[i as int]);
        assert(b@.skip(i as int)[0] == b@[i as int]);
        if (a[i] as u32) < (b[i] as u32) {
            return true;
        }
        if a[i] != b[i] {
            return false;
        }
        assert(a@.skip(i as int).drop_first() =~= a@.skip(i + 1));
        assert(b@.skip(i as int).drop_first() =~= b@.skip(i + 1));
        i += 1;
    }
    i == a.len() && i < b.len()
}

fn ranks_before_exec(a: &Vec<char>, a_uses: usize, b: &Vec<char>, b_uses: usize) -> (r: bool)
    ensures
        r == (a_uses > b_uses || (a_uses == b_uses && lex_less(a@, b@))),
{
    a_uses > b_uses || (a_uses == b_uses && lex_less_exec(a, b))
}

/// Every tag in use, for completion: the most used first, ties by name.
/// Each tag appears once.
pub fn all_tags(notes: &Vec<Vec<String>>) -> (r: Vec<String>)
    requires
        total_tags(tag_lists(notes@)) <= usize::MAX,
    ensures
        string_views(r@).no_duplicates(),
        forall|t: Seq<char>|
            #[trigger] string_views(r@).contains(t) <==> uses(tag_lists(notes@), t) > 0,
        forall|i: int, j: int|
            0 <= i < j < r.len() ==> ranks_before(
                tag_lists(notes@),
                #[trigger] r@[i]@,
                #[trigger] r@[j]@,
            ),
{
    let ghost l = tag_lists(notes@);
    // Count the uses of each name.
    let mut names: Vec<Vec<char>> = Vec::new();
    let mut nums: Vec<usize> = Vec::new();
    let mut i: usize = 0;
    while i < notes.len()
        invariant
            l == tag_lists(notes@),
            total_tags(l) <= usize::MAX,
            0 <= i <= notes.len(),
            names.len() == nums.len(),
            views(names@).no_duplicates(),
            forall|k: int|
                0 <= k < names.len() ==> #[trigger] nums@[k] == uses(l.take(i as int), names@[k]@)
                    && nums@[k] > 0,
            forall|t: Seq<char>|
                #[trigger] uses(l.take(i as int), t) > 0 ==> views(names@).contains(t),
        decreases notes.len() - i,
    {
        let tags = &notes[i];
        let ghost li = l[i as int];
        assert(li == tags@.map_values(|s: String| s@));
        proof {
            lemma_total_prefix(l, i + 1);
            lemma_uses_step(l, i as int);
        }
        let mut j: usize = 0;
        while j < tags.len()
            invariant
                l == tag_lists(notes@),
                li == l[i as int],
                li == tags@.map_values(|s: String| s@),
                0 <= i < notes.len(),
                total_tags(l.take(i as int)) + li.len() <= usize::MAX,
                0 <= j <= tags.len(),
                names.len() == nums.len(),
                views(names@).no_duplicates(),
                forall|k: int|
                    0 <= k < names.len() ==> #[trigger] nums@[k] == uses(
                        l.take(i as int),
                        names@[k]@,
                    ) + count_in(li.take(j as int), names@[k]@) && nums@[k] > 0,
                forall|t: Seq<char>|
                    uses(l.take(i as int), t) + #[trigger] count_in(li.take(j as int), t) > 0
                        ==> views(names@).contains(t),
            decreases tags.len() - j,
        {
            let tv = chars_of(tags[j].as_str());
            assert(tv@ == li[j as int]);
            proof {
                lemma_count_in_step(li, j as int);
            }
            let mut k: usize = 0;
            while k < names.len() && !chars_eq(&names[k], &tv)
                invariant
                    0 <= k <= names.len(),
                    forall|m: int| 0 <= m < k ==> names@[m]@ != tv@,
                decreases names.len() - k,
            {
                k += 1;
            }
            let found = k < names.len();
            let ghost old_names = names@;
            let ghost old_nums = nums@;
            if found {
                proof {
                    lemma_uses_bound(l.take(i as int), tv@);
                    lemma_count_in_bound(li.take(j as int), tv@);
                }
                let n = nums[k] + 1;
                nums.set(k, n);
                assert forall|m: int| 0 <= m < names.len() implies #[trigger] nums@[m] == uses(
                    l.take(i as int),
                    names@[m]@,
                ) + count_in(li.take(j + 1), names@[m]@) && nums@[m] > 0 by {
                    if m != k {
                        assert(names@[m]@ != names@[k as int]@) by {
                            assert(views(names@)[m] != views(names@)[k as int]);
                        }
                    }
                }
            } else {
                assert(!views(names@).contains(tv@)) by {
                    if views(names@).contains(tv@) {
                        let m = choose|m: int| 0 <= m < names.len() && views(names@)[m] == tv@;
                        assert(names@[m]@ == tv@);
                    }
                }
                names.push(tv);
                nums.push(1);
                assert(views(names@) =~= views(old_names).push(li[j as int]));
                assert forall|m: int| 0 <= m < names.len() implies #[trigger] nums@[m] == uses(
                    l.take(i as int),
                    names@[m]@,
                ) + count_in(li.take(j + 1), names@[m]@) && nums@[m] > 0 by {
                    if m < old_names.len() {
                        assert(views(old_names)[m] != li[j as int]);
                    }
                }
                assert forall|a: int, b: int|
                    0 <= a < views(names@).len() && 0 <= b < views(names@).len() && a != b implies views(
                    names@,
                )[a] != views(names@)[b] by {
                    if a < old_names.len() && b < old_names.len() {
                        assert(views(old_names)[a] != views(old_names)[b]);
                    }
                }
            }
            assert forall|t: Seq<char>|
                uses(l.take(i as int), t) + #[trigger] count_in(li.take(j + 1), t) > 0 implies views(
                names@,
            ).contains(t) by {
                if t == tv@ {
                    if found {
                        assert(views(names@)[k as int] == t);
                    } else {
                        assert(views(names@)[names.len() - 1] == t);
                    }
                } else {
                    assert(count_in(li.take(j + 1), t) == count_in(li.take(j as int), t));
                    assert(views(old_names).contains(t));
                    let m = choose|m: int| 0 <= m < old_names.len() && views(old_names)[m] == t;
                    assert(views(names@)[m] == t);
                }
            }
            j += 1;
        }
        assert(li.take(j as int) =~= li);
        i += 1;
    }
    assert(l.take(notes.len() as int) =~= l);
    proof {
        lemma_ranks_before_order(l);
    }
    // Insertion-sort the names into the completion order.
    let mut out: Vec<Vec<char>> = Vec::new();
    let mut out_nums: Vec<usize> = Vec::new();
    let mut k: usize = 0;
    while k < names.len()
        invariant
            names.len() == nums.len(),
            views(names@).no_duplicates(),
            forall|m: int|
                0 <= m < names.len() ==> #[trigger] nums@[m] == uses(l, names@[m]@) && nums@[m] > 0,
            forall|a: Seq<char>| !#[trigger] ranks_before(l, a, a),
            forall|a: Seq<char>, b: Seq<char>|
                a != b ==> #[trigger] ranks_before(l, a, b) || #[trigger] ranks_before(l, b, a),
            forall|a: Seq<char>, b: Seq<char>, c: Seq<char>|
                #[trigger] ranks_before(l, a, b) && #[trigger] ranks_before(l, b, c)
                    ==> ranks_before(l, a, c),
            0 <= k <= names.len(),
            out.len() == k,
            out_nums.len() == k,
            forall|m: int| 0 <= m < k ==> #[trigger] out_nums@[m] == uses(l, out@[m]@),
            forall|t: Seq<char>|
                #[trigger] views(out@).contains(t) <==> views(names@.take(k as int)).contains(t),
            forall|a: int, b: int|
                0 <= a < b < k ==> ranks_before(l, #[trigger] out@[a]@, #[trigger] out@[b]@),
        decreases names.len() - k,
    {
        let x = names[k].clone();
        assert(x@ == names@[k as int]@);
        let xn = nums[k];
        let mut p: usize = 0;
        while p < out.len() && !ranks_before_exec(&x, xn, &out[p], out_nums[p])
            invariant
                0 <= p <= out.len(),
                out.len() == out_nums.len(),
                forall|m: int| 0 <= m < out.len() ==> #[trigger] out_nums@[m] == uses(l, out@[m]@),
                xn == uses(l, x@),
                forall|m: int| 0 <= m < p ==> !ranks_before(l, x@, #[trigger] out@[m]@),
            decreases out.len() - p,
        {
            p += 1;
        }
        // `x` is new: the names are distinct.
        assert(!views(out@).contains(x@)) by {
            if views(out@).contains(x@) {
                assert(views(names@.take(k as int)).contains(x@));
                let m = choose|m: int| 0 <= m < k && views(names@.take(k as int))[m] == x@;
                assert(views(names@)[m] == views(names@)[k as int]);
            }
        }
        let ghost old_out = out@;
        let ghost old_nums = out_nums@;
        out.insert(p, x);
        out_nums.insert(p, xn);
        assert(views(out@) =~= views(old_out).insert(p as int, x@));
        assert forall|m: int| 0 <= m < out.len() implies #[trigger] out_nums@[m] == uses(
            l,
            out@[m]@,
        ) by {
            if m < p {
                assert(out@[m] == old_out[m]);
            } else if m > p {
                assert(out@[m] == old_out[m - 1]);
            }
        }
        assert forall|a: int, b: int| 0 <= a < b < out.len() implies ranks_before(
            l,
            #[trigger] out@[a]@,
            #[trigger] out@[b]@,
        ) by {
            if b < p {
                assert(ranks_before(l, old_out[a]@, old_out[b]@));
            } else if a < p && b == p {
                assert(views(old_out)[a] != x@);
                assert(!ranks_before(l, x@, old_out[a]@));
                assert(ranks_before(l, old_out[a]@, x@) || ranks_before(l, x@, old_out[a]@));
            } else if a < p && b > p {
                assert(ranks_before(l, old_out[a]@, old_out[b - 1]@));
            } else if a == p {
                assert(ranks_before(l, x@, old_out[p as int]@));
                if b - 1 > p {
                    assert(ranks_before(l, old_out[p as int]@, old_out[b - 1]@));
                }
            } else {
                assert(ranks_before(l, old_out[a - 1]@, old_out[b - 1]@));
            }
        }
        let ghost before = views(names@.take(k as int));
        let ghost after = views(names@.take(k + 1));
        assert(after =~= before.push(x@));
        assert forall|t: Seq<char>| #[trigger] views(out@).contains(t) implies after.contains(t) by {
            let m = choose|m: int| 0 <= m < out.len() && #[trigger] views(out@)[m] == t;
            if m == p {
                assert(after[k as int] == t);
            } else {
                let mo = if m < p {
                    m
                } else {
                    m - 1
                };
                assert(views(old_out)[mo] == t);
                assert(views(old_out).contains(t));
                assert(before.contains(t));
                let n = choose|n: int| 0 <= n < before.len() && #[trigger] before[n] == t;
                assert(after[n] == t);
            }
        }
        assert forall|t: Seq<char>| #[trigger] after.contains(t) implies views(out@).contains(t) by {
            let m = choose|m: int| 0 <= m < after.len() && #[trigger] after[m] == t;
            if m == k {
                assert(views(out@)[p as int] == t);
            } else {
                assert(before[m] == t);
                assert(before.contains(t));
                assert(views(old_out).contains(t));
                let q = choose|q: int| 0 <= q < old_out.len() && #[trigger] views(old_out)[q] == t;
                if q < p {
                    assert(views(out@)[q] == t);
                } else {
                    assert(views(out@)[q + 1] == t);
                }
            }
        }
        k += 1;
    }
    assert(names@.take(k as int) =~= names@);
    // Hand the names out as strings.
    let mut r: Vec<String> = Vec::new();
    let mut q: usize = 0;
    while q < out.len()
        invariant
            0 <= q <= out.len(),
            r.len() == q,
            forall|m: int| 0 <= m < q ==> #[trigger] r@[m]@ == out@[m]@,
        decreases out.len() - q,
    {
        r.push(string_of(&out[q]));
        q += 1;
    }
    assert(string_views(r@) =~= views(out@));
    assert forall|a: int, b: int|
        0 <= a < string_views(r@).len() && 0 <= b < string_views(r@).len() && a != b implies string_views(
        r@,
    )[a] != string_views(r@)[b] by {
        if a < b {
            assert(ranks_before(l, out@[a]@, out@[b]@));
        } else {
            assert(ranks_before(l, out@[b]@, out@[a]@));
        }
    }
    assert forall|t: Seq<char>| #[trigger]
        string_views(r@).contains(t) <==> uses(l, t) > 0 by {
        if string_views(r@).contains(t) {
            let m = choose|m: int| 0 <= m < r.len() && string_views(r@)[m] == t;
            assert(views(out@)[m] == t);
            assert(views(names@).contains(t));
            let n = choose|n: int| 0 <= n < names.len() && views(names@)[n] == t;
            assert(nums@[n] == uses(l, names@[n]@));
        }
    }
    r
}

} // verus!
