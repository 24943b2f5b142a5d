//! Character-level text handling shared by the rest of the library: the
//! handful of `str` operations the logic relies on (`trim`, `lines`,
//! `contains`, `starts_with`, `join`), each stated as a spec function over
//! `Seq<char>` and implemented over `Vec<char>`.
use vstd::prelude::*;

verus! {

// ---------------------------------------------------------------------------
// Specifications
// ---------------------------------------------------------------------------
/// Unicode `White_Space`, the property `char::is_whitespace` tests.
pub open spec fn is_ws(c: char) -> bool {
    let u = c as u32;
    ||| 0x9 <= u <= 0xD
    ||| u == 0x20
    ||| u == 0x85
    ||| u == 0xA0
    ||| u == 0x1680
    ||| 0x2000 <= u <= 0x200A
    ||| u == 0x2028
    ||| u == 0x2029
    ||| u == 0x202F
    ||| u == 0x205F
    ||| u == 0x3000
}

/// `str::trim_start`: leading white space removed.
pub open spec fn trim_start(s: Seq<char>) -> Seq<char>
    decreases s.len(),
{
    if s.len() > 0 && is_ws(s[0]) {
        trim_start(s.drop_first())
    } else {
        s
    }
}

/// `str::trim_end`: trailing white space removed.
pub open spec fn trim_end(s: Seq<char>) -> Seq<char>
    decreases s.len(),
{
    if s.len() > 0 && is_ws(s.last()) {
        trim_end(s.drop_last())
    } else {
        s
    }
}

/// `str::trim`.
pub open spec fn trim(s: Seq<char>) -> Seq<char> {
    trim_end(trim_start(s))
}

/// `s` begins with `p`.
pub open spec fn starts_with(s: Seq<char>, p: Seq<char>) -> bool {
    p.len() <= s.len() && s.take(p.len() as int) == p
}

/// `s` ends with `p`.
pub open spec fn ends_with(s: Seq<char>, p: Seq<char>) -> bool {
    p.len() <= s.len() && s.skip(s.len() - p.len()) == p
}

/// `p` occurs in `s` at position `i`.
pub open spec fn occurs_at(s: Seq<char>, p: Seq<char>, i: int) -> bool {
    0 <= i && i + p.len() <= s.len() && s.subrange(i, i + p.len()) == p
}

/// `str::contains` with a string pattern.
#[verifier::opaque]
pub open spec fn contains(s: Seq<char>, p: Seq<char>) -> bool {
    exists|i: int| #[trigger] occurs_at(s, p, i)
}

/// Position of the first `c` in `s`, or `s.len()` when there is none.
pub open spec fn index_of(s: Seq<char>, c: char) -> int
    decreases s.len(),
{
    if s.len() == 0 {
        0
    } else if s[0] == c {
        0
    } else {
        1 + index_of(s.drop_first(), c)
    }
}

/// A line ending `\r\n` loses its `\r` as well.
pub open spec fn strip_cr(l: Seq<char>) -> Seq<char> {
    if l.len() > 0 && l.last() == '\r' {
        l.drop_last()
    } else {
        l
    }
}

/// `str::lines`: split at `\n`, a `\r` just before it dropped, no empty
/// line after a final `\n`.
pub open spec fn lines(s: Seq<char>) -> Seq<Seq<char>>
    decreases s.len(),
{
    if s.len() == 0 {
        Seq::empty()
    } else {
        let k = index_of(s, '\n');
        if k >= s.len() {
            seq![s]
        } else {
            proof {
                lemma_index_of(s, '\n');
            }
            seq![strip_cr(s.take(k))] + lines(s.skip(k + 1))
        }
    }
}

/// `[T]::join`: the pieces with `sep` between each two.
pub open spec fn join(ls: Seq<Seq<char>>, sep: Seq<char>) -> Seq<char>
    decreases ls.len(),
{
    if ls.len() == 0 {
        Seq::empty()
    } else if ls.len() == 1 {
        ls[0]
    } else {
        join(ls.drop_last(), sep) + sep + ls.last()
    }
}

/// The views of a sequence of character vectors.
pub open spec fn views(v: Seq<Vec<char>>) -> Seq<Seq<char>> {
    v.map_values(|l: Vec<char>| l@)
}

/// `s` holds no `c`.
pub open spec fn lacks(s: Seq<char>, c: char) -> bool {
    forall|i: int| 0 <= i < s.len() ==> s[i] != c
}

// ---------------------------------------------------------------------------
// Lemmas
// ---------------------------------------------------------------------------
pub proof fn lemma_index_of(s: Seq<char>, c: char)
    ensures
        0 <= index_of(s, c) <= s.len(),
        index_of(s, c) < s.len() ==> s[index_of(s, c)] == c,
        forall|j: int| 0 <= j < index_of(s, c) ==> s[j] != c,
    decreases s.len(),
{
    if s.len() > 0 && s[0] != c {
        lemma_index_of(s.drop_first(), c);
        assert forall|j: int| 0 <= j < index_of(s, c) implies s[j] != c by {
            if j > 0 {
                assert(s[j] == s.drop_first()[j - 1]);
            }
        }
    }
}

/// The first `c` is where the scan stops.
pub proof fn lemma_index_of_is(s: Seq<char>, c: char, k: int)
    requires
        0 <= k <= s.len(),
        k < s.len() ==> s[k] == c,
        forall|j: int| 0 <= j < k ==> s[j] != c,
    ensures
        index_of(s, c) == k,
    decreases s.len(),
{
    if s.len() > 0 && k > 0 {
        assert(s[0] != c);
        lemma_index_of_is(s.drop_first(), c, k - 1);
    }
}

pub proof fn lemma_index_of_append(a: Seq<char>, b: Seq<char>, c: char)
    requires
        index_of(a, c) < a.len(),
    ensures
        index_of(a + b, c) == index_of(a, c),
{
    lemma_index_of(a, c);
    let k = index_of(a, c);
    assert forall|j: int| 0 <= j < k implies (a + b)[j] != c by {}
    lemma_index_of_is(a + b, c, k);
}

pub proof fn lemma_lacks_index_of(s: Seq<char>, c: char)
    requires
        lacks(s, c),
    ensures
        index_of(s, c) == s.len(),
{
    lemma_index_of_is(s, c, s.len() as int);
}

/// A line of `lines(s)` never holds a `\n`.
pub proof fn lemma_lines_lack_newline(s: Seq<char>)
    ensures
        forall|i: int| 0 <= i < lines(s).len() ==> lacks(#[trigger] lines(s)[i], '\n'),
    decreases s.len(),
{
    if s.len() > 0 {
        lemma_index_of(s, '\n');
        let k = index_of(s, '\n');
        if k < s.len() {
            lemma_lines_lack_newline(s.skip(k + 1));
            let first = strip_cr(s.take(k));
            assert(lacks(first, '\n'));
            assert forall|i: int| 0 <= i < lines(s).len() implies lacks(
                #[trigger] lines(s)[i],
                '\n',
            ) by {
                if i > 0 {
                    assert(lines(s)[i] == lines(s.skip(k + 1))[i - 1]);
                }
            }
        }
    }
}

/// Splitting after a complete line is the same as splitting the parts.
pub proof fn lemma_lines_append(a: Seq<char>, b: Seq<char>)
    requires
        a.len() == 0 || a.last() == '\n',
    ensures
        lines(a + b) == lines(a) + lines(b),
    decreases a.len(),
{
    if a.len() == 0 {
        assert(a + b =~= b);
        assert(lines(a) + lines(b) =~= lines(b));
    } else {
        lemma_index_of(a, '\n');
        if index_of(a, '\n') >= a.len() {
            assert(a[a.len() - 1] == '\n');
            assert(false);
        }
        let k = index_of(a, '\n');
        lemma_index_of_append(a, b, '\n');
        assert((a + b).take(k) =~= a.take(k));
        assert((a + b).skip(k + 1) =~= a.skip(k + 1) + b);
        let rest = a.skip(k + 1);
        if rest.len() > 0 {
            assert(rest.last() == a.last());
        }
        lemma_lines_append(rest, b);
        assert(lines(a + b) =~= seq![strip_cr(a.take(k))] + (lines(rest) + lines(b)));
        assert(lines(a) + lines(b) =~= seq![strip_cr(a.take(k))] + lines(rest) + lines(b));
    }
}

/// One line, without or with its `\n`.
pub proof fn lemma_lines_one(l: Seq<char>)
    requires
        lacks(l, '\n'),
    ensures
        l.len() > 0 ==> lines(l) == seq![l],
        lines(l.push('\n')) == seq![strip_cr(l)],
{
    lemma_lacks_index_of(l, '\n');
    let s = l.push('\n');
    assert forall|j: int| 0 <= j < l.len() implies s[j] != '\n' by {}
    lemma_index_of_is(s, '\n', l.len() as int);
    assert(s.take(l.len() as int) =~= l);
    assert(s.skip((l.len() + 1) as int) =~= Seq::<char>::empty());
    assert(lines(s) =~= seq![strip_cr(l)] + lines(Seq::<char>::empty()));
}

/// Joining with a leading piece.
pub proof fn lemma_join_cons(a: Seq<char>, ls: Seq<Seq<char>>, sep: Seq<char>)
    requires
        ls.len() > 0,
    ensures
        join(seq![a] + ls, sep) == a + sep + join(ls, sep),
    decreases ls.len(),
{
    let all = seq![a] + ls;
    if ls.len() == 1 {
        assert(all.drop_last() =~= seq![a]);
        assert(all.last() == ls[0]);
        assert(join(seq![a], sep) == a);
        assert(join(ls, sep) == ls[0]);
        assert(join(all, sep) == join(all.drop_last(), sep) + sep + all.last());
    } else {
        assert(all.drop_last() =~= seq![a] + ls.drop_last());
        lemma_join_cons(a, ls.drop_last(), sep);
        assert(all.last() == ls.last());
        assert(join(all, sep) =~= a + sep + join(ls.drop_last(), sep) + sep + ls.last());
    }
}

/// `lines` undoes `join` with `\n` when no piece holds a `\n`.
pub proof fn lemma_lines_join(ls: Seq<Seq<char>>)
    requires
        ls.len() > 0,
        forall|i: int| 0 <= i < ls.len() ==> lacks(#[trigger] ls[i], '\n'),
    ensures
        lines(join(ls, seq!['\n']).push('\n')) == ls.map_values(|l: Seq<char>| strip_cr(l)),
    decreases ls.len(),
{
    if ls.len() == 1 {
        lemma_lines_one(ls[0]);
        assert(ls.map_values(|l: Seq<char>| strip_cr(l)) =~= seq![strip_cr(ls[0])]);
    } else {
        let init = ls.drop_last();
        assert forall|i: int| 0 <= i < init.len() implies lacks(#[trigger] init[i], '\n') by {
            assert(init[i] == ls[i]);
        }
        lemma_lines_join(init);
        let a = join(init, seq!['\n']).push('\n');
        let last = ls.last();
        assert(lacks(last, '\n'));
        assert(join(ls, seq!['\n']).push('\n') =~= a + last.push('\n'));
        lemma_lines_append(a, last.push('\n'));
        lemma_lines_one(last);
        assert(ls.map_values(|l: Seq<char>| strip_cr(l)) =~= init.map_values(
            |l: Seq<char>| strip_cr(l),
        ) + seq![strip_cr(last)]);
    }
}

/// `s` holds no `\r` directly before a `\n`.
pub open spec fn no_crlf(s: Seq<char>) -> bool {
    forall|i: int| 0 <= i && i + 1 < s.len() ==> !(#[trigger] s[i] == '\r' && s[i + 1] == '\n')
}

/// A text of whole lines with no `\r\n` is its lines joined back with `\n`.
pub proof fn lemma_join_lines(s: Seq<char>)
    requires
        s.len() > 0,
        s.last() == '\n',
        no_crlf(s),
    ensures
        lines(s).len() > 0,
        join(lines(s), seq!['\n']).push('\n') == s,
    decreases s.len(),
{
    lemma_index_of(s, '\n');
    let k = index_of(s, '\n');
    if k >= s.len() {
        assert(s[s.len() - 1] == '\n');
        assert(false);
    }
    let seg = s.take(k);
    if k > 0 {
        assert(s[k - 1] != '\r');
    }
    assert(strip_cr(seg) == seg);
    let rest = s.skip(k + 1);
    if rest.len() == 0 {
        assert(lines(rest) =~= Seq::<Seq<char>>::empty());
        assert(lines(s) =~= seq![seg]);
        assert(seg.push('\n') =~= s);
    } else {
        assert(rest.last() == s.last());
        assert forall|i: int| 0 <= i && i + 1 < rest.len() implies !(#[trigger] rest[i] == '\r'
            && rest[i + 1] == '\n') by {
            assert(rest[i] == s[i + k + 1]);
            assert(rest[i + 1] == s[i + k + 2]);
        }
        lemma_join_lines(rest);
        assert(lines(s) =~= seq![seg] + lines(rest));
        lemma_join_cons(seg, lines(rest), seq!['\n']);
        assert(s =~= seg + seq!['\n'] + rest);
    }
}

/// `str::replace`: every occurrence of `pat`, scanning left to right without
/// overlap, replaced by `rep`. (The pattern is never empty here.)
pub open spec fn replace(s: Seq<char>, pat: Seq<char>, rep: Seq<char>) -> Seq<char>
    decreases s.len(),
{
    if pat.len() == 0 || s.len() == 0 {
        s
    } else if starts_with(s, pat) {
        rep + replace(s.skip(pat.len() as int), pat, rep)
    } else {
        seq![s[0]] + replace(s.drop_first(), pat, rep)
    }
}

// ---------------------------------------------------------------------------
// Executable helpers
// ---------------------------------------------------------------------------
/// The characters of `s`, in order.
pub fn chars_of(s: &str) -> (v: Vec<char>)
    ensures
        v@ == s@,
{
    let mut v: Vec<char> = Vec::new();
    for c in it: s.chars()
        invariant
            v@ == it.seq().take(it.index() as int),
    {
        v.push(c);
    }
    v
}

/// `String::push`.
#[verifier::external_body]
fn push_char(s: &mut String, c: char)
    ensures
        final(s)@ == old(s)@.push(c),
{
    s.push(c);
}

/// A string holding exactly the characters of `v`.
pub fn string_of(v: &Vec<char>) -> (s: String)
    ensures
        s@ == v@,
{
    let mut s = String::new();
    let mut i: usize = 0;
    while i < v.len()
        invariant
            i <= v.len(),
            s@ == v@.take(i as int),
        decreases v.len() - i,
    {
        push_char(&mut s, v[i]);
        i += 1;
        assert(v@.take(i as int) =~= v@.take((i - 1) as int).push(v@[i - 1]));
    }
    assert(v@.take(v.len() as int) =~= v@);
    s
}

/// `char::is_whitespace`.
pub fn is_whitespace(c: char) -> (b: bool)
    ensures
        b == is_ws(c),
{
    let u = c as u32;
    (0x9 <= u && u <= 0xD) || u == 0x20 || u == 0x85 || u == 0xA0 || u == 0x1680 || (0x2000 <= u
        && u <= 0x200A) || u == 0x2028 || u == 0x2029 || u == 0x202F || u == 0x205F || u == 0x3000
}

/// The characters of `v` from `lo` up to `hi`.
pub fn slice_of(v: &Vec<char>, lo: usize, hi: usize) -> (r: Vec<char>)
    requires
        lo <= hi <= v.len(),
    ensures
        r@ == v@.subrange(lo as int, hi as int),
{
    let mut r: Vec<char> = Vec::new();
    let mut i = lo;
    while i < hi
        invariant
            lo <= i <= hi,
            hi <= v.len(),
            r@ == v@.subrange(lo as int, i as int),
        decreases hi - i,
    {
        r.push(v[i]);
        i += 1;
        assert(r@ =~= v@.subrange(lo as int, i as int));
    }
    r
}

/// Appends `b` to `a`.
pub fn append_chars(a: &mut Vec<char>, b: &Vec<char>)
    ensures
        final(a)@ == old(a)@ + b@,
{
    let mut i: usize = 0;
    while i < b.len()
        invariant
            i <= b.len(),
            a@ == old(a)@ + b@.take(i as int),
        decreases b.len() - i,
    {
        a.push(b[i]);
        i += 1;
        assert(b@.take(i as int) =~= b@.take((i - 1) as int).push(b@[i - 1]));
    }
    assert(b@.take(b.len() as int) =~= b@);
}

pub proof fn lemma_trim_start_skip(s: Seq<char>, i: int)
    requires
        0 <= i <= s.len(),
        forall|j: int| 0 <= j < i ==> is_ws(s[j]),
    ensures
        trim_start(s) == trim_start(s.skip(i)),
    decreases i,
{
    if i > 0 {
        assert(s.skip(1) == s.drop_first());
        lemma_trim_start_skip(s.drop_first(), i - 1);
        assert(s.drop_first().skip(i - 1) =~= s.skip(i));
    } else {
        assert(s.skip(0) =~= s);
    }
}

pub proof fn lemma_trim_end_take(s: Seq<char>, i: int)
    requires
        0 <= i <= s.len(),
        forall|j: int| i <= j < s.len() ==> is_ws(s[j]),
    ensures
        trim_end(s) == trim_end(s.take(i)),
    decreases s.len() - i,
{
    if i < s.len() {
        assert(is_ws(s.last()));
        lemma_trim_end_take(s.drop_last(), i);
        assert(s.drop_last().take(i) =~= s.take(i));
    } else {
        assert(s.take(i) =~= s);
    }
}

/// `str::trim_start`.
pub fn trim_start_chars(v: &Vec<char>) -> (r: Vec<char>)
    ensures
        r@ == trim_start(v@),
{
    let mut i: usize = 0;
    while i < v.len() && is_whitespace(v[i])
        invariant
            i <= v.len(),
            forall|j: int| 0 <= j < i ==> is_ws(v@[j]),
        decreases v.len() - i,
    {
        i += 1;
    }
    proof {
        lemma_trim_start_skip(v@, i as int);
        let rest = v@.skip(i as int);
        if rest.len() > 0 {
            assert(rest[0] == v@[i as int]);
        }
        assert(trim_start(rest) == rest);
    }
    let r = slice_of(v, i, v.len());
    assert(r@ =~= v@.skip(i as int));
    r
}

/// `str::trim_end`.
pub fn trim_end_chars(v: &Vec<char>) -> (r: Vec<char>)
    ensures
        r@ == trim_end(v@),
{
    let mut i: usize = v.len();
    while i > 0 && is_whitespace(v[i - 1])
        invariant
            i <= v.len(),
            forall|j: int| i <= j < v.len() ==> is_ws(v@[j]),
        decreases i,
    {
        i -= 1;
    }
    proof {
        lemma_trim_end_take(v@, i as int);
        let init = v@.take(i as int);
        if init.len() > 0 {
            assert(init.last() == v@[i - 1]);
        }
        assert(trim_end(init) == init);
    }
    let r = slice_of(v, 0, i);
    assert(r@ =~= v@.take(i as int));
    r
}

/// `str::trim`.
pub fn trim_chars(v: &Vec<char>) -> (r: Vec<char>)
    ensures
        r@ == trim(v@),
{
    let a = trim_start_chars(v);
    trim_end_chars(&a)
}

/// Whether `p` occurs in `v` at `i`.
pub fn occurs_at_chars(v: &Vec<char>, p: &Vec<char>, i: usize) -> (b: bool)
    ensures
        b == occurs_at(v@, p@, i as int),
{
    if i > v.len() || p.len() > v.len() - i {
        return false;
    }
    let mut j: usize = 0;
    while j < p.len()
        invariant
            j <= p.len(),
            i + p.len() <= v.len(),
            forall|k: int| 0 <= k < j ==> v@[i + k] == p@[k],
        decreases p.len() - j,
    {
        if v[i + j] != p[j] {
            assert(v@.subrange(i as int, i + p.len())[j as int] != p@[j as int]);
            return false;
        }
        j += 1;
    }
    assert(v@.subrange(i as int, i + p.len()) =~= p@);
    true
}

/// `str::starts_with`.
pub fn starts_with_chars(v: &Vec<char>, p: &Vec<char>) -> (b: bool)
    ensures
        b == starts_with(v@, p@),
{
    let b = occurs_at_chars(v, p, 0);
    proof {
        if p@.len() <= v@.len() {
            assert(v@.subrange(0, p@.len() as int) =~= v@.take(p@.len() as int));
        }
    }
    b
}

/// `str::ends_with`.
pub fn ends_with_chars(v: &Vec<char>, p: &Vec<char>) -> (b: bool)
    ensures
        b == ends_with(v@, p@),
{
    if p.len() > v.len() {
        return false;
    }
    let b = occurs_at_chars(v, p, v.len() - p.len());
    assert(v@.subrange(v.len() - p.len(), v.len() - p.len() + p.len()) =~= v@.skip(
        v.len() - p.len(),
    ));
    b
}

/// `str::contains`.
pub fn contains_chars(v: &Vec<char>, p: &Vec<char>) -> (b: bool)
    ensures
        b == contains(v@, p@),
{
    reveal(contains);
    if p.len() > v.len() {
        return false;
    }
    let last = v.len() - p.len();
    let mut i: usize = 0;
    while i < last
        invariant
            p.len() <= v.len(),
            last == v.len() - p.len(),
            i <= last,
            forall|k: int| 0 <= k < i ==> !occurs_at(v@, p@, k),
        decreases last - i,
    {
        if occurs_at_chars(v, p, i) {
            proof {
                reveal(contains);
                assert(occurs_at(v@, p@, i as int));
            }
            return true;
        }
        i += 1;
    }
    if occurs_at_chars(v, p, last) {
        assert(occurs_at(v@, p@, last as int));
        return true;
    }
    assert forall|k: int| !occurs_at(v@, p@, k) by {
        if 0 <= k && k < i {
        }
    }
    false
}

/// Whether two character vectors are equal.
pub fn chars_eq(a: &Vec<char>, b: &Vec<char>) -> (r: bool)
    ensures
        r == (a@ == b@),
{
    if a.len() != b.len() {
        return false;
    }
    let r = occurs_at_chars(a, b, 0);
    proof {
        if r {
            assert(a@.subrange(0, b@.len() as int) =~= a@);
        } else {
            if a@ == b@ {
                assert(a@.subrange(0, b@.len() as int) =~= b@);
            }
        }
    }
    r
}

/// `str::lines`.
pub fn lines_of(v: &Vec<char>) -> (r: Vec<Vec<char>>)
    ensures
        views(r@) == lines(v@),
{
    let mut r: Vec<Vec<char>> = Vec::new();
    let mut start: usize = 0;
    assert(v@.skip(0) =~= v@);
    while start < v.len()
        invariant
            start <= v.len(),
            lines(v@) == views(r@) + lines(v@.skip(start as int)),
        decreases v.len() - start,
    {
        let mut k = start;
        while k < v.len() && v[k] != '\n'
            invariant
                start <= k <= v.len(),
                forall|j: int| start <= j < k ==> v@[j] != '\n',
            decreases v.len() - k,
        {
            k += 1;
        }
        let ghost s = v@.skip(start as int);
        let mut line = slice_of(v, start, k);
        proof {
            assert forall|j: int| 0 <= j < k - start implies s[j] != '\n' by {
                assert(s[j] == v@[start + j]);
            }
            lemma_index_of_is(s, '\n', k - start);
            assert(line@ =~= s.take(k - start));
        }
        let old_r = Ghost(views(r@));
        if k < v.len() {
            let n = line.len();
            if n > 0 && line[n - 1] == '\r' {
                line.pop();
                assert(line@ =~= strip_cr(s.take(k - start)));
            }
            proof {
                assert(s.skip(k - start + 1) =~= v@.skip(k + 1));
            }
            start = k + 1;
        } else {
            assert(line@ =~= s);
            start = k;
            assert(v@.skip(start as int) =~= Seq::<char>::empty());
        }
        r.push(line);
        assert(views(r@) =~= old_r@.push(r@.last()@));
    }
    assert(lines(v@.skip(start as int)) =~= Seq::<Seq<char>>::empty());
    assert(views(r@) + Seq::<Seq<char>>::empty() =~= views(r@));
    r
}

/// `[T]::join`.
pub fn join_chars(ls: &Vec<Vec<char>>, sep: &Vec<char>) -> (r: Vec<char>)
    ensures
        r@ == join(views(ls@), sep@),
{
    let mut r: Vec<char> = Vec::new();
    let mut i: usize = 0;
    while i < ls.len()
        invariant
            i <= ls.len(),
            r@ == join(views(ls@).take(i as int), sep@),
        decreases ls.len() - i,
    {
        let ghost before = views(ls@).take(i as int);
        if i > 0 {
            append_chars(&mut r, sep);
        }
        append_chars(&mut r, &ls[i]);
        i += 1;
        proof {
            let now = views(ls@).take(i as int);
            assert(now.drop_last() =~= before);
            assert(now.last() == ls@[i - 1]@);
            if i == 1 {
                assert(before =~= Seq::<Seq<char>>::empty());
            }
        }
    }
    assert(views(ls@).take(ls.len() as int) =~= views(ls@));
    r
}

/// `str::replace` with a non-empty pattern.
pub fn replace_chars(v: &Vec<char>, pat: &Vec<char>, rep: &Vec<char>) -> (r: Vec<char>)
    requires
        pat.len() > 0,
    ensures
        r@ == replace(v@, pat@, rep@),
{
    let mut out: Vec<char> = Vec::new();
    let mut i: usize = 0;
    assert(v@.skip(0) =~= v@);
    while i < v.len()
        invariant
            i <= v.len(),
            pat.len() > 0,
            replace(v@, pat@, rep@) == out@ + replace(v@.skip(i as int), pat@, rep@),
        decreases v.len() - i,
    {
        let ghost s = v@.skip(i as int);
        let hit = occurs_at_chars(v, pat, i);
        proof {
            if hit {
                assert(s.take(pat@.len() as int) =~= v@.subrange(i as int, i + pat@.len()));
            } else if pat@.len() <= s.len() {
                assert(s.take(pat@.len() as int) =~= v@.subrange(i as int, i + pat@.len()));
            }
        }
        if hit {
            let ghost before = out@;
            append_chars(&mut out, rep);
            assert(s.skip(pat@.len() as int) =~= v@.skip(i + pat@.len()));
            i = i + pat.len();
            assert(replace(v@, pat@, rep@) =~= out@ + replace(v@.skip(i as int), pat@, rep@));
        } else {
            let ghost before = out@;
            out.push(v[i]);
            assert(s[0] == v@[i as int]);
            assert(s.drop_first() =~= v@.skip(i + 1));
            i = i + 1;
            assert(replace(v@, pat@, rep@) =~= out@ + replace(v@.skip(i as int), pat@, rep@));
        }
    }
    assert(v@.skip(i as int) =~= Seq::<char>::empty());
    assert(out@ + Seq::<char>::empty() =~= out@);
    out
}

/// The decimal digits of `n`.
pub open spec fn decimal(n: nat) -> Seq<char>
    decreases n,
{
    if n < 10 {
        seq![((n + 0x30) as u8) as char]
    } else {
        decimal(n / 10).push((((n % 10) + 0x30) as u8) as char)
    }
}

/// `n` written in decimal, as `format!("{n}")` writes it.
pub fn decimal_of(n: u64) -> (v: Vec<char>)
    ensures
        v@ == decimal(n as nat),
    decreases n,
{
    if n < 10 {
        let v = vec![((n as u8) + 0x30) as char];
        assert(v@ =~= decimal(n as nat));
        v
    } else {
        let mut v = decimal_of(n / 10);
        v.push((((n % 10) as u8) + 0x30) as char);
        v
    }
}

/// The first `pat` in `s` and all after it removed: what
/// `s.split(pat).next()` gives.
pub open spec fn before_first(s: Seq<char>, pat: Seq<char>) -> Seq<char>
    decreases s.len(),
{
    if s.len() == 0 || starts_with(s, pat) {
        Seq::empty()
    } else {
        seq![s[0]] + before_first(s.drop_first(), pat)
    }
}

/// `s.split(pat).next()` for a non-empty `pat`.
pub fn before_first_chars(v: &Vec<char>, pat: &Vec<char>) -> (r: Vec<char>)
    requires
        pat.len() > 0,
    ensures
        r@ == before_first(v@, pat@),
{
    let mut i: usize = 0;
    assert(v@.skip(0) =~= v@);
    while i < v.len()
        invariant
            i <= v.len(),
            before_first(v@, pat@) == v@.take(i as int) + before_first(v@.skip(i as int), pat@),
        decreases v.len() - i,
    {
        let ghost s = v@.skip(i as int);
        let hit = occurs_at_chars(v, pat, i);
        proof {
            if pat@.len() <= s.len() {
                assert(s.take(pat@.len() as int) =~= v@.subrange(i as int, i + pat@.len()));
            }
        }
        if hit {
            assert(before_first(s, pat@) =~= Seq::<char>::empty());
            let r = slice_of(v, 0, i);
            assert(r@ =~= v@.take(i as int));
            assert(before_first(v@, pat@) =~= r@);
            return r;
        }
        assert(s.drop_first() =~= v@.skip(i + 1));
        assert(v@.take(i + 1) =~= v@.take(i as int).push(v@[i as int]));
        i += 1;
        assert(before_first(v@, pat@) =~= v@.take(i as int) + before_first(v@.skip(i as int), pat@));
    }
    assert(v@.take(i as int) =~= v@);
    assert(before_first(v@.skip(i as int), pat@) =~= Seq::<char>::empty());
    slice_of(v, 0, v.len())
}

} // verus!
