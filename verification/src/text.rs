//! Character sequences: whitespace, trimming, words, lines and searching.
//!
//! The configuration grammar is stated over `Seq<char>`; the executable
//! functions here work on `Vec<char>` and are proved against those statements.

use vstd::prelude::*;

verus! {

/// Whether `c` is white space: the code points with the Unicode property
/// `White_Space`.
pub open spec fn is_space(c: char) -> bool {
    let u = c as u32;
    ||| 0x09 <= u <= 0x0D
    ||| u == 0x20
    ||| u == 0x85
    ||| u == 0xA0
    ||| u == 0x1680
    ||| 0x2000 <= u <= 0x200A
    ||| u == 0x2028
    ||| u == 0x2029
    ||| u == 0x202F
    ||| u == 0x205F
    ||| u == 0x3000
}

/// Tests `is_space`.
pub fn char_is_space(c: char) -> (b: bool)
    ensures
        b == is_space(c),
{
    let u: u32 = c as u32;
    (0x09 <= u && u <= 0x0D) || u == 0x20 || u == 0x85 || u == 0xA0 || u == 0x1680 || (0x2000 <= u
        && u <= 0x200A) || u == 0x2028 || u == 0x2029 || u == 0x202F || u == 0x205F || u == 0x3000
}

/// The number of characters at the start of `s` that are white space
/// (`spaces`) or are not (`!spaces`).
pub open spec fn run_len(s: Seq<char>, spaces: bool) -> nat
    decreases s.len(),
{
    if s.len() > 0 && is_space(s[0]) == spaces {
        1 + run_len(s.drop_first(), spaces)
    } else {
        0
    }
}

/// The number of white-space characters at the end of `s`.
pub open spec fn trailing_spaces(s: Seq<char>) -> nat
    decreases s.len(),
{
    if s.len() > 0 && is_space(s.last()) {
        1 + trailing_spaces(s.drop_last())
    } else {
        0
    }
}

/// `s` without the white space at its start.
pub open spec fn trim_start(s: Seq<char>) -> Seq<char> {
    s.skip(run_len(s, true) as int)
}

/// `s` without the white space at its end.
pub open spec fn trim_end(s: Seq<char>) -> Seq<char> {
    s.take(s.len() - trailing_spaces(s))
}

/// `s` without the white space at both ends.
pub open spec fn trimmed(s: Seq<char>) -> Seq<char> {
    trim_end(trim_start(s))
}

/// The maximal runs of characters of `s` that hold no white space, in order.
pub open spec fn words(s: Seq<char>) -> Seq<Seq<char>>
    decreases s.len(),
{
    let t = trim_start(s);
    let w = run_len(t, false);
    if t.len() == 0 || w == 0 {
        Seq::empty()
    } else {
        proof {
            lemma_run_len(s, true);
            lemma_run_len(t, false);
        }
        seq![t.take(w as int)] + words(t.skip(w as int))
    }
}

/// The index of the first `c` in `s`, or the length of `s` where it holds none.
pub open spec fn first_index(s: Seq<char>, c: char) -> nat
    decreases s.len(),
{
    if s.len() == 0 || s[0] == c {
        0
    } else {
        1 + first_index(s.drop_first(), c)
    }
}

/// Whether `p` stands in `s` at index `i`.
pub open spec fn occurs_at(s: Seq<char>, p: Seq<char>, i: int) -> bool {
    &&& 0 <= i
    &&& i + p.len() <= s.len()
    &&& s.subrange(i, i + p.len()) == p
}

/// Whether `s` begins with `p`.
pub open spec fn starts_with(s: Seq<char>, p: Seq<char>) -> bool {
    occurs_at(s, p, 0)
}

/// Whether `p` stands somewhere in `s`.
pub open spec fn contains_seq(s: Seq<char>, p: Seq<char>) -> bool {
    exists|i: int| occurs_at(s, p, i)
}

/// `s` after every copy of `p` that it begins with has been taken away.
pub open spec fn strip_prefixes(s: Seq<char>, p: Seq<char>) -> Seq<char>
    decreases s.len(),
{
    if p.len() > 0 && starts_with(s, p) {
        strip_prefixes(s.skip(p.len() as int), p)
    } else {
        s
    }
}

/// The lines of `source`: its pieces between line feeds. A line feed at the
/// very end closes the last line and opens no further one, and an empty
/// source is one empty line.
pub open spec fn split_lines(source: Seq<char>) -> Seq<Seq<char>>
    decreases source.len(),
{
    let k = first_index(source, '\n');
    if k >= source.len() {
        seq![source]
    } else if k + 1 == source.len() {
        seq![source.take(k as int)]
    } else {
        seq![source.take(k as int)] + split_lines(source.skip((k + 1) as int))
    }
}

/// The pieces of `s` between its occurrences of `c`.
pub open spec fn split_char(s: Seq<char>, c: char) -> Seq<Seq<char>>
    decreases s.len(),
{
    let k = first_index(s, c);
    if k >= s.len() {
        seq![s]
    } else {
        seq![s.take(k as int)] + split_char(s.skip((k + 1) as int), c)
    }
}

/// The least index at which `p` stands in `s`, or the length of `s` where it
/// stands nowhere.
pub open spec fn first_occurrence(s: Seq<char>, p: Seq<char>) -> nat
    decreases s.len(),
{
    if s.len() == 0 || starts_with(s, p) {
        0
    } else {
        1 + first_occurrence(s.drop_first(), p)
    }
}

/// How often `p` stands in `s`, counted from the left without overlap.
pub open spec fn count_occurrences(s: Seq<char>, p: Seq<char>) -> nat
    decreases s.len(),
{
    let k = first_occurrence(s, p);
    if p.len() == 0 || k >= s.len() || k + p.len() > s.len() {
        0
    } else {
        1 + count_occurrences(s.skip((k + p.len()) as int), p)
    }
}

/// The views of the vectors of `v`, one for one.
pub open spec fn views(v: Seq<Vec<char>>) -> Seq<Seq<char>> {
    Seq::new(v.len(), |i: int| v[i]@)
}

/// A run ends within the sequence, holds characters of its kind only, and
/// ends before a character of the other kind.
pub proof fn lemma_run_len(s: Seq<char>, spaces: bool)
    ensures
        run_len(s, spaces) <= s.len(),
        forall|i: int| 0 <= i < run_len(s, spaces) ==> is_space(#[trigger] s[i]) == spaces,
        run_len(s, spaces) < s.len() ==> is_space(s[run_len(s, spaces) as int]) != spaces,
    decreases s.len(),
{
    if s.len() > 0 && is_space(s[0]) == spaces {
        let t = s.drop_first();
        lemma_run_len(t, spaces);
        assert forall|i: int| 0 <= i < run_len(s, spaces) implies is_space(#[trigger] s[i])
            == spaces by {
            if i > 0 {
                assert(s[i] == t[i - 1]);
            }
        }
        if run_len(s, spaces) < s.len() {
            assert(s[run_len(s, spaces) as int] == t[run_len(t, spaces) as int]);
        }
    }
}

/// The run at the start is `k` long where the first `k` characters are of
/// its kind and the next is not.
pub proof fn lemma_run_len_is(s: Seq<char>, spaces: bool, k: int)
    requires
        0 <= k <= s.len(),
        forall|i: int| 0 <= i < k ==> is_space(#[trigger] s[i]) == spaces,
        k < s.len() ==> is_space(s[k]) != spaces,
    ensures
        run_len(s, spaces) == k,
    decreases s.len(),
{
    if k > 0 {
        let t = s.drop_first();
        assert(is_space(s[0]) == spaces);
        assert forall|i: int| 0 <= i < k - 1 implies is_space(#[trigger] t[i]) == spaces by {
            assert(t[i] == s[i + 1]);
        }
        lemma_run_len_is(t, spaces, k - 1);
    }
}

/// There are `k` white-space characters at the end where the last `k`
/// characters are white space and the one before them is not.
pub proof fn lemma_trailing_spaces_is(s: Seq<char>, k: int)
    requires
        0 <= k <= s.len(),
        forall|i: int| s.len() - k <= i < s.len() ==> is_space(#[trigger] s[i]),
        k < s.len() ==> !is_space(s[s.len() - k - 1]),
    ensures
        trailing_spaces(s) == k,
    decreases s.len(),
{
    if k > 0 {
        let t = s.drop_last();
        assert(is_space(s[s.len() - 1]));
        assert forall|i: int| t.len() - (k - 1) <= i < t.len() implies is_space(#[trigger] t[i]) by {
            assert(t[i] == s[i]);
        }
        lemma_trailing_spaces_is(t, k - 1);
    }
}

/// No `c` stands before the first index of `c`, and `c` stands at it unless
/// it is the length.
pub proof fn lemma_first_index(s: Seq<char>, c: char)
    ensures
        first_index(s, c) <= s.len(),
        forall|i: int| 0 <= i < first_index(s, c) ==> #[trigger] s[i] != c,
        first_index(s, c) < s.len() ==> s[first_index(s, c) as int] == c,
    decreases s.len(),
{
    if !(s.len() == 0 || s[0] == c) {
        let t = s.drop_first();
        lemma_first_index(t, c);
        assert forall|i: int| 0 <= i < first_index(s, c) implies #[trigger] s[i] != c by {
            if i > 0 {
                assert(s[i] == t[i - 1]);
            }
        }
        if first_index(s, c) < s.len() {
            assert(s[first_index(s, c) as int] == t[first_index(t, c) as int]);
        }
    }
}

/// The first index of `c` is `k` where no `c` stands before `k` and `c`
/// stands at `k`, or `k` is the length.
pub proof fn lemma_first_index_is(s: Seq<char>, c: char, k: int)
    requires
        0 <= k <= s.len(),
        forall|i: int| 0 <= i < k ==> #[trigger] s[i] != c,
        k < s.len() ==> s[k] == c,
    ensures
        first_index(s, c) == k,
    decreases s.len(),
{
    if k > 0 {
        let t = s.drop_first();
        assert(s[0] != c);
        assert forall|i: int| 0 <= i < k - 1 implies #[trigger] t[i] != c by {
            assert(t[i] == s[i + 1]);
        }
        lemma_first_index_is(t, c, k - 1);
    }
}

/// `p` stands nowhere before its first occurrence and stands at it unless it
/// is the length; `p` stands somewhere exactly if it is not the length.
pub proof fn lemma_first_occurrence(s: Seq<char>, p: Seq<char>)
    requires
        p.len() > 0,
    ensures
        first_occurrence(s, p) <= s.len(),
        forall|i: int| 0 <= i < first_occurrence(s, p) ==> !occurs_at(s, p, i),
        first_occurrence(s, p) < s.len() ==> occurs_at(s, p, first_occurrence(s, p) as int),
        contains_seq(s, p) <==> first_occurrence(s, p) < s.len(),
    decreases s.len(),
{
    if !(s.len() == 0 || starts_with(s, p)) {
        let t = s.drop_first();
        lemma_first_occurrence(t, p);
        let k = first_occurrence(t, p) as int;
        assert forall|i: int| 0 <= i < k + 1 implies !occurs_at(s, p, i) by {
            if i > 0 && i + p.len() <= s.len() {
                assert(t.subrange(i - 1, i - 1 + p.len()) == s.subrange(i, i + p.len()));
                assert(!occurs_at(t, p, i - 1));
            }
        }
        if k < t.len() {
            assert(t.subrange(k, k + p.len()) == s.subrange(k + 1, k + 1 + p.len()));
        }
    }
    let f = first_occurrence(s, p) as int;
    if contains_seq(s, p) {
        let i = choose|i: int| occurs_at(s, p, i);
        if i < f {
            assert(!occurs_at(s, p, i));
        }
        assert(i + p.len() <= s.len());
    }
    if f < s.len() {
        assert(occurs_at(s, p, f));
    }
}

/// The first occurrence of `p` is `k` where `p` stands nowhere before `k`
/// and stands at `k`, or `k` is the length.
pub proof fn lemma_first_occurrence_is(s: Seq<char>, p: Seq<char>, k: int)
    requires
        p.len() > 0,
        0 <= k <= s.len(),
        forall|i: int| 0 <= i < k ==> !occurs_at(s, p, i),
        k < s.len() ==> occurs_at(s, p, k),
    ensures
        first_occurrence(s, p) == k,
{
    lemma_first_occurrence(s, p);
    let f = first_occurrence(s, p) as int;
    if f < k {
        assert(occurs_at(s, p, f));
    }
    if k < f {
        assert(!occurs_at(s, p, k));
    }
}

/// The characters of `v` from `from` up to `to`.
pub fn subvec(v: &Vec<char>, from: usize, to: usize) -> (r: Vec<char>)
    requires
        from <= to <= v.len(),
    ensures
        r@ == v@.subrange(from as int, to as int),
{
    let mut r: Vec<char> = Vec::new();
    let mut i: usize = from;
    while i < to
        invariant
            from <= i <= to <= v.len(),
            r@ == v@.subrange(from as int, i as int),
        decreases to - i,
    {
        r.push(v[i]);
        i += 1;
    }
    r
}

/// The characters of a string, as a vector.
pub fn chars_of(s: &str) -> (v: Vec<char>)
    ensures
        v@ == s@,
{
    let mut v: Vec<char> = Vec::new();
    for c in it: s.chars()
        invariant
            v@ == it.seq().take(it.index() as int),
            it.seq() == s@,
    {
        v.push(c);
    }
    v
}

/// Calls `String::push`, which appends one character to the string.
#[verifier::external_body]
fn push_char(s: &mut String, c: char)
    ensures
        final(s)@ == old(s)@.push(c),
{
    s.push(c)
}

/// The string of the characters of `v`.
pub fn string_of(v: &Vec<char>) -> (s: String)
    ensures
        s@ == v@,
{
    let mut s = String::new();
    let mut i: usize = 0;
    while i < v.len()
        invariant
            i <= v.len(),
            s@ == v@.take(i as int),
        decreases v.len() - i,
    {
        push_char(&mut s, v[i]);
        assert(v@.take(i + 1) == v@.take(i as int).push(v@[i as int]));
        i += 1;
    }
    assert(v@.take(v.len() as int) == v@);
    s
}

/// Whether two character vectors hold the same characters.
pub fn same_chars(a: &Vec<char>, b: &Vec<char>) -> (r: bool)
    ensures
        r == (a@ == b@),
{
    if a.len() != b.len() {
        return false;
    }
    let mut i: usize = 0;
    while i < a.len()
        invariant
            i <= a.len(),
            a.len() == b.len(),
            a@.take(i as int) == b@.take(i as int),
        decreases a.len() - i,
    {
        if a[i] != b[i] {
            return false;
        }
        assert(a@.take(i + 1) == a@.take(i as int).push(a@[i as int]));
        assert(b@.take(i + 1) == b@.take(i as int).push(b@[i as int]));
        i += 1;
    }
    assert(a@ == a@.take(a.len() as int));
    assert(b@ == b@.take(b.len() as int));
    true
}

/// The length of the run of white space (`spaces`) or of other characters
/// (`!spaces`) that starts at `from`.
pub fn run_from(v: &Vec<char>, from: usize, spaces: bool) -> (k: usize)
    requires
        from <= v.len(),
    ensures
        k == run_len(v@.skip(from as int), spaces),
        from + k <= v.len(),
{
    let mut i: usize = from;
    while i < v.len() && char_is_space(v[i]) == spaces
        invariant
            from <= i <= v.len(),
            forall|j: int| from <= j < i ==> is_space(#[trigger] v@[j]) == spaces,
        decreases v.len() - i,
    {
        i += 1;
    }
    proof {
        let s = v@.skip(from as int);
        assert forall|j: int| 0 <= j < i - from implies is_space(#[trigger] s[j]) == spaces by {
            assert(s[j] == v@[from + j]);
        }
        lemma_run_len_is(s, spaces, i - from);
    }
    i - from
}

/// `v` without the white space at both ends.
pub fn trim(v: &Vec<char>) -> (r: Vec<char>)
    ensures
        r@ == trimmed(v@),
{
    let lead = run_from(v, 0, true);
    assert(v@.skip(0) == v@);
    let mut end: usize = v.len();
    while end > lead && char_is_space(v[end - 1])
        invariant
            lead <= end <= v.len(),
            forall|j: int| end <= j < v.len() ==> is_space(#[trigger] v@[j]),
        decreases end,
    {
        end -= 1;
    }
    proof {
        let s = trim_start(v@);
        assert(s == v@.skip(lead as int));
        assert forall|j: int| s.len() - (v.len() - end) <= j < s.len() implies is_space(
            #[trigger] s[j],
        ) by {
            assert(s[j] == v@[lead + j]);
        }
        if v.len() - end < s.len() {
            assert(s[s.len() - (v.len() - end) - 1] == v@[end - 1]);
        }
        lemma_trailing_spaces_is(s, v.len() - end);
        assert(trim_end(s) == v@.subrange(lead as int, end as int));
    }
    subvec(v, lead, end)
}

/// The words of `v`: its maximal runs without white space.
pub fn split_words(v: &Vec<char>) -> (r: Vec<Vec<char>>)
    ensures
        views(r@) == words(v@),
{
    let mut r: Vec<Vec<char>> = Vec::new();
    let mut pos: usize = 0;
    assert(v@.skip(0) == v@);
    assert(views(r@) == Seq::<Seq<char>>::empty());
    loop
        invariant
            pos <= v.len(),
            words(v@) == views(r@) + words(v@.skip(pos as int)),
        decreases v.len() - pos,
    {
        let lead = run_from(v, pos, true);
        let start = pos + lead;
        let w = run_from(v, start, false);
        proof {
            let s = v@.skip(pos as int);
            assert(trim_start(s) == v@.skip(start as int));
        }
        if w == 0 {
            assert(words(v@.skip(pos as int)) == Seq::<Seq<char>>::empty());
            assert(views(r@) + Seq::<Seq<char>>::empty() == views(r@));
            return r;
        }
        let word = subvec(v, start, start + w);
        proof {
            let t = v@.skip(start as int);
            assert(t.take(w as int) == word@);
            assert(t.skip(w as int) == v@.skip(start + w));
            assert(views(r@.push(word)) == views(r@) + seq![word@]);
            assert(words(v@.skip(pos as int)) == seq![word@] + words(v@.skip(start + w)));
        }
        r.push(word);
        pos = start + w;
    }
}

/// The index of the first `c` at or after `from`, or the length of `v`.
pub fn find_char(v: &Vec<char>, from: usize, c: char) -> (k: usize)
    requires
        from <= v.len(),
    ensures
        from <= k <= v.len(),
        k - from == first_index(v@.skip(from as int), c),
{
    let mut i: usize = from;
    while i < v.len() && v[i] != c
        invariant
            from <= i <= v.len(),
            forall|j: int| from <= j < i ==> #[trigger] v@[j] != c,
        decreases v.len() - i,
    {
        i += 1;
    }
    proof {
        let s = v@.skip(from as int);
        assert forall|j: int| 0 <= j < i - from implies #[trigger] s[j] != c by {
            assert(s[j] == v@[from + j]);
        }
        lemma_first_index_is(s, c, i - from);
    }
    i
}

/// Whether `p` stands in `v` at index `at`.
pub fn matches_at(v: &Vec<char>, p: &Vec<char>, at: usize) -> (r: bool)
    ensures
        r == occurs_at(v@, p@, at as int),
{
    if p.len() > v.len() || at > v.len() - p.len() {
        return false;
    }
    let mut i: usize = 0;
    while i < p.len()
        invariant
            i <= p.len(),
            at + p.len() <= v.len(),
            forall|j: int| 0 <= j < i ==> v@[at + j] == #[trigger] p@[j],
        decreases p.len() - i,
    {
        if v[at + i] != p[i] {
            proof {
                let sub = v@.subrange(at as int, at + p.len());
                assert(sub[i as int] == v@[at + i]);
            }
            return false;
        }
        i += 1;
    }
    assert(v@.subrange(at as int, at + p.len()) =~= p@);
    true
}

/// Whether `p` stands somewhere in `v`.
pub fn contains(v: &Vec<char>, p: &Vec<char>) -> (r: bool)
    ensures
        r == contains_seq(v@, p@),
{
    if p.len() > v.len() {
        return false;
    }
    let last: usize = v.len() - p.len();
    let mut i: usize = 0;
    loop
        invariant
            i <= last,
            last == v.len() - p.len(),
            forall|j: int| 0 <= j < i ==> !occurs_at(v@, p@, j),
        decreases last - i,
    {
        if matches_at(v, p, i) {
            return true;
        }
        if i == last {
            return false;
        }
        i += 1;
    }
}

/// `v` after every copy of `p` that it begins with has been taken away.
pub fn strip_all(v: &Vec<char>, p: &Vec<char>) -> (r: Vec<char>)
    ensures
        r@ == strip_prefixes(v@, p@),
{
    let mut pos: usize = 0;
    assert(v@.skip(0) == v@);
    if p.len() == 0 {
        return subvec(v, 0, v.len());
    }
    while matches_at(v, p, pos)
        invariant
            pos <= v.len(),
            p.len() > 0,
            strip_prefixes(v@, p@) == strip_prefixes(v@.skip(pos as int), p@),
        decreases v.len() - pos,
    {
        proof {
            let s = v@.skip(pos as int);
            assert(s.subrange(0, p.len() as int) == v@.subrange(pos as int, pos + p.len()));
            assert(starts_with(s, p@));
            assert(s.skip(p.len() as int) == v@.skip(pos + p.len()));
        }
        pos += p.len();
    }
    proof {
        let s = v@.skip(pos as int);
        if pos + p.len() <= v.len() {
            assert(s.subrange(0, p.len() as int) == v@.subrange(pos as int, pos + p.len()));
        }
        assert(!starts_with(s, p@));
        assert(s == v@.subrange(pos as int, v.len() as int));
    }
    subvec(v, pos, v.len())
}

/// The least index at or after `from` at which `p` stands in `v`, or the
/// length of `v`.
pub fn find_seq(v: &Vec<char>, p: &Vec<char>, from: usize) -> (k: usize)
    requires
        from <= v.len(),
        p.len() > 0,
    ensures
        from <= k <= v.len(),
        k - from == first_occurrence(v@.skip(from as int), p@),
        k < v.len() ==> k + p.len() <= v.len(),
        k < v.len() <==> contains_seq(v@.skip(from as int), p@),
{
    let ghost s = v@.skip(from as int);
    let mut i: usize = from;
    while i < v.len() && !matches_at(v, p, i)
        invariant
            from <= i <= v.len(),
            s == v@.skip(from as int),
            forall|j: int| from <= j < i ==> !occurs_at(v@, p@, j),
        decreases v.len() - i,
    {
        i += 1;
    }
    proof {
        assert forall|j: int| 0 <= j < i - from implies !occurs_at(s, p@, j) by {
            if j + p.len() <= s.len() {
                assert(s.subrange(j, j + p.len()) == v@.subrange(from + j, from + j + p.len()));
                assert(!occurs_at(v@, p@, from + j));
            }
        }
        if i < v.len() {
            assert(s.subrange(i - from, i - from + p.len()) == v@.subrange(
                i as int,
                i + p.len(),
            ));
        }
        lemma_first_occurrence_is(s, p@, i - from);
        lemma_first_occurrence(s, p@);
    }
    i
}

/// How often `p` stands in `v`, counted from the left without overlap.
pub fn count_seq(v: &Vec<char>, p: &Vec<char>) -> (n: usize)
    requires
        p.len() > 0,
    ensures
        n == count_occurrences(v@, p@),
        n <= v.len(),
{
    let mut n: usize = 0;
    let mut pos: usize = 0;
    assert(v@.skip(0) == v@);
    loop
        invariant
            pos <= v.len(),
            p.len() > 0,
            n <= pos,
            count_occurrences(v@, p@) == n + count_occurrences(v@.skip(pos as int), p@),
        decreases v.len() - pos,
    {
        let k = find_seq(v, p, pos);
        if k >= v.len() {
            return n;
        }
        proof {
            let s = v@.skip(pos as int);
            assert(s.skip(k - pos + p.len()) == v@.skip(k + p.len()));
        }
        n += 1;
        pos = k + p.len();
    }
}

/// The lines of `v`.
pub fn lines_of(v: &Vec<char>) -> (r: Vec<Vec<char>>)
    ensures
        views(r@) == split_lines(v@),
        r.len() >= 1,
        forall|j: int| 1 <= j < r.len() ==> (#[trigger] r@[j]).len() < v.len(),
{
    let mut r: Vec<Vec<char>> = Vec::new();
    let mut pos: usize = 0;
    assert(v@.skip(0) == v@);
    assert(views(r@) == Seq::<Seq<char>>::empty());
    loop
        invariant
            pos <= v.len(),
            r.len() > 0 ==> pos > 0,
            forall|j: int| 1 <= j < r.len() ==> (#[trigger] r@[j]).len() < v.len(),
            split_lines(v@) == views(r@) + split_lines(v@.skip(pos as int)),
        decreases v.len() - pos,
    {
        let k = find_char(v, pos, '\n');
        let line = subvec(v, pos, k);
        proof {
            let s = v@.skip(pos as int);
            assert(s.take(k - pos) == line@);
            assert(views(r@.push(line)) == views(r@) + seq![line@]);
            if k < v.len() {
                assert(s.skip(k - pos + 1) == v@.skip(k + 1));
            } else {
                assert(s.take(k - pos) == s);
            }
        }
        r.push(line);
        if k >= v.len() || k + 1 == v.len() {
            return r;
        }
        pos = k + 1;
    }
}

/// The pieces of `v` between its occurrences of `c`.
pub fn split_on(v: &Vec<char>, c: char) -> (r: Vec<Vec<char>>)
    ensures
        views(r@) == split_char(v@, c),
        r.len() >= 1,
{
    let mut r: Vec<Vec<char>> = Vec::new();
    let mut pos: usize = 0;
    assert(v@.skip(0) == v@);
    assert(views(r@) == Seq::<Seq<char>>::empty());
    loop
        invariant
            pos <= v.len(),
            split_char(v@, c) == views(r@) + split_char(v@.skip(pos as int), c),
        decreases v.len() - pos,
    {
        let k = find_char(v, pos, c);
        let piece = subvec(v, pos, k);
        proof {
            let s = v@.skip(pos as int);
            assert(s.take(k - pos) == piece@);
            assert(views(r@.push(piece)) == views(r@) + seq![piece@]);
            if k < v.len() {
                assert(s.skip(k - pos + 1) == v@.skip(k + 1));
            } else {
                assert(s.take(k - pos) == s);
            }
        }
        r.push(piece);
        if k >= v.len() {
            return r;
        }
        pos = k + 1;
    }
}

} // verus!
