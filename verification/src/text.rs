//! Text as sequences of characters: splitting, trimming, searching and
//! reading or writing numbers.
//!
//! Executable functions work on `&str` and `String`; their contracts speak of
//! the views, which are sequences of `char`.

use vstd::prelude::*;
use vstd::string::*;

verus! {

/// `String::push` of the standard library: the string gains exactly the given
/// character, at its end.
pub assume_specification[ String::push ](s: &mut String, ch: char)
    ensures
        final(s)@ == old(s)@.push(ch),
;

// ---------------------------------------------------------------------------
// Building blocks
// ---------------------------------------------------------------------------

/// The views of a sequence of strings.
pub open spec fn texts(v: Seq<String>) -> Seq<Seq<char>> {
    v.map_values(|s: String| s@)
}

/// The view of an optional string.
pub open spec fn opt_text(o: Option<String>) -> Option<Seq<char>> {
    match o {
        Some(s) => Some(s@),
        None => None,
    }
}

/// The characters of `s`.
pub fn chars(s: &str) -> (v: Vec<char>)
    ensures
        v@ == s@,
{
    let mut v: Vec<char> = Vec::new();
    for c in it: s.chars()
        invariant
            v@ == it.seq().take(it.index()),
            it.seq() == s@,
    {
        v.push(c);
    }
    v
}

/// The text made of the characters `from..to` of `v`.
pub fn slice_text(v: &Vec<char>, from: usize, to: usize) -> (s: String)
    requires
        from <= to <= v@.len(),
    ensures
        s@ == v@.subrange(from as int, to as int),
{
    let mut s = String::new();
    let mut i: usize = from;
    while i < to
        invariant
            from <= i <= to <= v@.len(),
            s@ == v@.subrange(from as int, i as int),
        decreases to - i,
    {
        s.push(v[i]);
        i = i + 1;
        assert(s@ =~= v@.subrange(from as int, i as int));
    }
    s
}

/// Whether two texts are the same.
pub fn same(a: &str, b: &str) -> (r: bool)
    ensures
        r == (a@ == b@),
{
    a.to_owned() == b.to_owned()
}

/// A copy of an optional string.
pub fn copy_opt(o: &Option<String>) -> (r: Option<String>)
    ensures
        opt_text(r) == opt_text(*o),
{
    match o {
        Some(s) => Some(s.clone()),
        None => None,
    }
}

/// A copy of a list of strings.
pub fn copy_texts(v: &Vec<String>) -> (r: Vec<String>)
    ensures
        texts(r@) == texts(v@),
{
    let mut r: Vec<String> = Vec::new();
    let mut i: usize = 0;
    while i < v.len()
        invariant
            i <= v@.len(),
            texts(r@) == texts(v@).take(i as int),
        decreases v@.len() - i,
    {
        let ghost before = texts(r@);
        let s: String = v[i].clone();
        r.push(s);
        i = i + 1;
        assert(texts(r@) =~= before.push(v@[i - 1]@));
        assert(texts(r@) =~= texts(v@).take(i as int));
    }
    assert(texts(v@).take(v@.len() as int) =~= texts(v@));
    r
}

/// The concatenation of two texts.
pub fn join2(a: &str, b: &str) -> (s: String)
    ensures
        s@ == a@ + b@,
{
    let mut s = a.to_owned();
    s.append(b);
    s
}

/// The concatenation of three texts.
pub fn join3(a: &str, b: &str, c: &str) -> (s: String)
    ensures
        s@ == a@ + b@ + c@,
{
    let mut s = a.to_owned();
    s.append(b);
    s.append(c);
    s
}

/// The texts `parts` with `sep` between neighbours.
pub open spec fn joined(parts: Seq<Seq<char>>, sep: Seq<char>) -> Seq<char>
    decreases parts.len(),
{
    if parts.len() == 0 {
        Seq::empty()
    } else if parts.len() == 1 {
        parts[0]
    } else {
        joined(parts.drop_last(), sep) + sep + parts.last()
    }
}

/// Joins `parts` with `sep` between neighbours.
pub fn join(parts: &Vec<String>, sep: &str) -> (s: String)
    ensures
        s@ == joined(texts(parts@), sep@),
{
    let mut s = String::new();
    let mut i: usize = 0;
    while i < parts.len()
        invariant
            i <= parts@.len(),
            s@ == joined(texts(parts@).take(i as int), sep@),
        decreases parts@.len() - i,
    {
        if i > 0 {
            s.append(sep);
        }
        s.append(parts[i].as_str());
        i = i + 1;
        proof {
            let now = texts(parts@).take(i as int);
            assert(now.drop_last() =~= texts(parts@).take(i - 1));
            assert(now.last() == parts@[i - 1]@);
        }
    }
    assert(texts(parts@).take(parts@.len() as int) =~= texts(parts@));
    s
}

// ---------------------------------------------------------------------------
// Searching and splitting
// ---------------------------------------------------------------------------

/// The first position of `c` in `s`, or the length of `s` where there is none.
pub open spec fn find(s: Seq<char>, c: char) -> int
    decreases s.len(),
{
    if s.len() == 0 || s[0] == c {
        0
    } else {
        1 + find(s.skip(1), c)
    }
}

/// What `find` returns: everything before it differs from `c`, and it is
/// either the end or a position of `c`.
pub proof fn lemma_find(s: Seq<char>, c: char)
    ensures
        0 <= find(s, c) <= s.len(),
        forall|i: int| 0 <= i < find(s, c) ==> s[i] != c,
        find(s, c) < s.len() ==> s[find(s, c)] == c,
    decreases s.len(),
{
    if s.len() > 0 && s[0] != c {
        lemma_find(s.skip(1), c);
        assert forall|i: int| 0 <= i < find(s, c) implies s[i] != c by {
            if i > 0 {
                assert(s.skip(1)[i - 1] == s[i]);
            }
        }
    }
}

/// A position is the one `find` returns when nothing before it is `c` and it
/// is the end or holds `c`.
pub proof fn lemma_find_is(s: Seq<char>, c: char, at: int)
    requires
        0 <= at <= s.len(),
        forall|i: int| 0 <= i < at ==> s[i] != c,
        at < s.len() ==> s[at] == c,
    ensures
        find(s, c) == at,
    decreases s.len(),
{
    if s.len() > 0 && s[0] != c {
        assert(at > 0);
        assert forall|i: int| 0 <= i < at - 1 implies s.skip(1)[i] != c by {
            assert(s[i + 1] != c);
        }
        lemma_find_is(s.skip(1), c, at - 1);
    }
}

/// The first position of `c` at or after `from`, or the length of `v`.
pub fn find_from(v: &Vec<char>, from: usize, c: char) -> (at: usize)
    requires
        from <= v@.len(),
    ensures
        from <= at <= v@.len(),
        at - from == find(v@.skip(from as int), c),
{
    let mut i: usize = from;
    while i < v.len() && v[i] != c
        invariant
            from <= i <= v@.len(),
            forall|k: int| from <= k < i ==> v@[k] != c,
        decreases v@.len() - i,
    {
        i = i + 1;
    }
    proof {
        lemma_find_is(v@.skip(from as int), c, i - from);
    }
    i
}

/// `s` cut at every `sep`: one piece more than there are separators.
pub open spec fn split(s: Seq<char>, sep: char) -> Seq<Seq<char>>
    decreases s.len(),
    via split_decreases
{
    let at = find(s, sep);
    if at >= s.len() {
        seq![s]
    } else {
        seq![s.take(at)] + split(s.skip(at + 1), sep)
    }
}

#[via_fn]
proof fn split_decreases(s: Seq<char>, sep: char) {
    lemma_find(s, sep);
}

/// Cuts `s` at every `sep`, as `str::split` does for a character.
pub fn split_text(s: &str, sep: char) -> (parts: Vec<String>)
    ensures
        texts(parts@) == split(s@, sep),
{
    let v = chars(s);
    let mut parts: Vec<String> = Vec::new();
    let mut start: usize = 0;
    assert(v@.skip(0) =~= v@);
    loop
        invariant_except_break
            v@ == s@,
            start <= v@.len(),
            split(s@, sep) == texts(parts@) + split(v@.skip(start as int), sep),
        ensures
            texts(parts@) == split(s@, sep),
        decreases v@.len() - start,
    {
        let at: usize = find_from(&v, start, sep);
        let ghost before = texts(parts@);
        parts.push(slice_text(&v, start, at));
        proof {
            let rest = v@.skip(start as int);
            lemma_find(rest, sep);
            assert(rest.take(at - start) =~= v@.subrange(start as int, at as int));
            assert(texts(parts@) =~= before.push(v@.subrange(start as int, at as int)));
            if at >= v@.len() {
                assert(rest =~= v@.subrange(start as int, at as int));
                assert(texts(parts@) =~= before + seq![rest]);
            } else {
                assert(rest.skip(at - start + 1) =~= v@.skip(at + 1));
                assert(texts(parts@) + split(v@.skip(at + 1), sep) =~= before + (seq![
                    rest.take(at - start),
                ] + split(v@.skip(at + 1), sep)));
            }
        }
        if at >= v.len() {
            break;
        }
        start = at + 1;
    }
    parts
}

/// A piece of a split never holds the separator.
pub proof fn lemma_split_pieces(s: Seq<char>, sep: char)
    ensures
        split(s, sep).len() >= 1,
        forall|i: int|
            0 <= i < split(s, sep).len() ==> !(#[trigger] split(s, sep)[i]).contains(sep),
    decreases s.len(),
{
    lemma_find(s, sep);
    let at = find(s, sep);
    if at < s.len() {
        lemma_split_pieces(s.skip(at + 1), sep);
        assert forall|i: int| 0 <= i < split(s, sep).len() implies !(#[trigger] split(
            s,
            sep,
        )[i]).contains(sep) by {
            if i > 0 {
                assert(split(s, sep)[i] == split(s.skip(at + 1), sep)[i - 1]);
            }
        }
    }
}

/// What follows the first `sep` in `s`.
pub open spec fn after(s: Seq<char>, sep: char) -> Seq<char> {
    s.skip(find(s, sep) + 1)
}

/// Text with a separator is its first piece, the separator and the rest,
/// which splits into the remaining pieces; text without is one piece.
pub proof fn lemma_split_rest(s: Seq<char>, sep: char)
    ensures
        split(s, sep).len() >= 1,
        split(s, sep).len() == 1 ==> split(s, sep) == seq![s] && !s.contains(sep),
        split(s, sep).len() > 1 ==> {
            &&& s == split(s, sep)[0] + seq![sep] + after(s, sep)
            &&& split(after(s, sep), sep) == split(s, sep).skip(1)
        },
{
    lemma_find(s, sep);
    let at = find(s, sep);
    if at < s.len() {
        lemma_split_pieces(after(s, sep), sep);
        assert(s =~= s.take(at) + seq![sep] + s.skip(at + 1));
        assert(split(s, sep).skip(1) =~= split(s.skip(at + 1), sep));
    }
}

/// Splitting `head`, the separator and `tail`, where `head` holds no
/// separator, gives `head` and then the pieces of `tail`.
pub proof fn lemma_split_head(head: Seq<char>, sep: char, tail: Seq<char>)
    requires
        !head.contains(sep),
    ensures
        split(head + seq![sep] + tail, sep) == seq![head] + split(tail, sep),
{
    let s = head + seq![sep] + tail;
    assert forall|i: int| 0 <= i < head.len() implies s[i] != sep by {
        assert(head.contains(head[i]));
    }
    lemma_find_is(s, sep, head.len() as int);
    assert(s.take(head.len() as int) =~= head);
    assert(s.skip(head.len() as int + 1) =~= tail);
}

/// Text without the separator is its own only piece.
pub proof fn lemma_split_single(s: Seq<char>, sep: char)
    requires
        !s.contains(sep),
    ensures
        split(s, sep) == seq![s],
{
    assert forall|i: int| 0 <= i < s.len() implies s[i] != sep by {
        assert(s.contains(s[i]));
    }
    lemma_find_is(s, sep, s.len() as int);
}

proof fn lemma_joined_head(parts: Seq<Seq<char>>, sep: Seq<char>)
    requires
        parts.len() >= 2,
    ensures
        joined(parts, sep) == parts[0] + sep + joined(parts.skip(1), sep),
    decreases parts.len(),
{
    let init = parts.drop_last();
    let tail = parts.skip(1);
    assert(tail.last() == parts.last());
    if parts.len() == 2 {
        assert(joined(init, sep) == parts[0]);
        assert(joined(tail, sep) == parts.last());
    } else {
        lemma_joined_head(init, sep);
        assert(init.skip(1) =~= tail.drop_last());
    }
    assert(joined(parts, sep) =~= parts[0] + sep + joined(tail, sep));
}

/// Splitting undoes joining, where no piece holds the separator.
pub proof fn law_split_undoes_join(parts: Seq<Seq<char>>, sep: char)
    requires
        parts.len() >= 1,
        forall|i: int| 0 <= i < parts.len() ==> !(#[trigger] parts[i]).contains(sep),
    ensures
        split(joined(parts, seq![sep]), sep) == parts,
    decreases parts.len(),
{
    assert(!parts[0].contains(sep));
    if parts.len() == 1 {
        lemma_split_single(parts[0], sep);
        assert(parts =~= seq![parts[0]]);
    } else {
        let tail = parts.skip(1);
        assert forall|i: int| 0 <= i < tail.len() implies !(#[trigger] tail[i]).contains(sep) by {
            assert(tail[i] == parts[i + 1]);
        }
        law_split_undoes_join(tail, sep);
        lemma_joined_head(parts, seq![sep]);
        lemma_split_head(parts[0], sep, joined(tail, seq![sep]));
        assert(parts =~= seq![parts[0]] + tail);
    }
}

/// `line` without one carriage return at its end.
pub open spec fn without_cr(line: Seq<char>) -> Seq<char> {
    if line.len() > 0 && line.last() == '\r' {
        line.drop_last()
    } else {
        line
    }
}

/// The lines of `s`. A line ends with a line feed, or with a carriage return
/// and a line feed; what follows the last line feed is a line unless it is
/// empty, and keeps a carriage return at its end.
pub open spec fn lines(s: Seq<char>) -> Seq<Seq<char>>
    decreases s.len(),
    via lines_decreases
{
    let at = find(s, '\n');
    if s.len() == 0 {
        Seq::empty()
    } else if at >= s.len() {
        seq![s]
    } else {
        seq![without_cr(s.take(at))] + lines(s.skip(at + 1))
    }
}

#[via_fn]
proof fn lines_decreases(s: Seq<char>) {
    lemma_find(s, '\n');
}

/// The lines of `s`, as `str::lines` gives them.
pub fn lines_of(s: &str) -> (out: Vec<String>)
    ensures
        texts(out@) == lines(s@),
{
    let v = chars(s);
    let mut out: Vec<String> = Vec::new();
    let mut start: usize = 0;
    assert(v@.skip(0) =~= v@);
    while start < v.len()
        invariant
            v@ == s@,
            start <= v@.len(),
            lines(s@) == texts(out@) + lines(v@.skip(start as int)),
        decreases v@.len() - start,
    {
        let at: usize = find_from(&v, start, '\n');
        let ghost before = texts(out@);
        let ghost rest = v@.skip(start as int);
        proof {
            lemma_find(rest, '\n');
            assert(rest.take(at - start) =~= v@.subrange(start as int, at as int));
        }
        if at >= v.len() {
            out.push(slice_text(&v, start, at));
            assert(rest =~= v@.subrange(start as int, at as int));
            assert(texts(out@) =~= before + seq![rest]);
            assert(v@.skip(at as int) =~= Seq::<char>::empty());
            assert(texts(out@) + lines(v@.skip(at as int)) =~= texts(out@));
            start = at;
        } else {
            let mut end: usize = at;
            if at > start && v[at - 1] == '\r' {
                end = at - 1;
            }
            out.push(slice_text(&v, start, end));
            proof {
                assert(v@.subrange(start as int, end as int) =~= without_cr(rest.take(at - start)));
                assert(rest.skip(at - start + 1) =~= v@.skip(at + 1));
                assert(texts(out@) =~= before.push(without_cr(rest.take(at - start))));
                assert(texts(out@) + lines(v@.skip(at + 1)) =~= before + (seq![
                    without_cr(rest.take(at - start)),
                ] + lines(v@.skip(at + 1))));
            }
            start = at + 1;
        }
    }
    assert(v@.skip(start as int) =~= Seq::<char>::empty());
    assert(texts(out@) + lines(v@.skip(start as int)) =~= texts(out@));
    out
}

/// Whether `sub` stands somewhere in `s`.
pub open spec fn has_text(s: Seq<char>, sub: Seq<char>) -> bool {
    exists|i: int| #[trigger] stands_at(s, sub, i)
}

/// Whether `sub` stands in `s` from position `i` on.
pub open spec fn stands_at(s: Seq<char>, sub: Seq<char>, i: int) -> bool {
    0 <= i <= s.len() - sub.len() && s.subrange(i, i + sub.len()) == sub
}

fn matches_at(v: &Vec<char>, sub: &Vec<char>, i: usize) -> (r: bool)
    requires
        i + sub.len() <= v.len(),
    ensures
        r == stands_at(v@, sub@, i as int),
{
    let mut k: usize = 0;
    while k < sub.len()
        invariant
            k <= sub@.len(),
            i + sub.len() <= v.len(),
            forall|j: int| 0 <= j < k ==> v@[i + j] == sub@[j],
        decreases sub@.len() - k,
    {
        if v[i + k] != sub[k] {
            assert(v@.subrange(i as int, i + sub@.len())[k as int] != sub@[k as int]);
            return false;
        }
        k = k + 1;
    }
    assert(v@.subrange(i as int, i + sub@.len()) =~= sub@);
    true
}

/// Whether `sub` stands somewhere in `s`, as `str::contains` tells.
pub fn contains_text(s: &str, sub: &str) -> (r: bool)
    ensures
        r == has_text(s@, sub@),
{
    let v = chars(s);
    let w = chars(sub);
    if w.len() > v.len() {
        return false;
    }
    let last: usize = v.len() - w.len();
    let mut i: usize = 0;
    while i <= last
        invariant
            v@ == s@,
            w@ == sub@,
            last == v@.len() - w@.len(),
            i <= last + 1,
            forall|k: int| 0 <= k < i ==> !stands_at(s@, sub@, k),
        decreases last + 1 - i,
    {
        if matches_at(&v, &w, i) {
            return true;
        }
        if i == last {
            assert forall|k: int| !stands_at(s@, sub@, k) by {}
            return false;
        }
        i = i + 1;
    }
    false
}

/// Whether `s` begins with `p`.
pub open spec fn begins_with(s: Seq<char>, p: Seq<char>) -> bool {
    p.len() <= s.len() && s.take(p.len() as int) == p
}

/// Whether `s` begins with `p`, as `str::starts_with` tells.
pub fn starts_with(s: &str, p: &str) -> (r: bool)
    ensures
        r == begins_with(s@, p@),
{
    let v = chars(s);
    let w = chars(p);
    if w.len() > v.len() {
        return false;
    }
    assert(v@.subrange(0, w@.len() as int) =~= v@.take(w@.len() as int));
    matches_at(&v, &w, 0)
}

// ---------------------------------------------------------------------------
// White space
// ---------------------------------------------------------------------------

/// The characters with the Unicode property `White_Space`.
pub open spec fn is_space(c: char) -> bool {
    let u = c as u32;
    ||| 0x9 <= u <= 0xd
    ||| u == 0x20
    ||| u == 0x85
    ||| u == 0xa0
    ||| u == 0x1680
    ||| 0x2000 <= u <= 0x200a
    ||| u == 0x2028
    ||| u == 0x2029
    ||| u == 0x202f
    ||| u == 0x205f
    ||| u == 0x3000
}

fn space(c: char) -> (r: bool)
    ensures
        r == is_space(c),
{
    let u: u32 = c as u32;
    (0x9 <= u && u <= 0xd) || u == 0x20 || u == 0x85 || u == 0xa0 || u == 0x1680 || (0x2000 <= u
        && u <= 0x200a) || u == 0x2028 || u == 0x2029 || u == 0x202f || u == 0x205f || u == 0x3000
}

/// `s` without the white space at its start.
pub open spec fn trim_start(s: Seq<char>) -> Seq<char>
    decreases s.len(),
{
    if s.len() > 0 && is_space(s[0]) {
        trim_start(s.skip(1))
    } else {
        s
    }
}

/// `s` without the white space at its end.
pub open spec fn trim_end(s: Seq<char>) -> Seq<char>
    decreases s.len(),
{
    if s.len() > 0 && is_space(s.last()) {
        trim_end(s.drop_last())
    } else {
        s
    }
}

/// `s` without the white space around it.
pub open spec fn trimmed(s: Seq<char>) -> Seq<char> {
    trim_end(trim_start(s))
}

/// Text that neither starts nor ends with white space is its own trimming.
pub proof fn lemma_trimmed_same(s: Seq<char>)
    requires
        s.len() > 0 ==> !is_space(s[0]) && !is_space(s.last()),
    ensures
        trimmed(s) == s,
{
}

proof fn lemma_trim_shorter(s: Seq<char>)
    ensures
        trim_start(s).len() <= s.len(),
        trim_end(s).len() <= s.len(),
    decreases s.len(),
{
    if s.len() > 0 {
        lemma_trim_shorter(s.skip(1));
        lemma_trim_shorter(s.drop_last());
    }
}

/// Text that is its own trimming neither starts nor ends with white space.
pub proof fn lemma_trimmed_ends(s: Seq<char>)
    requires
        trimmed(s) == s,
        s.len() > 0,
    ensures
        !is_space(s[0]),
        !is_space(s.last()),
{
    lemma_trim_shorter(s);
    lemma_trim_shorter(trim_start(s));
    if is_space(s[0]) {
        lemma_trim_shorter(s.skip(1));
    } else if is_space(s.last()) {
        lemma_trim_shorter(s.drop_last());
    }
}

/// `s` without the white space around it, as `str::trim` gives it.
pub fn trim(s: &str) -> (t: String)
    ensures
        t@ == trimmed(s@),
{
    let v = chars(s);
    let mut lo: usize = 0;
    assert(v@.skip(0) =~= v@);
    while lo < v.len() && space(v[lo])
        invariant
            lo <= v@.len(),
            trim_start(v@) == trim_start(v@.skip(lo as int)),
        decreases v@.len() - lo,
    {
        assert(v@.skip(lo as int).skip(1) =~= v@.skip(lo + 1));
        lo = lo + 1;
    }
    let ghost rest = v@.skip(lo as int);
    assert(trim_start(v@) == rest);
    let mut hi: usize = v.len();
    assert(rest =~= v@.subrange(lo as int, hi as int));
    while hi > lo && space(v[hi - 1])
        invariant
            lo <= hi <= v@.len(),
            trim_end(rest) == trim_end(v@.subrange(lo as int, hi as int)),
        decreases hi - lo,
    {
        assert(v@.subrange(lo as int, hi as int).drop_last() =~= v@.subrange(lo as int, hi - 1));
        hi = hi - 1;
    }
    slice_text(&v, lo, hi)
}

// ---------------------------------------------------------------------------
// Letters and digits
// ---------------------------------------------------------------------------

/// The ASCII letters and digits.
pub open spec fn is_alnum(c: char) -> bool {
    ('0' <= c <= '9') || ('a' <= c <= 'z') || ('A' <= c <= 'Z')
}

/// The first `n` ASCII letters and digits of `s`, in order.
pub open spec fn alnum_prefix(s: Seq<char>, n: nat) -> Seq<char> {
    let kept = s.filter(|c: char| is_alnum(c));
    if kept.len() <= n {
        kept
    } else {
        kept.take(n as int)
    }
}

/// The first `n` ASCII letters and digits of `s`, in order.
pub fn alnum(s: &str, n: usize) -> (t: String)
    ensures
        t@ == alnum_prefix(s@, n as nat),
{
    let v = chars(s);
    let ghost keep = |c: char| is_alnum(c);
    let mut kept: Vec<char> = Vec::new();
    let mut i: usize = 0;
    assert(v@.take(0) =~= Seq::<char>::empty());
    reveal(Seq::filter);
    while i < v.len()
        invariant
            keep == (|c: char| is_alnum(c)),
            i <= v@.len(),
            kept@ == v@.take(i as int).filter(keep),
        decreases v@.len() - i,
    {
        let c: char = v[i];
        proof {
            reveal(Seq::filter);
            assert(v@.take(i + 1).drop_last() =~= v@.take(i as int));
            assert(v@.take(i + 1).last() == c);
        }
        if ('0' <= c && c <= '9') || ('a' <= c && c <= 'z') || ('A' <= c && c <= 'Z') {
            kept.push(c);
        }
        i = i + 1;
    }
    assert(v@.take(v@.len() as int) =~= s@);
    if kept.len() <= n {
        assert(kept@.subrange(0, kept@.len() as int) =~= kept@);
        slice_text(&kept, 0, kept.len())
    } else {
        slice_text(&kept, 0, n)
    }
}

/// The ASCII letters and digits of a text, in order.
pub open spec fn letters_and_digits(s: Seq<char>) -> Seq<char> {
    s.filter(|c: char| 'a' <= c <= 'z' || 'A' <= c <= 'Z' || '0' <= c <= '9')
}

/// Whether a text is made of the first `n` of the letters and digits of another,
/// or of all of them where there are fewer.
pub open spec fn is_beginning(t: Seq<char>, s: Seq<char>, n: nat) -> bool {
    let kept = letters_and_digits(s);
    &&& t.is_prefix_of(kept)
    &&& t.len() == if kept.len() < n {
        kept.len()
    } else {
        n
    }
}

/// What is kept of a text are the first of its letters and digits.
pub proof fn law_first_letters_and_digits_are_kept(s: Seq<char>, n: nat)
    ensures
        is_beginning(alnum_prefix(s, n), s, n),
{
    let plain = |c: char| 'a' <= c <= 'z' || 'A' <= c <= 'Z' || '0' <= c <= '9';
    assert((|c: char| is_alnum(c)) =~= plain);
}

} // verus!
