//! Character-level text operations with their mathematical meaning.
//!
//! Every string is taken by its view, the sequence of its characters.  The
//! spec functions below say what the operations of `str` that the server
//! relies on compute (find, split, join, replace, trim, lines, integer
//! parsing and decimal printing); the executable functions compute them.

use vstd::prelude::*;

verus! {

// ------------------------------------------------------------------
// Conversions between strings and character vectors
// ------------------------------------------------------------------

/// Appends one character to a string (`String::push`).
#[verifier::external_body]
fn push_char(s: &mut String, c: char)
    ensures
        final(s)@ == old(s)@.push(c),
{
    s.push(c);
}

/// The characters of `s`, in order.
pub fn chars_of(s: &str) -> (v: Vec<char>)
    ensures
        v@ == s@,
{
    let mut v: Vec<char> = Vec::new();
    for c in it: s.chars()
        invariant
            v@ == it.seq().take(it.index() as int),
            it.seq() == s@,
    {
        v.push(c);
    }
    v
}

/// The string made of the characters `v[from..to]`.
pub fn string_from(v: &[char], from: usize, to: usize) -> (s: String)
    requires
        from <= to <= v@.len(),
    ensures
        s@ == v@.subrange(from as int, to as int),
{
    let mut s = String::new();
    let mut i = from;
    while i < to
        invariant
            from <= i <= to <= v@.len(),
            s@ == v@.subrange(from as int, i as int),
        decreases to - i,
    {
        push_char(&mut s, v[i]);
        assert(v@.subrange(from as int, i + 1) == v@.subrange(from as int, i as int).push(
            v@[i as int],
        ));
        i += 1;
    }
    s
}

/// Appends the characters `v[from..to]` to `s`.
pub fn push_chars(s: &mut String, v: &[char], from: usize, to: usize)
    requires
        from <= to <= v@.len(),
    ensures
        final(s)@ == old(s)@ + v@.subrange(from as int, to as int),
{
    let mut i = from;
    while i < to
        invariant
            from <= i <= to <= v@.len(),
            s@ == old(s)@ + v@.subrange(from as int, i as int),
        decreases to - i,
    {
        push_char(s, v[i]);
        assert(v@.subrange(from as int, i + 1) == v@.subrange(from as int, i as int).push(
            v@[i as int],
        ));
        i += 1;
    }
}

/// Appends all of `t` to `s`.
pub fn push_str(s: &mut String, t: &str)
    ensures
        final(s)@ == old(s)@ + t@,
{
    let v = chars_of(t);
    push_chars(s, v.as_slice(), 0, v.len());
    assert(v@.subrange(0, v@.len() as int) == v@);
}

/// An owned copy of `t`.
pub fn owned(t: &str) -> (s: String)
    ensures
        s@ == t@,
{
    let mut s = String::new();
    push_str(&mut s, t);
    s
}

/// Whether two strings hold the same characters.
pub fn str_eq(a: &str, b: &str) -> (r: bool)
    ensures
        r == (a@ == b@),
{
    let va = chars_of(a);
    let vb = chars_of(b);
    assert(va@.subrange(0, va@.len() as int) == va@);
    chars_eq(va.as_slice(), 0, va.len(), vb.as_slice())
}

/// Whether `v[from..to]` equals `w`.
pub fn chars_eq(v: &[char], from: usize, to: usize, w: &[char]) -> (r: bool)
    requires
        from <= to <= v@.len(),
    ensures
        r == (v@.subrange(from as int, to as int) == w@),
{
    if to - from != w.len() {
        return false;
    }
    let mut i: usize = 0;
    while i < w.len()
        invariant
            from <= to <= v@.len(),
            to - from == w@.len(),
            0 <= i <= w@.len(),
            forall|j: int| 0 <= j < i ==> v@[from + j] == w@[j],
        decreases w.len() - i,
    {
        if v[from + i] != w[i] {
            assert(v@.subrange(from as int, to as int)[i as int] != w@[i as int]);
            return false;
        }
        i += 1;
    }
    assert(v@.subrange(from as int, to as int) =~= w@);
    true
}

// ------------------------------------------------------------------
// Searching, splitting and joining
// ------------------------------------------------------------------

/// `pat` occurs in `s` starting at index `i`.
pub open spec fn matches_at(s: Seq<char>, pat: Seq<char>, i: int) -> bool {
    0 <= i && i + pat.len() <= s.len() && s.subrange(i, i + pat.len()) == pat
}

/// The first index `j >= i` at which `pat` occurs in `s`.
pub open spec fn find_from(s: Seq<char>, pat: Seq<char>, i: int) -> Option<int>
    decreases s.len() + 1 - i,
{
    if i < 0 || i + pat.len() > s.len() {
        None
    } else if s.subrange(i, i + pat.len()) == pat {
        Some(i)
    } else {
        find_from(s, pat, i + 1)
    }
}

/// The first index at which `pat` occurs in `s` (`str::find`).
pub open spec fn find(s: Seq<char>, pat: Seq<char>) -> Option<int> {
    find_from(s, pat, 0)
}

/// The last index `j <= i` at which `pat` occurs in `s`.
pub open spec fn rfind_upto(s: Seq<char>, pat: Seq<char>, i: int) -> Option<int>
    decreases i + 1,
{
    if i < 0 {
        None
    } else if matches_at(s, pat, i) {
        Some(i)
    } else {
        rfind_upto(s, pat, i - 1)
    }
}

/// The last index at which `pat` occurs in `s` (`str::rfind`).
pub open spec fn rfind(s: Seq<char>, pat: Seq<char>) -> Option<int> {
    rfind_upto(s, pat, s.len() - pat.len())
}

/// What `find_from` returns is an occurrence at or after `i`, and no
/// occurrence lies between `i` and it; `None` means there is none at all.
pub proof fn lemma_find_from(s: Seq<char>, pat: Seq<char>, i: int)
    requires
        0 <= i,
    ensures
        match find_from(s, pat, i) {
            Some(j) => i <= j && matches_at(s, pat, j) && forall|k: int|
                i <= k < j ==> !matches_at(s, pat, k),
            None => forall|k: int| i <= k ==> !matches_at(s, pat, k),
        },
    decreases s.len() + 1 - i,
{
    if i + pat.len() > s.len() {
    } else if s.subrange(i, i + pat.len()) == pat {
    } else {
        lemma_find_from(s, pat, i + 1);
    }
}

/// What `rfind_upto` returns is an occurrence at or before `i`, and no
/// occurrence lies between it and `i`.
pub proof fn lemma_rfind_upto(s: Seq<char>, pat: Seq<char>, i: int)
    ensures
        match rfind_upto(s, pat, i) {
            Some(j) => 0 <= j <= i && matches_at(s, pat, j) && forall|k: int|
                j < k <= i ==> !matches_at(s, pat, k),
            None => forall|k: int| k <= i ==> !matches_at(s, pat, k),
        },
    decreases i + 1,
{
    if i >= 0 && !matches_at(s, pat, i) {
        lemma_rfind_upto(s, pat, i - 1);
    }
}

/// The pieces of `s[i..]` between the occurrences of `sep`, as `str::split`
/// yields them.
pub open spec fn split_from(s: Seq<char>, sep: Seq<char>, i: int) -> Seq<Seq<char>>
    decreases s.len() - i,
{
    if sep.len() == 0 || i < 0 || i > s.len() {
        seq![s.subrange(i, s.len() as int)]
    } else {
        match find_from(s, sep, i) {
            Some(j) => {
                proof {
                    lemma_find_from(s, sep, i);
                }
                seq![s.subrange(i, j)] + split_from(s, sep, j + sep.len())
            },
            None => seq![s.subrange(i, s.len() as int)],
        }
    }
}

/// `str::split` with a non-empty separator.
pub open spec fn split(s: Seq<char>, sep: Seq<char>) -> Seq<Seq<char>> {
    split_from(s, sep, 0)
}

/// `str::split_once`.
pub open spec fn split_once(s: Seq<char>, sep: Seq<char>) -> Option<(Seq<char>, Seq<char>)> {
    match find(s, sep) {
        Some(i) => Some((s.subrange(0, i), s.subrange(i + sep.len(), s.len() as int))),
        None => None,
    }
}

/// `str::rsplit_once`.
pub open spec fn rsplit_once(s: Seq<char>, sep: Seq<char>) -> Option<(Seq<char>, Seq<char>)> {
    match rfind(s, sep) {
        Some(i) => Some((s.subrange(0, i), s.subrange(i + sep.len(), s.len() as int))),
        None => None,
    }
}

/// The pieces of `parts` with `sep` between each two (`[T]::join`).
pub open spec fn join(parts: Seq<Seq<char>>, sep: Seq<char>) -> Seq<char>
    decreases parts.len(),
{
    if parts.len() == 0 {
        Seq::empty()
    } else if parts.len() == 1 {
        parts[0]
    } else {
        join(parts.drop_last(), sep) + sep + parts.last()
    }
}

/// `str::replace`: every occurrence of `from`, left to right and without
/// overlap, replaced by `to`.
pub open spec fn replace(s: Seq<char>, from: Seq<char>, to: Seq<char>) -> Seq<char> {
    join(split(s, from), to)
}

/// The first occurrence of `pat` in `v` at or after `from`.
pub fn find_chars(v: &[char], pat: &[char], from: usize) -> (r: Option<usize>)
    requires
        from <= v@.len(),
    ensures
        match r {
            Some(i) => find_from(v@, pat@, from as int) == Some(i as int),
            None => find_from(v@, pat@, from as int) is None,
        },
{
    if pat.len() > v.len() {
        return None;
    }
    if pat.len() == 0 {
        assert(v@.subrange(from as int, from as int) =~= pat@);
        return Some(from);
    }
    let last = v.len() - pat.len();
    if from > last {
        return None;
    }
    let mut i = from;
    while i <= last
        invariant
            v@.len() <= usize::MAX,
            pat@.len() > 0,
            from <= i <= last + 1,
            pat@.len() <= v@.len(),
            last + pat@.len() == v@.len(),
            find_from(v@, pat@, from as int) == find_from(v@, pat@, i as int),
        decreases last + 1 - i,
    {
        if chars_eq(v, i, i + pat.len(), pat) {
            return Some(i);
        }
        i += 1;
    }
    None
}

/// The last occurrence of `pat` in `v`.
pub fn rfind_chars(v: &[char], pat: &[char]) -> (r: Option<usize>)
    ensures
        match r {
            Some(i) => rfind(v@, pat@) == Some(i as int),
            None => rfind(v@, pat@) is None,
        },
{
    if pat.len() > v.len() {
        return None;
    }
    let mut i = v.len() - pat.len();
    loop
        invariant
            v@.len() <= usize::MAX,
            pat@.len() <= v@.len(),
            i + pat@.len() <= v@.len(),
            rfind(v@, pat@) == rfind_upto(v@, pat@, i as int),
        decreases i,
    {
        if chars_eq(v, i, i + pat.len(), pat) {
            return Some(i);
        }
        if i == 0 {
            assert(rfind_upto(v@, pat@, -1) is None);
            return None;
        }
        i -= 1;
    }
}

/// The pieces of `s` between the occurrences of `sep` (`str::split`).
pub fn split_str(s: &str, sep: &str) -> (r: Vec<String>)
    requires
        sep@.len() > 0,
    ensures
        r@.len() == split(s@, sep@).len(),
        forall|i: int| 0 <= i < r@.len() ==> #[trigger] r@[i]@ == split(s@, sep@)[i],
{
    let v = chars_of(s);
    let p = chars_of(sep);
    let mut r: Vec<String> = Vec::new();
    let mut pos: usize = 0;
    let n = v.len();
    assert(v@.len() == n);
    loop
        invariant
            v@.len() <= usize::MAX,
            pos <= v@.len(),
            p@.len() > 0,
            v@ == s@,
            p@ == sep@,
            split(s@, sep@) == r@.map_values(|x: String| x@) + split_from(v@, p@, pos as int),
        decreases v@.len() - pos,
    {
        proof {
            lemma_find_from(v@, p@, pos as int);
        }
        match find_chars(v.as_slice(), p.as_slice(), pos) {
            Some(j) => {
                assert(matches_at(v@, p@, j as int));
                let piece = string_from(v.as_slice(), pos, j);
                let ghost before = r@.map_values(|x: String| x@);
                r.push(piece);
                assert(r@.map_values(|x: String| x@) == before.push(piece@));
                assert(split_from(v@, p@, pos as int) == seq![v@.subrange(pos as int, j as int)]
                    + split_from(v@, p@, j + p@.len()));
                assert(before + split_from(v@, p@, pos as int) == before.push(piece@)
                    + split_from(v@, p@, j + p@.len()));
                pos = j + p.len();
            },
            None => {
                let piece = string_from(v.as_slice(), pos, v.len());
                let ghost before = r@.map_values(|x: String| x@);
                r.push(piece);
                assert(r@.map_values(|x: String| x@) == before.push(piece@));
                assert(split(s@, sep@) == r@.map_values(|x: String| x@));
                return r;
            },
        }
    }
}


/// `split` always yields at least one piece.
pub proof fn lemma_split_from_nonempty(s: Seq<char>, sep: Seq<char>, i: int)
    ensures
        split_from(s, sep, i).len() >= 1,
{
}

/// `str::split_once`: the text before and after the first `sep`.
pub fn split_once_str(s: &str, sep: &str) -> (r: Option<(String, String)>)
    ensures
        match r {
            Some((a, b)) => split_once(s@, sep@) == Some((a@, b@)),
            None => split_once(s@, sep@) is None,
        },
{
    let v = chars_of(s);
    let p = chars_of(sep);
    match find_chars(v.as_slice(), p.as_slice(), 0) {
        Some(i) => {
            proof {
                lemma_find_from(v@, p@, 0);
            }
            let n = v.len();
            let a = string_from(v.as_slice(), 0, i);
            let b = string_from(v.as_slice(), i + p.len(), n);
            Some((a, b))
        },
        None => None,
    }
}

/// `str::rsplit_once`: the text before and after the last `sep`.
pub fn rsplit_once_str(s: &str, sep: &str) -> (r: Option<(String, String)>)
    ensures
        match r {
            Some((a, b)) => rsplit_once(s@, sep@) == Some((a@, b@)),
            None => rsplit_once(s@, sep@) is None,
        },
{
    let v = chars_of(s);
    let p = chars_of(sep);
    match rfind_chars(v.as_slice(), p.as_slice()) {
        Some(i) => {
            proof {
                lemma_rfind_upto(v@, p@, v@.len() - p@.len());
            }
            let n = v.len();
            let a = string_from(v.as_slice(), 0, i);
            let b = string_from(v.as_slice(), i + p.len(), n);
            Some((a, b))
        },
        None => None,
    }
}

/// The views of a sequence of strings.
pub open spec fn views(parts: Seq<String>) -> Seq<Seq<char>> {
    parts.map_values(|x: String| x@)
}

/// `parts[from..].join(sep)`.
pub fn join_strings(parts: &[String], from: usize, sep: &str) -> (r: String)
    requires
        from <= parts@.len(),
    ensures
        r@ == join(views(parts@).subrange(from as int, parts@.len() as int), sep@),
{
    let ghost vs = views(parts@);
    let mut r = String::new();
    let mut i = from;
    while i < parts.len()
        invariant
            from <= i <= parts@.len(),
            vs == views(parts@),
            r@ == join(vs.subrange(from as int, i as int), sep@),
        decreases parts@.len() - i,
    {
        let ghost sub = vs.subrange(from as int, i + 1);
        assert(sub.drop_last() == vs.subrange(from as int, i as int));
        assert(sub.last() == parts@[i as int]@);
        if i == from {
            assert(vs.subrange(from as int, i as int).len() == 0);
            push_str(&mut r, parts[i].as_str());
        } else {
            push_str(&mut r, sep);
            push_str(&mut r, parts[i].as_str());
        }
        i += 1;
    }
    r
}

/// `str::replace` with a non-empty pattern.
pub fn replace_str(s: &str, from: &str, to: &str) -> (r: String)
    requires
        from@.len() > 0,
    ensures
        r@ == replace(s@, from@, to@),
{
    let pieces = split_str(s, from);
    assert(views(pieces@) =~= split(s@, from@));
    let r = join_strings(pieces.as_slice(), 0, to);
    assert(views(pieces@).subrange(0, pieces@.len() as int) == views(pieces@));
    r
}

// ------------------------------------------------------------------
// White space and lines
// ------------------------------------------------------------------

/// Unicode's `White_Space` property, which `char::is_whitespace` tests.
pub open spec fn is_white_space(c: char) -> bool {
    let n = c as u32;
    ||| 0x9 <= n <= 0xd
    ||| n == 0x20
    ||| n == 0x85
    ||| n == 0xa0
    ||| n == 0x1680
    ||| 0x2000 <= n <= 0x200a
    ||| n == 0x2028
    ||| n == 0x2029
    ||| n == 0x202f
    ||| n == 0x205f
    ||| n == 0x3000
}

/// `char::is_whitespace`.
pub fn white_space(c: char) -> (r: bool)
    ensures
        r == is_white_space(c),
{
    let n = c as u32;
    (0x9 <= n && n <= 0xd) || n == 0x20 || n == 0x85 || n == 0xa0 || n == 0x1680 || (0x2000
        <= n && n <= 0x200a) || n == 0x2028 || n == 0x2029 || n == 0x202f || n == 0x205f || n
        == 0x3000
}

/// `str::trim_start`.
pub open spec fn trim_start(s: Seq<char>) -> Seq<char>
    decreases s.len(),
{
    if s.len() > 0 && is_white_space(s[0]) {
        trim_start(s.drop_first())
    } else {
        s
    }
}

/// `str::trim_end`.
pub open spec fn trim_end(s: Seq<char>) -> Seq<char>
    decreases s.len(),
{
    if s.len() > 0 && is_white_space(s.last()) {
        trim_end(s.drop_last())
    } else {
        s
    }
}

/// `str::trim`: white space removed from both ends.
pub open spec fn trim(s: Seq<char>) -> Seq<char> {
    trim_end(trim_start(s))
}

/// `str::trim`.
pub fn trim_str(s: &str) -> (r: String)
    ensures
        r@ == trim(s@),
{
    let v = chars_of(s);
    let n = v.len();
    let mut lo: usize = 0;
    assert(v@.subrange(0, n as int) == v@);
    while lo < n && white_space(v[lo])
        invariant
            lo <= n == v@.len(),
            trim_start(v@) == trim_start(v@.subrange(lo as int, n as int)),
        decreases n - lo,
    {
        assert(v@.subrange(lo as int, n as int).drop_first() == v@.subrange(lo + 1, n as int));
        lo += 1;
    }
    let mut hi: usize = n;
    while hi > lo && white_space(v[hi - 1])
        invariant
            lo <= hi <= n == v@.len(),
            trim(v@) == trim_end(v@.subrange(lo as int, hi as int)),
        decreases hi,
    {
        assert(v@.subrange(lo as int, hi as int).drop_last() == v@.subrange(lo as int, hi - 1));
        hi -= 1;
    }
    string_from(v.as_slice(), lo, hi)
}

/// One line with a trailing carriage return removed.
pub open spec fn strip_cr(line: Seq<char>) -> Seq<char> {
    if line.len() > 0 && line.last() == '\r' {
        line.drop_last()
    } else {
        line
    }
}

/// `str::lines`: the text split at each line feed, a carriage return before
/// a line feed dropped, and no empty line after a final line feed.
pub open spec fn lines(s: Seq<char>) -> Seq<Seq<char>> {
    let parts = split(s, seq!['\n']);
    let n = parts.len() as int;
    if parts[n - 1].len() == 0 {
        Seq::new((n - 1) as nat, |i: int| strip_cr(parts[i]))
    } else {
        Seq::new(n as nat, |i: int| if i < n - 1 { strip_cr(parts[i]) } else { parts[i] })
    }
}

/// `str::lines`.
pub fn lines_of(s: &str) -> (r: Vec<String>)
    ensures
        views(r@) == lines(s@),
{
    let nl = "\n";
    proof {
        reveal_strlit("\n");
        lemma_split_from_nonempty(s@, seq!['\n'], 0);
    }
    assert(nl@ == seq!['\n']);
    let parts = split_str(s, nl);
    let ghost ps = split(s@, seq!['\n']);
    let n = parts.len();
    let last_empty = parts[n - 1].as_str().is_empty();
    let count = if last_empty { n - 1 } else { n };
    let mut r: Vec<String> = Vec::new();
    let mut i: usize = 0;
    while i < count
        invariant
            0 <= i <= count <= n == parts@.len() == ps.len(),
            ps == split(s@, seq!['\n']),
            n >= 1,
            forall|j: int| 0 <= j < n ==> #[trigger] parts@[j]@ == ps[j],
            last_empty == (ps[n - 1].len() == 0),
            count == if last_empty { n - 1 } else { n as int },
            r@.len() == i,
            forall|j: int| 0 <= j < i ==> #[trigger] r@[j]@ == lines(s@)[j],
        decreases count - i,
    {
        let line = chars_of(parts[i].as_str());
        let m = line.len();
        assert(lines(s@)[i as int] == (if i + 1 < n { strip_cr(ps[i as int]) } else { ps[i as int] }));
        if i + 1 < n && m > 0 && line[m - 1] == '\r' {
            r.push(string_from(line.as_slice(), 0, m - 1));
            assert(line@.subrange(0, m - 1) == line@.drop_last());
        } else {
            r.push(string_from(line.as_slice(), 0, m));
            assert(line@.subrange(0, m as int) == line@);
        }
        assert(r@[i as int]@ == lines(s@)[i as int]);
        i += 1;
    }
    assert(views(r@) =~= lines(s@));
    r
}

// ------------------------------------------------------------------
// Prefixes
// ------------------------------------------------------------------

/// `str::strip_prefix`.
pub open spec fn strip_prefix(s: Seq<char>, prefix: Seq<char>) -> Option<Seq<char>> {
    if prefix.len() <= s.len() && s.subrange(0, prefix.len() as int) == prefix {
        Some(s.subrange(prefix.len() as int, s.len() as int))
    } else {
        None
    }
}

/// `str::strip_prefix`.
pub fn strip_prefix_str(s: &str, prefix: &str) -> (r: Option<String>)
    ensures
        match r {
            Some(t) => strip_prefix(s@, prefix@) == Some(t@),
            None => strip_prefix(s@, prefix@) is None,
        },
{
    let v = chars_of(s);
    let p = chars_of(prefix);
    if p.len() <= v.len() && chars_eq(v.as_slice(), 0, p.len(), p.as_slice()) {
        Some(string_from(v.as_slice(), p.len(), v.len()))
    } else {
        None
    }
}

// ------------------------------------------------------------------
// Laws
// ------------------------------------------------------------------

/// Joining a piece in front of at least one more piece puts the separator
/// between them.
pub proof fn lemma_join_prepend(a: Seq<char>, rest: Seq<Seq<char>>, sep: Seq<char>)
    requires
        rest.len() >= 1,
    ensures
        join(seq![a] + rest, sep) == a + sep + join(rest, sep),
    decreases rest.len(),
{
    let x = seq![a] + rest;
    if rest.len() == 1 {
        assert(x.drop_last() =~= seq![a]);
        assert(x.last() == rest[0]);
        assert(join(seq![a], sep) == a);
        assert(join(rest, sep) == rest[0]);
        assert(join(x, sep) =~= a + sep + rest[0]);
    } else {
        assert(x.drop_last() =~= seq![a] + rest.drop_last());
        lemma_join_prepend(a, rest.drop_last(), sep);
        assert(x.last() == rest.last());
        assert(join(x, sep) =~= a + sep + join(rest, sep));
    }
}

/// Joining the pieces of `s[i..]` back with the separator gives `s[i..]`.
pub proof fn lemma_join_split_from(s: Seq<char>, sep: Seq<char>, i: int)
    requires
        sep.len() > 0,
        0 <= i <= s.len(),
    ensures
        join(split_from(s, sep, i), sep) == s.subrange(i, s.len() as int),
    decreases s.len() - i,
{
    lemma_find_from(s, sep, i);
    match find_from(s, sep, i) {
        None => {
            assert(split_from(s, sep, i) == seq![s.subrange(i, s.len() as int)]);
        },
        Some(j) => {
            let rest = split_from(s, sep, j + sep.len());
            lemma_split_from_nonempty(s, sep, j + sep.len());
            lemma_join_split_from(s, sep, j + sep.len());
            lemma_join_prepend(s.subrange(i, j), rest, sep);
            assert(s.subrange(j, j + sep.len()) == sep);
            assert(s.subrange(i, s.len() as int) =~= s.subrange(i, j) + sep + s.subrange(
                j + sep.len(),
                s.len() as int,
            ));
        },
    }
}

/// Splitting at a non-empty separator and joining with it gives back the
/// text: nothing is lost or added.
pub proof fn law_join_split(s: Seq<char>, sep: Seq<char>)
    requires
        sep.len() > 0,
    ensures
        join(split(s, sep), sep) == s,
{
    lemma_join_split_from(s, sep, 0);
    assert(s.subrange(0, s.len() as int) == s);
}

/// Replacing a pattern that does not occur changes nothing.
pub proof fn law_replace_absent(s: Seq<char>, from: Seq<char>, to: Seq<char>)
    requires
        from.len() > 0,
        find(s, from) is None,
    ensures
        replace(s, from, to) == s,
{
    assert(split(s, from) == seq![s.subrange(0, s.len() as int)]);
    assert(s.subrange(0, s.len() as int) == s);
}

/// Replacing a pattern by itself changes nothing.
pub proof fn law_replace_identity(s: Seq<char>, p: Seq<char>)
    requires
        p.len() > 0,
    ensures
        replace(s, p, p) == s,
{
    law_join_split(s, p);
}

/// `p` occurs somewhere in `s`.
pub open spec fn occurs(s: Seq<char>, p: Seq<char>) -> bool {
    exists|k: int| 0 <= k && k + p.len() <= s.len() && #[trigger] s.subrange(k, k + p.len()) == p
}

/// A pattern that does not occur is not found.
pub proof fn lemma_not_occurs_not_found(s: Seq<char>, p: Seq<char>)
    requires
        !occurs(s, p),
    ensures
        find(s, p) is None,
{
    lemma_find_from(s, p, 0);
    if let Some(j) = find(s, p) {
        assert(matches_at(s, p, j));
        assert(s.subrange(j, j + p.len()) == p);
    }
}

} // verus!
