//! The request headers that the server reads: the content type, the
//! cookies and the content length.

use vstd::prelude::*;
use vstd::hash_map::StringHashMap;
use vstd::utf8::is_ascii_chars;
use crate::text::{
    find, find_from, is_white_space, lemma_find_from, matches_at, owned, split,
    split_once, split_once_str, split_str, str_eq, trim, trim_end, trim_start, trim_str, views,
};
use crate::number::{
    decimal, int_error_message, int_error_text, law_parse_decimal, lemma_decimal_digits,
    parse_u64, parse_unsigned,
};
use crate::tokens::{is_alphanumeric, is_token_text};

verus! {

/// Names what `str::to_lowercase` returns for a string: the string with each
/// character replaced by its Unicode lowercase mapping.
pub uninterp spec fn lowercase(s: Seq<char>) -> Seq<char>;

/// ASCII letters `A`-`Z` turned into `a`-`z`, all else kept.
pub open spec fn ascii_lowercase(s: Seq<char>) -> Seq<char> {
    Seq::new(
        s.len(),
        |i: int|
            if 65 <= (s[i] as u32) <= 90 {
                ((s[i] as u32) + 32) as char
            } else {
                s[i]
            },
    )
}

/// `str::to_lowercase`.  Claimed: the result is `lowercase` of the argument,
/// a function of the argument alone; on ASCII text it lowercases the letters
/// `A`-`Z` and keeps every other character (their Unicode lowercase mapping).
#[verifier::external_body]
fn to_lowercase(s: &str) -> (r: String)
    ensures
        r@ == lowercase(s@),
        is_ascii_chars(s@) ==> r@ == ascii_lowercase(s@),
{
    s.to_lowercase()
}

/// The headers of a request, as far as the server reads them.
pub struct Headers {
    pub content_type: Option<String>,
    pub cookies: StringHashMap<String>,
    pub content_length: Option<u64>,
}

/// The mathematical value of `Headers`.
pub struct HeadersView {
    pub content_type: Option<Seq<char>>,
    pub cookies: Map<Seq<char>, Seq<char>>,
    pub content_length: Option<u64>,
}

impl View for Headers {
    type V = HeadersView;

    open spec fn view(&self) -> HeadersView {
        HeadersView {
            content_type: match self.content_type {
                Some(t) => Some(t@),
                None => None,
            },
            cookies: self.cookies@.map_values(|v: String| v@),
            content_length: self.content_length,
        }
    }
}

/// One `name=value` piece of a `Cookie` header, both sides trimmed; a piece
/// without `=` counts as an empty name with an empty value.
pub open spec fn cookie_pair(piece: Seq<char>) -> (Seq<char>, Seq<char>) {
    match split_once(piece, "="@) {
        Some((a, b)) => (trim(a), trim(b)),
        None => (Seq::empty(), Seq::empty()),
    }
}

/// The cookies of the pieces, a later piece with the same name overriding an
/// earlier one.
pub open spec fn cookie_map(pieces: Seq<Seq<char>>) -> Map<Seq<char>, Seq<char>>
    decreases pieces.len(),
{
    if pieces.len() == 0 {
        Map::empty()
    } else {
        let (k, v) = cookie_pair(pieces.last());
        cookie_map(pieces.drop_last()).insert(k, v)
    }
}

/// The cookies that a `Cookie` header with value `v` sets: its pieces are
/// separated by `;`.
pub open spec fn cookies_of(v: Seq<char>) -> Map<Seq<char>, Seq<char>> {
    cookie_map(split(v, ";"@))
}

/// What a header line with lowercased name `key` and value `v` does to the
/// headers: `content-type` keeps the value as it is, `cookie` replaces the
/// cookies, `content-length` parses the trimmed value as a `u64` (or fails
/// with the message of the parse error); other names change nothing.
pub open spec fn apply_header(h: HeadersView, key: Seq<char>, v: Seq<char>) -> Result<
    HeadersView,
    Seq<char>,
> {
    if key == "content-type"@ {
        Ok(HeadersView { content_type: Some(v), ..h })
    } else if key == "cookie"@ {
        Ok(HeadersView { cookies: cookies_of(v), ..h })
    } else if key == "content-length"@ {
        match parse_unsigned(trim(v), u64::MAX as nat) {
            Ok(n) => Ok(HeadersView { content_length: Some(n as u64), ..h }),
            Err(e) => Err(int_error_message(e)),
        }
    } else {
        Ok(h)
    }
}

/// Parses the value of a `Cookie` header.
pub fn parse_cookies(v: &str) -> (r: StringHashMap<String>)
    ensures
        r@.map_values(|s: String| s@) == cookies_of(v@),
{
    proof {
        reveal_strlit(";");
        reveal_strlit("=");
    }
    let pieces = split_str(v, ";");
    let mut m: StringHashMap<String> = StringHashMap::new();
    let mut i: usize = 0;
    while i < pieces.len()
        invariant
            0 <= i <= pieces@.len(),
            views(pieces@) == split(v@, ";"@),
            m@.map_values(|s: String| s@) == cookie_map(views(pieces@).take(i as int)),
        decreases pieces@.len() - i,
    {
        let (k, val) = match split_once_str(pieces[i].as_str(), "=") {
            Some((a, b)) => (trim_str(a.as_str()), trim_str(b.as_str())),
            None => (String::new(), String::new()),
        };
        let ghost before = m@;
        m.insert(k, val);
        let ghost taken = views(pieces@).take(i + 1);
        assert(taken.drop_last() == views(pieces@).take(i as int));
        assert(taken.last() == pieces@[i as int]@);
        assert(m@.map_values(|s: String| s@) =~= cookie_map(taken));
        i += 1;
    }
    assert(views(pieces@).take(pieces@.len() as int) == views(pieces@));
    m
}

impl Default for Headers {
    /// Headers with nothing set.
    fn default() -> (h: Headers)
        ensures
            h@.content_type is None,
            h@.cookies == Map::<Seq<char>, Seq<char>>::empty(),
            h@.content_length is None,
    {
        Headers::new()
    }
}

impl Headers {
    /// Headers with nothing set.
    pub fn new() -> (h: Headers)
        ensures
            h@.content_type is None,
            h@.cookies == Map::<Seq<char>, Seq<char>>::empty(),
            h@.content_length is None,
    {
        let h = Headers { content_type: None, cookies: StringHashMap::new(), content_length: None };
        assert(h@.cookies =~= Map::<Seq<char>, Seq<char>>::empty());
        h
    }

    /// Applies a header whose name is already lowercased.
    pub fn set_field(&mut self, key: &str, v: &str) -> (r: Result<(), String>)
        ensures
            match r {
                Ok(()) => apply_header(old(self)@, key@, v@) == Ok::<HeadersView, Seq<char>>(
                    final(self)@,
                ),
                Err(e) => apply_header(old(self)@, key@, v@) == Err::<HeadersView, Seq<char>>(e@)
                    && final(self)@ == old(self)@,
            },
    {
        if str_eq(key, "content-type") {
            self.content_type = Some(owned(v));
            Ok(())
        } else if str_eq(key, "cookie") {
            self.cookies = parse_cookies(v);
            Ok(())
        } else if str_eq(key, "content-length") {
            let t = trim_str(v);
            match parse_u64(t.as_str()) {
                Ok(n) => {
                    self.content_length = Some(n);
                    Ok(())
                },
                Err(e) => Err(int_error_text(e)),
            }
        } else {
            Ok(())
        }
    }

    /// Applies the header line `key: v`; the name is matched without regard
    /// to case.
    pub fn set_from_str(&mut self, key: &str, v: &str) -> (r: Result<(), String>)
        ensures
            match r {
                Ok(()) => apply_header(old(self)@, lowercase(key@), v@) == Ok::<
                    HeadersView,
                    Seq<char>,
                >(final(self)@),
                Err(e) => apply_header(old(self)@, lowercase(key@), v@) == Err::<
                    HeadersView,
                    Seq<char>,
                >(e@) && final(self)@ == old(self)@,
            },
            is_ascii_chars(key@) ==> lowercase(key@) == ascii_lowercase(key@),
    {
        let lower = to_lowercase(key);
        self.set_field(lower.as_str(), v)
    }

    /// Reads one header line of a request: a blank line ends the headers
    /// (`Ok(false)`); a line with a `:` is applied as `name: value`; any
    /// other line is skipped.
    pub fn read_line(&mut self, line: &str) -> (r: Result<bool, String>)
        ensures
            trim(line@).len() == 0 ==> r == Ok::<bool, String>(false) && final(self)@ == old(
                self,
            )@,
            trim(line@).len() != 0 ==> match split_once(line@, ":"@) {
                None => r == Ok::<bool, String>(true) && final(self)@ == old(self)@,
                Some((k, v)) => match r {
                    Ok(more) => more && apply_header(old(self)@, lowercase(k), v) == Ok::<
                        HeadersView,
                        Seq<char>,
                    >(final(self)@),
                    Err(e) => apply_header(old(self)@, lowercase(k), v) == Err::<
                        HeadersView,
                        Seq<char>,
                    >(e@) && final(self)@ == old(self)@,
                },
            },
    {
        let t = trim_str(line);
        if t.as_str().is_empty() {
            return Ok(false);
        }
        match split_once_str(line, ":") {
            Some((k, v)) => {
                match self.set_from_str(k.as_str(), v.as_str()) {
                    Ok(()) => Ok(true),
                    Err(e) => Err(e),
                }
            },
            None => Ok(true),
        }
    }

    /// The value of the cookie `name`, if the request set it.
    pub fn cookie(&self, name: &str) -> (r: Option<&String>)
        ensures
            match r {
                Some(v) => self@.cookies.contains_key(name@) && self@.cookies[name@] == v@,
                None => !self@.cookies.contains_key(name@),
            },
    {
        self.cookies.get(name)
    }
}

// ------------------------------------------------------------------
// Laws
// ------------------------------------------------------------------

/// White space in front of text that does not start with white space is
/// what `trim_start` removes.
pub proof fn lemma_trim_start_prefix(w: Seq<char>, x: Seq<char>)
    requires
        forall|i: int| 0 <= i < w.len() ==> is_white_space(#[trigger] w[i]),
        x.len() == 0 || !is_white_space(x[0]),
    ensures
        trim_start(w + x) == x,
    decreases w.len(),
{
    if w.len() == 0 {
        assert(w + x =~= x);
    } else {
        assert((w + x)[0] == w[0]);
        assert((w + x).drop_first() =~= w.drop_first() + x);
        lemma_trim_start_prefix(w.drop_first(), x);
    }
}

/// White space after text that does not end with white space is what
/// `trim_end` removes.
pub proof fn lemma_trim_end_suffix(x: Seq<char>, w: Seq<char>)
    requires
        forall|i: int| 0 <= i < w.len() ==> is_white_space(#[trigger] w[i]),
        x.len() == 0 || !is_white_space(x.last()),
    ensures
        trim_end(x + w) == x,
    decreases w.len(),
{
    if w.len() == 0 {
        assert(x + w =~= x);
    } else {
        assert((x + w).last() == w.last());
        assert((x + w).drop_last() =~= x + w.drop_last());
        lemma_trim_end_suffix(x, w.drop_last());
    }
}

/// Text without white space at either end is kept whole by `trim`.
pub proof fn lemma_trim_plain(x: Seq<char>)
    requires
        x.len() > 0,
        !is_white_space(x[0]),
        !is_white_space(x.last()),
    ensures
        trim(x) == x,
{
    lemma_trim_start_prefix(Seq::empty(), x);
    assert(Seq::<char>::empty() + x =~= x);
    lemma_trim_end_suffix(x, Seq::empty());
    assert(x + Seq::<char>::empty() =~= x);
}

/// When the first occurrence of `p` is at `j`, `find` says so.
pub proof fn lemma_find_at(s: Seq<char>, p: Seq<char>, i: int, j: int)
    requires
        0 <= i <= j,
        matches_at(s, p, j),
        forall|k: int| i <= k < j ==> !matches_at(s, p, k),
    ensures
        find_from(s, p, i) == Some(j),
    decreases j - i,
{
    if i < j {
        assert(!matches_at(s, p, i));
        lemma_find_at(s, p, i + 1, j);
    }
}

/// A character that does not occur is not found.
pub proof fn lemma_find_absent(s: Seq<char>, c: char)
    requires
        forall|k: int| 0 <= k < s.len() ==> s[k] != c,
    ensures
        find(s, seq![c]) is None,
{
    lemma_find_from(s, seq![c], 0);
    if let Some(j) = find(s, seq![c]) {
        assert(s.subrange(j, j + 1)[0] == s[j]);
    }
}

/// The value `v` of a `Content-Length` header line as a response writes it
/// (` ` + the length in decimal + CR LF) sets the content length to that
/// length: what the server announces, its header reader reads back.
pub proof fn law_content_length_roundtrip(h: HeadersView, n: u64)
    ensures
        apply_header(h, "content-length"@, " "@ + decimal(n as nat) + "\r\n"@) == Ok::<
            HeadersView,
            Seq<char>,
        >(HeadersView { content_length: Some(n), ..h }),
{
    reveal_strlit(" ");
    reveal_strlit("\r\n");
    reveal_strlit("content-length");
    reveal_strlit("content-type");
    reveal_strlit("cookie");
    let d = decimal(n as nat);
    lemma_decimal_digits(n as nat);
    assert(!is_white_space(d[0]));
    assert(!is_white_space(d.last()));
    let v = " "@ + d + "\r\n"@;
    assert(v =~= " "@ + (d + "\r\n"@));
    lemma_trim_start_prefix(" "@, d + "\r\n"@);
    lemma_trim_end_suffix(d, "\r\n"@);
    assert(trim(v) == d);
    law_parse_decimal(n as nat, u64::MAX as nat);
    assert("content-length"@.len() == 14);
    assert("content-length"@ != "content-type"@);
    assert("content-length"@[2] != "cookie"@[2]);
    assert("content-length"@ != "cookie"@);
    assert(parse_unsigned(trim(v), u64::MAX as nat) == Ok::<nat, crate::number::IntErrorKind>(n as nat));
}

/// The cookie header `token=<t>` for a token text `t` sets exactly the
/// cookie `token` to `t`.
pub proof fn law_token_cookie(t: Seq<char>)
    requires
        is_token_text(t),
    ensures
        cookies_of("token="@ + t) == Map::<Seq<char>, Seq<char>>::empty().insert("token"@, t),
{
    reveal_strlit("token=");
    reveal_strlit("token");
    reveal_strlit(";");
    reveal_strlit("=");
    let s = "token="@ + t;
    assert forall|k: int| 0 <= k < s.len() implies s[k] != ';' by {
        if k >= 6 {
            assert(s[k] == t[k - 6]);
            assert(is_alphanumeric(t[k - 6]));
        }
    }
    assert(";"@ == seq![';']);
    lemma_find_absent(s, ';');
    assert(split(s, ";"@) == seq![s.subrange(0, s.len() as int)]);
    assert(s.subrange(0, s.len() as int) == s);
    assert(seq![s].drop_last() =~= Seq::<Seq<char>>::empty());
    assert("="@ == seq!['=']);
    assert forall|k: int| 0 <= k < 5 implies !matches_at(s, "="@, k) by {
        assert(s.subrange(k, k + 1)[0] == s[k]);
    }
    assert(s.subrange(5, 6) =~= "="@);
    lemma_find_at(s, "="@, 0, 5);
    assert(s.subrange(0, 5) =~= "token"@);
    assert(s.subrange(6, s.len() as int) =~= t);
    lemma_trim_plain("token"@);
    assert(is_alphanumeric(t[0]));
    assert(is_alphanumeric(t.last()));
    lemma_trim_plain(t);
    assert(cookie_pair(s) == ("token"@, t));
    assert(seq![s].last() == s);
    assert(cookie_map(Seq::<Seq<char>>::empty()) == Map::<Seq<char>, Seq<char>>::empty());
    assert(cookie_map(seq![s]) == cookie_map(Seq::<Seq<char>>::empty()).insert("token"@, t));
    assert(cookies_of(s) =~= Map::<Seq<char>, Seq<char>>::empty().insert("token"@, t));
}

/// A piece `name=value` whose name holds no `=` is split at that first `=`:
/// the cookie is the trimmed name with the trimmed value, whatever the value
/// holds (`=` of base64 padding included).
pub proof fn law_cookie_pair_first_eq(name: Seq<char>, value: Seq<char>)
    requires
        forall|k: int| 0 <= k < name.len() ==> name[k] != '=',
    ensures
        cookie_pair(name + "="@ + value) == (trim(name), trim(value)),
{
    reveal_strlit("=");
    let s = name + "="@ + value;
    let n = name.len() as int;
    assert(s.subrange(n, n + 1) =~= "="@);
    assert(matches_at(s, "="@, n));
    assert forall|k: int| 0 <= k < n implies !matches_at(s, "="@, k) by {
        assert(s.subrange(k, k + 1)[0] == s[k]);
        assert(s[k] == name[k]);
    }
    lemma_find_at(s, "="@, 0, n);
    assert(s.subrange(0, n) =~= name);
    assert(s.subrange(n + 1, s.len() as int) =~= value);
}

/// A `Cookie` header that is one piece `name=value` (no `;` in it, no `=` in
/// the name) sets exactly one cookie: the trimmed name, with the trimmed
/// value.
pub proof fn law_cookie_single(name: Seq<char>, value: Seq<char>)
    requires
        forall|k: int| 0 <= k < name.len() ==> name[k] != '=' && name[k] != ';',
        forall|k: int| 0 <= k < value.len() ==> value[k] != ';',
    ensures
        cookies_of(name + "="@ + value) == Map::<Seq<char>, Seq<char>>::empty().insert(
            trim(name),
            trim(value),
        ),
{
    reveal_strlit(";");
    reveal_strlit("=");
    let s = name + "="@ + value;
    let n = name.len() as int;
    assert forall|k: int| 0 <= k < s.len() implies s[k] != ';' by {
        if k < n {
            assert(s[k] == name[k]);
        } else if k > n {
            assert(s[k] == value[k - n - 1]);
        }
    }
    assert(";"@ == seq![';']);
    lemma_find_absent(s, ';');
    assert(split(s, ";"@) == seq![s.subrange(0, s.len() as int)]);
    assert(s.subrange(0, s.len() as int) == s);
    assert(seq![s].drop_last() =~= Seq::<Seq<char>>::empty());
    law_cookie_pair_first_eq(name, value);
    assert(seq![s].last() == s);
    assert(cookie_map(Seq::<Seq<char>>::empty()) == Map::<Seq<char>, Seq<char>>::empty());
    assert(cookie_map(seq![s]) == cookie_map(Seq::<Seq<char>>::empty()).insert(
        trim(name),
        trim(value),
    ));
    assert(cookies_of(s) =~= Map::<Seq<char>, Seq<char>>::empty().insert(trim(name), trim(value)));
}

/// Of the pieces that name the same cookie, the last one gives its value:
/// the cookie named by piece `j` holds that piece's value when no later
/// piece names it again.
pub proof fn law_cookie_last_wins(pieces: Seq<Seq<char>>, j: int)
    requires
        0 <= j < pieces.len(),
        forall|i: int|
            j < i < pieces.len() ==> (#[trigger] cookie_pair(pieces[i])).0 != cookie_pair(
                pieces[j],
            ).0,
    ensures
        cookie_map(pieces).contains_key(cookie_pair(pieces[j]).0),
        cookie_map(pieces)[cookie_pair(pieces[j]).0] == cookie_pair(pieces[j]).1,
    decreases pieces.len(),
{
    let last = pieces.len() - 1;
    if j < last {
        let rest = pieces.drop_last();
        assert forall|i: int| j < i < rest.len() implies (#[trigger] cookie_pair(rest[i])).0
            != cookie_pair(rest[j]).0 by {
            assert(rest[i] == pieces[i]);
            assert(cookie_pair(pieces[i]).0 != cookie_pair(pieces[j]).0);
        }
        law_cookie_last_wins(rest, j);
        assert(rest[j] == pieces[j]);
        assert(cookie_pair(pieces[last]).0 != cookie_pair(pieces[j]).0);
    }
}

} // verus!
