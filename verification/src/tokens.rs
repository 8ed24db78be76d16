//! Session tokens: random alphanumeric strings that stay valid for ten
//! rounds of cleanup.

use vstd::prelude::*;
use vstd::hash_map::StringHashMap;
use vstd::utf8::encode_utf8;
use rand::distr::SampleString;
use vstd::utf8::{decode_utf8, valid_utf8};
use vstd::seq_lib::seq_to_set_is_finite;
use vstd::set_lib::{lemma_int_range, lemma_len_subset, lemma_map_size, set_int_range};
use crate::headers::{cookies_of, law_token_cookie, Headers};
use crate::number::{
    decimal, decimal_string, law_parse_padded_decimal, lemma_decimal_digits, lemma_decimal_len_u64,
};
use crate::text::{chars_of, push_str};

verus! {

/// How many cleanups a fresh token lives through, counting the one that
/// removes it.
pub const TOKEN_LIFETIME: u32 = 10;

/// How many characters a token has.
pub const TOKEN_LENGTH: usize = 32;

/// `c` is one of `A`-`Z`, `a`-`z`, `0`-`9`.
pub open spec fn is_alphanumeric(c: char) -> bool {
    let n = c as u32;
    (48 <= n <= 57) || (65 <= n <= 90) || (97 <= n <= 122)
}

/// A string of `TOKEN_LENGTH` ASCII letters and digits.
pub open spec fn is_token_text(t: Seq<char>) -> bool {
    t.len() == TOKEN_LENGTH && forall|i: int| 0 <= i < t.len() ==> is_alphanumeric(#[trigger] t[i])
}

/// `Alphanumeric.sample_string(&mut rand::rng(), len)`.  Claimed: the
/// result has `len` characters, each an ASCII letter or digit (the
/// distribution samples from `A-Z`, `a-z` and `0-9` only).  Which string
/// comes out is left open: it is drawn from the thread's random generator.
#[verifier::external_body]
fn random_alphanumeric(len: usize) -> (t: String)
    ensures
        t@.len() == len,
        forall|i: int| 0 <= i < t@.len() ==> is_alphanumeric(#[trigger] t@[i]),
{
    rand::distr::Alphanumeric.sample_string(&mut rand::rng(), len)
}

/// The `n`-th numbered token: `n` in decimal, with zeros in front to make
/// it `TOKEN_LENGTH` characters long.
pub open spec fn numbered_token(n: nat) -> Seq<char> {
    Seq::new((TOKEN_LENGTH - decimal(n).len()) as nat, |i: int| '0') + decimal(n)
}

/// Numbered tokens of `u64` numbers are token texts, and different numbers
/// give different tokens.
pub proof fn lemma_numbered_token_injective(n: nat, m: nat)
    requires
        n <= u64::MAX,
        m <= u64::MAX,
    ensures
        is_token_text(numbered_token(n)),
        numbered_token(n) == numbered_token(m) ==> n == m,
{
    lemma_decimal_len_u64(n);
    lemma_decimal_len_u64(m);
    lemma_decimal_digits(n);
    law_parse_padded_decimal((TOKEN_LENGTH - decimal(n).len()) as nat, n, u64::MAX as nat);
    law_parse_padded_decimal((TOKEN_LENGTH - decimal(m).len()) as nat, m, u64::MAX as nat);
    let t = numbered_token(n);
    let z = (TOKEN_LENGTH - decimal(n).len()) as int;
    assert forall|i: int| 0 <= i < t.len() implies is_alphanumeric(#[trigger] t[i]) by {
        if i >= z {
            assert(t[i] == decimal(n)[i - z]);
            assert(crate::number::is_digit(decimal(n)[i - z]));
        } else {
            assert(t[i] == '0');
        }
    }
}

/// The `n`-th numbered token.
fn numbered_token_text(n: u64) -> (t: String)
    ensures
        t@ == numbered_token(n as nat),
{
    let digits = decimal_string(n);
    let count = chars_of(digits.as_str()).len();
    proof {
        lemma_decimal_len_u64(n as nat);
    }
    let mut t = String::new();
    let mut i: usize = count;
    while i < TOKEN_LENGTH
        invariant
            count <= i <= TOKEN_LENGTH,
            count == decimal(n as nat).len(),
            t@ == Seq::new((i - count) as nat, |k: int| '0'),
        decreases TOKEN_LENGTH - i,
    {
        let ghost before = t@;
        push_str(&mut t, "0");
        proof {
            reveal_strlit("0");
        }
        assert(t@ =~= Seq::new((i + 1 - count) as nat, |k: int| '0'));
        i += 1;
    }
    push_str(&mut t, digits.as_str());
    t
}

struct Token {
    expires: u32,
}

/// The live session tokens, each with the number of cleanups it has left.
pub struct Tokens {
    ls: StringHashMap<Token>,
    keys: Vec<String>,
}

impl View for Tokens {
    type V = Map<Seq<char>, u32>;

    closed spec fn view(&self) -> Map<Seq<char>, u32> {
        self.ls@.map_values(|t: Token| t.expires)
    }
}

/// What one cleanup does to the tokens: each has one round less, and those
/// with no round left are gone.
pub open spec fn after_cleanup(m: Map<Seq<char>, u32>) -> Map<Seq<char>, u32> {
    Map::new(|k: Seq<char>| m.contains_key(k) && m[k] > 1, |k: Seq<char>| (m[k] - 1) as u32)
}

/// The tokens after `n` cleanups.
pub open spec fn after_cleanups(m: Map<Seq<char>, u32>, n: nat) -> Map<Seq<char>, u32>
    decreases n,
{
    if n == 0 {
        m
    } else {
        after_cleanup(after_cleanups(m, (n - 1) as nat))
    }
}

impl Tokens {
    /// The tokens are well formed: the key list names each token once, and
    /// every token has between one and `TOKEN_LIFETIME` rounds left.
    pub closed spec fn wf(&self) -> bool {
        &&& forall|i: int, j: int|
            0 <= i < j < self.keys@.len() ==> #[trigger] self.keys@[i]@ != #[trigger] self.keys@[j]@
        &&& forall|i: int| 0 <= i < self.keys@.len() ==> self.ls@.contains_key(#[trigger] self.keys@[i]@)
        &&& forall|k: Seq<char>| #[trigger] self.ls@.contains_key(k) ==> exists|i: int|
            0 <= i < self.keys@.len() && #[trigger] self.keys@[i]@ == k
        &&& forall|k: Seq<char>| #[trigger] self.ls@.contains_key(k) ==> 1 <= self.ls@[k].expires <= TOKEN_LIFETIME
    }

    /// Every token of well-formed tokens has between one and
    /// `TOKEN_LIFETIME` rounds left.
    pub proof fn law_rounds_in_range(&self)
        requires
            self.wf(),
        ensures
            forall|k: Seq<char>| #[trigger] self@.contains_key(k) ==> 1 <= self@[k] <= TOKEN_LIFETIME,
    {
    }

    /// No tokens.
    pub fn new() -> (t: Tokens)
        ensures
            t.wf(),
            t@ == Map::<Seq<char>, u32>::empty(),
    {
        let t = Tokens { ls: StringHashMap::new(), keys: Vec::new() };
        assert(t@ =~= Map::<Seq<char>, u32>::empty());
        t
    }

    /// `Some(())` exactly when `token` is a live token.
    pub fn get(&self, token: &str) -> (r: Option<()>)
        ensures
            r is Some <==> self@.contains_key(token@),
    {
        if self.ls.contains_key(token) {
            Some(())
        } else {
            None
        }
    }

    /// Adds `candidate` as a token with `TOKEN_LIFETIME` rounds, unless it is
    /// a live token already; says whether it was added.
    pub fn issue(&mut self, candidate: String) -> (added: bool)
        requires
            old(self).wf(),
        ensures
            final(self).wf(),
            added == !old(self)@.contains_key(candidate@),
            added ==> final(self)@ == old(self)@.insert(candidate@, TOKEN_LIFETIME),
            !added ==> final(self)@ == old(self)@,
    {
        if self.ls.contains_key(candidate.as_str()) {
            return false;
        }
        let ghost old_keys = self.keys@;
        let key = candidate.clone();
        self.ls.insert(candidate, Token { expires: TOKEN_LIFETIME });
        self.keys.push(key);
        proof {
            assert(self.keys@.last()@ == key@);
            assert forall|k: Seq<char>| #[trigger] self.ls@.contains_key(k) implies exists|i: int|
                0 <= i < self.keys@.len() && #[trigger] self.keys@[i]@ == k by {
                if k != key@ {
                    let i = choose|i: int| 0 <= i < old_keys.len() && #[trigger] old_keys[i]@ == k;
                    assert(self.keys@[i] == old_keys[i]);
                } else {
                    assert(self.keys@[old_keys.len() as int]@ == k);
                }
            }
            assert forall|i: int, j: int|
                0 <= i < j < self.keys@.len() implies #[trigger] self.keys@[i]@ != #[trigger] self.keys@[j]@ by {
                if j == old_keys.len() {
                    assert(self.keys@[i] == old_keys[i]);
                } else {
                    assert(self.keys@[i] == old_keys[i]);
                    assert(self.keys@[j] == old_keys[j]);
                }
            }
            assert forall|i: int| 0 <= i < self.keys@.len() implies self.ls@.contains_key(#[trigger] self.keys@[i]@) by {
                if i < old_keys.len() {
                    assert(self.keys@[i] == old_keys[i]);
                }
            }
        }
        assert(self@ =~= old(self)@.insert(key@, TOKEN_LIFETIME));
        true
    }

    /// Takes one round from every token and drops those with none left.
    pub fn cleanup(&mut self)
        requires
            old(self).wf(),
        ensures
            final(self).wf(),
            final(self)@ == after_cleanup(old(self)@),
    {
        let ghost old_m = self@;
        let mut ls: StringHashMap<Token> = StringHashMap::new();
        let mut keys: Vec<String> = Vec::new();
        let n = self.keys.len();
        let mut i: usize = 0;
        while i < n
            invariant
                self.wf(),
                old_m == self@,
                n == self.keys@.len(),
                0 <= i <= n,
                forall|a: int, b: int|
                    0 <= a < b < keys@.len() ==> #[trigger] keys@[a]@ != #[trigger] keys@[b]@,
                forall|a: int| 0 <= a < keys@.len() ==> ls@.contains_key(#[trigger] keys@[a]@),
                forall|k: Seq<char>| #[trigger] ls@.contains_key(k) ==> exists|a: int|
                    0 <= a < keys@.len() && #[trigger] keys@[a]@ == k,
                forall|k: Seq<char>| #[trigger] ls@.contains_key(k) ==> exists|j: int|
                    0 <= j < i && #[trigger] self.keys@[j]@ == k,
                forall|j: int|
                    0 <= j < i && old_m[#[trigger] self.keys@[j]@] > 1 ==> ls@.contains_key(
                        self.keys@[j]@,
                    ),
                forall|k: Seq<char>| #[trigger] ls@.contains_key(k) ==> old_m.contains_key(k)
                    && old_m[k] > 1 && ls@[k].expires == old_m[k] - 1,
            decreases n - i,
        {
            let key = &self.keys[i];
            assert(self.ls@.contains_key(key@));
            let e = match self.ls.get(key.as_str()) {
                Some(t) => t.expires,
                None => 0,
            };
            assert(e == old_m[key@]);
            if e > 1 {
                proof {
                    assert forall|a: int| 0 <= a < keys@.len() implies #[trigger] keys@[a]@ != key@ by {
                        let k = keys@[a]@;
                        assert(ls@.contains_key(k));
                        let j = choose|j: int| 0 <= j < i && #[trigger] self.keys@[j]@ == k;
                        assert(self.keys@[j]@ != self.keys@[i as int]@);
                    }
                }
                let ghost old_keys = keys@;
                let ghost old_ls = ls@;
                ls.insert(key.clone(), Token { expires: e - 1 });
                keys.push(key.clone());
                proof {
                    assert(keys@.last()@ == key@);
                    assert forall|a: int, b: int|
                        0 <= a < b < keys@.len() implies #[trigger] keys@[a]@ != #[trigger] keys@[b]@ by {
                        assert(keys@[a] == old_keys[a]);
                        if b < old_keys.len() {
                            assert(keys@[b] == old_keys[b]);
                        }
                    }
                    assert forall|a: int| 0 <= a < keys@.len() implies ls@.contains_key(#[trigger] keys@[a]@) by {
                        if a < old_keys.len() {
                            assert(keys@[a] == old_keys[a]);
                        }
                    }
                    assert forall|k: Seq<char>| #[trigger] ls@.contains_key(k) implies exists|a: int|
                        0 <= a < keys@.len() && #[trigger] keys@[a]@ == k by {
                        if k == key@ {
                            assert(keys@[old_keys.len() as int]@ == k);
                        } else {
                            assert(old_ls.contains_key(k));
                            let a = choose|a: int| 0 <= a < old_keys.len() && #[trigger] old_keys[a]@ == k;
                            assert(keys@[a] == old_keys[a]);
                        }
                    }
                    assert forall|k: Seq<char>| #[trigger] ls@.contains_key(k) implies exists|j: int|
                        0 <= j < i + 1 && #[trigger] self.keys@[j]@ == k by {
                        if k == key@ {
                            assert(self.keys@[i as int]@ == k);
                        } else {
                            assert(old_ls.contains_key(k));
                            let j = choose|j: int| 0 <= j < i && #[trigger] self.keys@[j]@ == k;
                        }
                    }
                }
            }
            i += 1;
        }
        let ghost new_ls = ls@;
        let ghost new_keys = keys@;
        self.ls = ls;
        self.keys = keys;
        proof {
            assert forall|k: Seq<char>| #[trigger] self.ls@.contains_key(k) implies 1 <= self.ls@[k].expires <= TOKEN_LIFETIME by {
                assert(old_m.contains_key(k));
                assert(old(self).ls@.contains_key(k));
                assert(old_m[k] == old(self).ls@[k].expires);
            }
            assert(forall|a: int, b: int|
                0 <= a < b < self.keys@.len() ==> #[trigger] self.keys@[a]@ != #[trigger] self.keys@[b]@);
            assert(forall|a: int| 0 <= a < self.keys@.len() ==> self.ls@.contains_key(#[trigger] self.keys@[a]@));
            assert forall|k: Seq<char>| #[trigger] self.ls@.contains_key(k) implies exists|i: int|
                0 <= i < self.keys@.len() && #[trigger] self.keys@[i]@ == k by {
                assert(new_ls.contains_key(k));
                let a = choose|a: int| 0 <= a < new_keys.len() && #[trigger] new_keys[a]@ == k;
                assert(self.keys@[a]@ == k);
            }
            assert forall|k: Seq<char>| old_m.contains_key(k) && old_m[k] > 1 implies #[trigger] self.ls@.contains_key(k) by {
                assert(old(self).ls@.contains_key(k));
                let j = choose|j: int| 0 <= j < old(self).keys@.len() && #[trigger] old(self).keys@[j]@ == k;
                assert(old_m[old(self).keys@[j]@] > 1);
            }
            assert(self@ =~= after_cleanup(old_m));
        }
    }

    /// Issues a fresh token with `TOKEN_LIFETIME` rounds and returns it.  The
    /// token is drawn at random, and drawn again while it is a live token
    /// already.  Should `u64::MAX` draws in a row all be live tokens, the
    /// first numbered token (`numbered_token`) that is not live is issued:
    /// one always is, as there are more of them than live tokens.
    pub fn new_token(&mut self) -> (t: String)
        requires
            old(self).wf(),
        ensures
            final(self).wf(),
            is_token_text(t@),
            !old(self)@.contains_key(t@),
            final(self)@ == old(self)@.insert(t@, TOKEN_LIFETIME),
    {
        let mut attempts: u64 = 0;
        while attempts < u64::MAX
            invariant
                self.wf(),
                self@ == old(self)@,
            decreases u64::MAX - attempts,
        {
            let candidate = random_alphanumeric(TOKEN_LENGTH);
            if self.get(candidate.as_str()).is_none() {
                let t = candidate.clone();
                let _ = self.issue(candidate);
                return t;
            }
            attempts += 1;
        }
        self.issue_numbered()
    }

    /// Issues the first numbered token that is not live.
    fn issue_numbered(&mut self) -> (t: String)
        requires
            old(self).wf(),
        ensures
            final(self).wf(),
            is_token_text(t@),
            !old(self)@.contains_key(t@),
            final(self)@ == old(self)@.insert(t@, TOKEN_LIFETIME),
    {
        let count = self.keys.len();
        let mut n: usize = 0;
        loop
            invariant
                self.wf(),
                self@ == old(self)@,
                count == self.keys@.len(),
                n <= count,
                forall|m: nat| m < n ==> #[trigger] self@.contains_key(numbered_token(m)),
            decreases count - n,
        {
            let candidate = numbered_token_text(n as u64);
            proof {
                lemma_numbered_token_injective(n as nat, n as nat);
            }
            if self.get(candidate.as_str()).is_none() {
                let t = candidate.clone();
                let _ = self.issue(candidate);
                return t;
            }
            if n == count {
                proof {
                    self.lemma_numbered_token_free();
                    assert forall|m: nat| m <= count implies #[trigger] self@.contains_key(numbered_token(m)) by {
                        if m == count {
                            assert(candidate@ == numbered_token(m));
                        }
                    }
                    let free = choose|m: nat| m <= count && !self@.contains_key(numbered_token(m));
                    assert(self@.contains_key(numbered_token(free)));
                }
                let t = candidate.clone();
                let _ = self.issue(candidate);
                return t;
            }
            n += 1;
        }
    }

    /// More numbered tokens than live tokens: among the first `keys.len() + 1`
    /// one is not live.
    proof fn lemma_numbered_token_free(&self)
        requires
            self.wf(),
            self.keys@.len() <= usize::MAX,
        ensures
            exists|m: nat| m <= self.keys@.len() && !self@.contains_key(#[trigger] numbered_token(m)),
    {
        let count = self.keys@.len();
        let kv = self.keys@.map_values(|k: String| k@);
        if forall|m: nat| m <= count ==> self@.contains_key(#[trigger] numbered_token(m)) {
            let x = set_int_range(0, count as int + 1);
            let f = |i: int| numbered_token(i as nat);
            lemma_int_range(0, count as int + 1);
            assert forall|i: int, j: int| x.contains(i) && x.contains(j) && #[trigger] f(i) == #[trigger] f(j) implies i == j by {
                lemma_numbered_token_injective(i as nat, j as nat);
            }
            lemma_map_size(x, x.map(f), f);
            assert forall|k: Seq<char>| #[trigger] x.map(f).contains(k) implies kv.to_set().contains(k) by {
                let i = choose|i: int| x.contains(i) && f(i) == k;
                assert(self@.contains_key(numbered_token(i as nat)));
                assert(self.ls@.contains_key(k));
                let a = choose|a: int| 0 <= a < self.keys@.len() && #[trigger] self.keys@[a]@ == k;
                assert(kv[a] == k);
            }
            seq_to_set_is_finite(kv);
            kv.lemma_cardinality_of_set();
            lemma_len_subset(x.map(f), kv.to_set());
            assert(false);
        }
    }

    /// Answers a login whose request body is `body`: when the body is the
    /// UTF-8 encoding of the password, a fresh token is issued and returned;
    /// otherwise nothing changes.
    pub fn login(&mut self, body: &[u8], passwd: &str) -> (r: Option<String>)
        requires
            old(self).wf(),
        ensures
            final(self).wf(),
            r is Some <==> body@ == encode_utf8(passwd@),
            match r {
                Some(t) => is_token_text(t@) && !old(self)@.contains_key(t@) && final(self)@
                    == old(self)@.insert(t@, TOKEN_LIFETIME),
                None => final(self)@ == old(self)@,
            },
    {
        if password_matches(body, passwd) {
            Some(self.new_token())
        } else {
            None
        }
    }
}

/// Whether the body of a login request is the password: the body decodes as
/// UTF-8 to the password exactly when it is the password's encoding.
pub fn password_matches(body: &[u8], passwd: &str) -> (r: bool)
    ensures
        r == (body@ == encode_utf8(passwd@)),
{
    let expected = passwd.as_bytes();
    if body.len() != expected.len() {
        return false;
    }
    let mut i: usize = 0;
    while i < body.len()
        invariant
            body@.len() == expected@.len(),
            expected@ == encode_utf8(passwd@),
            0 <= i <= body@.len(),
            forall|j: int| 0 <= j < i ==> body@[j] == expected@[j],
        decreases body@.len() - i,
    {
        if body[i] != expected[i] {
            return false;
        }
        i += 1;
    }
    assert(body@ =~= expected@);
    true
}

/// Whether a request carries a `token` cookie that is a live token.
pub fn is_authorized(headers: &Headers, tokens: &Tokens) -> (r: bool)
    ensures
        r == (headers@.cookies.contains_key("token"@) && tokens@.contains_key(
            headers@.cookies["token"@],
        )),
{
    match headers.cookie("token") {
        Some(t) => tokens.get(t.as_str()).is_some(),
        None => false,
    }
}

/// A token with `e` rounds left is live through the next `e - 1` cleanups,
/// with one round less after each, and gone after the `e`-th.
pub proof fn law_token_lifetime(m: Map<Seq<char>, u32>, t: Seq<char>, n: nat)
    requires
        m.contains_key(t),
        m[t] >= 1,
    ensures
        after_cleanups(m, n).contains_key(t) <==> n < m[t],
        n < m[t] ==> after_cleanups(m, n)[t] == m[t] - n,
    decreases n,
{
    if n > 0 {
        law_token_lifetime(m, t, (n - 1) as nat);
    }
}

/// A fresh token is live through `TOKEN_LIFETIME - 1` cleanups and gone
/// after the next one.
pub proof fn law_fresh_token_lifetime(m: Map<Seq<char>, u32>, t: Seq<char>, n: nat)
    ensures
        after_cleanups(m.insert(t, TOKEN_LIFETIME), n).contains_key(t) <==> n < TOKEN_LIFETIME,
{
    law_token_lifetime(m.insert(t, TOKEN_LIFETIME), t, n);
}

/// Cleanup never adds a token, and leaves no token with zero rounds.
pub proof fn law_cleanup_only_removes(m: Map<Seq<char>, u32>)
    ensures
        after_cleanup(m).dom().subset_of(m.dom()),
        forall|k: Seq<char>| #[trigger] after_cleanup(m).contains_key(k) ==> after_cleanup(m)[k] >= 1,
{
}

/// The byte comparison of a login is the same test as decoding the body as
/// UTF-8 and comparing the text with the password.
pub proof fn law_password_match_is_decoding(body: Seq<u8>, passwd: Seq<char>)
    ensures
        (valid_utf8(body) && decode_utf8(body) == passwd) <==> body == encode_utf8(passwd),
{
    vstd::utf8::encode_utf8_valid_utf8(passwd);
    vstd::utf8::encode_utf8_decode_utf8(passwd);
    if valid_utf8(body) {
        vstd::utf8::decode_utf8_encode_utf8(body);
    }
}

/// After a login issued the token `t`, a request that carries the cookie
/// `token=<t>` is authorized through the next `TOKEN_LIFETIME - 1`
/// cleanups, and no longer after the one that follows.
pub proof fn law_login_session(m: Map<Seq<char>, u32>, t: Seq<char>, n: nat)
    requires
        is_token_text(t),
    ensures
        ({
            let cookies = cookies_of("token="@ + t);
            let live = after_cleanups(m.insert(t, TOKEN_LIFETIME), n);
            (cookies.contains_key("token"@) && live.contains_key(cookies["token"@])) <==> n
                < TOKEN_LIFETIME
        }),
{
    law_token_cookie(t);
    law_fresh_token_lifetime(m, t, n);
}

/// What happens to the tokens between two requests: a cleanup, or the
/// issue of a fresh token (by `new_token` or `login`).
pub enum TokenEvent {
    Cleanup,
    Issued(Seq<char>),
}

/// The tokens after the events `evs`, in order.
pub open spec fn after_events(m: Map<Seq<char>, u32>, evs: Seq<TokenEvent>) -> Map<Seq<char>, u32>
    decreases evs.len(),
{
    if evs.len() == 0 {
        m
    } else {
        let before = after_events(m, evs.drop_last());
        match evs.last() {
            TokenEvent::Cleanup => after_cleanup(before),
            TokenEvent::Issued(u) => before.insert(u, TOKEN_LIFETIME),
        }
    }
}

/// How many cleanups the events hold.
pub open spec fn cleanups(evs: Seq<TokenEvent>) -> nat
    decreases evs.len(),
{
    if evs.len() == 0 {
        0
    } else {
        cleanups(evs.drop_last()) + if evs.last() is Cleanup {
            1nat
        } else {
            0nat
        }
    }
}

/// A token with `e` rounds left stays live through the next `e - 1`
/// cleanups, whatever other tokens are issued in between, and is gone after
/// the `e`-th.
pub proof fn law_token_lifetime_among(m: Map<Seq<char>, u32>, t: Seq<char>, evs: Seq<TokenEvent>)
    requires
        m.contains_key(t),
        m[t] >= 1,
        forall|i: int| 0 <= i < evs.len() ==> #[trigger] evs[i] != TokenEvent::Issued(t),
    ensures
        after_events(m, evs).contains_key(t) <==> cleanups(evs) < m[t],
        cleanups(evs) < m[t] ==> after_events(m, evs)[t] == m[t] - cleanups(evs),
    decreases evs.len(),
{
    if evs.len() > 0 {
        let rest = evs.drop_last();
        assert forall|i: int| 0 <= i < rest.len() implies #[trigger] rest[i] != TokenEvent::Issued(t) by {
            assert(rest[i] == evs[i]);
        }
        law_token_lifetime_among(m, t, rest);
        assert(evs[evs.len() - 1] != TokenEvent::Issued(t));
    }
}

/// A token issued by a login is accepted through the next
/// `TOKEN_LIFETIME - 1` cleanups, whatever other tokens are issued in
/// between, and refused after the one that follows.
pub proof fn law_issued_token_lifetime_among(m: Map<Seq<char>, u32>, t: Seq<char>, evs: Seq<TokenEvent>)
    requires
        forall|i: int| 0 <= i < evs.len() ==> #[trigger] evs[i] != TokenEvent::Issued(t),
    ensures
        after_events(m.insert(t, TOKEN_LIFETIME), evs).contains_key(t) <==> cleanups(evs)
            < TOKEN_LIFETIME,
{
    law_token_lifetime_among(m.insert(t, TOKEN_LIFETIME), t, evs);
}

} // verus!
