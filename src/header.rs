use vstd::prelude::*;
use crate::text::{chars_of, string_of, find_from, find_char, trim, trimmed_string};

verus! {

/// One raw `Name: Value` header, as given by an operator or a controller.
#[derive(Debug, Clone, Default)]
pub struct HeadersPair {
    pub key: String,
    pub value: String,
}

/// Why a raw header line was refused.
#[derive(Debug, Clone)]
pub enum HeadersParseError {
    /// The line holds no `:`; the line itself is kept.
    InvalidFormat(String),
}

impl HeadersParseError {
    /// The line that was refused.
    pub fn line(&self) -> (r: &String)
        ensures
            self matches HeadersParseError::InvalidFormat(l) && r == l,
    {
        match self {
            HeadersParseError::InvalidFormat(l) => l,
        }
    }
}

/// A header line split at its first `:`, both sides trimmed; `None` when it has no `:`.
pub open spec fn split_header(s: Seq<char>) -> Option<(Seq<char>, Seq<char>)> {
    let i = find_from(s, 0, ':');
    if i >= s.len() {
        None
    } else {
        Some((trim(s.take(i)), trim(s.skip(i + 1))))
    }
}

impl HeadersPair {
    /// Parses `Name: Value`: the text before the first `:` is the name, the
    /// rest the value, both trimmed of whitespace.
    pub fn from_str(s: &str) -> (r: Result<HeadersPair, HeadersParseError>)
        ensures
            match split_header(s@) {
                Some((k, v)) => r matches Ok(p) && p.key@ == k && p.value@ == v,
                None => r matches Err(HeadersParseError::InvalidFormat(l)) && l@ == s@,
            },
    {
        let t = chars_of(s);
        let i = find_char(&t, 0, ':');
        if i >= t.len() {
            return Err(HeadersParseError::InvalidFormat(string_of(&t)));
        }
        let key = trimmed_string(&t, 0, i);
        let value = trimmed_string(&t, i + 1, t.len());
        assert(t@.subrange(0, i as int) =~= t@.take(i as int));
        assert(t@.subrange(i + 1, t@.len() as int) =~= t@.skip(i + 1));
        Ok(HeadersPair { key, value })
    }
}

/// `c` with an ASCII capital turned to lower case.
pub open spec fn lower_char(c: char) -> char {
    if 'A' <= c <= 'Z' {
        ((c as u32) + 32) as char
    } else {
        c
    }
}

pub open spec fn ascii_lower(s: Seq<char>) -> Seq<char> {
    s.map_values(|c: char| lower_char(c))
}

fn lower_char_exec(c: char) -> (r: char)
    ensures
        r == lower_char(c),
{
    if 'A' <= c && c <= 'Z' {
        ((c as u8) + 32) as char
    } else {
        c
    }
}

fn ascii_lower_exec(v: &Vec<char>) -> (r: Vec<char>)
    ensures
        r@ == ascii_lower(v@),
{
    let mut r: Vec<char> = Vec::new();
    let mut i: usize = 0;
    while i < v.len()
        invariant
            i <= v@.len(),
            r@ == ascii_lower(v@.take(i as int)),
        decreases v@.len() - i,
    {
        r.push(lower_char_exec(v[i]));
        i = i + 1;
        assert(r@ =~= ascii_lower(v@.take(i as int)));
    }
    assert(v@.take(v@.len() as int) =~= v@);
    r
}

/// Whether `v` holds exactly the characters of `lit`.
fn eq_str(v: &Vec<char>, lit: &str) -> (r: bool)
    ensures
        r == (v@ == lit@),
{
    let n = lit.unicode_len();
    if v.len() != n {
        return false;
    }
    let mut i: usize = 0;
    while i < n
        invariant
            i <= n,
            n == v@.len(),
            n == lit@.len(),
            forall|k: int| 0 <= k < i ==> v@[k] == lit@[k],
        decreases n - i,
    {
        if v[i] != lit.get_char(i) {
            return false;
        }
        i = i + 1;
    }
    assert(v@ =~= lit@);
    true
}

/// Whether `pat` occurs in `s`.
pub open spec fn contains_seq(s: Seq<char>, pat: Seq<char>) -> bool {
    exists|i: int| 0 <= i && i + pat.len() <= s.len() && #[trigger] s.subrange(i, i + pat.len()) == pat
}

/// Whether `pat` occurs in `v`.
fn contains_str(v: &Vec<char>, pat: &str) -> (r: bool)
    ensures
        r == contains_seq(v@, pat@),
{
    let n = pat.unicode_len();
    if n > v.len() {
        return false;
    }
    let len = v.len();
    let mut i: usize = 0;
    while i <= len - n
        invariant
            n == pat@.len(),
            len == v@.len(),
            n <= v@.len(),
            i <= v@.len() - n + 1,
            forall|k: int| 0 <= k < i ==> #[trigger] v@.subrange(k, k + n) != pat@,
        decreases v@.len() - i,
    {
        let mut j: usize = 0;
        while j < n && v[i + j] == pat.get_char(j)
            invariant
                j <= n,
                n == pat@.len(),
                len == v@.len(),
                i + n <= len,
                forall|m: int| 0 <= m < j ==> v@[i + m] == pat@[m],
            decreases n - j,
        {
            j = j + 1;
        }
        if j == n {
            assert(v@.subrange(i as int, i + n) =~= pat@);
            return true;
        }
        assert(v@.subrange(i as int, i + n)[j as int] != pat@[j as int]);
        i = i + 1;
    }
    false
}

/// Whether a header name is accepted by the HTTP header map: 1 to 65535
/// characters, each a token character (letters, digits, ``!#$%&'*+-.^_`|~``).
pub open spec fn is_header_name(s: Seq<char>) -> bool {
    &&& 0 < s.len() <= 65535
    &&& forall|i: int| 0 <= i < s.len() ==> is_token_char(#[trigger] s[i])
}

pub open spec fn is_token_char(c: char) -> bool {
    ||| 'a' <= c <= 'z'
    ||| 'A' <= c <= 'Z'
    ||| '0' <= c <= '9'
    ||| c == '!' || c == '#' || c == '$' || c == '%' || c == '&' || c == '\''
    ||| c == '*' || c == '+' || c == '-' || c == '.' || c == '^' || c == '_'
    ||| c == '`' || c == '|' || c == '~'
}

/// Whether a header value is accepted: no control character but tab, and no DEL.
pub open spec fn is_header_value(s: Seq<char>) -> bool {
    forall|i: int| 0 <= i < s.len() ==> {
        let x = #[trigger] s[i] as u32;
        (x >= 32 && x != 127) || x == 9
    }
}

/// Relies on `HeaderName::from_str` (http, through reqwest): it accepts a name
/// exactly when it is 1 to 65535 bytes of its token table.
#[verifier::external_body]
fn header_name_valid(name: &str) -> (r: bool)
    ensures
        r == is_header_name(name@),
{
    <reqwest::header::HeaderName as std::str::FromStr>::from_str(name).is_ok()
}

/// Relies on `HeaderValue::from_str` (http, through reqwest): it accepts a
/// value exactly when no byte is a control byte other than tab, or DEL.
#[verifier::external_body]
fn header_value_valid(value: &str) -> (r: bool)
    ensures
        r == is_header_value(value@),
{
    reqwest::header::HeaderValue::from_str(value).is_ok()
}

/// The settings drawn from a list of raw headers, as mathematics sees them.
pub struct HeadersView {
    pub user_agent: Option<Seq<char>>,
    pub gzip: bool,
    pub deflate: bool,
    pub cookie: Option<Seq<char>>,
    /// Headers sent with every request, names in lower case and distinct, in
    /// the order each name first appeared; a later header replaces the value
    /// of an earlier one of the same name.
    pub other: Seq<(Seq<char>, Seq<char>)>,
}

pub open spec fn empty_headers() -> HeadersView {
    HeadersView { user_agent: None, gzip: false, deflate: false, cookie: None, other: Seq::empty() }
}

/// The settings after header `(k, v)`. The names `user-agent`,
/// `accept-encoding` and `cookie`, in any case, set the special fields; other
/// headers with a valid name and value join the residual list; the rest are
/// dropped.
pub open spec fn apply_header(c: HeadersView, k: Seq<char>, v: Seq<char>) -> HeadersView {
    let lk = ascii_lower(k);
    if lk == "user-agent"@ {
        HeadersView { user_agent: Some(v), ..c }
    } else if lk == "accept-encoding"@ {
        HeadersView { gzip: contains_seq(v, "gzip"@), deflate: contains_seq(v, "deflate"@), ..c }
    } else if lk == "cookie"@ {
        HeadersView { cookie: Some(v), ..c }
    } else if is_header_name(k) && is_header_value(v) {
        HeadersView { other: upsert(c.other, lk, v), ..c }
    } else {
        c
    }
}

/// The first index at or after `i` of an entry named `k`, or `o.len()`.
pub open spec fn key_index(o: Seq<(Seq<char>, Seq<char>)>, k: Seq<char>, i: int) -> int
    decreases o.len() - i,
{
    if i < 0 || i >= o.len() {
        o.len() as int
    } else if o[i].0 == k {
        i
    } else {
        key_index(o, k, i + 1)
    }
}

/// `o` with the entry named `k` set to `v`, or `(k, v)` added at the end.
pub open spec fn upsert(o: Seq<(Seq<char>, Seq<char>)>, k: Seq<char>, v: Seq<char>) -> Seq<(Seq<char>, Seq<char>)> {
    let i = key_index(o, k, 0);
    if i < o.len() {
        o.update(i, (k, v))
    } else {
        o.push((k, v))
    }
}

/// Whether no two entries of `o` have the same name.
pub open spec fn distinct_keys(o: Seq<(Seq<char>, Seq<char>)>) -> bool {
    forall|i: int, j: int| 0 <= i < j < o.len() ==> o[i].0 != o[j].0
}

proof fn lemma_key_index(o: Seq<(Seq<char>, Seq<char>)>, k: Seq<char>, i: int)
    requires
        0 <= i <= o.len(),
    ensures
        i <= key_index(o, k, i) <= o.len(),
        key_index(o, k, i) < o.len() ==> o[key_index(o, k, i)].0 == k,
        forall|j: int| i <= j < key_index(o, k, i) ==> o[j].0 != k,
    decreases o.len() - i,
{
    if i < o.len() && o[i].0 != k {
        lemma_key_index(o, k, i + 1);
    }
}

proof fn lemma_upsert(o: Seq<(Seq<char>, Seq<char>)>, k: Seq<char>, v: Seq<char>)
    requires
        distinct_keys(o),
        forall|i: int| 0 <= i < o.len() ==> !is_special_name(#[trigger] o[i].0),
        !is_special_name(k),
    ensures
        distinct_keys(upsert(o, k, v)),
        forall|i: int| 0 <= i < upsert(o, k, v).len() ==> !is_special_name(#[trigger] upsert(o, k, v)[i].0),
{
    lemma_key_index(o, k, 0);
    let u = upsert(o, k, v);
    let x = key_index(o, k, 0);
    assert forall|i: int| 0 <= i < u.len() implies !is_special_name(#[trigger] u[i].0) by {
        if i < o.len() && i != x {
            assert(u[i] == o[i]);
        }
    }
    assert forall|i: int, j: int| 0 <= i < j < u.len() implies u[i].0 != u[j].0 by {
        if x < o.len() {
            if i == x {
                assert(u[j] == o[j]);
            } else if j == x {
                assert(u[i] == o[i]);
            } else {
                assert(u[i] == o[i] && u[j] == o[j]);
            }
        } else {
            if j == o.len() {
                assert(u[i] == o[i]);
            } else {
                assert(u[i] == o[i] && u[j] == o[j]);
            }
        }
    }
}

/// The settings drawn from the headers `hs`, in order.
pub open spec fn headers_of(hs: Seq<(Seq<char>, Seq<char>)>) -> HeadersView
    decreases hs.len(),
{
    if hs.len() == 0 {
        empty_headers()
    } else {
        let l = hs.last();
        apply_header(headers_of(hs.drop_last()), l.0, l.1)
    }
}

pub open spec fn pairs_view(ps: Seq<HeadersPair>) -> Seq<(Seq<char>, Seq<char>)> {
    ps.map_values(|p: HeadersPair| (p.key@, p.value@))
}

/// Whether `k` is one of the names that set a special field.
pub open spec fn is_special_name(k: Seq<char>) -> bool {
    k == "user-agent"@ || k == "accept-encoding"@ || k == "cookie"@
}

/// The special header fields, read when a client is built.
#[derive(Debug, Clone, Default)]
pub struct SpecialHeaders {
    pub user_agent: Option<String>,
    pub gzip: bool,
    pub deflate: bool,
    pub cookie: Option<String>,
}

/// Header settings: the special fields, and the headers sent with each request.
#[derive(Debug, Clone, Default)]
pub struct HeadersConfig {
    pub user_agent: Option<String>,
    pub gzip: bool,
    pub deflate: bool,
    pub cookie: Option<String>,
    pub other_headers: Vec<HeadersPair>,
}

pub open spec fn opt_view(o: Option<String>) -> Option<Seq<char>> {
    match o {
        Some(s) => Some(s@),
        None => None,
    }
}

impl View for HeadersConfig {
    type V = HeadersView;

    open spec fn view(&self) -> HeadersView {
        HeadersView {
            user_agent: opt_view(self.user_agent),
            gzip: self.gzip,
            deflate: self.deflate,
            cookie: opt_view(self.cookie),
            other: pairs_view(self.other_headers@),
        }
    }
}

proof fn lemma_no_special_in_residual(hs: Seq<(Seq<char>, Seq<char>)>)
    ensures
        forall|i: int|
            0 <= i < headers_of(hs).other.len() ==> !is_special_name(
                #[trigger] headers_of(hs).other[i].0,
            ),
        distinct_keys(headers_of(hs).other),
    decreases hs.len(),
{
    if hs.len() > 0 {
        lemma_no_special_in_residual(hs.drop_last());
        let c = headers_of(hs.drop_last());
        let l = hs.last();
        let lk = ascii_lower(l.0);
        if !is_special_name(lk) {
            lemma_upsert(c.other, lk, l.1);
        }
    }
}

/// Whether `a` and `b` hold the same characters.
fn eq_chars(a: &Vec<char>, b: &Vec<char>) -> (r: bool)
    ensures
        r == (a@ == b@),
{
    if a.len() != b.len() {
        return false;
    }
    let mut i: usize = 0;
    while i < a.len()
        invariant
            i <= a@.len(),
            a@.len() == b@.len(),
            forall|k: int| 0 <= k < i ==> a@[k] == b@[k],
        decreases a@.len() - i,
    {
        if a[i] != b[i] {
            return false;
        }
        i = i + 1;
    }
    assert(a@ =~= b@);
    true
}

/// The index of the first entry of `o` named `k`, or `o.len()`.
fn key_index_exec(o: &Vec<HeadersPair>, k: &Vec<char>) -> (r: usize)
    ensures
        r == key_index(pairs_view(o@), k@, 0),
{
    let ghost ov = pairs_view(o@);
    let mut i: usize = 0;
    while i < o.len()
        invariant
            i <= o@.len(),
            ov == pairs_view(o@),
            key_index(ov, k@, 0) == key_index(ov, k@, i as int),
        decreases o@.len() - i,
    {
        let name = chars_of(o[i].key.as_str());
        assert(ov[i as int].0 == o@[i as int].key@);
        if eq_chars(&name, k) {
            return i;
        }
        i = i + 1;
    }
    i
}

impl HeadersConfig {
    /// Draws the header settings from raw headers, in order (the later of two
    /// headers that set the same thing wins).
    pub fn from(headers: Vec<HeadersPair>) -> (r: HeadersConfig)
        ensures
            r@ == headers_of(pairs_view(headers@)),
            forall|i: int| 0 <= i < r@.other.len() ==> !is_special_name(#[trigger] r@.other[i].0),
            distinct_keys(r@.other),
    {
        let ghost hs = pairs_view(headers@);
        let mut c = HeadersConfig {
            user_agent: None,
            gzip: false,
            deflate: false,
            cookie: None,
            other_headers: Vec::new(),
        };
        assert(c@.other =~= Seq::<(Seq<char>, Seq<char>)>::empty());
        assert(hs.take(0) =~= Seq::<(Seq<char>, Seq<char>)>::empty());
        let mut i: usize = 0;
        while i < headers.len()
            invariant
                i <= headers@.len(),
                hs == pairs_view(headers@),
                c@ == headers_of(hs.take(i as int)),
            decreases headers@.len() - i,
        {
            let h = &headers[i];
            let k = chars_of(h.key.as_str());
            let lk = ascii_lower_exec(&k);
            assert(hs.take(i + 1).drop_last() =~= hs.take(i as int));
            assert(hs.take(i + 1).last() == (h.key@, h.value@));
            let ghost before = c@;
            if eq_str(&lk, "user-agent") {
                c.user_agent = Some(h.value.clone());
            } else if eq_str(&lk, "accept-encoding") {
                let v = chars_of(h.value.as_str());
                c.gzip = contains_str(&v, "gzip");
                c.deflate = contains_str(&v, "deflate");
            } else if eq_str(&lk, "cookie") {
                c.cookie = Some(h.value.clone());
            } else if header_name_valid(h.key.as_str()) && header_value_valid(h.value.as_str()) {
                let key = string_of(&lk);
                let ghost old_other = c.other_headers@;
                let at = key_index_exec(&c.other_headers, &lk);
                if at < c.other_headers.len() {
                    c.other_headers.set(at, HeadersPair { key, value: h.value.clone() });
                    assert(pairs_view(c.other_headers@) =~= pairs_view(old_other).update(
                        at as int,
                        (lk@, h.value@),
                    ));
                } else {
                    c.other_headers.push(HeadersPair { key, value: h.value.clone() });
                    assert(pairs_view(c.other_headers@) =~= pairs_view(old_other).push((lk@, h.value@)));
                }
            }
            i = i + 1;
            assert(c@ =~= headers_of(hs.take(i as int)));
        }
        assert(hs.take(headers@.len() as int) =~= hs);
        proof {
            lemma_no_special_in_residual(hs);
        }
        c
    }

    /// The special fields alone.
    pub fn special(&self) -> (r: SpecialHeaders)
        ensures
            opt_view(r.user_agent) == self@.user_agent,
            r.gzip == self.gzip,
            r.deflate == self.deflate,
            opt_view(r.cookie) == self@.cookie,
    {
        SpecialHeaders {
            user_agent: self.user_agent.clone(),
            gzip: self.gzip,
            deflate: self.deflate,
            cookie: self.cookie.clone(),
        }
    }
}

/// Whether every line of `lines` holds a `:`.
pub open spec fn all_split(lines: Seq<String>) -> bool {
    forall|i: int| 0 <= i < lines.len() ==> (#[trigger] split_header(lines[i]@)) is Some
}

/// The pairs that the lines split into.
pub open spec fn split_all(lines: Seq<String>) -> Seq<(Seq<char>, Seq<char>)> {
    lines.map_values(|l: String| split_header(l@)->Some_0)
}

/// Parses raw `Name: Value` lines into the residual headers and the special
/// fields. A line without `:` fails the whole parse.
pub fn parse_header(headers: Vec<String>) -> (r: Result<
    (Vec<HeadersPair>, SpecialHeaders),
    HeadersParseError,
>)
    ensures
        all_split(headers@) ==> (r matches Ok((other, special)) && {
            let c = headers_of(split_all(headers@));
            &&& pairs_view(other@) == c.other
            &&& opt_view(special.user_agent) == c.user_agent
            &&& special.gzip == c.gzip
            &&& special.deflate == c.deflate
            &&& opt_view(special.cookie) == c.cookie
        }),
        !all_split(headers@) ==> (r matches Err(HeadersParseError::InvalidFormat(l)) && exists|i: int|
            0 <= i < headers@.len() && split_header(#[trigger] headers@[i]@) is None && l@
                == headers@[i]@),
{
    let mut pairs: Vec<HeadersPair> = Vec::new();
    let mut i: usize = 0;
    while i < headers.len()
        invariant
            i <= headers@.len(),
            pairs@.len() == i,
            forall|k: int| 0 <= k < i ==> split_header(#[trigger] headers@[k]@) is Some,
            pairs_view(pairs@) == split_all(headers@.take(i as int)),
        decreases headers@.len() - i,
    {
        match HeadersPair::from_str(headers[i].as_str()) {
            Ok(p) => {
                let ghost old = pairs@;
                pairs.push(p);
                assert(headers@.take(i + 1) =~= headers@.take(i as int).push(headers@[i as int]));
                assert(pairs_view(pairs@) =~= pairs_view(old).push((p.key@, p.value@)));
                assert(split_all(headers@.take(i + 1)) =~= split_all(headers@.take(i as int)).push(
                    split_header(headers@[i as int]@)->Some_0,
                ));
            },
            Err(e) => {
                return Err(e);
            },
        }
        i = i + 1;
    }
    assert(headers@.take(headers@.len() as int) =~= headers@);
    let c = HeadersConfig::from(pairs);
    let special = c.special();
    Ok((c.other_headers, special))
}

} // verus!
