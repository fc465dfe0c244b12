use vstd::prelude::*;
use crate::text::{chars_of, string_of, char_from_code, is_char_code, find_from, find_char};

verus! {

/// A compiled piece of a URL template, as mathematics sees it.
pub enum PartView {
    /// Text that passes through unchanged.
    Literal(Seq<char>),
    /// `count` characters, each drawn from `alphabet`.
    Random(Seq<char>, nat),
}

/// A compiled piece of a URL template.
#[derive(Debug, Clone)]
pub enum Part {
    Literal(Vec<char>),
    RandomChars { chars: Vec<char>, count: usize },
}

impl View for Part {
    type V = PartView;

    open spec fn view(&self) -> PartView {
        match self {
            Part::Literal(t) => PartView::Literal(t@),
            Part::RandomChars { chars, count } => PartView::Random(chars@, *count as nat),
        }
    }
}

/// Why a template could not be compiled.
#[derive(Debug, Clone, Copy, PartialEq, Eq, Structural)]
pub enum TemplateError {
    /// A `[` has no matching `]`, a class is empty or names no character, or
    /// a `{count}` does not fit in a `usize`.
    InvalidTemplate,
}

/// The characters whose codes lie in `lo..=hi`, in code order.
pub open spec fn char_range(lo: int, hi: int) -> Seq<char>
    decreases hi - lo + 1,
{
    if lo > hi {
        Seq::empty()
    } else {
        (if is_char_code(lo) { seq![(lo as u32) as char] } else { Seq::empty() }) + char_range(lo + 1, hi)
    }
}

/// The alphabet of a character class: `x-y` stands for the range from `x` to
/// `y`, any other character for itself.
pub open spec fn alphabet(class: Seq<char>) -> Seq<char>
    decreases class.len(),
{
    if class.len() == 0 {
        Seq::empty()
    } else if class.len() >= 3 && class[1] == '-' {
        char_range(class[0] as u32 as int, class[2] as u32 as int) + alphabet(class.skip(3))
    } else {
        seq![class[0]] + alphabet(class.skip(1))
    }
}

pub open spec fn is_digit(c: char) -> bool {
    '0' <= c <= '9'
}

/// The first index at or after `i` that does not hold a decimal digit, or `t.len()`.
pub open spec fn digits_end(t: Seq<char>, i: int) -> int
    decreases t.len() - i,
{
    if i < 0 || i >= t.len() {
        t.len() as int
    } else if !is_digit(t[i]) {
        i
    } else {
        digits_end(t, i + 1)
    }
}

/// The number that a string of decimal digits spells.
pub open spec fn digits_value(s: Seq<char>) -> nat
    decreases s.len(),
{
    if s.len() == 0 {
        0
    } else {
        digits_value(s.drop_last()) * 10 + ((s.last() as u32) - ('0' as u32)) as nat
    }
}

/// The repeat count that follows a class closed just before `j`, and the index after it:
/// `{digits}` gives their value, anything else a count of 1.
pub open spec fn count_at(t: Seq<char>, j: int) -> (nat, int) {
    let e = digits_end(t, j + 1);
    if j < t.len() && t[j] == '{' && e > j + 1 && e < t.len() && t[e] == '}' {
        (digits_value(t.subrange(j + 1, e)), e + 1)
    } else {
        (1, j)
    }
}

/// The part that starts at index `i` of template `t`, and the index after it;
/// `None` when the template is invalid there.
pub open spec fn part_at(t: Seq<char>, i: int) -> Option<(PartView, int)> {
    if t[i] == '[' {
        let j = find_from(t, i + 1, ']');
        if j >= t.len() || j == i + 1 {
            None
        } else {
            let (count, next) = count_at(t, j + 1);
            let a = alphabet(t.subrange(i + 1, j));
            if a.len() == 0 || count > usize::MAX {
                None
            } else {
                Some((PartView::Random(a, count), next))
            }
        }
    } else {
        let k = find_from(t, i + 1, '[');
        Some((PartView::Literal(t.subrange(i, k)), k))
    }
}

/// The parts of template `t` from index `i` on; `None` when it is invalid.
pub open spec fn parts_from(t: Seq<char>, i: int) -> Option<Seq<PartView>>
    decreases t.len() - i,
{
    if i < 0 || i >= t.len() {
        Some(Seq::empty())
    } else {
        match part_at(t, i) {
            None => None,
            Some((p, next)) => {
                if next <= i || next > t.len() {
                    None
                } else {
                    match parts_from(t, next) {
                        None => None,
                        Some(rest) => Some(seq![p] + rest),
                    }
                }
            },
        }
    }
}

/// The compiled form of template `t`, or `None` when it is invalid.
pub open spec fn compiled(t: Seq<char>) -> Option<Seq<PartView>> {
    parts_from(t, 0)
}

/// Whether `s` is one of the strings that the parts can produce: literals
/// verbatim, and each random part as `count` characters of its alphabet.
pub open spec fn matches_parts(parts: Seq<PartView>, s: Seq<char>) -> bool
    decreases parts.len(),
{
    if parts.len() == 0 {
        s.len() == 0
    } else {
        match parts[0] {
            PartView::Literal(l) => {
                &&& s.len() >= l.len()
                &&& s.take(l.len() as int) == l
                &&& matches_parts(parts.drop_first(), s.skip(l.len() as int))
            },
            PartView::Random(a, n) => {
                &&& s.len() >= n
                &&& forall|k: int| 0 <= k < n ==> a.contains(#[trigger] s[k])
                &&& matches_parts(parts.drop_first(), s.skip(n as int))
            },
        }
    }
}

/// How many random draws the parts take.
pub open spec fn draws_needed(parts: Seq<PartView>) -> nat
    decreases parts.len(),
{
    if parts.len() == 0 {
        0
    } else {
        (match parts[0] {
            PartView::Literal(_) => 0,
            PartView::Random(_, n) => n,
        }) + draws_needed(parts.drop_first())
    }
}

/// The string that the parts give for the draws `picks`, taken in order; draw
/// `p` for alphabet `a` picks `a[p % a.len()]`.
pub open spec fn rendered(parts: Seq<PartView>, picks: Seq<usize>) -> Seq<char>
    decreases parts.len(),
{
    if parts.len() == 0 {
        Seq::empty()
    } else {
        match parts[0] {
            PartView::Literal(l) => l + rendered(parts.drop_first(), picks),
            PartView::Random(a, n) => Seq::new(
                n,
                |k: int| a[(picks[k] as int) % (a.len() as int)],
            ) + rendered(parts.drop_first(), picks.skip(n as int)),
        }
    }
}

/// Whether every random part has a non-empty alphabet.
pub open spec fn parts_wf(parts: Seq<PartView>) -> bool {
    forall|i: int| 0 <= i < parts.len() ==> match #[trigger] parts[i] {
        PartView::Literal(_) => true,
        PartView::Random(a, _) => a.len() > 0,
    }
}

/// A compiled URL template: literal text and random character runs.
#[derive(Debug, Clone)]
pub struct UrlTemplate {
    parts: Vec<Part>,
}

impl View for UrlTemplate {
    type V = Seq<PartView>;

    closed spec fn view(&self) -> Seq<PartView> {
        self.parts@.map_values(|p: Part| p@)
    }
}

proof fn lemma_digits_value_prefix(s: Seq<char>, k: int)
    requires
        0 <= k <= s.len(),
        forall|i: int| 0 <= i < s.len() ==> is_digit(#[trigger] s[i]),
    ensures
        digits_value(s.take(k)) <= digits_value(s),
    decreases s.len() - k,
{
    if k < s.len() {
        let t = s.drop_last();
        assert(s.take(k) =~= t.take(k));
        assert forall|i: int| 0 <= i < t.len() implies is_digit(#[trigger] t[i]) by {
            assert(t[i] == s[i]);
        }
        lemma_digits_value_prefix(t, k);
        assert(s.take(k) =~= t.take(k));
        let d = ((s.last() as u32) - ('0' as u32)) as nat;
        let vt = digits_value(t);
        assert(digits_value(s) == vt * 10 + d);
        assert(vt <= vt * 10 + d) by (nonlinear_arith)
            requires
                vt >= 0,
                d >= 0,
        ;
    } else {
        assert(s.take(k) =~= s);
    }
}

/// The characters with codes `lo..=hi`.
fn expand_range(lo: char, hi: char) -> (r: Vec<char>)
    ensures
        r@ == char_range(lo as u32 as int, hi as u32 as int),
{
    let mut r: Vec<char> = Vec::new();
    let l = lo as u32;
    let h = hi as u32;
    if l > h {
        return r;
    }
    let mut x: u32 = l;
    while x <= h
        invariant
            l <= x <= h + 1,
            h <= 0x10FFFF,
            r@ + char_range(x as int, h as int) == char_range(l as int, h as int),
        decreases h + 1 - x,
    {
        proof {
            vstd::utf8::char_is_scalar(hi);
        }
        let c = char_from_code(x);
        match c {
            Some(ch) => {
                proof {
                    vstd::utf8::char_u32_cast(ch, x);
                }
                r.push(ch);
                assert(r@ + char_range(x + 1, h as int) =~= char_range(l as int, h as int));
            },
            None => {
                assert(r@ + char_range(x + 1, h as int) =~= char_range(l as int, h as int));
            },
        }
        x = x + 1;
    }
    r
}

/// The alphabet of the class `t[lo..hi]`.
fn class_alphabet(t: &Vec<char>, lo: usize, hi: usize) -> (r: Vec<char>)
    requires
        lo <= hi <= t@.len(),
    ensures
        r@ == alphabet(t@.subrange(lo as int, hi as int)),
{
    let mut r: Vec<char> = Vec::new();
    let mut k = lo;
    while k < hi
        invariant
            lo <= k <= hi <= t@.len(),
            r@ + alphabet(t@.subrange(k as int, hi as int)) == alphabet(t@.subrange(lo as int, hi as int)),
        decreases hi - k,
    {
        let ghost c = t@.subrange(k as int, hi as int);
        if hi - k >= 3 && t[k + 1] == '-' {
            let mut range = expand_range(t[k], t[k + 2]);
            assert(c.skip(3) =~= t@.subrange(k + 3, hi as int));
            r.append(&mut range);
            k = k + 3;
        } else {
            assert(c.skip(1) =~= t@.subrange(k + 1, hi as int));
            r.push(t[k]);
            k = k + 1;
        }
    }
    assert(t@.subrange(hi as int, hi as int) =~= Seq::<char>::empty());
    r
}

/// The index of the first non-digit in `t` at or after `i`, or `t.len()`.
fn find_digits_end(t: &Vec<char>, i: usize) -> (r: usize)
    requires
        i <= t@.len(),
    ensures
        r == digits_end(t@, i as int),
        i <= r <= t@.len(),
        forall|k: int| i <= k < r ==> is_digit(#[trigger] t@[k]),
{
    let mut k = i;
    while k < t.len() && '0' <= t[k] && t[k] <= '9'
        invariant
            i <= k <= t@.len(),
            digits_end(t@, i as int) == digits_end(t@, k as int),
            forall|m: int| i <= m < k ==> is_digit(#[trigger] t@[m]),
        decreases t@.len() - k,
    {
        k = k + 1;
    }
    k
}

/// The value of the digits `t[lo..hi]`, or `None` when it exceeds `usize::MAX`.
fn parse_count(t: &Vec<char>, lo: usize, hi: usize) -> (r: Option<usize>)
    requires
        lo <= hi <= t@.len(),
        forall|k: int| lo <= k < hi ==> is_digit(#[trigger] t@[k]),
    ensures
        digits_value(t@.subrange(lo as int, hi as int)) <= usize::MAX ==> r == Some(
            digits_value(t@.subrange(lo as int, hi as int)) as usize,
        ),
        digits_value(t@.subrange(lo as int, hi as int)) > usize::MAX ==> r is None,
{
    let ghost s = t@.subrange(lo as int, hi as int);
    let mut v: usize = 0;
    let mut k = lo;
    while k < hi
        invariant
            lo <= k <= hi <= t@.len(),
            s == t@.subrange(lo as int, hi as int),
            forall|m: int| lo <= m < hi ==> is_digit(#[trigger] t@[m]),
            v == digits_value(t@.subrange(lo as int, k as int)),
        decreases hi - k,
    {
        let d = (t[k] as u32 - '0' as u32) as usize;
        let ghost p = t@.subrange(lo as int, k as int + 1);
        assert(p.drop_last() =~= t@.subrange(lo as int, k as int));
        match v.checked_mul(10) {
            Some(m) => match m.checked_add(d) {
                Some(n) => {
                    v = n;
                },
                None => {
                    proof {
                        assert(s.take(k - lo + 1) =~= p);
                        lemma_digits_value_prefix(s, k - lo + 1);
                    }
                    return None;
                },
            },
            None => {
                proof {
                    assert(s.take(k - lo + 1) =~= p);
                    lemma_digits_value_prefix(s, k - lo + 1);
                }
                return None;
            },
        }
        k = k + 1;
    }
    Some(v)
}

/// The part that starts at index `i` of `t`, and the index after it.
fn part_at_exec(t: &Vec<char>, i: usize) -> (r: Option<(Part, usize)>)
    requires
        i < t@.len(),
    ensures
        match part_at(t@, i as int) {
            None => r is None,
            Some((p, next)) => r matches Some((q, n)) && q@ == p && n == next && i < n <= t@.len(),
        },
{
    let len = t.len();
    if t[i] == '[' {
        let j = find_char(t, i + 1, ']');
        if j >= t.len() || j == i + 1 {
            return None;
        }
        let alpha = class_alphabet(t, i + 1, j);
        if alpha.len() == 0 {
            return None;
        }
        let mut count: usize = 1;
        let mut next = j + 1;
        if j + 1 < t.len() && t[j + 1] == '{' {
            let e = find_digits_end(t, j + 2);
            if e > j + 2 && e < t.len() && t[e] == '}' {
                match parse_count(t, j + 2, e) {
                    Some(n) => {
                        count = n;
                        next = e + 1;
                    },
                    None => {
                        return None;
                    },
                }
            }
        }
        Some((Part::RandomChars { chars: alpha, count }, next))
    } else {
        let k = find_char(t, i + 1, '[');
        let lit = crate::text::slice_chars(t, i, k);
        Some((Part::Literal(lit), k))
    }
}

/// Relies on `rand::random_range`: a uniformly drawn index below `n`; it
/// panics on an empty range, which `requires` rules out.
#[verifier::external_body]
pub(crate) fn random_below(n: usize) -> (r: usize)
    requires
        n > 0,
    ensures
        r < n,
{
    rand::random_range(0..n)
}

proof fn lemma_rendered_matches(parts: Seq<PartView>, picks: Seq<usize>)
    requires
        parts_wf(parts),
        picks.len() >= draws_needed(parts),
    ensures
        matches_parts(parts, rendered(parts, picks)),
    decreases parts.len(),
{
    if parts.len() > 0 {
        let rest = parts.drop_first();
        assert(parts_wf(rest)) by {
            assert forall|i: int| 0 <= i < rest.len() implies match #[trigger] rest[i] {
                PartView::Literal(_) => true,
                PartView::Random(a, _) => a.len() > 0,
            } by {
                assert(rest[i] == parts[i + 1]);
            }
        }
        assert(parts[0] == parts[0]);
        match parts[0] {
            PartView::Literal(l) => {
                lemma_rendered_matches(rest, picks);
                let s = rendered(parts, picks);
                assert(s.take(l.len() as int) =~= l);
                assert(s.skip(l.len() as int) =~= rendered(rest, picks));
            },
            PartView::Random(a, n) => {
                lemma_rendered_matches(rest, picks.skip(n as int));
                let s = rendered(parts, picks);
                let head = Seq::new(n, |k: int| a[(picks[k] as int) % (a.len() as int)]);
                assert(s.skip(n as int) =~= rendered(rest, picks.skip(n as int)));
                assert forall|k: int| 0 <= k < n implies a.contains(#[trigger] s[k]) by {
                    assert(s[k] == head[k]);
                    let idx = (picks[k] as int) % (a.len() as int);
                    assert(0 <= idx < a.len());
                    assert(a[idx] == s[k]);
                }
            },
        }
    }
}

impl UrlTemplate {
    /// Every random part has a non-empty alphabet.
    pub open spec fn wf(&self) -> bool {
        parts_wf(self@)
    }

    /// The parts of the template.
    pub fn parts(&self) -> (r: &Vec<Part>)
        ensures
            r@.map_values(|p: Part| p@) == self@,
    {
        &self.parts
    }

    /// The string that the template gives for the draws `picks`, used in order.
    pub fn render(&self, picks: &Vec<usize>) -> (r: String)
        requires
            self.wf(),
            picks@.len() == draws_needed(self@),
        ensures
            r@ == rendered(self@, picks@),
    {
        let ghost view = self@;
        let np = picks.len();
        let mut out: Vec<char> = Vec::new();
        let mut p: usize = 0;
        let mut u: usize = 0;
        assert(view.skip(0) =~= view);
        assert(picks@.skip(0) =~= picks@);
        assert(out@ + rendered(view, picks@) =~= rendered(view, picks@));
        while p < self.parts.len()
            invariant
                view == self@,
                parts_wf(view),
                p <= self.parts@.len(),
                u <= picks@.len(),
                np == picks@.len(),
                u + draws_needed(view.skip(p as int)) == picks@.len(),
                out@ + rendered(view.skip(p as int), picks@.skip(u as int)) == rendered(view, picks@),
            decreases self.parts@.len() - p,
        {
            let ghost rest = view.skip(p as int);
            assert(rest[0] == view[p as int]);
            assert(rest.drop_first() =~= view.skip(p + 1));
            assert(view[p as int] == self.parts@[p as int]@);
            match &self.parts[p] {
                Part::Literal(l) => {
                    let mut k: usize = 0;
                    let ghost out0 = out@;
                    while k < l.len()
                        invariant
                            k <= l@.len(),
                            out@ == out0 + l@.take(k as int),
                        decreases l@.len() - k,
                    {
                        out.push(l[k]);
                        k = k + 1;
                        assert(out@ =~= out0 + l@.take(k as int));
                    }
                    assert(l@.take(l@.len() as int) =~= l@);
                    assert(out0 + (l@ + rendered(view.skip(p + 1), picks@.skip(u as int))) =~= out@
                        + rendered(view.skip(p + 1), picks@.skip(u as int)));
                },
                Part::RandomChars { chars, count } => {
                    assert(draws_needed(rest) == *count + draws_needed(view.skip(p + 1)));
                    let ghost ps = picks@.skip(u as int);
                    let ghost head = Seq::new(
                        *count as nat,
                        |k: int| chars@[(ps[k] as int) % (chars@.len() as int)],
                    );
                    assert(chars@.len() > 0) by {
                        assert(match view[p as int] {
                            PartView::Literal(_) => true,
                            PartView::Random(a, _) => a.len() > 0,
                        });
                    }
                    let mut k: usize = 0;
                    let ghost out0 = out@;
                    while k < *count
                        invariant
                            k <= *count,
                            u + *count <= picks@.len(),
                            np == picks@.len(),
                            ps == picks@.skip(u as int),
                            chars@.len() > 0,
                            head == Seq::new(
                                *count as nat,
                                |k: int| chars@[(ps[k] as int) % (chars@.len() as int)],
                            ),
                            out@ == out0 + head.take(k as int),
                        decreases *count - k,
                    {
                        let idx = picks[u + k] % chars.len();
                        out.push(chars[idx]);
                        k = k + 1;
                        assert(out@ =~= out0 + head.take(k as int));
                    }
                    assert(head.take(*count as int) =~= head);
                    assert(ps.skip(*count as int) =~= picks@.skip(u + *count));
                    assert(out0 + (head + rendered(view.skip(p + 1), ps.skip(*count as int))) =~= out@
                        + rendered(view.skip(p + 1), picks@.skip(u + *count)));
                    u = u + *count;
                },
            }
            p = p + 1;
        }
        assert(view.skip(p as int) =~= Seq::<PartView>::empty());
        assert(out@ + Seq::<char>::empty() =~= out@);
        string_of(&out)
    }

    /// A fresh random string of the template's shape. Calls are independent:
    /// each draws its own characters.
    pub fn generate(&self) -> (r: String)
        requires
            self.wf(),
        ensures
            matches_parts(self@, r@),
    {
        let ghost view = self@;
        let mut picks: Vec<usize> = Vec::new();
        let mut p: usize = 0;
        assert(view.skip(0) =~= view);
        while p < self.parts.len()
            invariant
                view == self@,
                parts_wf(view),
                p <= self.parts@.len(),
                picks@.len() + draws_needed(view.skip(p as int)) == draws_needed(view),
            decreases self.parts@.len() - p,
        {
            let ghost rest = view.skip(p as int);
            assert(rest[0] == view[p as int]);
            assert(rest.drop_first() =~= view.skip(p + 1));
            assert(view[p as int] == self.parts@[p as int]@);
            match &self.parts[p] {
                Part::Literal(_) => {},
                Part::RandomChars { chars, count } => {
                    assert(chars@.len() > 0) by {
                        assert(match view[p as int] {
                            PartView::Literal(_) => true,
                            PartView::Random(a, _) => a.len() > 0,
                        });
                    }
                    let mut k: usize = 0;
                    let ghost len0 = picks@.len();
                    while k < *count
                        invariant
                            k <= *count,
                            chars@.len() > 0,
                            picks@.len() == len0 + k,
                        decreases *count - k,
                    {
                        let d = random_below(chars.len());
                        picks.push(d);
                        k = k + 1;
                    }
                },
            }
            p = p + 1;
        }
        assert(view.skip(p as int) =~= Seq::<PartView>::empty());
        let r = self.render(&picks);
        proof {
            lemma_rendered_matches(view, picks@);
        }
        r
    }
}

/// Compiles a URL template. Each `[class]` or `[class]{count}` becomes a run
/// of `count` (default 1) characters drawn from the class's alphabet; all
/// other text stays literal.
pub fn template_generator(template: &str) -> (r: Result<UrlTemplate, TemplateError>)
    ensures
        match compiled(template@) {
            Some(p) => r matches Ok(g) && g@ == p,
            None => r == Err::<UrlTemplate, TemplateError>(TemplateError::InvalidTemplate),
        },
        r matches Ok(g) ==> g.wf(),
{
    let t = chars_of(template);
    let mut parts: Vec<Part> = Vec::new();
    let mut i: usize = 0;
    while i < t.len()
        invariant
            i <= t@.len(),
            t@ == template@,
            parts_from(t@, 0) == match parts_from(t@, i as int) {
                None => None,
                Some(rest) => Some(parts@.map_values(|p: Part| p@) + rest),
            },
            parts_wf(parts@.map_values(|p: Part| p@)),
        decreases t@.len() - i,
    {
        match part_at_exec(&t, i) {
            None => {
                return Err(TemplateError::InvalidTemplate);
            },
            Some((p, next)) => {
                let ghost old_view = parts@.map_values(|p: Part| p@);
                parts.push(p);
                assert(parts@.map_values(|p: Part| p@) =~= old_view.push(p@));
                proof {
                    match parts_from(t@, next as int) {
                        None => {},
                        Some(rest) => {
                            assert(old_view + (seq![p@] + rest) =~= old_view.push(p@) + rest);
                        },
                    }
                }
                i = next;
            },
        }
    }
    proof {
        assert(parts@.map_values(|p: Part| p@) + Seq::<PartView>::empty() =~= parts@.map_values(
            |p: Part| p@,
        ));
    }
    Ok(UrlTemplate { parts })
}


proof fn lemma_char_range_bounds(lo: int, hi: int)
    requires
        0 <= lo,
        hi <= 0x10FFFF,
    ensures
        forall|k: int| 0 <= k < char_range(lo, hi).len() ==> lo <= (#[trigger] char_range(lo, hi)[k]) as u32 <= hi,
    decreases hi - lo + 1,
{
    if lo <= hi {
        lemma_char_range_bounds(lo + 1, hi);
        let head: Seq<char> = if is_char_code(lo) { seq![(lo as u32) as char] } else { Seq::empty() };
        let r = char_range(lo, hi);
        assert(r == head + char_range(lo + 1, hi));
        if is_char_code(lo) {
            let c = (lo as u32) as char;
            assert(c as u32 == lo as u32);
        }
        assert forall|k: int| 0 <= k < r.len() implies lo <= (#[trigger] r[k]) as u32 <= hi by {
            if k < head.len() {
                assert(r[k] == head[k]);
            } else {
                assert(r[k] == char_range(lo + 1, hi)[k - head.len()]);
            }
        }
    }
}

/// A string of the shape `prefix`, three lower-case letters, `-`, two
/// decimal digits, as the template `prefix[a-z]{3}-[0-9]{2}` compiles to:
/// every string generated from that plan has exactly this shape.
pub proof fn lemma_letters_dash_digits_shape(prefix: Seq<char>, s: Seq<char>)
    requires
        matches_parts(
            seq![
                PartView::Literal(prefix),
                PartView::Random(alphabet(seq!['a', '-', 'z']), 3),
                PartView::Literal(seq!['-']),
                PartView::Random(alphabet(seq!['0', '-', '9']), 2),
            ],
            s,
        ),
    ensures
        s.len() == prefix.len() + 6,
        s.take(prefix.len() as int) == prefix,
        forall|k: int| prefix.len() <= k < prefix.len() + 3 ==> 'a' as u32 <= (#[trigger] s[k]) as u32 <= 'z' as u32,
        s[prefix.len() as int + 3] == '-',
        forall|k: int| prefix.len() + 4 <= k < prefix.len() + 6 ==> '0' as u32 <= (#[trigger] s[k]) as u32 <= '9' as u32,
{
    let p = seq![
        PartView::Literal(prefix),
        PartView::Random(alphabet(seq!['a', '-', 'z']), 3),
        PartView::Literal(seq!['-']),
        PartView::Random(alphabet(seq!['0', '-', '9']), 2),
    ];
    let la = seq!['a', '-', 'z'];
    let ld = seq!['0', '-', '9'];
    assert(la.skip(3) =~= Seq::<char>::empty());
    assert(ld.skip(3) =~= Seq::<char>::empty());
    assert(alphabet(Seq::<char>::empty()) =~= Seq::<char>::empty());
    assert(la[0] == 'a' && la[1] == '-' && la[2] == 'z');
    assert(ld[0] == '0' && ld[1] == '-' && ld[2] == '9');
    assert(alphabet(la) =~= char_range('a' as u32 as int, 'z' as u32 as int));
    assert(alphabet(ld) =~= char_range('0' as u32 as int, '9' as u32 as int));
    lemma_char_range_bounds('a' as u32 as int, 'z' as u32 as int);
    lemma_char_range_bounds('0' as u32 as int, '9' as u32 as int);
    let n = prefix.len() as int;
    assert(p[0] == PartView::Literal(prefix));
    let s1 = s.skip(n);
    let p1 = p.drop_first();
    assert(matches_parts(p1, s1));
    assert(p1[0] == PartView::Random(alphabet(la), 3));
    let s2 = s1.skip(3);
    let p2 = p1.drop_first();
    assert(matches_parts(p2, s2));
    assert(p2[0] == PartView::Literal(seq!['-']));
    let s3 = s2.skip(1);
    let p3 = p2.drop_first();
    assert(matches_parts(p3, s3));
    assert(s2.take(1) == seq!['-']);
    assert(p3[0] == PartView::Random(alphabet(ld), 2));
    let s4 = s3.skip(2);
    let p4 = p3.drop_first();
    assert(matches_parts(p4, s4));
    assert(p4.len() == 0);
    assert(s4.len() == 0);
    assert forall|k: int| n <= k < n + 3 implies 'a' as u32 <= (#[trigger] s[k]) as u32 <= 'z' as u32 by {
        assert(s[k] == s1[k - n]);
        assert(alphabet(la).contains(s1[k - n]));
        let r = char_range('a' as u32 as int, 'z' as u32 as int);
        let j = choose|j: int| 0 <= j < r.len() && r[j] == s1[k - n];
        assert('a' as u32 <= r[j] as u32 <= 'z' as u32);
    }
    assert(s[n + 3] == s2.take(1)[0]);
    assert forall|k: int| n + 4 <= k < n + 6 implies '0' as u32 <= (#[trigger] s[k]) as u32 <= '9' as u32 by {
        assert(s[k] == s3[k - n - 4]);
        assert(alphabet(ld).contains(s3[k - n - 4]));
        let r = char_range('0' as u32 as int, '9' as u32 as int);
        let j = choose|j: int| 0 <= j < r.len() && r[j] == s3[k - n - 4];
        assert('0' as u32 <= r[j] as u32 <= '9' as u32);
    }
}

} // verus!
