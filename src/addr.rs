use vstd::prelude::*;
use crate::text::{chars_of, string_of, find_from, find_char, trim, trim_bounds, slice_chars, is_ws, lead_ws, trail_ws};
use crate::template::{is_digit, digits_value};

verus! {

/// An IP address: four octets, or eight 16-bit groups.
#[derive(Debug, Clone, Copy, PartialEq, Eq, Hash, Structural)]
pub enum IpAddress {
    V4(u8, u8, u8, u8),
    V6(u16, u16, u16, u16, u16, u16, u16, u16),
}

/// `s` cut at every `c`.
pub open spec fn split_on(s: Seq<char>, c: char) -> Seq<Seq<char>>
    decreases s.len(),
{
    let i = find_from(s, 0, c);
    if 0 <= i < s.len() {
        seq![s.take(i)] + split_on(s.skip(i + 1), c)
    } else {
        seq![s]
    }
}

/// The value of a decimal octet: 1 to 3 digits, no leading zero, at most 255.
pub open spec fn dec_octet(f: Seq<char>) -> Option<u8> {
    if 1 <= f.len() <= 3 && (forall|k: int| 0 <= k < f.len() ==> is_digit(#[trigger] f[k])) && (
    f.len() == 1 || f[0] != '0') && digits_value(f) <= 255 {
        Some(digits_value(f) as u8)
    } else {
        None
    }
}

/// The IPv4 address that `s` spells in dotted-decimal form, if any.
pub open spec fn parse_ipv4(s: Seq<char>) -> Option<IpAddress> {
    let fs = split_on(s, '.');
    if fs.len() == 4 && (forall|k: int| 0 <= k < 4 ==> (#[trigger] dec_octet(fs[k])) is Some) {
        Some(
            IpAddress::V4(
                dec_octet(fs[0])->Some_0,
                dec_octet(fs[1])->Some_0,
                dec_octet(fs[2])->Some_0,
                dec_octet(fs[3])->Some_0,
            ),
        )
    } else {
        None
    }
}

proof fn lemma_find_shift(s: Seq<char>, p: int, i: int, c: char)
    requires
        0 <= p <= i <= s.len(),
    ensures
        find_from(s.skip(p), i - p, c) == find_from(s, i, c) - p,
    decreases s.len() - i,
{
    if i < s.len() {
        assert(s.skip(p)[i - p] == s[i]);
        if s[i] != c {
            lemma_find_shift(s, p, i + 1, c);
        }
    }
}

proof fn lemma_split_nonempty(s: Seq<char>, c: char)
    ensures
        split_on(s, c).len() >= 1,
{
}

/// The octet that `s[lo..hi]` spells.
fn octet_exec(s: &Vec<char>, lo: usize, hi: usize) -> (r: Option<u8>)
    requires
        lo <= hi <= s@.len(),
    ensures
        r == dec_octet(s@.subrange(lo as int, hi as int)),
{
    let ghost f = s@.subrange(lo as int, hi as int);
    let n = hi - lo;
    if n < 1 || n > 3 {
        return None;
    }
    if n > 1 && s[lo] == '0' {
        return None;
    }
    let mut v: u32 = 0;
    let mut k = lo;
    while k < hi
        invariant
            lo <= k <= hi <= s@.len(),
            hi - lo <= 3,
            f == s@.subrange(lo as int, hi as int),
            forall|m: int| lo <= m < k ==> is_digit(#[trigger] s@[m]),
            v == digits_value(s@.subrange(lo as int, k as int)),
            v < 1000,
            k - lo == 0 ==> v == 0,
            k - lo == 1 ==> v < 10,
            k - lo == 2 ==> v < 100,
        decreases hi - k,
    {
        let c = s[k];
        if !('0' <= c && c <= '9') {
            assert(!is_digit(f[k - lo]));
            return None;
        }
        assert(s@.subrange(lo as int, k + 1).drop_last() =~= s@.subrange(lo as int, k as int));
        v = v * 10 + (c as u32 - '0' as u32);
        k = k + 1;
    }
    assert forall|m: int| 0 <= m < f.len() implies is_digit(#[trigger] f[m]) by {
        assert(f[m] == s@[lo + m]);
    }
    if v > 255 {
        return None;
    }
    Some(v as u8)
}

/// The IPv4 address that `s` spells, if any.
pub fn parse_ipv4_exec(s: &Vec<char>) -> (r: Option<IpAddress>)
    ensures
        r == parse_ipv4(s@),
{
    let len = s.len();
    let mut octets: Vec<u8> = Vec::new();
    let ghost mut done: Seq<Seq<char>> = Seq::empty();
    let mut pos: usize = 0;
    assert(s@.skip(0) =~= s@);
    loop
        invariant
            pos <= len,
            len == s@.len(),
            done.len() == octets@.len(),
            octets@.len() <= 3,
            split_on(s@, '.') == done + split_on(s@.skip(pos as int), '.'),
            forall|k: int| 0 <= k < done.len() ==> dec_octet(#[trigger] done[k]) == Some(octets@[k]),
        decreases len - pos,
    {
        let e = find_char(s, pos, '.');
        let ghost rest = s@.skip(pos as int);
        proof {
            lemma_find_shift(s@, pos as int, pos as int, '.');
            assert(rest.take(e - pos) =~= s@.subrange(pos as int, e as int));
            if e < len {
                assert(rest.skip(e - pos + 1) =~= s@.skip(e + 1));
            }
        }
        let o = octet_exec(s, pos, e);
        let ghost f = s@.subrange(pos as int, e as int);
        let ghost fs = split_on(s@, '.');
        match o {
            None => {
                proof {
                    if e < len {
                        assert(split_on(rest, '.') == seq![f] + split_on(s@.skip(e + 1), '.'));
                    } else {
                        assert(rest =~= f);
                    }
                    assert(fs[done.len() as int] == f);
                    if fs.len() == 4 {
                        assert(dec_octet(fs[done.len() as int]) is None);
                    }
                }
                return None;
            },
            Some(b) => {
                octets.push(b);
                if e == len {
                    proof {
                        assert(rest =~= f);
                        assert(fs =~= done.push(f));
                    }
                    if octets.len() == 4 {
                        proof {
                            assert forall|k: int| 0 <= k < 4 implies (#[trigger] dec_octet(fs[k])) is Some by {
                                if k < done.len() {
                                    assert(fs[k] == done[k]);
                                }
                            }
                            assert(dec_octet(fs[0]) == Some(octets@[0]));
                            assert(dec_octet(fs[1]) == Some(octets@[1]));
                            assert(dec_octet(fs[2]) == Some(octets@[2]));
                        }
                        return Some(IpAddress::V4(octets[0], octets[1], octets[2], octets[3]));
                    }
                    return None;
                }
                proof {
                    assert(split_on(rest, '.') == seq![f] + split_on(s@.skip(e + 1), '.'));
                    assert(fs =~= done.push(f) + split_on(s@.skip(e + 1), '.'));
                    done = done.push(f);
                }
                if octets.len() == 4 {
                    proof {
                        lemma_split_nonempty(s@.skip(e + 1), '.');
                    }
                    return None;
                }
                pos = e + 1;
            },
        }
    }
}

pub open spec fn is_hex(c: char) -> bool {
    ('0' <= c <= '9') || ('a' <= c <= 'f') || ('A' <= c <= 'F')
}

pub open spec fn hex_val(c: char) -> int {
    if '0' <= c <= '9' {
        (c as u32) - ('0' as u32)
    } else if 'a' <= c <= 'f' {
        (c as u32) - ('a' as u32) + 10
    } else {
        (c as u32) - ('A' as u32) + 10
    }
}

/// The number that a string of hexadecimal digits spells.
pub open spec fn hex_value(s: Seq<char>) -> nat
    decreases s.len(),
{
    if s.len() == 0 {
        0
    } else {
        (hex_value(s.drop_last()) * 16 + hex_val(s.last())) as nat
    }
}

/// The value of an IPv6 group: 1 to 4 hexadecimal digits.
pub open spec fn hex16(f: Seq<char>) -> Option<u16> {
    if 1 <= f.len() <= 4 && forall|k: int| 0 <= k < f.len() ==> is_hex(#[trigger] f[k]) {
        Some(hex_value(f) as u16)
    } else {
        None
    }
}

/// The groups of a `:`-separated run of IPv6 groups; empty text has none.
pub open spec fn groups_of(s: Seq<char>) -> Option<Seq<u16>> {
    let fs = split_on(s, ':');
    if s.len() == 0 {
        Some(Seq::empty())
    } else if forall|k: int| 0 <= k < fs.len() ==> (#[trigger] hex16(fs[k])) is Some {
        Some(fs.map_values(|f: Seq<char>| hex16(f)->Some_0))
    } else {
        None
    }
}

/// The first index at or after `i` where `s` holds `::`, or `s.len()`.
pub open spec fn find_pair(s: Seq<char>, i: int) -> int
    decreases s.len() - i,
{
    if i < 0 || i + 1 >= s.len() {
        s.len() as int
    } else if s[i] == ':' && s[i + 1] == ':' {
        i
    } else {
        find_pair(s, i + 1)
    }
}

pub open spec fn v6_of(g: Seq<u16>) -> IpAddress {
    IpAddress::V6(g[0], g[1], g[2], g[3], g[4], g[5], g[6], g[7])
}

/// The last index below `i` where `s` holds `c`, or -1.
pub open spec fn rfind(s: Seq<char>, i: int, c: char) -> int
    decreases i,
{
    if i <= 0 || i > s.len() {
        -1
    } else if s[i - 1] == c {
        i - 1
    } else {
        rfind(s, i - 1, c)
    }
}

/// The two groups that an IPv4 address gives as the last 32 bits of an IPv6 one.
pub open spec fn v4_groups(a: IpAddress) -> Seq<u16> {
    match a {
        IpAddress::V4(x0, x1, x2, x3) => seq![(x0 as int * 256 + x1) as u16, (x2 as int * 256 + x3) as u16],
        IpAddress::V6(..) => Seq::empty(),
    }
}

/// The groups of a run of IPv6 groups whose last 32 bits may be written as a
/// dotted IPv4 address.
pub open spec fn tail_groups(s: Seq<char>) -> Option<Seq<u16>> {
    match groups_of(s) {
        Some(g) => Some(g),
        None => {
            let q = rfind(s, s.len() as int, ':');
            if q < 0 {
                match parse_ipv4(s) {
                    Some(a) => Some(v4_groups(a)),
                    None => None,
                }
            } else if q == 0 {
                None
            } else {
                match (groups_of(s.take(q)), parse_ipv4(s.skip(q + 1))) {
                    (Some(h), Some(a)) => Some(h + v4_groups(a)),
                    _ => None,
                }
            }
        },
    }
}

/// The IPv6 address that `s` spells: eight groups, or fewer around one `::`
/// that stands for one or more zero groups; the last two groups may be
/// written as a dotted IPv4 address.
pub open spec fn parse_ipv6(s: Seq<char>) -> Option<IpAddress> {
    let p = find_pair(s, 0);
    if p >= s.len() {
        match tail_groups(s) {
            Some(g) => if g.len() == 8 { Some(v6_of(g)) } else { None },
            None => None,
        }
    } else {
        match (groups_of(s.take(p)), tail_groups(s.skip(p + 2))) {
            (Some(h), Some(t)) => if h.len() + t.len() <= 7 {
                Some(v6_of(h + Seq::new((8 - h.len() - t.len()) as nat, |k: int| 0u16) + t))
            } else {
                None
            },
            _ => None,
        }
    }
}

/// The IP address that `s` spells, in IPv4 or IPv6 form.
pub open spec fn parse_ip_spec(s: Seq<char>) -> Option<IpAddress> {
    match parse_ipv4(s) {
        Some(a) => Some(a),
        None => parse_ipv6(s),
    }
}

/// The group that `s[lo..hi]` spells.
fn hex16_exec(s: &Vec<char>, lo: usize, hi: usize) -> (r: Option<u16>)
    requires
        lo <= hi <= s@.len(),
    ensures
        r == hex16(s@.subrange(lo as int, hi as int)),
{
    let ghost f = s@.subrange(lo as int, hi as int);
    if hi - lo < 1 || hi - lo > 4 {
        return None;
    }
    let mut v: u32 = 0;
    let mut k = lo;
    while k < hi
        invariant
            lo <= k <= hi <= s@.len(),
            hi - lo <= 4,
            f == s@.subrange(lo as int, hi as int),
            forall|m: int| lo <= m < k ==> is_hex(#[trigger] s@[m]),
            v == hex_value(s@.subrange(lo as int, k as int)),
            k - lo == 0 ==> v < 1,
            k - lo == 1 ==> v < 16,
            k - lo == 2 ==> v < 256,
            k - lo == 3 ==> v < 4096,
            k - lo == 4 ==> v < 65536,
        decreases hi - k,
    {
        let c = s[k];
        let d: u32 = if '0' <= c && c <= '9' {
            c as u32 - '0' as u32
        } else if 'a' <= c && c <= 'f' {
            c as u32 - 'a' as u32 + 10
        } else if 'A' <= c && c <= 'F' {
            c as u32 - 'A' as u32 + 10
        } else {
            assert(!is_hex(f[k - lo]));
            return None;
        };
        assert(s@.subrange(lo as int, k + 1).drop_last() =~= s@.subrange(lo as int, k as int));
        v = v * 16 + d;
        k = k + 1;
    }
    assert forall|m: int| 0 <= m < f.len() implies is_hex(#[trigger] f[m]) by {
        assert(f[m] == s@[lo + m]);
    }
    Some(v as u16)
}

/// The groups of the whole of `s`.
fn groups_exec(s: &Vec<char>) -> (r: Option<Vec<u16>>)
    ensures
        match groups_of(s@) {
            Some(g) => r matches Some(v) && v@ == g,
            None => r is None,
        },
{
    let len = s.len();
    let mut out: Vec<u16> = Vec::new();
    if len == 0 {
        assert(out@ =~= Seq::<u16>::empty());
        return Some(out);
    }
    let ghost fs = split_on(s@, ':');
    let ghost mut done: Seq<Seq<char>> = Seq::empty();
    let mut pos: usize = 0;
    assert(s@.skip(0) =~= s@);
    loop
        invariant
            pos <= len,
            len == s@.len(),
            len > 0,
            fs == split_on(s@, ':'),
            fs == done + split_on(s@.skip(pos as int), ':'),
            out@.len() == done.len(),
            forall|k: int| 0 <= k < done.len() ==> hex16(#[trigger] done[k]) == Some(out@[k]),
        decreases len - pos,
    {
        let e = find_char(s, pos, ':');
        let ghost rest = s@.skip(pos as int);
        let ghost f = s@.subrange(pos as int, e as int);
        proof {
            lemma_find_shift(s@, pos as int, pos as int, ':');
            assert(rest.take(e - pos) =~= f);
            if e < len {
                assert(rest.skip(e - pos + 1) =~= s@.skip(e + 1));
                assert(split_on(rest, ':') == seq![f] + split_on(s@.skip(e + 1), ':'));
                assert(fs =~= done.push(f) + split_on(s@.skip(e + 1), ':'));
            } else {
                assert(rest =~= f);
                assert(fs =~= done.push(f));
            }
            assert(fs[done.len() as int] == f);
        }
        match hex16_exec(s, pos, e) {
            None => {
                return None;
            },
            Some(g) => {
                out.push(g);
                proof {
                    done = done.push(f);
                }
                if e == len {
                    proof {
                        assert(fs == done);
                        assert forall|k: int| 0 <= k < fs.len() implies (#[trigger] hex16(fs[k])) is Some by {
                            assert(hex16(done[k]) == Some(out@[k]));
                        }
                        assert(out@ =~= fs.map_values(|f: Seq<char>| hex16(f)->Some_0));
                    }
                    return Some(out);
                }
                pos = e + 1;
            },
        }
    }
}

/// The index of the first `::` in `s`, or `s.len()`.
fn find_pair_exec(s: &Vec<char>) -> (r: usize)
    ensures
        r == find_pair(s@, 0),
        r == s@.len() || r + 2 <= s@.len(),
{
    let len = s.len();
    if len < 2 {
        return len;
    }
    let mut i: usize = 0;
    while i < len - 1
        invariant
            len == s@.len(),
            len >= 2,
            i <= len - 1,
            find_pair(s@, 0) == find_pair(s@, i as int),
        decreases len - i,
    {
        if s[i] == ':' && s[i + 1] == ':' {
            return i;
        }
        i = i + 1;
    }
    len
}

fn v6_exec(g: &Vec<u16>) -> (r: IpAddress)
    requires
        g@.len() == 8,
    ensures
        r == v6_of(g@),
{
    IpAddress::V6(g[0], g[1], g[2], g[3], g[4], g[5], g[6], g[7])
}

/// The last index of `c` in `s`, or -1.
fn rfind_exec(s: &Vec<char>, c: char) -> (r: Option<usize>)
    ensures
        r is None <==> rfind(s@, s@.len() as int, c) < 0,
        r matches Some(i) ==> i == rfind(s@, s@.len() as int, c) && i < s@.len(),
{
    let mut i: usize = s.len();
    while i > 0 && s[i - 1] != c
        invariant
            i <= s@.len(),
            rfind(s@, s@.len() as int, c) == rfind(s@, i as int, c),
        decreases i,
    {
        i = i - 1;
    }
    if i == 0 {
        proof {
            assert(rfind(s@, 0, c) == -1);
        }
        None
    } else {
        Some(i - 1)
    }
}

fn v4_groups_exec(a: IpAddress, out: &mut Vec<u16>)
    requires
        a is V4,
    ensures
        final(out)@ == old(out)@ + v4_groups(a),
{
    match a {
        IpAddress::V4(x0, x1, x2, x3) => {
            let ghost o = out@;
            out.push((x0 as u16) * 256 + x1 as u16);
            out.push((x2 as u16) * 256 + x3 as u16);
            assert(out@ =~= o + v4_groups(a));
        },
        IpAddress::V6(..) => {},
    }
}

/// The groups of `s`, whose last 32 bits may be a dotted IPv4 address.
fn tail_groups_exec(s: &Vec<char>) -> (r: Option<Vec<u16>>)
    ensures
        match tail_groups(s@) {
            Some(g) => r matches Some(v) && v@ == g,
            None => r is None,
        },
{
    match groups_exec(s) {
        Some(g) => {
            return Some(g);
        },
        None => {},
    }
    let len = s.len();
    let q = rfind_exec(s, ':');
    if q.is_none() {
        match parse_ipv4_exec(s) {
            Some(a) => {
                let mut out: Vec<u16> = Vec::new();
                v4_groups_exec(a, &mut out);
                assert(out@ =~= v4_groups(a));
                Some(out)
            },
            None => None,
        }
    } else if q == Some(0usize) {
        None
    } else {
        let qu = match q {
            Some(x) => x,
            None => 0,
        };
        let head = slice_chars(s, 0, qu);
        let last = slice_chars(s, qu + 1, len);
        assert(head@ =~= s@.take(qu as int));
        assert(last@ =~= s@.skip(qu + 1));
        match (groups_exec(&head), parse_ipv4_exec(&last)) {
            (Some(h), Some(a)) => {
                let mut out = h;
                v4_groups_exec(a, &mut out);
                Some(out)
            },
            _ => None,
        }
    }
}

/// The IPv6 address that `s` spells, if any.
pub fn parse_ipv6_exec(s: &Vec<char>) -> (r: Option<IpAddress>)
    ensures
        r == parse_ipv6(s@),
{
    let len = s.len();
    let p = find_pair_exec(s);
    if p >= len {
        match tail_groups_exec(s) {
            Some(g) => {
                if g.len() == 8 {
                    Some(v6_exec(&g))
                } else {
                    None
                }
            },
            None => None,
        }
    } else {
        let head = slice_chars(s, 0, p);
        let tail = slice_chars(s, p + 2, len);
        assert(head@ =~= s@.take(p as int));
        assert(tail@ =~= s@.skip(p + 2));
        let h = groups_exec(&head);
        let t = tail_groups_exec(&tail);
        match (h, t) {
            (Some(h), Some(t)) => {
                if h.len() <= 7 && t.len() <= 7 - h.len() {
                    let mut g: Vec<u16> = Vec::new();
                    let mut i: usize = 0;
                    while i < h.len()
                        invariant
                            i <= h@.len(),
                            g@ == h@.take(i as int),
                        decreases h@.len() - i,
                    {
                        g.push(h[i]);
                        i = i + 1;
                        assert(g@ =~= h@.take(i as int));
                    }
                    assert(h@.take(h@.len() as int) =~= h@);
                    let zeros = 8 - h.len() - t.len();
                    let mut z: usize = 0;
                    while z < zeros
                        invariant
                            z <= zeros,
                            g@ == h@ + Seq::new(z as nat, |k: int| 0u16),
                        decreases zeros - z,
                    {
                        g.push(0);
                        z = z + 1;
                        assert(g@ =~= h@ + Seq::new(z as nat, |k: int| 0u16));
                    }
                    let mut j: usize = 0;
                    let ghost mid = g@;
                    while j < t.len()
                        invariant
                            j <= t@.len(),
                            g@ == mid + t@.take(j as int),
                        decreases t@.len() - j,
                    {
                        g.push(t[j]);
                        j = j + 1;
                        assert(g@ =~= mid + t@.take(j as int));
                    }
                    assert(t@.take(t@.len() as int) =~= t@);
                    Some(v6_exec(&g))
                } else {
                    None
                }
            },
            _ => None,
        }
    }
}

/// The IP address that `s` spells, in IPv4 or IPv6 form.
pub fn parse_ip_exec(s: &Vec<char>) -> (r: Option<IpAddress>)
    ensures
        r == parse_ip_spec(s@),
{
    match parse_ipv4_exec(s) {
        Some(a) => Some(a),
        None => parse_ipv6_exec(s),
    }
}

/// Why a client pool, or the addresses behind it, could not be had.
#[derive(Debug, Clone, PartialEq, Eq)]
pub enum ClientBuildError {
    /// The target URL has no host.
    URLMissingHost,
    /// No target URL was given.
    UrlIsRequired,
    /// The target URL could not be parsed.
    InvalidUrl(String),
    /// The DNS lookup failed, with its message.
    DNSLookupFailed(String),
    /// The DNS lookup returned no address for the host.
    NoIpAddressesFound(String),
    /// The address-pool file could not be read, with the reason.
    FailedToReadIpListFile(String),
    /// A non-blank line of the address-pool file is no address.
    InvalidAddressFormat(String),
    /// The address-pool file names no address.
    NoValidIpInFile,
    /// No client could be built for any address.
    NoClientsBuilt,
}

/// How a pool-file scan ended: the addresses of the non-blank lines, in order,
/// or the first non-blank line that is no address.
pub open spec fn scan_lines(ls: Seq<Seq<char>>) -> Result<Seq<IpAddress>, Seq<char>>
    decreases ls.len(),
{
    if ls.len() == 0 {
        Ok(Seq::empty())
    } else {
        let t = trim(ls[0]);
        if t.len() == 0 {
            scan_lines(ls.drop_first())
        } else {
            match parse_ip_spec(t) {
                None => Err(t),
                Some(a) => match scan_lines(ls.drop_first()) {
                    Err(e) => Err(e),
                    Ok(rest) => Ok(seq![a] + rest),
                },
            }
        }
    }
}

/// `s` with each repeated element after its first occurrence removed.
pub open spec fn dedup(s: Seq<IpAddress>) -> Seq<IpAddress>
    decreases s.len(),
{
    if s.len() == 0 {
        s
    } else {
        let d = dedup(s.drop_last());
        if d.contains(s.last()) {
            d
        } else {
            d.push(s.last())
        }
    }
}

/// Why a pool-file text gives no pool.
pub enum PoolFault {
    /// This trimmed non-blank line is no address.
    BadLine(Seq<char>),
    /// No line names an address.
    Empty,
}

/// The address pool that a pool file's text gives: one address per line,
/// blank lines ignored, repeats dropped.
pub open spec fn pool_of(text: Seq<char>) -> Result<Seq<IpAddress>, PoolFault> {
    match scan_lines(split_on(text, '\n')) {
        Err(l) => Err(PoolFault::BadLine(l)),
        Ok(addrs) => if dedup(addrs).len() == 0 {
            Err(PoolFault::Empty)
        } else {
            Ok(dedup(addrs))
        },
    }
}

pub open spec fn prepend(p: Seq<IpAddress>, r: Result<Seq<IpAddress>, Seq<char>>) -> Result<
    Seq<IpAddress>,
    Seq<char>,
> {
    match r {
        Ok(rest) => Ok(p + rest),
        Err(e) => Err(e),
    }
}

/// `addrs` with repeats dropped, first occurrences kept in order.
pub fn dedup_addresses(addrs: &Vec<IpAddress>) -> (r: Vec<IpAddress>)
    ensures
        r@ == dedup(addrs@),
{
    let mut out: Vec<IpAddress> = Vec::new();
    let mut i: usize = 0;
    assert(addrs@.take(0) =~= Seq::<IpAddress>::empty());
    while i < addrs.len()
        invariant
            i <= addrs@.len(),
            out@ == dedup(addrs@.take(i as int)),
        decreases addrs@.len() - i,
    {
        let a = addrs[i];
        let mut j: usize = 0;
        let mut found = false;
        while j < out.len()
            invariant
                j <= out@.len(),
                found == exists|k: int| 0 <= k < j && out@[k] == a,
            decreases out@.len() - j,
        {
            if out[j] == a {
                found = true;
            }
            j = j + 1;
        }
        assert(addrs@.take(i + 1).drop_last() =~= addrs@.take(i as int));
        assert(addrs@.take(i + 1).last() == a);
        if !found {
            out.push(a);
        } else {
            proof {
                let k = choose|k: int| 0 <= k < out@.len() && out@[k] == a;
                assert(out@.contains(a));
            }
        }
        i = i + 1;
    }
    assert(addrs@.take(addrs@.len() as int) =~= addrs@);
    out
}

/// Loads an address pool from the text of a pool file: one address per
/// line, blank lines ignored, repeats dropped. A non-blank line that is no
/// address fails the whole load, as does a text that names no address.
pub fn read_ip_files(text: &str) -> (r: Result<Vec<IpAddress>, ClientBuildError>)
    ensures
        match pool_of(text@) {
            Ok(p) => r matches Ok(v) && v@ == p,
            Err(PoolFault::BadLine(l)) => r matches Err(ClientBuildError::InvalidAddressFormat(m))
                && m@ == l,
            Err(PoolFault::Empty) => r matches Err(ClientBuildError::NoValidIpInFile),
        },
{
    let t = chars_of(text);
    let len = t.len();
    let mut addrs: Vec<IpAddress> = Vec::new();
    let mut pos: usize = 0;
    assert(t@.skip(0) =~= t@);
    loop
        invariant
            pos <= len,
            len == t@.len(),
            t@ == text@,
            scan_lines(split_on(t@, '\n')) == prepend(addrs@, scan_lines(split_on(t@.skip(pos as int), '\n'))),
        decreases len - pos,
    {
        let e = find_char(&t, pos, '\n');
        let ghost rest = t@.skip(pos as int);
        let ghost f = t@.subrange(pos as int, e as int);
        let ghost tail: Seq<Seq<char>> = if e < len {
            split_on(t@.skip(e + 1), '\n')
        } else {
            Seq::empty()
        };
        proof {
            lemma_find_shift(t@, pos as int, pos as int, '\n');
            assert(rest.take(e - pos) =~= f);
            if e < len {
                assert(rest.skip(e - pos + 1) =~= t@.skip(e + 1));
            }
            if e == len {
                assert(rest =~= f);
            }
            assert(split_on(rest, '\n') =~= seq![f] + tail);
            assert((seq![f] + tail).drop_first() =~= tail);
        }
        let (a, b) = trim_bounds(&t, pos, e);
        let ghost before = addrs@;
        if a < b {
            let piece = slice_chars(&t, a, b);
            match parse_ip_exec(&piece) {
                None => {
                    return Err(ClientBuildError::InvalidAddressFormat(string_of(&piece)));
                },
                Some(ip) => {
                    addrs.push(ip);
                    proof {
                        match scan_lines(tail) {
                            Ok(r) => {
                                assert(before + (seq![ip] + r) =~= addrs@ + r);
                            },
                            Err(_) => {},
                        }
                    }
                },
            }
        }
        if e == len {
            proof {
                assert(scan_lines(tail) == Ok::<Seq<IpAddress>, Seq<char>>(Seq::empty()));
                assert(addrs@ + Seq::<IpAddress>::empty() =~= addrs@);
            }
            let d = dedup_addresses(&addrs);
            if d.len() == 0 {
                return Err(ClientBuildError::NoValidIpInFile);
            }
            return Ok(d);
        }
        pos = e + 1;
    }
}


/// The character of digit `d` (0 to 15), in lower-case hexadecimal.
pub open spec fn digit_char(d: int) -> char {
    if d == 0 { '0' } else if d == 1 { '1' } else if d == 2 { '2' } else if d == 3 { '3' }
    else if d == 4 { '4' } else if d == 5 { '5' } else if d == 6 { '6' } else if d == 7 { '7' }
    else if d == 8 { '8' } else if d == 9 { '9' } else if d == 10 { 'a' } else if d == 11 { 'b' }
    else if d == 12 { 'c' } else if d == 13 { 'd' } else if d == 14 { 'e' } else { 'f' }
}

fn digit_char_exec(d: u16) -> (c: char)
    requires
        d < 16,
    ensures
        c == digit_char(d as int),
{
    if d == 0 { '0' } else if d == 1 { '1' } else if d == 2 { '2' } else if d == 3 { '3' }
    else if d == 4 { '4' } else if d == 5 { '5' } else if d == 6 { '6' } else if d == 7 { '7' }
    else if d == 8 { '8' } else if d == 9 { '9' } else if d == 10 { 'a' } else if d == 11 { 'b' }
    else if d == 12 { 'c' } else if d == 13 { 'd' } else if d == 14 { 'e' } else { 'f' }
}

/// `n` written in base 16 when `b` is 16, else in base 10, without leading zeros.
pub open spec fn digits_in(n: nat, b: nat) -> Seq<char>
    decreases n,
{
    if b == 16 {
        if n < 16 {
            seq![digit_char(n as int)]
        } else {
            digits_in(n / 16, b).push(digit_char((n % 16) as int))
        }
    } else {
        if n < 10 {
            seq![digit_char(n as int)]
        } else {
            digits_in(n / 10, b).push(digit_char((n % 10) as int))
        }
    }
}

/// Appends `n` written in base `b`.
fn push_digits(out: &mut Vec<char>, n: u16, b: u16)
    requires
        b == 10 || b == 16,
    ensures
        final(out)@ == old(out)@ + digits_in(n as nat, b as nat),
    decreases n,
{
    if n >= b {
        push_digits(out, n / b, b);
    }
    out.push(digit_char_exec(n % b));
}

/// The dotted-decimal text of an IPv4 address.
pub open spec fn v4_text(a: IpAddress) -> Seq<char> {
    match a {
        IpAddress::V4(x0, x1, x2, x3) => digits_in(x0 as nat, 10) + seq!['.'] + digits_in(x1 as nat, 10)
            + seq!['.'] + digits_in(x2 as nat, 10) + seq!['.'] + digits_in(x3 as nat, 10),
        IpAddress::V6(..) => Seq::empty(),
    }
}

/// The eight groups of an IPv6 address.
pub open spec fn v6_groups(a: IpAddress) -> Seq<u16> {
    match a {
        IpAddress::V6(g0, g1, g2, g3, g4, g5, g6, g7) => seq![g0, g1, g2, g3, g4, g5, g6, g7],
        IpAddress::V4(..) => Seq::empty(),
    }
}

/// Groups in lower-case hexadecimal, separated by `:`.
pub open spec fn hex_join(gs: Seq<u16>) -> Seq<char>
    decreases gs.len(),
{
    if gs.len() == 0 {
        Seq::empty()
    } else if gs.len() == 1 {
        digits_in(gs[0] as nat, 16)
    } else {
        digits_in(gs[0] as nat, 16) + seq![':'] + hex_join(gs.drop_first())
    }
}

/// The longest run of zero groups from index `i` on, the first of equal
/// ones: `(cs, cl)` is the run under way, `(bs, bl)` the longest so far.
pub open spec fn zero_scan(g: Seq<u16>, i: int, cs: int, cl: int, bs: int, bl: int) -> (int, int)
    decreases g.len() - i,
{
    if i < 0 || i >= g.len() {
        (bs, bl)
    } else if g[i] == 0 {
        let ncs = if cl == 0 { i } else { cs };
        if cl + 1 > bl {
            zero_scan(g, i + 1, ncs, cl + 1, ncs, cl + 1)
        } else {
            zero_scan(g, i + 1, ncs, cl + 1, bs, bl)
        }
    } else {
        zero_scan(g, i + 1, 0, 0, bs, bl)
    }
}

/// Whether the groups are those of an IPv4-mapped address, `::ffff:a.b.c.d`.
pub open spec fn is_v4_mapped(g: Seq<u16>) -> bool {
    g[0] == 0 && g[1] == 0 && g[2] == 0 && g[3] == 0 && g[4] == 0 && g[5] == 0xffff
}

/// The IPv4 address in the last two groups.
pub open spec fn mapped_v4(g: Seq<u16>) -> IpAddress {
    IpAddress::V4((g[6] / 256) as u8, (g[6] % 256) as u8, (g[7] / 256) as u8, (g[7] % 256) as u8)
}

/// The text of an IPv6 address in its usual short form: an IPv4-mapped one
/// as `::ffff:` and its dotted IPv4 address; otherwise the longest run of two
/// or more zero groups (the first of equal ones) written as `::`.
pub open spec fn v6_text(g: Seq<u16>) -> Seq<char> {
    if is_v4_mapped(g) {
        seq![':', ':'] + digits_in(0xffff, 16) + seq![':'] + v4_text(mapped_v4(g))
    } else {
        let (s, l) = zero_scan(g, 0, 0, 0, 0, 0);
        if l > 1 {
            hex_join(g.take(s)) + seq![':', ':'] + hex_join(g.skip(s + l))
        } else {
            hex_join(g)
        }
    }
}

/// The text of an address: dotted decimal for IPv4, eight hexadecimal groups
/// for IPv6.
pub open spec fn ip_text(a: IpAddress) -> Seq<char> {
    match a {
        IpAddress::V4(..) => v4_text(a),
        IpAddress::V6(..) => v6_text(v6_groups(a)),
    }
}

/// The text of a pool file: one address per line.
pub open spec fn pool_text(p: Seq<IpAddress>) -> Seq<char>
    decreases p.len(),
{
    if p.len() == 0 {
        Seq::empty()
    } else if p.len() == 1 {
        ip_text(p[0])
    } else {
        ip_text(p[0]) + seq!['\n'] + pool_text(p.drop_first())
    }
}

proof fn lemma_join_push(gs: Seq<u16>, x: u16)
    ensures
        gs.len() == 0 ==> hex_join(gs.push(x)) == digits_in(x as nat, 16),
        gs.len() > 0 ==> hex_join(gs.push(x)) == hex_join(gs) + seq![':'] + digits_in(x as nat, 16),
    decreases gs.len(),
{
    let e = gs.push(x);
    if gs.len() == 0 {
        assert(e.len() == 1 && e[0] == x);
    } else if gs.len() == 1 {
        assert(e.drop_first() =~= seq![x]);
        assert(hex_join(seq![x]) == digits_in(x as nat, 16));
    } else {
        assert(e.drop_first() =~= gs.drop_first().push(x));
        lemma_join_push(gs.drop_first(), x);
        assert(hex_join(e) =~= hex_join(gs) + seq![':'] + digits_in(x as nat, 16));
    }
}

/// Appends the groups `g[lo..hi]`, separated by `:`.
fn push_join(out: &mut Vec<char>, g: &Vec<u16>, lo: usize, hi: usize)
    requires
        lo <= hi <= g@.len(),
    ensures
        final(out)@ == old(out)@ + hex_join(g@.subrange(lo as int, hi as int)),
{
    let ghost start = out@;
    let mut i = lo;
    assert(g@.subrange(lo as int, lo as int) =~= Seq::<u16>::empty());
    assert(start + hex_join(Seq::<u16>::empty()) =~= start);
    while i < hi
        invariant
            lo <= i <= hi <= g@.len(),
            out@ == start + hex_join(g@.subrange(lo as int, i as int)),
        decreases hi - i,
    {
        let ghost part = g@.subrange(lo as int, i as int);
        assert(g@.subrange(lo as int, i + 1) =~= part.push(g@[i as int]));
        proof {
            lemma_join_push(part, g@[i as int]);
        }
        if i > lo {
            out.push(':');
        }
        push_digits(out, g[i], 16);
        i = i + 1;
        assert(out@ =~= start + hex_join(g@.subrange(lo as int, i as int)));
    }
}

proof fn lemma_zero_scan(g: Seq<u16>, i: int, cs: int, cl: int, bs: int, bl: int)
    requires
        0 <= i <= g.len(),
        0 <= bs,
        0 <= bl,
        bs + bl <= i,
        forall|k: int| bs <= k < bs + bl ==> g[k] == 0,
        0 <= cl,
        cl > 0 ==> 0 <= cs && cs + cl == i,
        cl > 0 ==> forall|k: int| cs <= k < cs + cl ==> g[k] == 0,
    ensures
        ({
            let (s, l) = zero_scan(g, i, cs, cl, bs, bl);
            &&& 0 <= s
            &&& 0 <= l
            &&& s + l <= g.len()
            &&& forall|k: int| s <= k < s + l ==> g[k] == 0
        }),
    decreases g.len() - i,
{
    if i < g.len() {
        if g[i] == 0 {
            let ncs = if cl == 0 { i } else { cs };
            if cl + 1 > bl {
                lemma_zero_scan(g, i + 1, ncs, cl + 1, ncs, cl + 1);
            } else {
                lemma_zero_scan(g, i + 1, ncs, cl + 1, bs, bl);
            }
        } else {
            lemma_zero_scan(g, i + 1, 0, 0, bs, bl);
        }
    }
}

/// The longest run of zero groups of `g`, the first of equal ones.
fn zero_span_exec(g: &Vec<u16>) -> (r: (usize, usize))
    ensures
        r.0 as int == zero_scan(g@, 0, 0, 0, 0, 0).0,
        r.1 as int == zero_scan(g@, 0, 0, 0, 0, 0).1,
        r.0 + r.1 <= g@.len(),
{
    let mut cs: usize = 0;
    let mut cl: usize = 0;
    let mut bs: usize = 0;
    let mut bl: usize = 0;
    let mut i: usize = 0;
    proof {
        lemma_zero_scan(g@, 0, 0, 0, 0, 0);
    }
    while i < g.len()
        invariant
            i <= g@.len(),
            cl <= i,
            bl <= i,
            bs + bl <= i,
            cl > 0 ==> cs + cl == i,
            zero_scan(g@, 0, 0, 0, 0, 0) == zero_scan(g@, i as int, cs as int, cl as int, bs as int, bl as int),
        decreases g@.len() - i,
    {
        if g[i] == 0 {
            if cl == 0 {
                cs = i;
            }
            cl = cl + 1;
            if cl > bl {
                bs = cs;
                bl = cl;
            }
        } else {
            cs = 0;
            cl = 0;
        }
        i = i + 1;
    }
    (bs, bl)
}

fn push_v4(out: &mut Vec<char>, a: IpAddress)
    ensures
        final(out)@ == old(out)@ + v4_text(a),
{
    let ghost start = out@;
    match a {
        IpAddress::V4(x0, x1, x2, x3) => {
            push_digits(out, x0 as u16, 10);
            out.push('.');
            push_digits(out, x1 as u16, 10);
            out.push('.');
            push_digits(out, x2 as u16, 10);
            out.push('.');
            push_digits(out, x3 as u16, 10);
        },
        IpAddress::V6(..) => {},
    }
    assert(out@ =~= start + v4_text(a));
}

fn push_ip(out: &mut Vec<char>, a: IpAddress)
    ensures
        final(out)@ == old(out)@ + ip_text(a),
{
    let ghost start = out@;
    match a {
        IpAddress::V4(..) => {
            push_v4(out, a);
        },
        IpAddress::V6(g0, g1, g2, g3, g4, g5, g6, g7) => {
            let mut g: Vec<u16> = Vec::new();
            g.push(g0);
            g.push(g1);
            g.push(g2);
            g.push(g3);
            g.push(g4);
            g.push(g5);
            g.push(g6);
            g.push(g7);
            assert(g@ =~= v6_groups(a));
            if g0 == 0 && g1 == 0 && g2 == 0 && g3 == 0 && g4 == 0 && g5 == 0xffff {
                out.push(':');
                out.push(':');
                push_digits(out, 0xffff, 16);
                out.push(':');
                push_v4(out, IpAddress::V4((g6 / 256) as u8, (g6 % 256) as u8, (g7 / 256) as u8, (g7 % 256) as u8));
            } else {
                let (zs, zl) = zero_span_exec(&g);
                if zl > 1 {
                    push_join(out, &g, 0, zs);
                    out.push(':');
                    out.push(':');
                    push_join(out, &g, zs + zl, 8);
                    assert(g@.subrange(0, zs as int) =~= g@.take(zs as int));
                    assert(g@.subrange(zs + zl, 8) =~= g@.skip(zs + zl));
                } else {
                    push_join(out, &g, 0, 8);
                    assert(g@.subrange(0, 8) =~= g@);
                }
            }
        },
    }
    assert(out@ =~= start + ip_text(a));
}

/// The text of an address.
pub fn ip_to_string(a: IpAddress) -> (r: String)
    ensures
        r@ == ip_text(a),
{
    let mut out: Vec<char> = Vec::new();
    push_ip(&mut out, a);
    assert(out@ =~= ip_text(a));
    string_of(&out)
}

/// The lines that follow a first one: each preceded by a line break.
pub open spec fn sep_text(p: Seq<IpAddress>) -> Seq<char> {
    if p.len() == 0 {
        Seq::empty()
    } else {
        seq!['\n'] + pool_text(p)
    }
}

proof fn lemma_pool_text_head(p: Seq<IpAddress>)
    requires
        p.len() >= 1,
    ensures
        pool_text(p) == ip_text(p[0]) + sep_text(p.drop_first()),
{
    if p.len() == 1 {
        assert(ip_text(p[0]) + Seq::<char>::empty() =~= ip_text(p[0]));
    } else {
        assert(ip_text(p[0]) + seq!['\n'] + pool_text(p.drop_first()) =~= ip_text(p[0]) + (seq!['\n']
            + pool_text(p.drop_first())));
    }
}

/// The normalised text of a pool file for `pool`: one address per line.
pub fn pool_file_text(pool: &Vec<IpAddress>) -> (r: String)
    ensures
        r@ == pool_text(pool@),
{
    let mut out: Vec<char> = Vec::new();
    let mut i: usize = 0;
    while i < pool.len()
        invariant
            i <= pool@.len(),
            i == 0 ==> out@ == Seq::<char>::empty(),
            i > 0 ==> out@ + sep_text(pool@.skip(i as int)) == pool_text(pool@),
        decreases pool@.len() - i,
    {
        let ghost before = out@;
        let ghost rest = pool@.skip(i as int);
        assert(rest.drop_first() =~= pool@.skip(i + 1));
        assert(rest[0] == pool@[i as int]);
        proof {
            lemma_pool_text_head(rest);
        }
        if i > 0 {
            out.push('\n');
        }
        push_ip(&mut out, pool[i]);
        proof {
            if i == 0 {
                assert(pool@.skip(0) =~= pool@);
                assert(out@ =~= ip_text(rest[0]));
            } else {
                assert(before + sep_text(rest) =~= out@ + sep_text(rest.drop_first()));
            }
        }
        i = i + 1;
    }
    proof {
        if i == 0 {
            assert(pool@.len() == 0);
        } else {
            assert(pool@.skip(i as int) =~= Seq::<IpAddress>::empty());
            assert(out@ + Seq::<char>::empty() =~= out@);
        }
    }
    string_of(&out)
}


proof fn lemma_find_at(x: Seq<char>, i: int, k: int, c: char)
    requires
        0 <= i <= k < x.len(),
        x[k] == c,
        forall|m: int| i <= m < k ==> x[m] != c,
    ensures
        find_from(x, i, c) == k,
    decreases k - i,
{
    if i < k {
        lemma_find_at(x, i + 1, k, c);
    }
}

proof fn lemma_find_none(x: Seq<char>, i: int, c: char)
    requires
        0 <= i <= x.len(),
        forall|m: int| i <= m < x.len() ==> x[m] != c,
    ensures
        find_from(x, i, c) == x.len(),
    decreases x.len() - i,
{
    if i < x.len() {
        lemma_find_none(x, i + 1, c);
    }
}

proof fn lemma_split_cons(p: Seq<char>, r: Seq<char>, c: char)
    requires
        !p.contains(c),
    ensures
        split_on(p + seq![c] + r, c) == seq![p] + split_on(r, c),
{
    let x = p + seq![c] + r;
    assert forall|m: int| 0 <= m < p.len() implies x[m] != c by {
        assert(x[m] == p[m]);
    }
    lemma_find_at(x, 0, p.len() as int, c);
    assert(x.take(p.len() as int) =~= p);
    assert(x.skip(p.len() as int + 1) =~= r);
}

proof fn lemma_split_single(p: Seq<char>, c: char)
    requires
        !p.contains(c),
    ensures
        split_on(p, c) == seq![p],
{
    lemma_find_none(p, 0, c);
}

/// Whether `c` is a decimal digit or a lower-case hexadecimal letter.
pub open spec fn is_hex_char(c: char) -> bool {
    is_digit(c) || ('a' <= c <= 'f')
}

proof fn lemma_digit_char(d: int)
    ensures
        0 <= d < 10 ==> is_digit(digit_char(d)) && (digit_char(d) as u32) - ('0' as u32) == d,
        is_hex_char(digit_char(d)),
        is_hex(digit_char(d)),
        0 <= d < 16 ==> hex_val(digit_char(d)) == d,
{
}

proof fn lemma_digits_chars(n: nat, b: nat)
    ensures
        forall|k: int| 0 <= k < digits_in(n, b).len() ==> is_hex_char(#[trigger] digits_in(n, b)[k]),
        b != 16 ==> forall|k: int| 0 <= k < digits_in(n, b).len() ==> is_digit(#[trigger] digits_in(n, b)[k]),
        digits_in(n, b).len() >= 1,
    decreases n,
{
    if b == 16 {
        lemma_digit_char((n % 16) as int);
        lemma_digit_char(n as int);
        if n >= 16 {
            lemma_digits_chars(n / 16, b);
        }
    } else {
        lemma_digit_char((n % 10) as int);
        lemma_digit_char(n as int);
        if n >= 10 {
            lemma_digits_chars(n / 10, b);
        }
    }
}

proof fn lemma_dec_value(n: nat)
    ensures
        digits_value(digits_in(n, 10)) == n,
        n >= 1 ==> digits_in(n, 10)[0] != '0',
        n < 10 ==> digits_in(n, 10).len() == 1,
        10 <= n < 100 ==> digits_in(n, 10).len() == 2,
        100 <= n < 1000 ==> digits_in(n, 10).len() == 3,
    decreases n,
{
    lemma_digit_char((n % 10) as int);
    lemma_digit_char(n as int);
    let d = digits_in(n, 10);
    if n >= 10 {
        lemma_dec_value(n / 10);
        assert(d.drop_last() =~= digits_in(n / 10, 10));
        assert(d.last() == digit_char((n % 10) as int));
        assert(digits_value(d) == (n / 10) * 10 + (n % 10) as nat);
        assert(digits_value(d) == n);
    } else {
        assert(d.drop_last() =~= Seq::<char>::empty());
        assert(d.last() == digit_char(n as int));
        assert(digits_value(d.drop_last()) == 0);
        assert(digits_value(d) == n);
    }
}

proof fn lemma_dec_octet(n: u8)
    ensures
        dec_octet(digits_in(n as nat, 10)) == Some(n),
{
    lemma_dec_value(n as nat);
    lemma_digits_chars(n as nat, 10);
}

proof fn lemma_no_sep(n: nat, b: nat)
    ensures
        !digits_in(n, b).contains('.'),
        !digits_in(n, b).contains('\n'),
        !digits_in(n, b).contains(':'),
{
    lemma_digits_chars(n, b);
}

proof fn lemma_parse_ip_text(a: IpAddress)
    requires
        a is V4,
    ensures
        parse_ipv4(ip_text(a)) == Some(a),
{
    match a {
        IpAddress::V4(x0, x1, x2, x3) => {
            let d0 = digits_in(x0 as nat, 10);
            let d1 = digits_in(x1 as nat, 10);
            let d2 = digits_in(x2 as nat, 10);
            let d3 = digits_in(x3 as nat, 10);
            lemma_no_sep(x0 as nat, 10);
            lemma_no_sep(x1 as nat, 10);
            lemma_no_sep(x2 as nat, 10);
            lemma_no_sep(x3 as nat, 10);
            let r2 = d2 + seq!['.'] + d3;
            let r1 = d1 + seq!['.'] + r2;
            assert(ip_text(a) =~= d0 + seq!['.'] + r1);
            lemma_split_cons(d0, r1, '.');
            lemma_split_cons(d1, r2, '.');
            lemma_split_cons(d2, d3, '.');
            lemma_split_single(d3, '.');
            let fs = split_on(ip_text(a), '.');
            assert(fs =~= seq![d0, d1, d2, d3]);
            lemma_dec_octet(x0);
            lemma_dec_octet(x1);
            lemma_dec_octet(x2);
            lemma_dec_octet(x3);
        },
        IpAddress::V6(..) => {},
    }
}

proof fn lemma_concat_no(x: Seq<char>, y: Seq<char>, c: char)
    requires
        !x.contains(c),
        !y.contains(c),
    ensures
        !(x + y).contains(c),
{
    if (x + y).contains(c) {
        let k = choose|k: int| 0 <= k < (x + y).len() && (x + y)[k] == c;
        if k < x.len() {
            assert(x[k] == c);
        } else {
            assert(y[k - x.len()] == c);
        }
    }
}

proof fn lemma_ip_text_shape(a: IpAddress)
    ensures
        !ip_text(a).contains('\n'),
        ip_text(a).len() > 0 && !is_ws(ip_text(a)[0]) && !is_ws(ip_text(a).last()),
{
    lemma_ip_text_chars(a);
    let t = ip_text(a);
    if t.contains('\n') {
        let k = choose|k: int| 0 <= k < t.len() && t[k] == '\n';
        assert(ip_char(t[k]));
    }
    assert(ip_char(t[0]));
    assert(ip_char(t[t.len() - 1]));
}


proof fn lemma_split_pool(p: Seq<IpAddress>)
    requires
        p.len() >= 1,
    ensures
        split_on(pool_text(p), '\n') == p.map_values(|a: IpAddress| ip_text(a)),
    decreases p.len(),
{
    lemma_ip_text_shape(p[0]);
    if p.len() == 1 {
        lemma_split_single(ip_text(p[0]), '\n');
        assert(p.map_values(|a: IpAddress| ip_text(a)) =~= seq![ip_text(p[0])]);
    } else {
        lemma_split_cons(ip_text(p[0]), pool_text(p.drop_first()), '\n');
        lemma_split_pool(p.drop_first());
        assert(p.map_values(|a: IpAddress| ip_text(a)) =~= seq![ip_text(p[0])] + p.drop_first().map_values(
            |a: IpAddress| ip_text(a),
        ));
    }
}

proof fn lemma_trim_id(t: Seq<char>)
    requires
        t.len() > 0,
        !is_ws(t[0]),
        !is_ws(t.last()),
    ensures
        trim(t) == t,
{
    assert(lead_ws(t) == 0);
    assert(t.skip(0) =~= t);
    assert(trail_ws(t) == 0);
    assert(t.take(t.len() as int) =~= t);
}

proof fn lemma_hex_value(n: nat)
    ensures
        hex_value(digits_in(n, 16)) == n,
        n < 16 ==> digits_in(n, 16).len() == 1,
        16 <= n < 256 ==> digits_in(n, 16).len() == 2,
        256 <= n < 4096 ==> digits_in(n, 16).len() == 3,
        4096 <= n < 65536 ==> digits_in(n, 16).len() == 4,
        forall|k: int| 0 <= k < digits_in(n, 16).len() ==> is_hex(#[trigger] digits_in(n, 16)[k]),
    decreases n,
{
    lemma_digit_char((n % 16) as int);
    lemma_digit_char(n as int);
    let d = digits_in(n, 16);
    if n >= 16 {
        lemma_hex_value(n / 16);
        assert(d.drop_last() =~= digits_in(n / 16, 16));
        assert(d.last() == digit_char((n % 16) as int));
        assert(hex_value(d) == (n / 16) * 16 + (n % 16) as nat);
        assert forall|k: int| 0 <= k < d.len() implies is_hex(#[trigger] d[k]) by {
            if k < d.len() - 1 {
                assert(d[k] == digits_in(n / 16, 16)[k]);
            }
        }
    } else {
        assert(d.drop_last() =~= Seq::<char>::empty());
        assert(hex_value(d.drop_last()) == 0);
        assert(hex_value(d) == n);
    }
}

proof fn lemma_hex16(n: u16)
    ensures
        hex16(digits_in(n as nat, 16)) == Some(n),
{
    lemma_hex_value(n as nat);
}

/// Whether `s` holds no `::`.
pub open spec fn no_pair(s: Seq<char>) -> bool {
    forall|k: int| 0 <= k < s.len() - 1 ==> !(#[trigger] s[k] == ':' && s[k + 1] == ':')
}

proof fn lemma_find_pair_none(s: Seq<char>, i: int)
    requires
        0 <= i,
        no_pair(s),
    ensures
        find_pair(s, i) == s.len(),
    decreases s.len() - i,
{
    if i + 1 < s.len() {
        assert(!(s[i] == ':' && s[i + 1] == ':'));
        lemma_find_pair_none(s, i + 1);
    }
}

proof fn lemma_no_colon_no_pair(h: Seq<char>)
    requires
        !h.contains(':'),
        h.len() > 0,
    ensures
        no_pair(h),
        h.last() != ':',
{
    assert(h[h.len() - 1] == h.last());
    assert forall|k: int| 0 <= k < h.len() - 1 implies !(#[trigger] h[k] == ':' && h[k + 1] == ':') by {
        if h[k] == ':' {
            assert(h.contains(':'));
        }
    }
}

/// A character that address texts are made of.
pub open spec fn ip_char(c: char) -> bool {
    is_hex_char(c) || c == ':' || c == '.'
}

pub open spec fn all_ip_chars(s: Seq<char>) -> bool {
    forall|k: int| 0 <= k < s.len() ==> ip_char(#[trigger] s[k])
}

proof fn lemma_all_concat(x: Seq<char>, y: Seq<char>)
    requires
        all_ip_chars(x),
        all_ip_chars(y),
    ensures
        all_ip_chars(x + y),
{
    assert forall|k: int| 0 <= k < (x + y).len() implies ip_char(#[trigger] (x + y)[k]) by {
        if k < x.len() {
            assert((x + y)[k] == x[k]);
        } else {
            assert((x + y)[k] == y[k - x.len()]);
        }
    }
}

proof fn lemma_digits_ip(n: nat, b: nat)
    ensures
        all_ip_chars(digits_in(n, b)),
        !digits_in(n, b).contains(':'),
        !digits_in(n, b).contains('.'),
        digits_in(n, b).len() >= 1,
{
    lemma_digits_chars(n, b);
    lemma_no_sep(n, b);
}

proof fn lemma_sep_ip(c: char)
    requires
        c == ':' || c == '.',
    ensures
        all_ip_chars(seq![c]),
{
    assert(seq![c][0] == c);
}

proof fn lemma_v4_text_chars(a: IpAddress)
    requires
        a is V4,
    ensures
        all_ip_chars(v4_text(a)),
        !v4_text(a).contains(':'),
        v4_text(a).len() > 0,
        v4_text(a).contains('.'),
{
    match a {
        IpAddress::V4(x0, x1, x2, x3) => {
            let d0 = digits_in(x0 as nat, 10);
            let d1 = digits_in(x1 as nat, 10);
            let d2 = digits_in(x2 as nat, 10);
            let d3 = digits_in(x3 as nat, 10);
            let dot = seq!['.'];
            lemma_digits_ip(x0 as nat, 10);
            lemma_digits_ip(x1 as nat, 10);
            lemma_digits_ip(x2 as nat, 10);
            lemma_digits_ip(x3 as nat, 10);
            lemma_sep_ip('.');
            lemma_all_concat(d0, dot);
            lemma_all_concat(d0 + dot, d1);
            lemma_all_concat(d0 + dot + d1, dot);
            lemma_all_concat(d0 + dot + d1 + dot, d2);
            lemma_all_concat(d0 + dot + d1 + dot + d2, dot);
            lemma_all_concat(d0 + dot + d1 + dot + d2 + dot, d3);
            assert(!dot.contains(':')) by {
                assert(dot[0] != ':');
            }
            lemma_concat_no(d0, dot, ':');
            lemma_concat_no(d0 + dot, d1, ':');
            lemma_concat_no(d0 + dot + d1, dot, ':');
            lemma_concat_no(d0 + dot + d1 + dot, d2, ':');
            lemma_concat_no(d0 + dot + d1 + dot + d2, dot, ':');
            lemma_concat_no(d0 + dot + d1 + dot + d2 + dot, d3, ':');
            let t = v4_text(a);
            assert(t == d0 + dot + d1 + dot + d2 + dot + d3);
            assert(t[d0.len() as int] == '.');
        },
        IpAddress::V6(..) => {},
    }
}

/// Joined groups: hexadecimal digits and `:` only, starting and ending
/// with a digit, with no `::`.
proof fn lemma_join_chars(gs: Seq<u16>)
    ensures
        forall|k: int| 0 <= k < hex_join(gs).len() ==> (is_hex_char(#[trigger] hex_join(gs)[k]) || hex_join(gs)[k] == ':'),
        all_ip_chars(hex_join(gs)),
        !hex_join(gs).contains('.'),
        gs.len() > 0 ==> hex_join(gs).len() > 0 && is_hex_char(hex_join(gs)[0]) && is_hex_char(hex_join(gs).last()),
        gs.len() > 0 ==> no_pair(hex_join(gs)),
    decreases gs.len(),
{
    let t = hex_join(gs);
    if gs.len() == 1 {
        lemma_digits_chars(gs[0] as nat, 16);
        lemma_digits_ip(gs[0] as nat, 16);
        lemma_no_colon_no_pair(t);
        assert(t.last() == t[t.len() - 1]);
    } else if gs.len() > 1 {
        let d = digits_in(gs[0] as nat, 16);
        let r = hex_join(gs.drop_first());
        lemma_join_chars(gs.drop_first());
        lemma_digits_chars(gs[0] as nat, 16);
        lemma_digits_ip(gs[0] as nat, 16);
        assert(t == d + seq![':'] + r);
        assert forall|k: int| 0 <= k < t.len() implies (is_hex_char(#[trigger] t[k]) || t[k] == ':') by {
            if k < d.len() {
                assert(t[k] == d[k]);
            } else if k > d.len() {
                assert(t[k] == r[k - d.len() - 1]);
            }
        }
        assert(t.last() == r.last());
        assert(t[0] == d[0]);
        assert forall|k: int| 0 <= k < t.len() - 1 implies !(#[trigger] t[k] == ':' && t[k + 1] == ':') by {
            if k < d.len() {
                assert(t[k] == d[k]);
            } else if k == d.len() {
                assert(t[k + 1] == r[0]);
            } else {
                assert(t[k] == r[k - d.len() - 1] && t[k + 1] == r[k - d.len()]);
            }
        }
    }
    assert forall|k: int| 0 <= k < t.len() implies ip_char(#[trigger] t[k]) by {
        assert(is_hex_char(t[k]) || t[k] == ':');
    }
    if t.contains('.') {
        let k = choose|k: int| 0 <= k < t.len() && t[k] == '.';
        assert(is_hex_char(t[k]) || t[k] == ':');
    }
}

proof fn lemma_join_groups(gs: Seq<u16>)
    ensures
        groups_of(hex_join(gs)) == Some(gs),
    decreases gs.len(),
{
    if gs.len() > 0 {
        lemma_join_split(gs);
        let fs = gs.map_values(|g: u16| digits_in(g as nat, 16));
        assert forall|k: int| 0 <= k < fs.len() implies (#[trigger] hex16(fs[k])) is Some by {
            lemma_hex16(gs[k]);
        }
        assert forall|k: int| 0 <= k < fs.len() implies #[trigger] hex16(fs[k])->Some_0 == gs[k] by {
            lemma_hex16(gs[k]);
        }
        lemma_join_chars(gs);
        assert(fs.map_values(|f: Seq<char>| hex16(f)->Some_0) =~= gs);
    } else {
        assert(gs =~= Seq::<u16>::empty());
    }
}

proof fn lemma_join_split(gs: Seq<u16>)
    requires
        gs.len() > 0,
    ensures
        split_on(hex_join(gs), ':') == gs.map_values(|g: u16| digits_in(g as nat, 16)),
    decreases gs.len(),
{
    lemma_digits_ip(gs[0] as nat, 16);
    let d = digits_in(gs[0] as nat, 16);
    if gs.len() == 1 {
        lemma_split_single(d, ':');
        assert(gs.map_values(|g: u16| digits_in(g as nat, 16)) =~= seq![d]);
    } else {
        lemma_join_split(gs.drop_first());
        lemma_split_cons(d, hex_join(gs.drop_first()), ':');
        assert(gs.map_values(|g: u16| digits_in(g as nat, 16)) =~= seq![d] + gs.drop_first().map_values(
            |g: u16| digits_in(g as nat, 16),
        ));
    }
}

proof fn lemma_find_pair_at(s: Seq<char>, i: int, k: int)
    requires
        0 <= i <= k,
        k + 1 < s.len(),
        s[k] == ':' && s[k + 1] == ':',
        forall|j: int| i <= j < k ==> !(#[trigger] s[j] == ':' && s[j + 1] == ':'),
    ensures
        find_pair(s, i) == k,
    decreases k - i,
{
    if i < k {
        assert(!(s[i] == ':' && s[i + 1] == ':'));
        lemma_find_pair_at(s, i + 1, k);
    }
}

proof fn lemma_rfind_at(s: Seq<char>, i: int, k: int, c: char)
    requires
        0 <= k < i <= s.len(),
        s[k] == c,
        forall|j: int| k < j < i ==> s[j] != c,
    ensures
        rfind(s, i, c) == k,
    decreases i,
{
    if i - 1 > k {
        lemma_rfind_at(s, i - 1, k, c);
    }
}

proof fn lemma_find_from_ge(s: Seq<char>, i: int, c: char)
    requires
        0 <= i,
    ensures
        find_from(s, i, c) >= i || find_from(s, i, c) == s.len(),
    decreases s.len() - i,
{
    if i < s.len() && s[i] != c {
        lemma_find_from_ge(s, i + 1, c);
    }
}

proof fn lemma_ip_text_chars(a: IpAddress)
    ensures
        all_ip_chars(ip_text(a)),
        ip_text(a).len() > 0,
{
    match a {
        IpAddress::V4(..) => {
            lemma_v4_text_chars(a);
        },
        IpAddress::V6(..) => {
            let g = v6_groups(a);
            let t = ip_text(a);
            if is_v4_mapped(g) {
                let m = mapped_v4(g);
                lemma_v4_text_chars(m);
                lemma_digits_ip(0xffff, 16);
                lemma_sep_ip(':');
                let cc = seq![':', ':'];
                assert(all_ip_chars(cc)) by {
                    assert(cc[0] == ':' && cc[1] == ':');
                }
                lemma_all_concat(cc, digits_in(0xffff, 16));
                lemma_all_concat(cc + digits_in(0xffff, 16), seq![':']);
                lemma_all_concat(cc + digits_in(0xffff, 16) + seq![':'], v4_text(m));
            } else {
                let (zs, zl) = zero_scan(g, 0, 0, 0, 0, 0);
                if zl > 1 {
                    lemma_join_chars(g.take(zs));
                    lemma_join_chars(g.skip(zs + zl));
                    let cc = seq![':', ':'];
                    assert(all_ip_chars(cc)) by {
                        assert(cc[0] == ':' && cc[1] == ':');
                    }
                    lemma_all_concat(hex_join(g.take(zs)), cc);
                    lemma_all_concat(hex_join(g.take(zs)) + cc, hex_join(g.skip(zs + zl)));
                } else {
                    lemma_join_chars(g);
                }
            }
        },
    }
}

#[verifier::rlimit(60)]
proof fn lemma_parse_v6_text(a: IpAddress)
    requires
        a is V6,
    ensures
        parse_ip_spec(ip_text(a)) == Some(a),
{
    let g = v6_groups(a);
    let t = ip_text(a);
    assert(v6_of(g) == a);
    if is_v4_mapped(g) {
        let m = mapped_v4(g);
        let ff = digits_in(0xffff, 16);
        let d = v4_text(m);
        let tt = ff + seq![':'] + d;
        assert(t =~= seq![':', ':'] + tt);
        lemma_v4_text_chars(m);
        lemma_digits_ip(0xffff, 16);
        lemma_hex_value(0xffff);
        // not IPv4: the first dot-separated field starts with ':'
        lemma_find_from_ge(t, 1, '.');
        assert(t[0] == ':');
        let fs = split_on(t, '.');
        if fs.len() == 4 {
            let i = find_from(t, 0, '.');
            assert(fs[0] == t.take(i));
            assert(fs[0][0] == ':');
            assert(!is_digit(fs[0][0]));
            assert(dec_octet(fs[0]) is None);
        }
        assert(parse_ipv4(t) is None);
        // the `::` at the front
        assert(find_pair(t, 0) == 0);
        assert(t.take(0) =~= Seq::<char>::empty());
        assert(t.skip(2) =~= tt);
        // the tail: ffff, then the dotted address
        lemma_split_cons(ff, d, ':');
        lemma_split_single(d, ':');
        let tfs = split_on(tt, ':');
        assert(tfs =~= seq![ff, d]);
        let k = choose|k: int| 0 <= k < d.len() && d[k] == '.';
        assert(!is_hex(d[k]));
        assert(hex16(tfs[1]) is None);
        assert(groups_of(tt) is None);
        assert(tt[4] == ':');
        assert forall|j: int| 4 < j < tt.len() implies tt[j] != ':' by {
            assert(tt[j] == d[j - 5]);
        }
        lemma_rfind_at(tt, tt.len() as int, 4, ':');
        assert(tt.take(4) =~= ff);
        assert(tt.skip(5) =~= d);
        lemma_join_groups(seq![0xffffu16]);
        assert(hex_join(seq![0xffffu16]) == ff);
        lemma_parse_ip_text(m);
        assert(parse_ipv4(d) == Some(m));
        let vg = v4_groups(m);
        assert(vg =~= seq![g[6], g[7]]);
        let tg = seq![0xffffu16] + vg;
        assert(tail_groups(tt) == Some(tg));
        let full = Seq::<u16>::empty() + Seq::new(5, |k: int| 0u16) + tg;
        assert(full =~= g);
    } else {
        let (zs, zl) = zero_scan(g, 0, 0, 0, 0, 0);
        lemma_zero_scan(g, 0, 0, 0, 0, 0);
        if zl > 1 {
            let h = g.take(zs);
            let w = g.skip(zs + zl);
            let j1 = hex_join(h);
            let j2 = hex_join(w);
            let cc = seq![':', ':'];
            assert(t == j1 + cc + j2);
            lemma_join_chars(h);
            lemma_join_chars(w);
            lemma_ip_text_chars(a);
            // no dot: not IPv4
            assert(!t.contains('.')) by {
                if t.contains('.') {
                    let k = choose|k: int| 0 <= k < t.len() && t[k] == '.';
                    if k < j1.len() {
                        assert(t[k] == j1[k]);
                    } else if k >= j1.len() + 2 {
                        assert(t[k] == j2[k - j1.len() - 2]);
                    }
                }
            }
            lemma_split_single(t, '.');
            assert(parse_ipv4(t) is None);
            // the first `::` is the compressed run
            assert forall|j: int| 0 <= j < j1.len() implies !(#[trigger] t[j] == ':' && t[j + 1] == ':') by {
                if j < j1.len() - 1 {
                    assert(t[j] == j1[j] && t[j + 1] == j1[j + 1]);
                } else {
                    assert(t[j] == j1.last());
                }
            }
            lemma_find_pair_at(t, 0, j1.len() as int);
            assert(t.take(j1.len() as int) =~= j1);
            assert(t.skip(j1.len() as int + 2) =~= j2);
            lemma_join_groups(h);
            lemma_join_groups(w);
            assert(tail_groups(j2) == Some(w));
            let full = h + Seq::new((8 - h.len() - w.len()) as nat, |k: int| 0u16) + w;
            assert(full =~= g);
        } else {
            lemma_join_chars(g);
            assert(t == hex_join(g));
            lemma_split_single(t, '.');
            lemma_find_pair_none(t, 0);
            lemma_join_groups(g);
        }
    }
}

/// The text of an address parses back to that address.
pub proof fn lemma_parse_text(a: IpAddress)
    ensures
        parse_ip_spec(ip_text(a)) == Some(a),
{
    if a is V4 {
        lemma_parse_ip_text(a);
    } else {
        lemma_parse_v6_text(a);
    }
}

proof fn lemma_scan_texts(p: Seq<IpAddress>)
    ensures
        scan_lines(p.map_values(|a: IpAddress| ip_text(a))) == Ok::<Seq<IpAddress>, Seq<char>>(p),
    decreases p.len(),
{
    let ls = p.map_values(|a: IpAddress| ip_text(a));
    if p.len() == 0 {
        assert(ls.len() == 0);
        assert(p =~= Seq::<IpAddress>::empty());
    } else {
        lemma_ip_text_shape(p[0]);
        lemma_trim_id(ip_text(p[0]));
        lemma_parse_text(p[0]);
        assert(ls[0] == ip_text(p[0]));
        assert(ls.drop_first() =~= p.drop_first().map_values(|a: IpAddress| ip_text(a)));
        lemma_scan_texts(p.drop_first());
        assert(seq![p[0]] + p.drop_first() =~= p);
    }
}

pub open spec fn no_dups(s: Seq<IpAddress>) -> bool {
    forall|i: int, j: int| 0 <= i < j < s.len() ==> s[i] != s[j]
}

/// Dropping repeats leaves no repeat and keeps only elements of `s`; a
/// non-empty `s` keeps at least one.
pub proof fn lemma_dedup_props(s: Seq<IpAddress>)
    ensures
        no_dups(dedup(s)),
        forall|x: IpAddress| dedup(s).contains(x) ==> s.contains(x),
        s.len() > 0 ==> dedup(s).len() > 0,
    decreases s.len(),
{
    if s.len() > 0 {
        if dedup(s.drop_last()).contains(s.last()) {
            assert(dedup(s.drop_last()).len() > 0);
        }
        lemma_dedup_props(s.drop_last());
        let d = dedup(s.drop_last());
        assert forall|x: IpAddress| dedup(s).contains(x) implies s.contains(x) by {
            if d.contains(x) {
                assert(s.drop_last().contains(x));
                let k = choose|k: int| 0 <= k < s.drop_last().len() && s.drop_last()[k] == x;
                assert(s.drop_last()[k] == s[k]);
                assert(s[k] == x);
            } else {
                assert(x == s.last());
                assert(s[s.len() - 1] == x);
            }
        }
        if !d.contains(s.last()) {
            let e = d.push(s.last());
            assert forall|i: int, j: int| 0 <= i < j < e.len() implies e[i] != e[j] by {
                if j == e.len() - 1 {
                    assert(e[i] == d[i]);
                    if e[i] == e[j] {
                        assert(d.contains(s.last()));
                    }
                }
            }
        }
    }
}

proof fn lemma_dedup_id(s: Seq<IpAddress>)
    requires
        no_dups(s),
    ensures
        dedup(s) == s,
    decreases s.len(),
{
    if s.len() > 0 {
        let t = s.drop_last();
        assert(no_dups(t)) by {
            assert forall|i: int, j: int| 0 <= i < j < t.len() implies t[i] != t[j] by {
                assert(t[i] == s[i] && t[j] == s[j]);
            }
        }
        lemma_dedup_id(t);
        if t.contains(s.last()) {
            let k = choose|k: int| 0 <= k < t.len() && t[k] == s.last();
            assert(s[k] == s[s.len() - 1]);
        }
        assert(t.push(s.last()) =~= s);
    }
}

/// Rewriting a pool file in normalised form and loading it again gives the
/// same pool: loading is idempotent over its own output.
pub proof fn lemma_pool_file_idempotent(text: Seq<char>)
    requires
        pool_of(text) is Ok,
    ensures
        pool_of(pool_text(pool_of(text)->Ok_0)) == pool_of(text),
{
    let addrs = scan_lines(split_on(text, '\n'))->Ok_0;
    let p = dedup(addrs);
    lemma_dedup_props(addrs);
    lemma_split_pool(p);
    lemma_scan_texts(p);
    lemma_dedup_id(p);
}

} // verus!
