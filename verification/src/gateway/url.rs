//! Backend addresses (`http://host:port`) and health-check URLs.
use vstd::prelude::*;
use crate::text::{chars_of, chars_start_with_at, has_prefix, string_of};

verus! {

/// Why a port number was refused; the kinds of `std::num::IntErrorKind`
/// that parsing a `u16` can give.
#[derive(Clone, Copy, Debug, PartialEq, Eq)]
pub enum PortError {
    /// Nothing after the `':'`.
    Empty,
    /// A character that is not a decimal digit (a lone sign included).
    InvalidDigit,
    /// More than 65535.
    PosOverflow,
}

/// Why a backend address was refused.
#[derive(Clone, Copy, Debug, PartialEq, Eq)]
pub enum BackendUrlError {
    /// No `':'` after the scheme.
    MissingPort,
    /// The text after the last `':'` is not a port number.
    InvalidPort(PortError),
}

pub open spec fn http_scheme() -> Seq<char> {
    seq!['h', 't', 't', 'p', ':', '/', '/']
}

pub open spec fn https_scheme() -> Seq<char> {
    seq!['h', 't', 't', 'p', 's', ':', '/', '/']
}

/// The address without a leading `http://` or, failing that, `https://`.
pub open spec fn strip_scheme(url: Seq<char>) -> Seq<char> {
    if has_prefix(url, http_scheme()) {
        url.skip(7)
    } else if has_prefix(url, https_scheme()) {
        url.skip(8)
    } else {
        url
    }
}

/// Position of the last `c` in `s`, or -1.
pub open spec fn last_index_of(s: Seq<char>, c: char) -> int
    decreases s.len(),
{
    if s.len() == 0 {
        -1
    } else if s.last() == c {
        s.len() - 1
    } else {
        last_index_of(s.drop_last(), c)
    }
}

pub open spec fn is_digit(c: char) -> bool {
    '0' <= c <= '9'
}

pub open spec fn digit_value(c: char) -> int {
    c as int - '0' as int
}

/// Reads the decimal digits of `s` onto `acc`, left to right, failing at the
/// first character that is not a digit or that takes the value past 65535.
pub open spec fn read_digits(s: Seq<char>, acc: int) -> Result<u16, PortError>
    decreases s.len(),
{
    if s.len() == 0 {
        Ok(acc as u16)
    } else if !is_digit(s[0]) {
        Err(PortError::InvalidDigit)
    } else if acc * 10 + digit_value(s[0]) > 65535 {
        Err(PortError::PosOverflow)
    } else {
        read_digits(s.drop_first(), acc * 10 + digit_value(s[0]))
    }
}

/// A port number as `u16::from_str` reads it: an optional `'+'`, then
/// decimal digits, at most 65535.
pub open spec fn parse_port(s: Seq<char>) -> Result<u16, PortError> {
    if s.len() == 0 {
        Err(PortError::Empty)
    } else if s.len() == 1 && (s[0] == '+' || s[0] == '-') {
        Err(PortError::InvalidDigit)
    } else if s[0] == '+' {
        read_digits(s.drop_first(), 0)
    } else {
        read_digits(s, 0)
    }
}

pub open spec fn is_bracket(c: char) -> bool {
    c == '[' || c == ']'
}

pub open spec fn trim_start_brackets(s: Seq<char>) -> Seq<char>
    decreases s.len(),
{
    if s.len() > 0 && is_bracket(s[0]) {
        trim_start_brackets(s.drop_first())
    } else {
        s
    }
}

pub open spec fn trim_end_brackets(s: Seq<char>) -> Seq<char>
    decreases s.len(),
{
    if s.len() > 0 && is_bracket(s.last()) {
        trim_end_brackets(s.drop_last())
    } else {
        s
    }
}

/// `s` without the `'['` and `']'` at either end.
pub open spec fn trim_brackets(s: Seq<char>) -> Seq<char> {
    trim_end_brackets(trim_start_brackets(s))
}

/// The host and port that a backend address names: the scheme goes, the
/// text splits at its last `':'`, the port is read from what follows and
/// the brackets of an IPv6 host are dropped.
pub open spec fn backend_address(url: Seq<char>) -> Result<(Seq<char>, u16), BackendUrlError> {
    let s = strip_scheme(url);
    let k = last_index_of(s, ':');
    if k < 0 {
        Err(BackendUrlError::MissingPort)
    } else {
        match parse_port(s.skip(k + 1)) {
            Err(e) => Err(BackendUrlError::InvalidPort(e)),
            Ok(p) => Ok((trim_brackets(s.take(k)), p)),
        }
    }
}

proof fn lemma_last_index_bounds(s: Seq<char>, c: char)
    ensures
        -1 <= last_index_of(s, c) < s.len(),
        last_index_of(s, c) >= 0 ==> s[last_index_of(s, c)] == c,
        forall|k: int| last_index_of(s, c) < k < s.len() ==> s[k] != c,
    decreases s.len(),
{
    if s.len() > 0 && s.last() != c {
        lemma_last_index_bounds(s.drop_last(), c);
        assert forall|k: int| last_index_of(s, c) < k < s.len() implies s[k] != c by {
            if k < s.len() - 1 {
                assert(s[k] == s.drop_last()[k]);
            }
        }
    }
}

fn scheme_length(v: &Vec<char>) -> (n: usize)
    ensures
        n <= v@.len(),
        v@.skip(n as int) == strip_scheme(v@),
{
    let http = vec!['h', 't', 't', 'p', ':', '/', '/'];
    let https = vec!['h', 't', 't', 'p', 's', ':', '/', '/'];
    assert(http@ =~= http_scheme());
    assert(https@ =~= https_scheme());
    assert(v@.skip(0) =~= v@);
    if chars_start_with_at(v, 0, &http) {
        7
    } else if chars_start_with_at(v, 0, &https) {
        8
    } else {
        0
    }
}

/// Reads the port number held in `v[lo..hi]`.
fn read_port(v: &Vec<char>, lo: usize, hi: usize) -> (r: Result<u16, PortError>)
    requires
        lo <= hi <= v@.len(),
    ensures
        r == parse_port(v@.subrange(lo as int, hi as int)),
{
    let ghost s = v@.subrange(lo as int, hi as int);
    if lo == hi {
        return Err(PortError::Empty);
    }
    if hi - lo == 1 && (v[lo] == '+' || v[lo] == '-') {
        return Err(PortError::InvalidDigit);
    }
    let mut i: usize = lo;
    if v[lo] == '+' {
        i = lo + 1;
        assert(s.drop_first() =~= v@.subrange(i as int, hi as int));
    } else {
        assert(s =~= v@.subrange(i as int, hi as int));
    }
    let mut acc: u32 = 0;
    while i < hi
        invariant
            lo <= i <= hi,
            hi <= v@.len(),
            acc <= 65535,
            s == v@.subrange(lo as int, hi as int),
            parse_port(s) == read_digits(v@.subrange(i as int, hi as int), acc as int),
        decreases hi - i,
    {
        let c = v[i];
        let ghost rest = v@.subrange(i as int, hi as int);
        assert(rest[0] == c);
        if !('0' <= c && c <= '9') {
            assert(!is_digit(rest[0]));
            assert(read_digits(rest, acc as int) == Err::<u16, PortError>(PortError::InvalidDigit));
            return Err(PortError::InvalidDigit);
        }
        let d = (c as u32) - ('0' as u32);
        assert(d == digit_value(rest[0]));
        if acc * 10 + d > 65535 {
            assert(read_digits(rest, acc as int) == Err::<u16, PortError>(PortError::PosOverflow));
            return Err(PortError::PosOverflow);
        }
        acc = acc * 10 + d;
        assert(rest.drop_first() =~= v@.subrange(i + 1, hi as int));
        i = i + 1;
    }
    Ok(acc as u16)
}

/// Splits a backend address into host and port.
pub fn parse_backend_url(url: &str) -> (r: Result<(String, u16), BackendUrlError>)
    ensures
        match backend_address(url@) {
            Ok((host, port)) => r matches Ok((h, p)) && h@ == host && p == port,
            Err(e) => r == Err::<(String, u16), BackendUrlError>(e),
        },
{
    let v = chars_of(url);
    let n = v.len();
    let start = scheme_length(&v);
    let ghost s = v@.skip(start as int);
    // the last ':' after the scheme
    let mut j: usize = n;
    proof {
        assert(v@.subrange(start as int, n as int) =~= s);
    }
    while j > start && v[j - 1] != ':'
        invariant
            start <= j <= n,
            n == v@.len(),
            s == v@.skip(start as int),
            last_index_of(s, ':') == last_index_of(v@.subrange(start as int, j as int), ':'),
        decreases j,
    {
        assert(v@.subrange(start as int, j as int).drop_last() =~= v@.subrange(start as int, j - 1));
        j = j - 1;
    }
    if j == start {
        assert(v@.subrange(start as int, j as int).len() == 0);
        return Err(BackendUrlError::MissingPort);
    }
    let colon = j - 1;
    assert(last_index_of(s, ':') == colon - start);
    assert(s.skip(colon - start + 1) =~= v@.subrange(colon + 1, n as int));
    let port = match read_port(&v, colon + 1, n) {
        Ok(p) => p,
        Err(e) => {
            return Err(BackendUrlError::InvalidPort(e));
        },
    };
    // drop the brackets at both ends of the host
    let ghost host = s.take(colon - start);
    assert(host =~= v@.subrange(start as int, colon as int));
    let mut a: usize = start;
    while a < colon && (v[a] == '[' || v[a] == ']')
        invariant
            start <= a <= colon,
            colon < n,
            n == v@.len(),
            trim_start_brackets(host) == trim_start_brackets(v@.subrange(a as int, colon as int)),
        decreases colon - a,
    {
        assert(v@.subrange(a as int, colon as int).drop_first() =~= v@.subrange(a + 1, colon as int));
        a = a + 1;
    }
    let ghost mid = v@.subrange(a as int, colon as int);
    assert(trim_start_brackets(mid) == mid);
    let mut b: usize = colon;
    while b > a && (v[b - 1] == '[' || v[b - 1] == ']')
        invariant
            a <= b <= colon,
            colon < n,
            n == v@.len(),
            trim_end_brackets(mid) == trim_end_brackets(v@.subrange(a as int, b as int)),
        decreases b,
    {
        assert(v@.subrange(a as int, b as int).drop_last() =~= v@.subrange(a as int, b - 1));
        b = b - 1;
    }
    let h = string_of(&v, a, b);
    Ok((h, port))
}

pub open spec fn trim_end_slashes(s: Seq<char>) -> Seq<char>
    decreases s.len(),
{
    if s.len() > 0 && s.last() == '/' {
        trim_end_slashes(s.drop_last())
    } else {
        s
    }
}

/// The URL that a health probe requests: the server's address without its
/// trailing `'/'`s, followed by the health-check path.
pub fn health_check_url(url: &str, hc_path: &str) -> (r: String)
    ensures
        r@ == trim_end_slashes(url@) + hc_path@,
{
    let v = chars_of(url);
    let mut b: usize = v.len();
    assert(v@.subrange(0, b as int) =~= v@);
    while b > 0 && v[b - 1] == '/'
        invariant
            b <= v@.len(),
            v@ == url@,
            trim_end_slashes(url@) == trim_end_slashes(v@.subrange(0, b as int)),
        decreases b,
    {
        assert(v@.subrange(0, b as int).drop_last() =~= v@.subrange(0, b - 1));
        b = b - 1;
    }
    let mut r = string_of(&v, 0, b);
    r.append(hc_path);
    r
}

/// The decimal digit for `d` (below 10).
pub open spec fn digit_char(d: int) -> char {
    (48 + d) as char
}

/// `p` written in decimal, without leading zeros.
pub open spec fn decimal(p: nat) -> Seq<char>
    decreases p,
{
    if p < 10 {
        seq![digit_char(p as int)]
    } else {
        decimal(p / 10).push(digit_char((p % 10) as int))
    }
}

proof fn lemma_read_digits_push(s: Seq<char>, acc: int, c: char, v: u16)
    requires
        0 <= acc <= 65535,
        read_digits(s, acc) == Ok::<u16, PortError>(v),
        is_digit(c),
    ensures
        read_digits(s.push(c), acc) == if v * 10 + digit_value(c) > 65535 {
            Err::<u16, PortError>(PortError::PosOverflow)
        } else {
            Ok((v * 10 + digit_value(c)) as u16)
        },
    decreases s.len(),
{
    if s.len() == 0 {
        assert(v == acc);
        assert(s.push(c) =~= seq![c]);
        assert(seq![c].drop_first() =~= Seq::<char>::empty());
        let next = acc * 10 + digit_value(c);
        assert(read_digits(Seq::<char>::empty(), next) == Ok::<u16, PortError>(next as u16));
    } else {
        assert(s.push(c)[0] == s[0]);
        assert(s.push(c).drop_first() =~= s.drop_first().push(c));
        lemma_read_digits_push(s.drop_first(), acc * 10 + digit_value(s[0]), c, v);
    }
}

proof fn lemma_read_decimal(p: nat)
    requires
        p <= 65535,
    ensures
        read_digits(decimal(p), 0) == Ok::<u16, PortError>(p as u16),
        decimal(p).len() >= 1,
        forall|i: int| 0 <= i < decimal(p).len() ==> is_digit(#[trigger] decimal(p)[i]),
    decreases p,
{
    let ch = digit_char((p % 10) as int);
    assert(is_digit(ch) && digit_value(ch) == p % 10);
    if p < 10 {
        assert(decimal(p) == seq![ch]);
        assert(seq![ch].drop_first() =~= Seq::<char>::empty());
        assert(read_digits(Seq::<char>::empty(), p as int) == Ok::<u16, PortError>(p as u16));
        assert(read_digits(seq![ch], 0) == read_digits(Seq::<char>::empty(), p as int));
    } else {
        let q = p / 10;
        lemma_read_decimal(q);
        assert(decimal(p) == decimal(q).push(ch));
        assert(q * 10 + p % 10 == p);
        lemma_read_digits_push(decimal(q), 0, ch, q as u16);
        assert forall|i: int| 0 <= i < decimal(p).len() implies is_digit(#[trigger] decimal(p)[i]) by {
            if i < decimal(q).len() {
                assert(decimal(p)[i] == decimal(q)[i]);
            }
        }
    }
}

proof fn lemma_last_index_append(a: Seq<char>, b: Seq<char>, c: char)
    requires
        forall|j: int| 0 <= j < b.len() ==> b[j] != c,
    ensures
        last_index_of(a + b, c) == last_index_of(a, c),
    decreases b.len(),
{
    if b.len() > 0 {
        assert((a + b).drop_last() =~= a + b.drop_last());
        assert((a + b).last() == b.last());
        lemma_last_index_append(a, b.drop_last(), c);
    } else {
        assert(a + b =~= a);
    }
}

proof fn lemma_port_of_decimal(port: u16)
    ensures
        parse_port(decimal(port as nat)) == Ok::<u16, PortError>(port),
        forall|j: int| 0 <= j < decimal(port as nat).len() ==> #[trigger] decimal(port as nat)[j] != ':',
{
    let d = decimal(port as nat);
    lemma_read_decimal(port as nat);
    assert(is_digit(d[0]));
    assert forall|j: int| 0 <= j < d.len() implies #[trigger] d[j] != ':' by {
        assert(is_digit(d[j]));
    }
}

/// Once the scheme is gone, `h:port` names the host `h` without its brackets.
proof fn lemma_address_of_rest(url: Seq<char>, h: Seq<char>, port: u16)
    requires
        strip_scheme(url) == h + seq![':'] + decimal(port as nat),
    ensures
        backend_address(url) == Ok::<(Seq<char>, u16), BackendUrlError>((trim_brackets(h), port)),
{
    let d = decimal(port as nat);
    lemma_port_of_decimal(port);
    let s = h + seq![':'] + d;
    lemma_last_index_append(h + seq![':'], d, ':');
    assert(last_index_of(h + seq![':'], ':') == h.len());
    assert(s.skip(h.len() as int + 1) =~= d);
    assert(s.take(h.len() as int) =~= h);
}

proof fn lemma_strip_http(rest: Seq<char>)
    ensures
        strip_scheme(http_scheme() + rest) == rest,
{
    let url = http_scheme() + rest;
    assert(url.take(7) =~= http_scheme());
    assert(url.skip(7) =~= rest);
}

proof fn lemma_strip_https(rest: Seq<char>)
    ensures
        strip_scheme(https_scheme() + rest) == rest,
{
    let url = https_scheme() + rest;
    assert(url.take(7)[4] == 's');
    assert(url.take(7) != http_scheme());
    assert(url.take(8) =~= https_scheme());
    assert(url.skip(8) =~= rest);
}

/// A text that does not begin with `http` keeps all its characters.
proof fn lemma_strip_none(h: Seq<char>, rest: Seq<char>)
    requires
        !has_prefix(h, seq!['h', 't', 't', 'p']),
        rest.len() > 0,
        rest[0] == ':',
    ensures
        strip_scheme(h + rest) == h + rest,
{
    let url = h + rest;
    let p = seq!['h', 't', 't', 'p'];
    if has_prefix(url, http_scheme()) || has_prefix(url, https_scheme()) {
        let sch = if has_prefix(url, http_scheme()) { http_scheme() } else { https_scheme() };
        assert(url.take(sch.len() as int) == sch);
        assert(forall|k: int| 0 <= k < 4 ==> url[k] == sch[k] && sch[k] == p[k]);
        if h.len() >= 4 {
            assert(h.take(4) =~= p);
        } else {
            assert(url[h.len() as int] == ':');
            assert(p[h.len() as int] != ':');
        }
    }
}

proof fn lemma_trim_bracket_forms(host: Seq<char>)
    requires
        host.len() > 0 ==> !is_bracket(host[0]) && !is_bracket(host.last()),
    ensures
        trim_brackets(host) == host,
        trim_brackets(seq!['['] + host + seq![']']) == host,
{
    assert(trim_start_brackets(host) == host);
    assert(trim_end_brackets(host) == host);
    let h2 = seq!['['] + host + seq![']'];
    let tail = host + seq![']'];
    assert(h2.drop_first() =~= tail);
    assert(h2[0] == '[');
    assert(trim_start_brackets(h2) == trim_start_brackets(tail));
    if host.len() > 0 {
        assert(tail[0] == host[0]);
        assert(trim_start_brackets(tail) == tail);
    } else {
        assert(tail[0] == ']');
        assert(tail.drop_first() =~= Seq::<char>::empty());
        assert(trim_start_brackets(tail) == trim_start_brackets(Seq::<char>::empty()));
    }
    assert(tail.drop_last() =~= host);
}

proof fn lemma_round_trip_http(host: Seq<char>, port: u16)
    requires
        host.len() > 0 ==> !is_bracket(host[0]) && !is_bracket(host.last()),
    ensures
        backend_address(http_scheme() + host + seq![':'] + decimal(port as nat)) == Ok::<(Seq<char>, u16), BackendUrlError>((host, port)),
        backend_address(http_scheme() + seq!['['] + host + seq![']'] + seq![':'] + decimal(port as nat)) == Ok::<(Seq<char>, u16), BackendUrlError>((host, port)),
{
    let d = decimal(port as nat);
    let h2 = seq!['['] + host + seq![']'];
    lemma_trim_bracket_forms(host);
    let r1 = host + seq![':'] + d;
    let r2 = h2 + seq![':'] + d;
    lemma_strip_http(r1);
    assert(http_scheme() + host + seq![':'] + d =~= http_scheme() + r1);
    lemma_address_of_rest(http_scheme() + r1, host, port);
    lemma_strip_http(r2);
    assert(http_scheme() + seq!['['] + host + seq![']'] + seq![':'] + d =~= http_scheme() + r2);
    lemma_address_of_rest(http_scheme() + r2, h2, port);
}

proof fn lemma_round_trip_https(host: Seq<char>, port: u16)
    requires
        host.len() > 0 ==> !is_bracket(host[0]) && !is_bracket(host.last()),
    ensures
        backend_address(https_scheme() + host + seq![':'] + decimal(port as nat)) == Ok::<(Seq<char>, u16), BackendUrlError>((host, port)),
        backend_address(https_scheme() + seq!['['] + host + seq![']'] + seq![':'] + decimal(port as nat)) == Ok::<(Seq<char>, u16), BackendUrlError>((host, port)),
{
    let d = decimal(port as nat);
    let h2 = seq!['['] + host + seq![']'];
    lemma_trim_bracket_forms(host);
    let r1 = host + seq![':'] + d;
    let r2 = h2 + seq![':'] + d;
    lemma_strip_https(r1);
    assert(https_scheme() + host + seq![':'] + d =~= https_scheme() + r1);
    lemma_address_of_rest(https_scheme() + r1, host, port);
    lemma_strip_https(r2);
    assert(https_scheme() + seq!['['] + host + seq![']'] + seq![':'] + d =~= https_scheme() + r2);
    lemma_address_of_rest(https_scheme() + r2, h2, port);
}

proof fn lemma_round_trip_bare_bracketed(host: Seq<char>, port: u16)
    requires
        host.len() > 0 ==> !is_bracket(host[0]) && !is_bracket(host.last()),
    ensures
        backend_address(seq!['['] + host + seq![']'] + seq![':'] + decimal(port as nat)) == Ok::<(Seq<char>, u16), BackendUrlError>((host, port)),
{
    let d = decimal(port as nat);
    let h2 = seq!['['] + host + seq![']'];
    lemma_trim_bracket_forms(host);
    let colon_d = seq![':'] + d;
    assert(colon_d[0] == ':');
    assert(!has_prefix(h2, seq!['h', 't', 't', 'p'])) by {
        assert(h2[0] == '[');
        if h2.len() >= 4 {
            assert(h2.take(4)[0] == '[');
        }
    }
    lemma_strip_none(h2, colon_d);
    assert(seq!['['] + host + seq![']'] + seq![':'] + d =~= h2 + colon_d);
    assert(h2 + colon_d =~= h2 + seq![':'] + d);
    lemma_address_of_rest(h2 + colon_d, h2, port);
}

proof fn lemma_round_trip_bare(host: Seq<char>, port: u16)
    requires
        host.len() > 0 ==> !is_bracket(host[0]) && !is_bracket(host.last()),
        !has_prefix(host, seq!['h', 't', 't', 'p']),
    ensures
        backend_address(host + seq![':'] + decimal(port as nat)) == Ok::<(Seq<char>, u16), BackendUrlError>((host, port)),
{
    let d = decimal(port as nat);
    lemma_trim_bracket_forms(host);
    let colon_d = seq![':'] + d;
    assert(colon_d[0] == ':');
    lemma_strip_none(host, colon_d);
    assert(host + seq![':'] + d =~= host + colon_d);
    lemma_address_of_rest(host + colon_d, host, port);
}

/// A server written as `host:port`, after `http://`, after `https://` or
/// with no scheme, is read back as that host and that port, whether or not
/// the host (an IPv6 address, say) is put in brackets, as long as the host
/// does not itself begin or end with a bracket (and, without a scheme and
/// brackets, does not begin with `http`). The port is always the number
/// written after the last `':'`, whatever the scheme.
pub proof fn lemma_backend_address_round_trip(host: Seq<char>, port: u16)
    requires
        host.len() > 0 ==> !is_bracket(host[0]) && !is_bracket(host.last()),
    ensures
        backend_address(http_scheme() + host + seq![':'] + decimal(port as nat)) == Ok::<(Seq<char>, u16), BackendUrlError>((host, port)),
        backend_address(http_scheme() + seq!['['] + host + seq![']'] + seq![':'] + decimal(port as nat)) == Ok::<(Seq<char>, u16), BackendUrlError>((host, port)),
        backend_address(https_scheme() + host + seq![':'] + decimal(port as nat)) == Ok::<(Seq<char>, u16), BackendUrlError>((host, port)),
        backend_address(https_scheme() + seq!['['] + host + seq![']'] + seq![':'] + decimal(port as nat)) == Ok::<(Seq<char>, u16), BackendUrlError>((host, port)),
        backend_address(seq!['['] + host + seq![']'] + seq![':'] + decimal(port as nat)) == Ok::<(Seq<char>, u16), BackendUrlError>((host, port)),
        !has_prefix(host, seq!['h', 't', 't', 'p']) ==> backend_address(host + seq![':'] + decimal(port as nat)) == Ok::<(Seq<char>, u16), BackendUrlError>((host, port)),
{
    lemma_round_trip_http(host, port);
    lemma_round_trip_https(host, port);
    lemma_round_trip_bare_bracketed(host, port);
    if !has_prefix(host, seq!['h', 't', 't', 'p']) {
        lemma_round_trip_bare(host, port);
    }
}

} // verus!
