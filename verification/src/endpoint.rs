//! Where an endpoint lives and how its test is judged.

use vstd::prelude::*;
use crate::text::{chars_of, decimal, push_str, string_of};
use crate::types::{DoHResult, DoHStatus};

verus! {

/// `s` without the leading `p`, or `s` itself when it does not start with `p`.
pub open spec fn strip_prefix(s: Seq<char>, p: Seq<char>) -> Seq<char> {
    if p.len() <= s.len() && s.take(p.len() as int) == p {
        s.skip(p.len() as int)
    } else {
        s
    }
}

/// Index of the first `c` in `s`.
pub open spec fn first_index(s: Seq<char>, c: char) -> Option<int>
    decreases s.len(),
{
    if s.len() == 0 {
        None
    } else if s[0] == c {
        Some(0)
    } else {
        match first_index(s.drop_first(), c) {
            Some(i) => Some(i + 1),
            None => None,
        }
    }
}

/// Index of the last `c` in `s`.
pub open spec fn last_index(s: Seq<char>, c: char) -> Option<int>
    decreases s.len(),
{
    if s.len() == 0 {
        None
    } else if s.last() == c {
        Some(s.len() - 1)
    } else {
        last_index(s.drop_last(), c)
    }
}

/// True when every character of `d` is an ASCII digit.
pub open spec fn all_digits(d: Seq<char>) -> bool {
    forall|i: int| 0 <= i < d.len() ==> '0' <= #[trigger] d[i] <= '9'
}

/// The number that the decimal digits `d` write.
pub open spec fn digits_value(d: Seq<char>) -> nat
    decreases d.len(),
{
    if d.len() == 0 {
        0
    } else {
        digits_value(d.drop_last()) * 10 + (d.last() as nat - 48) as nat
    }
}

/// A `u16` written in decimal, as std reads one: an optional leading `+`,
/// then one or more ASCII digits whose value fits in 16 bits.
pub open spec fn parse_u16_text(s: Seq<char>) -> Option<u16> {
    let d = if s.len() > 0 && s[0] == '+' { s.skip(1) } else { s };
    if d.len() == 0 || !all_digits(d) || digits_value(d) > 65535 {
        None
    } else {
        Some(digits_value(d) as u16)
    }
}

/// The `host[:port]` part of a URL: the scheme (`https://`, then `http://`)
/// dropped, and everything from the first `/` on.
pub open spec fn authority(url: Seq<char>) -> Seq<char> {
    let b = strip_prefix(strip_prefix(url, "https://"@), "http://"@);
    match first_index(b, '/') {
        Some(i) => b.take(i),
        None => b,
    }
}

/// Host and port named by a DoH URL: the scheme (`https://`, then `http://`)
/// is dropped, the path after the first `/` is ignored, a numeric `:port`
/// after the last `:` is taken and otherwise the port is 443; an empty host
/// reads `unknown`.
pub open spec fn host_port(url: Seq<char>) -> (Seq<char>, u16) {
    let hp = authority(url);
    let (host, port) = match last_index(hp, ':') {
        Some(c) => match parse_u16_text(hp.skip(c + 1)) {
            Some(p) => (hp.take(c), p),
            None => (hp, 443u16),
        },
        None => (hp, 443u16),
    };
    if host.len() == 0 {
        ("unknown"@, port)
    } else {
        (host, port)
    }
}

/// `first_index` finds the first occurrence, or says there is none.
pub proof fn lemma_first_index(s: Seq<char>, c: char)
    ensures
        first_index(s, c) matches Some(i) ==> 0 <= i < s.len() && s[i] == c && forall|k: int|
            0 <= k < i ==> s[k] != c,
        first_index(s, c) is None ==> forall|k: int| 0 <= k < s.len() ==> s[k] != c,
    decreases s.len(),
{
    if s.len() > 0 && s[0] != c {
        lemma_first_index(s.drop_first(), c);
        if first_index(s.drop_first(), c) is None {
            assert forall|k: int| 0 <= k < s.len() implies s[k] != c by {
                if k > 0 {
                    assert(s[k] == s.drop_first()[k - 1]);
                }
            }
        } else {
            let i = first_index(s.drop_first(), c)->0;
            assert forall|k: int| 0 <= k < i + 1 implies s[k] != c by {
                if k > 0 {
                    assert(s[k] == s.drop_first()[k - 1]);
                }
            }
        }
    }
}

proof fn lemma_last_index(s: Seq<char>, c: char)
    ensures
        last_index(s, c) matches Some(i) ==> 0 <= i < s.len() && s[i] == c && forall|k: int|
            i < k < s.len() ==> s[k] != c,
        last_index(s, c) is None ==> forall|k: int| 0 <= k < s.len() ==> s[k] != c,
    decreases s.len(),
{
    if s.len() > 0 && s.last() != c {
        let t = s.drop_last();
        lemma_last_index(t, c);
        match last_index(t, c) {
            Some(i) => {
                assert(s[i] == t[i]);
                assert forall|k: int| i < k < s.len() implies s[k] != c by {
                    if k < s.len() - 1 {
                        assert(t[k] == s[k]);
                    }
                }
            },
            None => {
                assert forall|k: int| 0 <= k < s.len() implies s[k] != c by {
                    if k < s.len() - 1 {
                        assert(t[k] == s[k]);
                    }
                }
            },
        }
    }
}

/// The digits of a longer prefix never write a smaller number.
proof fn lemma_digits_value_prefix(d: Seq<char>, i: int)
    requires
        0 <= i <= d.len(),
        all_digits(d),
    ensures
        digits_value(d.take(i)) <= digits_value(d),
    decreases d.len() - i,
{
    if i < d.len() {
        lemma_digits_value_prefix(d, i + 1);
        assert(d.take(i + 1).drop_last() =~= d.take(i));
    } else {
        assert(d.take(i) =~= d);
    }
}

/// Reads a decimal `u16` from `v[from..]` as std's `u16::from_str` does.
pub fn parse_u16_chars(v: &Vec<char>, from: usize) -> (p: Option<u16>)
    requires
        from <= v.len(),
    ensures
        p == parse_u16_text(v@.skip(from as int)),
{
    let ghost s = v@.skip(from as int);
    let mut i: usize = from;
    if i < v.len() && v[i] == '+' {
        i = i + 1;
    }
    let ghost d = v@.skip(i as int);
    assert(d =~= (if s.len() > 0 && s[0] == '+' { s.skip(1) } else { s }));
    if i == v.len() {
        return None;
    }
    let start = i;
    let mut value: u32 = 0;
    while i < v.len()
        invariant
            start <= i <= v.len(),
            from <= start,
            start < v.len(),
            d == v@.skip(start as int),
            s == v@.skip(from as int),
            d == (if s.len() > 0 && s[0] == '+' { s.skip(1) } else { s }),
            all_digits(d.take(i - start)),
            value == digits_value(d.take(i - start)),
            value <= 65535,
        decreases v.len() - i,
    {
        let c = v[i];
        if c < '0' || c > '9' {
            proof {
                assert(d[i - start] == c);
                assert(!('0' <= d[i - start] <= '9'));
                assert(!all_digits(d));
            }
            return None;
        }
        let digit: u32 = (c as u32) - 48;
        assert(digit == c as nat - 48);
        let ghost prefix = d.take(i - start + 1);
        assert(prefix.drop_last() =~= d.take(i - start));
        assert(prefix.last() == c);
        assert(all_digits(prefix)) by {
            assert forall|k: int| 0 <= k < prefix.len() implies '0' <= #[trigger] prefix[k] <= '9' by {
                if k < prefix.len() - 1 {
                    assert(prefix[k] == d.take(i - start)[k]);
                }
            }
        }
        assert(digits_value(prefix) == value * 10 + digit);
        if value * 10 + digit > 65535 {
            proof {
                if all_digits(d) {
                    lemma_digits_value_prefix(d, i - start + 1);
                }
            }
            return None;
        }
        value = value * 10 + digit;
        i = i + 1;
    }
    assert(d.take(i - start) =~= d);
    Some(value as u16)
}

/// Position of the first `c` in `v[from..]`, or the length when there is none.
fn find_first(v: &Vec<char>, from: usize, c: char) -> (e: usize)
    requires
        from <= v.len(),
    ensures
        from <= e <= v.len(),
        forall|k: int| from <= k < e ==> v@[k] != c,
        e < v.len() ==> v@[e as int] == c,
{
    let mut e: usize = from;
    while e < v.len() && v[e] != c
        invariant
            from <= e <= v.len(),
            forall|k: int| from <= k < e ==> v@[k] != c,
        decreases v.len() - e,
    {
        e = e + 1;
    }
    e
}

/// Position of the last `c` in `v[from..to]`.
fn find_last(v: &Vec<char>, from: usize, to: usize, c: char) -> (j: Option<usize>)
    requires
        from <= to <= v.len(),
    ensures
        j matches Some(j) ==> from <= j < to && v@[j as int] == c && forall|k: int| j < k < to ==> v@[k] != c,
        j is None ==> forall|k: int| from <= k < to ==> v@[k] != c,
{
    let mut i: usize = to;
    while i > from
        invariant
            from <= i <= to <= v.len(),
            forall|k: int| i <= k < to ==> v@[k] != c,
        decreases i - from,
    {
        if v[i - 1] == c {
            return Some(i - 1);
        }
        i = i - 1;
    }
    None
}

/// The first `c` of `v[from..]` is at `e` when none lies between `from`
/// and `e` and `v[e]` is `c` (or `e` is the end).
pub proof fn lemma_first_index_slice(v: Seq<char>, from: int, e: int, c: char)
    requires
        0 <= from <= e <= v.len(),
        forall|k: int| from <= k < e ==> v[k] != c,
        e < v.len() ==> v[e] == c,
    ensures
        first_index(v.skip(from), c) == (if e < v.len() { Some(e - from) } else { None::<int> }),
{
    let b = v.skip(from);
    lemma_first_index(b, c);
    match first_index(b, c) {
        Some(i) => {
            assert(b[i] == v[from + i]);
            if e < v.len() {
                assert(b[e - from] == v[e]);
            }
        },
        None => {
            if e < v.len() {
                assert(b[e - from] == v[e]);
            }
        },
    }
}

/// `last_index` of a slice of `v` is where `find_last` stops.
proof fn lemma_last_index_slice(v: Seq<char>, from: int, to: int, j: Option<usize>, c: char)
    requires
        0 <= from <= to <= v.len(),
        j matches Some(j) ==> from <= j < to && v[j as int] == c && forall|k: int| j < k < to ==> v[k] != c,
        j is None ==> forall|k: int| from <= k < to ==> v[k] != c,
    ensures
        last_index(v.subrange(from, to), c) == match j {
            Some(j) => Some(j - from),
            None => None::<int>,
        },
{
    let hp = v.subrange(from, to);
    lemma_last_index(hp, c);
    match last_index(hp, c) {
        Some(i) => {
            assert(hp[i] == v[from + i]);
            if let Some(j) = j {
                assert(hp[j - from] == v[j as int]);
            }
        },
        None => {
            if let Some(j) = j {
                assert(hp[j - from] == v[j as int]);
            }
        },
    }
}

/// Length of the scheme prefixes that `parse_host_port` drops from `v`.
fn scheme_len(v: &Vec<char>) -> (n: usize)
    ensures
        n <= v.len(),
        v@.skip(n as int) == strip_prefix(strip_prefix(v@, "https://"@), "http://"@),
{
    let https = chars_of("https://");
    let http = chars_of("http://");
    let mut start: usize = 0;
    if starts_with_at(v, 0, &https) {
        start = https.len();
    }
    assert(start <= v@.len());
    assert(v@.skip(start as int) =~= strip_prefix(v@, "https://"@));
    let ghost a = v@.skip(start as int);
    if starts_with_at(v, start, &http) {
        assert(http@.len() <= v@.len() - start);
        assert(a.take(http@.len() as int) =~= v@.subrange(start as int, start + http@.len()));
        start = start + http.len();
    } else {
        proof {
            if http@.len() <= a.len() {
                assert(a.take(http@.len() as int) =~= v@.subrange(start as int, start + http@.len()));
            }
        }
    }
    assert(v@.skip(start as int) =~= strip_prefix(a, "http://"@));
    start
}

/// Extracts the host and port from a DoH URL.
pub fn parse_host_port(url: &str) -> (hp: (String, u16))
    ensures
        (hp.0@, hp.1) == host_port(url@),
{
    let v = chars_of(url);
    let start = scheme_len(&v);
    let ghost b = v@.skip(start as int);
    let end = find_first(&v, start, '/');
    proof {
        lemma_first_index_slice(v@, start as int, end as int, '/');
    }
    let ghost hp = v@.subrange(start as int, end as int);
    assert(hp =~= match first_index(b, '/') { Some(i) => b.take(i), None => b });
    let colon = find_last(&v, start, end, ':');
    proof {
        lemma_last_index_slice(v@, start as int, end as int, colon, ':');
    }
    let mut port: u16 = 443;
    let mut host_end: usize = end;
    match colon {
        Some(c) => {
            let digits = chars_of(string_of(&v, c + 1, end).as_str());
            assert(digits@.skip(0) =~= hp.skip(c - start + 1));
            match parse_u16_chars(&digits, 0) {
                Some(p) => {
                    port = p;
                    host_end = c;
                },
                None => {},
            }
        },
        None => {},
    }
    let host = string_of(&v, start, host_end);
    assert(host@ =~= hp.take(host_end - start));
    proof {
        if host_end == end {
            assert(hp.take(host_end - start) =~= hp);
        }
    }
    if host_end == start {
        ("unknown".to_owned(), port)
    } else {
        (host, port)
    }
}

/// True when `v[at..]` starts with `p`.
fn starts_with_at(v: &Vec<char>, at: usize, p: &Vec<char>) -> (b: bool)
    requires
        at <= v.len(),
    ensures
        b == (p@.len() <= v@.len() - at && v@.subrange(at as int, at + p@.len()) == p@),
{
    if p.len() > v.len() - at {
        return false;
    }
    let mut i: usize = 0;
    while i < p.len()
        invariant
            i <= p.len() <= v.len() - at,
            forall|k: int| 0 <= k < i ==> v@[at + k] == p@[k],
        decreases p.len() - i,
    {
        if v[at + i] != p[i] {
            assert(v@.subrange(at as int, at + p@.len())[i as int] != p@[i as int]);
            return false;
        }
        i = i + 1;
    }
    assert(v@.subrange(at as int, at + p@.len()) =~= p@);
    true
}

/// The status that the number of successful queries earns, with a threshold
/// of two.
pub open spec fn classify_status(successes: nat) -> DoHStatus {
    if successes >= 2 {
        DoHStatus::Working
    } else if successes > 0 {
        DoHStatus::Flaky
    } else {
        DoHStatus::Blocked
    }
}

/// The status that `successes` successful queries earn.
pub fn classify_result_status(successes: u32) -> (st: DoHStatus)
    ensures
        st == classify_status(successes as nat),
{
    if successes >= 2 {
        DoHStatus::Working
    } else if successes > 0 {
        DoHStatus::Flaky
    } else {
        DoHStatus::Blocked
    }
}

/// Sets the status of a record from its count of successful queries.
pub fn classify_result(result: DoHResult, _blocked_reason: Option<&str>) -> (r: DoHResult)
    ensures
        r@ == (crate::types::ResultModel { status: classify_status(result@.successes as nat), ..result@ }),
{
    let mut result = result;
    result.status = classify_result_status(result.successes);
    result
}


/// Decimal notation is a non-empty run of ASCII digits, without a leading
/// zero, that reads back as the number it writes.
pub proof fn lemma_decimal_digits(n: nat)
    ensures
        decimal(n).len() > 0,
        all_digits(decimal(n)),
        digits_value(decimal(n)) == n,
        n > 0 ==> decimal(n)[0] != '0',
    decreases n,
{
    assert((crate::text::digit_char(n % 10) as nat) == 48 + n % 10);
    if n >= 10 {
        lemma_decimal_digits(n / 10);
        let d = decimal(n);
        assert(d.drop_last() =~= decimal(n / 10));
        assert(d[0] == decimal(n / 10)[0]);
        assert(d.last() == crate::text::digit_char(n % 10));
        assert(digits_value(d) == digits_value(decimal(n / 10)) * 10 + n % 10);
        assert forall|i: int| 0 <= i < d.len() implies '0' <= #[trigger] d[i] <= '9' by {
            if i < d.len() - 1 {
                assert(d[i] == decimal(n / 10)[i]);
            }
        }
    } else {
        assert(decimal(n).drop_last() =~= Seq::<char>::empty());
        assert(digits_value(Seq::<char>::empty()) == 0);
        assert(decimal(n).last() == crate::text::digit_char(n));
    }
}

/// A port written in decimal is read back by `parse_u16_text`.
pub proof fn lemma_port_text_round_trip(p: u16)
    ensures
        parse_u16_text(decimal(p as nat)) == Some(p),
{
    lemma_decimal_digits(p as nat);
    let d = decimal(p as nat);
    assert('0' <= d[0] <= '9');
}

/// A URL made of `https://`, a host without `/`, `:`, a port in decimal and
/// a path that is empty or starts with `/` gives back that host and port.
pub proof fn lemma_host_port_round_trip(host: Seq<char>, port: u16, path: Seq<char>)
    requires
        host.len() > 0,
        forall|k: int| 0 <= k < host.len() ==> host[k] != '/',
        path.len() == 0 || path[0] == '/',
    ensures
        host_port("https://"@ + host + seq![':'] + decimal(port as nat) + path) == (host, port),
{
    reveal_strlit("https://");
    reveal_strlit("http://");
    lemma_decimal_digits(port as nat);
    lemma_port_text_round_trip(port);
    let digits = decimal(port as nat);
    let hp = host + seq![':'] + digits;
    let url = "https://"@ + hp + path;
    assert(url =~= "https://"@ + host + seq![':'] + digits + path);
    assert(url.take(8) =~= "https://"@);
    assert(url.skip(8) =~= hp + path);
    let a = hp + path;
    assert("http://"@.len() == 7);
    assert(strip_prefix(a, "http://"@) == a) by {
        if a.len() >= 7 && a.take(7) == "http://"@ {
            assert("http://"@[5] == '/' && "http://"@[4] == ':');
            assert(a.take(7)[5] == a[5] && a.take(7)[4] == a[4]);
            assert(a[5] == '/');
            if host.len() > 5 {
                assert(a[5] == host[5]);
            } else if host.len() == 5 {
                assert(a[5] == ':');
            } else if host.len() == 4 {
                assert(a[5] == digits[0]);
                assert('0' <= digits[0] <= '9');
            } else {
                let h = host.len() as int;
                assert(a[h] == ':');
                assert(a.take(7)[h] == a[h]);
                assert("http://"@[h] != ':');
            }
        }
    }
    lemma_first_index(a, '/');
    assert forall|k: int| 0 <= k < hp.len() implies a[k] != '/' by {
        if k < host.len() {
            assert(a[k] == host[k]);
        } else if k > host.len() {
            assert(a[k] == digits[k - host.len() - 1]);
        }
    }
    let cut = match first_index(a, '/') {
        Some(i) => a.take(i),
        None => a,
    };
    assert(cut =~= hp) by {
        match first_index(a, '/') {
            Some(i) => {
                if i < hp.len() {
                    assert(a[i] != '/');
                }
                if i > hp.len() {
                    assert(a[hp.len() as int] == path[0]);
                }
                assert(i == hp.len());
            },
            None => {
                if path.len() > 0 {
                    assert(a[hp.len() as int] == path[0]);
                }
                assert(a =~= hp);
            },
        }
    }
    lemma_last_index(hp, ':');
    assert(last_index(hp, ':') == Some(host.len() as int)) by {
        assert(hp[host.len() as int] == ':');
        match last_index(hp, ':') {
            Some(j) => {
                if j > host.len() {
                    assert(hp[j] == digits[j - host.len() - 1]);
                }
            },
            None => {},
        }
    }
    assert(hp.skip(host.len() as int + 1) =~= digits);
    assert(hp.take(host.len() as int) =~= host);
}

/// A URL whose host part has no `:` gets the HTTPS port, 443.
pub proof fn lemma_default_port(url: Seq<char>)
    requires
        forall|k: int| 0 <= k < authority(url).len() ==> authority(url)[k] != ':',
    ensures
        host_port(url).1 == 443,
{
    lemma_last_index(authority(url), ':');
}

/// The host that `host_port` gives is never empty.
pub proof fn lemma_host_not_empty(url: Seq<char>)
    ensures
        host_port(url).0.len() > 0,
{
    reveal_strlit("unknown");
}

/// The status follows the count of successful queries: two or more earn
/// `Working`, one `Flaky`, none `Blocked`.
pub proof fn lemma_classify_thresholds(successes: nat)
    ensures
        successes >= 2 <==> classify_status(successes) == DoHStatus::Working,
        successes == 1 <==> classify_status(successes) == DoHStatus::Flaky,
        successes == 0 <==> classify_status(successes) == DoHStatus::Blocked,
{
}


/// What a finished TLS handshake showed of the server's certificate.
pub enum PeerCertificate {
    Present,
    Absent,
    /// Reading the certificate failed; the text says how.
    Unreadable(String),
}

/// The note kept about a successful TLS handshake.
pub fn tls_info_text(peer: &PeerCertificate) -> (info: String)
    ensures
        info@ == match peer {
            PeerCertificate::Present => "TLS handshake OK, certificate present"@,
            PeerCertificate::Absent => "TLS handshake OK, no peer certificate"@,
            PeerCertificate::Unreadable(e) => "TLS handshake OK, cert error: "@ + e@,
        },
{
    match peer {
        PeerCertificate::Present => "TLS handshake OK, certificate present".to_owned(),
        PeerCertificate::Absent => "TLS handshake OK, no peer certificate".to_owned(),
        PeerCertificate::Unreadable(e) => {
            let mut info = "TLS handshake OK, cert error: ".to_owned();
            push_str(&mut info, e.as_str());
            info
        },
    }
}

/// Why a TLS handshake did not happen.
pub enum TlsFailure {
    /// No TLS connector could be built.
    Connector(String),
    /// The handshake failed.
    Handshake(String),
    /// No address of the host took a TCP connection.
    NoAddress,
}

/// The error text of a failed TLS handshake.
pub fn tls_error_text(failure: &TlsFailure) -> (text: String)
    ensures
        text@ == match failure {
            TlsFailure::Connector(e) => "TLS connector build error: "@ + e@,
            TlsFailure::Handshake(e) => "TLS handshake failed: "@ + e@,
            TlsFailure::NoAddress => "TLS handshake failed: no addresses resolved"@,
        },
{
    match failure {
        TlsFailure::Connector(e) => {
            let mut text = "TLS connector build error: ".to_owned();
            push_str(&mut text, e.as_str());
            text
        },
        TlsFailure::Handshake(e) => {
            let mut text = "TLS handshake failed: ".to_owned();
            push_str(&mut text, e.as_str());
            text
        },
        TlsFailure::NoAddress => "TLS handshake failed: no addresses resolved".to_owned(),
    }
}

/// The error text of a failed TCP connect.
pub fn tcp_error_text() -> (text: String)
    ensures
        text@ == "TCP connection failed"@,
{
    "TCP connection failed".to_owned()
}

} // verus!
