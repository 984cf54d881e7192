//! Per-host leaf certificates: the parameters each leaf is built from,
//! and the cache that hands one leaf to every connection of the same
//! authority, generating it once under concurrent misses.
//!
//! Building and signing the X.509 structure is plain assembly from
//! `LeafCertParams` and stays outside the library; everything the leaf's
//! content depends on — the common name, the kind of subject alternative
//! name, the validity window — is decided here and stated in contracts.

use vstd::prelude::*;

verus! {

/// The common name a leaf carries when the host does not fit: hosts
/// longer than `MAX_CN_BYTES` bytes are replaced by this sentinel.
pub const CN_TOO_LONG: &'static str = "privaxy_cn_too_long.local";

/// Longest host, in bytes, that is used as a common name unchanged.
pub const MAX_CN_BYTES: usize = 64;

/// Seconds the leaf's validity starts before the time of minting.
pub const NOT_BEFORE_BACKDATE_SECS: u64 = 60;

/// Days the leaf stays valid.
pub const VALIDITY_DAYS: u64 = 365;

/// Bits of the random serial number.
pub const SERIAL_BITS: u8 = 159;

/// True of a decimal digit.
pub open spec fn is_dec_digit(c: char) -> bool {
    '0' <= c && c <= '9'
}

/// Numeric value of a digit sequence, most significant first.
pub open spec fn octet_val(s: Seq<char>) -> int
    decreases s.len(),
{
    if s.len() == 0 {
        0
    } else {
        octet_val(s.drop_last()) * 10 + (s.last() as int - '0' as int)
    }
}

/// True of one decimal octet of a dotted-quad address: one to three
/// digits, no leading zero, value at most 255.
pub open spec fn valid_octet(s: Seq<char>) -> bool {
    &&& 1 <= s.len() <= 3
    &&& forall|i: int| 0 <= i < s.len() ==> is_dec_digit(#[trigger] s[i])
    &&& s.len() > 1 ==> s[0] != '0'
    &&& octet_val(s) <= 255
}

/// True of a dotted-quad IPv4 literal: four valid octets joined by
/// dots. Within an authority this is the only shape a bare IP host can
/// take; an IPv6 host carries brackets there, which an address parser
/// rejects, so such a host keeps a DNS subject alternative name.
pub open spec fn is_ipv4_chars(s: Seq<char>) -> bool {
    exists|a: int, b: int, c: int|
        {
            &&& 0 < a < b < c < s.len()
            &&& #[trigger] s[a] == '.'
            &&& #[trigger] s[b] == '.'
            &&& #[trigger] s[c] == '.'
            &&& valid_octet(s.subrange(0, a))
            &&& valid_octet(s.subrange(a + 1, b))
            &&& valid_octet(s.subrange(b + 1, c))
            &&& valid_octet(s.subrange(c + 1, s.len() as int))
        }
}

/// Checks one run of digits. `from..to` must lie inside the string.
fn check_octet(host: &str, from: usize, to: usize) -> (r: bool)
    requires
        host.is_ascii(),
        from <= to <= host@.len(),
    ensures
        r == valid_octet(host@.subrange(from as int, to as int)),
{
    let ghost seg = host@.subrange(from as int, to as int);
    let len: usize = to - from;
    if len < 1 || len > 3 {
        return false;
    }
    let mut j: usize = 0;
    let mut value: u32 = 0;
    while j < len
        invariant
            host.is_ascii(),
            from <= to <= host@.len(),
            seg == host@.subrange(from as int, to as int),
            len == to - from,
            len <= 3,
            0 <= j <= len,
            forall|t: int| 0 <= t < j ==> is_dec_digit(#[trigger] seg[t]),
            value == octet_val(seg.subrange(0, j as int)),
            value <= (if j == 0 {
                0int
            } else if j == 1 {
                9int
            } else if j == 2 {
                99int
            } else {
                999int
            }),
        decreases len - j,
    {
        let b: u8 = host.get_ascii(from + j);
        if b < 48 || b > 57 {
            proof {
                assert(seg[j as int] == host@[from + j]);
                assert(!is_dec_digit(seg[j as int]));
            }
            return false;
        }
        proof {
            assert(seg[j as int] == host@[from + j]);
            assert(is_dec_digit(seg[j as int]));
            assert(seg.subrange(0, j + 1).drop_last() =~= seg.subrange(0, j as int));
            assert(seg.subrange(0, j + 1).last() == seg[j as int]);
        }
        value = value * 10 + ((b - 48) as u32);
        j = j + 1;
    }
    proof {
        assert(seg.subrange(0, len as int) =~= seg);
    }
    if len > 1 {
        let first: u8 = host.get_ascii(from);
        proof {
            assert(seg[0] == host@[from as int]);
        }
        if first == 48 {
            return false;
        }
    }
    value <= 255
}

/// Checks for a dotted-quad IPv4 literal.
#[verifier::rlimit(50)]
pub fn is_ipv4_host(host: &str) -> (r: bool)
    ensures
        r == is_ipv4_chars(host@),
{
    let s = host;
    if !s.is_ascii() {
        proof {
            if is_ipv4_chars(s@) {
                lemma_ipv4_is_ascii(s@);
                assert(vstd::string::is_ascii(s));
            }
        }
        return false;
    }
    let n: usize = s.unicode_len();
    let mut dots: Vec<usize> = Vec::new();
    let mut i: usize = 0;
    while i < n
        invariant
            s.is_ascii(),
            n == s@.len(),
            0 <= i <= n,
            forall|t: int| 0 <= t < dots@.len() ==> 0 <= #[trigger] dots@[t] < i,
            forall|t: int| 0 <= t < dots@.len() ==> s@[#[trigger] dots@[t] as int] == '.',
            forall|t1: int, t2: int|
                0 <= t1 < t2 < dots@.len() ==> #[trigger] dots@[t1] < #[trigger] dots@[t2],
            forall|p: int|
                0 <= p < i && s@[p] == '.' ==> exists|t: int|
                    0 <= t < dots@.len() && #[trigger] dots@[t] == p,
        decreases n - i,
    {
        let ghost dots0 = dots@;
        let b: u8 = s.get_ascii(i);
        if b == 46 {
            proof {
                assert(s@[i as int] == '.');
            }
            dots.push(i);
            proof {
                assert(dots@[dots@.len() - 1] == i);
                assert(forall|t: int| 0 <= t < dots0.len() ==> dots@[t] == dots0[t]);
                assert forall|p: int| 0 <= p < i + 1 && s@[p] == '.' implies exists|t: int|
                    0 <= t < dots@.len() && #[trigger] dots@[t] == p by {
                    if p == i {
                        assert(dots@[dots@.len() - 1] == p);
                    } else {
                        let t0 = choose|t: int| 0 <= t < dots0.len() && #[trigger] dots0[t] == p;
                        assert(dots@[t0] == p);
                    }
                }
            }
        } else {
            proof {
                assert(s@[i as int] != '.');
            }
        }
        i = i + 1;
    }
    if dots.len() != 3 {
        proof {
            if is_ipv4_chars(s@) {
                lemma_ipv4_scan_three_dots(s@, dots@);
            }
        }
        return false;
    }
    let d0: usize = dots[0];
    let d1: usize = dots[1];
    let d2: usize = dots[2];
    if d0 == 0 || d2 + 1 >= n {
        proof {
            if is_ipv4_chars(s@) {
                ipv4_dots_are_the_scanned(s@, dots@);
            }
        }
        return false;
    }
    let ok = check_octet(s, 0, d0) && check_octet(s, d0 + 1, d1) && check_octet(s, d1 + 1, d2)
        && check_octet(s, d2 + 1, n);
    proof {
        if ok {
            assert(is_ipv4_chars(s@));
        } else {
            if is_ipv4_chars(s@) {
                ipv4_dots_are_the_scanned(s@, dots@);
            }
        }
    }
    ok
}

/// A dotted-quad literal holds only digits and dots, so it is ASCII.
proof fn lemma_ipv4_is_ascii(s: Seq<char>)
    requires
        is_ipv4_chars(s),
    ensures
        vstd::utf8::is_ascii_chars(s),
{
    let (a, b, c) = choose|a: int, b: int, c: int|
        {
            &&& 0 < a < b < c < s.len()
            &&& s[a] == '.'
            &&& s[b] == '.'
            &&& s[c] == '.'
            &&& valid_octet(s.subrange(0, a))
            &&& valid_octet(s.subrange(a + 1, b))
            &&& valid_octet(s.subrange(b + 1, c))
            &&& valid_octet(s.subrange(c + 1, s.len() as int))
        };
    assert forall|p: int| 0 <= p < s.len() implies '\0' <= #[trigger] s[p] <= '\u{7f}' by {
        if p == a || p == b || p == c {
        } else if p < a {
            assert(s.subrange(0, a)[p] == s[p]);
            assert(is_dec_digit(s[p]));
        } else if p < b {
            assert(s.subrange(a + 1, b)[p - (a + 1)] == s[p]);
            assert(is_dec_digit(s[p]));
        } else if p < c {
            assert(s.subrange(b + 1, c)[p - (b + 1)] == s[p]);
            assert(is_dec_digit(s[p]));
        } else {
            assert(s.subrange(c + 1, s.len() as int)[p - (c + 1)] == s[p]);
            assert(is_dec_digit(s[p]));
        }
    }
}

/// A scan that recorded every dot of a dotted-quad literal recorded
/// exactly three.
proof fn lemma_ipv4_scan_three_dots(s: Seq<char>, dots: Seq<usize>)
    requires
        is_ipv4_chars(s),
        forall|t: int| 0 <= t < dots.len() ==> 0 <= #[trigger] dots[t] < s.len(),
        forall|t: int| 0 <= t < dots.len() ==> s[#[trigger] dots[t] as int] == '.',
        forall|t1: int, t2: int|
            0 <= t1 < t2 < dots.len() ==> #[trigger] dots[t1] < #[trigger] dots[t2],
        forall|p: int|
            0 <= p < s.len() && s[p] == '.' ==> exists|t: int|
                0 <= t < dots.len() && #[trigger] dots[t] == p,
    ensures
        dots.len() == 3,
{
    let (a, b, c) = choose|a: int, b: int, c: int|
        {
            &&& 0 < a < b < c < s.len()
            &&& s[a] == '.'
            &&& s[b] == '.'
            &&& s[c] == '.'
            &&& valid_octet(s.subrange(0, a))
            &&& valid_octet(s.subrange(a + 1, b))
            &&& valid_octet(s.subrange(b + 1, c))
            &&& valid_octet(s.subrange(c + 1, s.len() as int))
        };
    // every recorded dot is one of a, b, c
    assert forall|t: int| 0 <= t < dots.len() implies dots[t] == a || dots[t] == b || dots[t]
        == c by {
        let p = dots[t] as int;
        if p != a && p != b && p != c {
            if p < a {
                assert(s.subrange(0, a)[p] == s[p]);
            } else if p < b {
                assert(s.subrange(a + 1, b)[p - (a + 1)] == s[p]);
            } else if p < c {
                assert(s.subrange(b + 1, c)[p - (b + 1)] == s[p]);
            } else {
                assert(s.subrange(c + 1, s.len() as int)[p - (c + 1)] == s[p]);
            }
            assert(is_dec_digit(s[p]));
            assert(false);
        }
    }
    // a, b and c were all recorded, so there are at least three
    let ta = choose|t: int| 0 <= t < dots.len() && dots[t] == a;
    let tb = choose|t: int| 0 <= t < dots.len() && dots[t] == b;
    let tc = choose|t: int| 0 <= t < dots.len() && dots[t] == c;
    assert(ta != tb && tb != tc && ta != tc);
    assert(dots.len() >= 3);
    // four recorded dots would repeat one of the three values
    if dots.len() > 3 {
        assert(dots[0] < dots[1] < dots[2] < dots[3]);
        assert(dots[0] == a || dots[0] == b || dots[0] == c);
        assert(dots[1] == a || dots[1] == b || dots[1] == c);
        assert(dots[2] == a || dots[2] == b || dots[2] == c);
        assert(dots[3] == a || dots[3] == b || dots[3] == c);
        assert(false);
    }
}

/// In a dotted-quad literal, three scanned dot positions must be the
/// three dots of the literal, in order.
proof fn ipv4_dots_are_the_scanned(s: Seq<char>, dots: Seq<usize>)
    requires
        is_ipv4_chars(s),
        dots.len() == 3,
        forall|t: int| 0 <= t < dots.len() ==> 0 <= #[trigger] dots[t] < s.len(),
        forall|t: int| 0 <= t < dots.len() ==> s[#[trigger] dots[t] as int] == '.',
        forall|t1: int, t2: int| 0 <= t1 < t2 < dots.len() ==> #[trigger] dots[t1] < #[trigger] dots[t2],
        forall|p: int|
            0 <= p < s.len() && s[p] == '.' ==> exists|t: int|
                0 <= t < dots.len() && #[trigger] dots[t] == p,
    ensures
        ({
            let a = dots[0] as int;
            let b = dots[1] as int;
            let c = dots[2] as int;
            &&& 0 < a < b < c < s.len()
            &&& valid_octet(s.subrange(0, a))
            &&& valid_octet(s.subrange(a + 1, b))
            &&& valid_octet(s.subrange(b + 1, c))
            &&& valid_octet(s.subrange(c + 1, s.len() as int))
        }),
{
    let (a, b, c) = choose|a: int, b: int, c: int|
        {
            &&& 0 < a < b < c < s.len()
            &&& s[a] == '.'
            &&& s[b] == '.'
            &&& s[c] == '.'
            &&& valid_octet(s.subrange(0, a))
            &&& valid_octet(s.subrange(a + 1, b))
            &&& valid_octet(s.subrange(b + 1, c))
            &&& valid_octet(s.subrange(c + 1, s.len() as int))
        };
    assert forall|t: int| 0 <= t < dots.len() implies dots[t] == a || dots[t] == b || dots[t]
        == c by {
        let p = dots[t] as int;
        if p != a && p != b && p != c {
            if p < a {
                assert(s.subrange(0, a)[p] == s[p]);
            } else if p < b {
                assert(s.subrange(a + 1, b)[p - (a + 1)] == s[p]);
            } else if p < c {
                assert(s.subrange(b + 1, c)[p - (b + 1)] == s[p]);
            } else {
                assert(s.subrange(c + 1, s.len() as int)[p - (c + 1)] == s[p]);
            }
            assert(is_dec_digit(s[p]));
            assert(false);
        }
    }
    let ta = choose|t: int| 0 <= t < dots.len() && dots[t] == a;
    let tb = choose|t: int| 0 <= t < dots.len() && dots[t] == b;
    let tc = choose|t: int| 0 <= t < dots.len() && dots[t] == c;
    assert(ta != tb && tb != tc && ta != tc);
    assert(dots[0] as int == a && dots[1] as int == b && dots[2] as int == c);
}

/// Byte length of a character sequence under UTF-8.
pub open spec fn byte_len(s: Seq<char>) -> usize {
    vstd::utf8::encode_utf8(s).len() as usize
}

/// A host and optional port, the key under which leaves are cached.
pub struct Authority {
    pub host: String,
    pub port: Option<u16>,
}

impl Authority {
    /// The cache key this authority stands for.
    pub open spec fn key(self) -> (Seq<char>, Option<u16>) {
        (self.host@, self.port)
    }

    /// A copy carrying the same key.
    pub fn duplicate(&self) -> (r: Authority)
        ensures
            r.key() == self.key(),
    {
        Authority { host: self.host.clone(), port: self.port }
    }

    /// Whether two authorities name the same host and port.
    pub fn same_key(&self, other: &Authority) -> (r: bool)
        ensures
            r == (self.key() == other.key()),
    {
        if !(self.host == other.host) {
            return false;
        }
        match (self.port, other.port) {
            (None, None) => true,
            (Some(p), Some(q)) => p == q,
            _ => false,
        }
    }
}

/// The kind of subject alternative name a leaf carries.
#[derive(PartialEq, Eq, Structural, Clone, Copy, Debug)]
pub enum SanKind {
    /// A DNS entry holding the host.
    Dns,
    /// An IP entry holding the host.
    Ip,
}

/// Everything a leaf's content depends on besides the CA material and
/// the clock: the subject common name, the kind of subject alternative
/// name (whose value is the host itself), and the fixed constants of
/// the leaf profile.
pub struct LeafCertParams {
    pub common_name: String,
    pub san: SanKind,
    pub serial_bits: u8,
    pub not_before_backdate_secs: u64,
    pub validity_days: u64,
}

/// Decides the leaf parameters for one authority: the common name is
/// the host, or the fixed sentinel when the host is longer than 64
/// bytes; the subject alternative name is an IP entry exactly when the
/// host is a dotted-quad IPv4 literal, and a DNS entry otherwise.
pub fn leaf_params(authority: &Authority) -> (r: LeafCertParams)
    ensures
        byte_len(authority.host@) > MAX_CN_BYTES ==> r.common_name@ == CN_TOO_LONG@,
        byte_len(authority.host@) <= MAX_CN_BYTES ==> r.common_name@ == authority.host@,
        r.san == (if is_ipv4_chars(authority.host@) {
            SanKind::Ip
        } else {
            SanKind::Dns
        }),
        r.serial_bits == SERIAL_BITS,
        r.not_before_backdate_secs == NOT_BEFORE_BACKDATE_SECS,
        r.validity_days == VALIDITY_DAYS,
{
    let host = authority.host.as_str();
    let common_name: String = if host.len() > MAX_CN_BYTES {
        CN_TOO_LONG.to_owned()
    } else {
        host.to_owned()
    };
    let san = if is_ipv4_host(host) {
        SanKind::Ip
    } else {
        SanKind::Dns
    };
    LeafCertParams {
        common_name,
        san,
        serial_bits: SERIAL_BITS,
        not_before_backdate_secs: NOT_BEFORE_BACKDATE_SECS,
        validity_days: VALIDITY_DAYS,
    }
}

#[verifier::external_type_specification]
#[verifier::external_body]
pub struct ExServerConfig(rustls::ServerConfig);

/// Relies on rustls's derived `ServerConfig::clone`: the copy is the
/// same configuration (its shared parts are reference-counted).
pub assume_specification[ <rustls::ServerConfig as Clone>::clone ](c: &rustls::ServerConfig) -> (r:
    rustls::ServerConfig)
    ensures
        r == *c,
;

/// One leaf signed by the root CA: the authority it serves, the DER
/// bytes of the leaf and of the CA certificate (the chain handed to
/// clients), and the assembled server TLS configuration.
pub struct SignedWithCaCert {
    pub authority: Authority,
    pub leaf_der: Vec<u8>,
    pub ca_der: Vec<u8>,
    pub server_configuration: rustls::ServerConfig,
}

/// True when two leaves carry the same bytes — the serial number, which
/// lives in the DER, included — and the same configuration.
pub open spec fn same_cert(x: SignedWithCaCert, y: SignedWithCaCert) -> bool {
    &&& x.authority.key() == y.authority.key()
    &&& x.leaf_der@ == y.leaf_der@
    &&& x.ca_der@ == y.ca_der@
    &&& x.server_configuration == y.server_configuration
}

impl SignedWithCaCert {
    /// A copy of the stored leaf, byte-identical.
    pub fn duplicate(&self) -> (r: SignedWithCaCert)
        ensures
            same_cert(r, *self),
    {
        let leaf_der = self.leaf_der.clone();
        let ca_der = self.ca_der.clone();
        proof {
            assert(leaf_der@ =~= self.leaf_der@);
            assert(ca_der@ =~= self.ca_der@);
        }
        SignedWithCaCert {
            authority: self.authority.duplicate(),
            leaf_der,
            ca_der,
            server_configuration: self.server_configuration.clone(),
        }
    }
}

/// True when some cached row carries the key.
pub open spec fn cache_has(
    s: Seq<(Authority, SignedWithCaCert)>,
    k: (Seq<char>, Option<u16>),
) -> bool {
    exists|i: int| 0 <= i < s.len() && s[i].0.key() == k
}

/// The leaf cached under the key; meaningful when `cache_has` holds and
/// the keys are unique.
pub open spec fn cache_cert(
    s: Seq<(Authority, SignedWithCaCert)>,
    k: (Seq<char>, Option<u16>),
) -> SignedWithCaCert {
    s[choose|i: int| 0 <= i < s.len() && s[i].0.key() == k].1
}

/// True when no two cached rows share a key.
pub open spec fn cache_keys_unique(s: Seq<(Authority, SignedWithCaCert)>) -> bool {
    forall|i: int, j: int| 0 <= i < j < s.len() ==> s[i].0.key() != s[j].0.key()
}

/// True when some registered leader holds the key.
pub open spec fn pending_has(s: Seq<Authority>, k: (Seq<char>, Option<u16>)) -> bool {
    exists|i: int| 0 <= i < s.len() && s[i].key() == k
}

/// True when no two registered leaders share a key.
pub open spec fn pending_keys_unique(s: Seq<Authority>) -> bool {
    forall|i: int, j: int| 0 <= i < j < s.len() ==> s[i].key() != s[j].key()
}

/// What one cache lookup tells the caller to do.
pub enum GetOutcome {
    /// The leaf is cached; use this copy.
    Hit(SignedWithCaCert),
    /// Another task is generating the leaf; await its broadcast.
    Wait,
    /// The caller registered as the leader and must generate the leaf,
    /// then hand it to `complete`.
    Lead,
}

/// The per-host certificate cache: the cached leaves, the authorities a
/// generation is in flight for, and the hit and miss counters.
pub struct CertCache {
    pub cache: Vec<(Authority, SignedWithCaCert)>,
    pub pending: Vec<Authority>,
    pub hits: u64,
    pub misses: u64,
}

impl CertCache {
    /// The cache's invariant: one cached leaf and at most one leader
    /// per authority, and every cached leaf belongs to the authority it
    /// is filed under.
    pub open spec fn wf(self) -> bool {
        &&& cache_keys_unique(self.cache@)
        &&& pending_keys_unique(self.pending@)
        &&& forall|i: int|
            0 <= i < self.cache@.len() ==> (#[trigger] self.cache@[i]).1.authority.key()
                == self.cache@[i].0.key()
    }

    /// Empty cache.
    pub fn new() -> (r: Self)
        ensures
            r.wf(),
            r.cache@.len() == 0,
            r.pending@.len() == 0,
            r.hits == 0,
            r.misses == 0,
    {
        CertCache { cache: Vec::new(), pending: Vec::new(), hits: 0, misses: 0 }
    }

    /// One step of `get`: a cached authority is a hit and returns a
    /// byte-identical copy of the one stored leaf; a miss counts, and
    /// either another leader is already registered — the caller waits —
    /// or the caller becomes the leader. At most one leader per
    /// authority can ever be registered.
    pub fn get_step(&mut self, authority: &Authority) -> (r: GetOutcome)
        requires
            old(self).wf(),
        ensures
            final(self).wf(),
            final(self).cache == old(self).cache,
            cache_has(old(self).cache@, authority.key()) ==> {
                &&& r is Hit
                &&& same_cert(r->Hit_0, cache_cert(old(self).cache@, authority.key()))
                &&& r->Hit_0.authority.key() == authority.key()
                &&& final(self).hits == crate::statistics::bump64(old(self).hits)
                &&& final(self).misses == old(self).misses
                &&& final(self).pending == old(self).pending
            },
            !cache_has(old(self).cache@, authority.key()) ==> {
                &&& final(self).misses == crate::statistics::bump64(old(self).misses)
                &&& final(self).hits == old(self).hits
                &&& pending_has(final(self).pending@, authority.key())
            },
            !cache_has(old(self).cache@, authority.key()) && pending_has(
                old(self).pending@,
                authority.key(),
            ) ==> r is Wait && final(self).pending == old(self).pending,
            !cache_has(old(self).cache@, authority.key()) && !pending_has(
                old(self).pending@,
                authority.key(),
            ) ==> r is Lead,
            forall|k: (Seq<char>, Option<u16>)|
                k != authority.key() ==> #[trigger] pending_has(final(self).pending@, k)
                    == pending_has(old(self).pending@, k),
    {
        let ghost k = authority.key();
        let n: usize = self.cache.len();
        let mut i: usize = 0;
        while i < n
            invariant
                n == self.cache@.len(),
                *self == *old(self),
                old(self).wf(),
                0 <= i <= n,
                k == authority.key(),
                forall|j: int| 0 <= j < i ==> self.cache@[j].0.key() != k,
            decreases n - i,
        {
            if self.cache[i].0.same_key(authority) {
                let cert = self.cache[i].1.duplicate();
                self.hits = self.hits.saturating_add(1);
                proof {
                    assert(self.cache@[i as int].0.key() == k);
                    assert(forall|j: int|
                        0 <= j < self.cache@.len() && #[trigger] self.cache@[j].0.key() == k ==> j
                            == i as int);
                    assert(cache_cert(self.cache@, k) == self.cache@[i as int].1);
                }
                return GetOutcome::Hit(cert);
            }
            i = i + 1;
        }
        self.misses = self.misses.saturating_add(1);
        let m: usize = self.pending.len();
        let mut j: usize = 0;
        while j < m
            invariant
                m == self.pending@.len(),
                *self == (CertCache { misses: self.misses, ..*old(self) }),
                self.misses == crate::statistics::bump64(old(self).misses),
                old(self).wf(),
                !cache_has(old(self).cache@, k),
                0 <= j <= m,
                k == authority.key(),
                forall|t: int| 0 <= t < j ==> self.pending@[t].key() != k,
            decreases m - j,
        {
            if self.pending[j].same_key(authority) {
                proof {
                    assert(self.pending@[j as int].key() == k);
                }
                return GetOutcome::Wait;
            }
            j = j + 1;
        }
        let ghost pending0 = self.pending@;
        self.pending.push(authority.duplicate());
        proof {
            assert(self.pending@[pending0.len() as int].key() == k);
            assert(forall|t: int| 0 <= t < pending0.len() ==> self.pending@[t] == pending0[t]);
            assert(pending_keys_unique(self.pending@));
            assert forall|k2: (Seq<char>, Option<u16>)| k2 != k implies #[trigger] pending_has(
                self.pending@,
                k2,
            ) == pending_has(pending0, k2) by {
                if pending_has(pending0, k2) {
                    let w = choose|t: int| 0 <= t < pending0.len() && pending0[t].key() == k2;
                    assert(self.pending@[w].key() == k2);
                }
                if pending_has(self.pending@, k2) {
                    let w = choose|t: int|
                        0 <= t < self.pending@.len() && self.pending@[t].key() == k2;
                    assert(w != pending0.len() as int);
                    assert(pending0[w].key() == k2);
                }
            }
        }
        GetOutcome::Lead
    }

    /// The leader hands the generated leaf in: it is cached under the
    /// authority's key (an authority already cached keeps its first
    /// leaf), and the leader's registration is withdrawn.
    pub fn complete(&mut self, authority: Authority, cert: SignedWithCaCert)
        requires
            old(self).wf(),
            cert.authority.key() == authority.key(),
        ensures
            final(self).wf(),
            final(self).hits == old(self).hits,
            final(self).misses == old(self).misses,
            cache_has(final(self).cache@, authority.key()),
            !cache_has(old(self).cache@, authority.key()) ==> cache_cert(
                final(self).cache@,
                authority.key(),
            ) == cert,
            cache_has(old(self).cache@, authority.key()) ==> final(self).cache == old(self).cache,
            forall|k: (Seq<char>, Option<u16>)|
                k != authority.key() ==> #[trigger] cache_has(final(self).cache@, k) == cache_has(
                    old(self).cache@,
                    k,
                ),
            forall|k: (Seq<char>, Option<u16>)|
                k != authority.key() && #[trigger] cache_has(old(self).cache@, k) ==> cache_cert(
                    final(self).cache@,
                    k,
                ) == cache_cert(old(self).cache@, k),
            !pending_has(final(self).pending@, authority.key()),
            forall|k: (Seq<char>, Option<u16>)|
                k != authority.key() ==> #[trigger] pending_has(final(self).pending@, k)
                    == pending_has(old(self).pending@, k),
    {
        let ghost k = authority.key();
        let ghost cache0 = self.cache@;
        let n: usize = self.cache.len();
        let mut i: usize = 0;
        let mut found: bool = false;
        while i < n && !found
            invariant
                n == self.cache@.len(),
                *self == *old(self),
                self.cache@ == cache0,
                cache0 == old(self).cache@,
                cache_keys_unique(cache0),
                0 <= i <= n,
                k == authority.key(),
                !found ==> forall|j: int| 0 <= j < i ==> cache0[j].0.key() != k,
                found ==> i < n && cache0[i as int].0.key() == k,
            decreases n - i + (if found {
                0int
            } else {
                1int
            }),
        {
            if self.cache[i].0.same_key(&authority) {
                found = true;
            } else {
                i = i + 1;
            }
        }
        if !found {
            self.cache.push((authority.duplicate(), cert));
            proof {
                assert(self.cache@[cache0.len() as int].0.key() == k);
                assert(forall|j: int| 0 <= j < cache0.len() ==> self.cache@[j] == cache0[j]);
                assert(cache_keys_unique(self.cache@));
                assert(forall|j: int|
                    0 <= j < self.cache@.len() && #[trigger] self.cache@[j].0.key() == k ==> j
                        == cache0.len() as int);
                assert(cache_cert(self.cache@, k) == cert);
                assert forall|k2: (Seq<char>, Option<u16>)| k2 != k implies #[trigger] cache_has(
                    self.cache@,
                    k2,
                ) == cache_has(cache0, k2) by {
                    if cache_has(cache0, k2) {
                        let w = choose|t: int| 0 <= t < cache0.len() && cache0[t].0.key() == k2;
                        assert(self.cache@[w].0.key() == k2);
                    }
                    if cache_has(self.cache@, k2) {
                        let w = choose|t: int|
                            0 <= t < self.cache@.len() && self.cache@[t].0.key() == k2;
                        assert(w != cache0.len() as int);
                        assert(cache0[w].0.key() == k2);
                    }
                }
                assert forall|k2: (Seq<char>, Option<u16>)|
                    k2 != k && #[trigger] cache_has(cache0, k2) implies cache_cert(self.cache@, k2)
                    == cache_cert(cache0, k2) by {
                    let w = choose|t: int| 0 <= t < cache0.len() && cache0[t].0.key() == k2;
                    assert(self.cache@[w].0.key() == k2);
                }
            }
        }
        self.withdraw_leader(&authority);
    }

    /// Withdraws the leader registration for the authority, if any;
    /// nothing else changes.
    fn withdraw_leader(&mut self, authority: &Authority)
        requires
            pending_keys_unique(old(self).pending@),
        ensures
            *final(self) == (CertCache { pending: final(self).pending, ..*old(self) }),
            pending_keys_unique(final(self).pending@),
            !pending_has(final(self).pending@, authority.key()),
            forall|k: (Seq<char>, Option<u16>)|
                k != authority.key() ==> #[trigger] pending_has(final(self).pending@, k)
                    == pending_has(old(self).pending@, k),
    {
        let ghost k = authority.key();
        let ghost pending0 = self.pending@;
        let m: usize = self.pending.len();
        let mut t: usize = 0;
        while t < m
            invariant
                m == self.pending@.len(),
                *self == (CertCache { pending: self.pending, ..*old(self) }),
                self.pending@ == pending0,
                pending0 == old(self).pending@,
                pending_keys_unique(pending0),
                0 <= t <= m,
                k == authority.key(),
                forall|j: int| 0 <= j < t ==> pending0[j].key() != k,
            decreases m - t,
        {
            if self.pending[t].same_key(authority) {
                self.pending.remove(t);
                proof {
                    assert(pending0[t as int].key() == k);
                    assert(forall|j: int| 0 <= j < t ==> self.pending@[j] == pending0[j]);
                    assert(forall|j: int|
                        t <= j < self.pending@.len() ==> self.pending@[j] == pending0[j + 1]);
                    assert(pending_keys_unique(self.pending@));
                    assert forall|j: int| 0 <= j < self.pending@.len() implies #[trigger] self
                        .pending@[j].key() != k by {
                        if j < t {
                        } else {
                            assert(self.pending@[j] == pending0[j + 1]);
                        }
                    }
                    assert forall|k2: (Seq<char>, Option<u16>)| k2 != k implies #[trigger]
                    pending_has(self.pending@, k2) == pending_has(pending0, k2) by {
                        if pending_has(pending0, k2) {
                            let w = choose|j: int|
                                0 <= j < pending0.len() && pending0[j].key() == k2;
                            if w < t {
                                assert(self.pending@[w].key() == k2);
                            } else if w == t {
                                assert(false);
                            } else {
                                assert(self.pending@[w - 1].key() == k2);
                            }
                        }
                        if pending_has(self.pending@, k2) {
                            let w = choose|j: int|
                                0 <= j < self.pending@.len() && self.pending@[j].key() == k2;
                            if w < t {
                                assert(pending0[w].key() == k2);
                            } else {
                                assert(pending0[w + 1].key() == k2);
                            }
                        }
                    }
                }
                return ;
            }
            t = t + 1;
        }
    }

    /// The hit and miss counters, in that order.
    pub fn get_metrics(&self) -> (r: (u64, u64))
        ensures
            r.0 == self.hits,
            r.1 == self.misses,
    {
        (self.hits, self.misses)
    }
}

/// Equal authorities resolve to one cached leaf: both lookups read the
/// same row, bytes and serial number included. With `get_step` and
/// `complete` this is the single-flight guarantee: one generation fills
/// the row every later call returns.
pub proof fn lemma_cache_single_leaf(c: CertCache, a1: Authority, a2: Authority)
    requires
        c.wf(),
        a1.key() == a2.key(),
        cache_has(c.cache@, a1.key()),
    ensures
        cache_has(c.cache@, a2.key()),
        cache_cert(c.cache@, a1.key()) == cache_cert(c.cache@, a2.key()),
{
}

} // verus!
