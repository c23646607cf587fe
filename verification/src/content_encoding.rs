//! Parsing and ranking of `Accept-Encoding`: which precompressed variant, if
//! any, the client and the server agree on.

use vstd::prelude::*;
use vstd::string::StringExecFns;

use crate::strutil::split_char;
use crate::strutil::split_on_char;

verus! {

/// A content encoding the server understands. Variants are ordered from
/// least to most preferred; the order breaks quality-value ties.
#[derive(Clone, Copy, Debug, PartialEq, Eq, Structural)]
pub enum Encoding {
    Identity,
    Deflate,
    Gzip,
    Brotli,
}

/// A quality value from `Accept-Encoding`, scaled to `0..=1000`.
#[derive(Clone, Copy, Debug, PartialEq, Eq, Structural)]
pub struct QValue(pub u16);

impl QValue {
    /// The default weight of a listed encoding: `1.0`.
    pub fn one() -> (r: Self)
        ensures
            r.0 == 1000,
    {
        Self(1000)
    }
}

/// Which precompressed sibling files the server is willing to serve.
#[derive(Clone, Copy, Debug, PartialEq, Eq, Structural)]
pub struct PrecompressedVariants {
    pub gzip: bool,
    pub deflate: bool,
    pub br: bool,
}

impl Default for PrecompressedVariants {
    /// No precompressed variant is offered.
    fn default() -> (r: Self)
        ensures
            !r.gzip && !r.deflate && !r.br,
    {
        PrecompressedVariants { gzip: false, deflate: false, br: false }
    }
}

impl Encoding {
    /// Position in the fixed preference order.
    pub open spec fn rank(&self) -> int {
        match self {
            Encoding::Identity => 0,
            Encoding::Deflate => 1,
            Encoding::Gzip => 2,
            Encoding::Brotli => 3,
        }
    }

    /// The canonical `Content-Encoding` token.
    pub open spec fn token(&self) -> Seq<char> {
        match self {
            Encoding::Identity => seq!['i', 'd', 'e', 'n', 't', 'i', 't', 'y'],
            Encoding::Deflate => seq!['d', 'e', 'f', 'l', 'a', 't', 'e'],
            Encoding::Gzip => seq!['g', 'z', 'i', 'p'],
            Encoding::Brotli => seq!['b', 'r'],
        }
    }

    /// The file-name suffix of the encoding's precompressed sibling, if any.
    pub open spec fn extension(&self) -> Option<Seq<char>> {
        match self {
            Encoding::Identity => None,
            Encoding::Deflate => Some(seq!['.', 'z', 'z']),
            Encoding::Gzip => Some(seq!['.', 'g', 'z']),
            Encoding::Brotli => Some(seq!['.', 'b', 'r']),
        }
    }

    /// The canonical `Content-Encoding` token.
    pub fn to_str(&self) -> (r: &'static str)
        ensures
            r@ == self.token(),
    {
        match self {
            Encoding::Identity => {
                let s = "identity";
                proof {
                    reveal_strlit("identity");
                    assert(s@ =~= self.token());
                }
                s
            }
            Encoding::Deflate => {
                let s = "deflate";
                proof {
                    reveal_strlit("deflate");
                    assert(s@ =~= self.token());
                }
                s
            }
            Encoding::Gzip => {
                let s = "gzip";
                proof {
                    reveal_strlit("gzip");
                    assert(s@ =~= self.token());
                }
                s
            }
            Encoding::Brotli => {
                let s = "br";
                proof {
                    reveal_strlit("br");
                    assert(s@ =~= self.token());
                }
                s
            }
        }
    }

    /// The file-name suffix of the encoding's precompressed sibling, if any.
    pub fn to_file_extension(&self) -> (r: Option<&'static str>)
        ensures
            r matches Some(e) ==> self.extension() == Some(e@),
            r is None <==> self.extension() is None,
    {
        match self {
            Encoding::Identity => None,
            Encoding::Deflate => {
                let s = ".zz";
                proof {
                    reveal_strlit(".zz");
                    assert(s@ =~= seq!['.', 'z', 'z']);
                }
                Some(s)
            }
            Encoding::Gzip => {
                let s = ".gz";
                proof {
                    reveal_strlit(".gz");
                    assert(s@ =~= seq!['.', 'g', 'z']);
                }
                Some(s)
            }
            Encoding::Brotli => {
                let s = ".br";
                proof {
                    reveal_strlit(".br");
                    assert(s@ =~= seq!['.', 'b', 'r']);
                }
                Some(s)
            }
        }
    }

    /// The exec rank, for comparisons.
    pub fn preference(&self) -> (r: u8)
        ensures
            r == self.rank(),
    {
        match self {
            Encoding::Identity => 0,
            Encoding::Deflate => 1,
            Encoding::Gzip => 2,
            Encoding::Brotli => 3,
        }
    }

    /// The entry that a `max` over `(quality, rank)` keys picks, later
    /// entries winning ties exactly.
    pub open spec fn best_entry(neg: Seq<(Encoding, QValue)>) -> Option<(Encoding, QValue)>
        decreases neg.len(),
    {
        if neg.len() == 0 {
            None
        } else {
            let prev = Self::best_entry(neg.drop_last());
            let e = neg.last();
            if e.1.0 == 0 {
                prev
            } else {
                match prev {
                    Option::None => Some(e),
                    Option::Some(p) => if e.1.0 > p.1.0 || (e.1.0 == p.1.0 && e.0.rank()
                        >= p.0.rank()) {
                        Some(e)
                    } else {
                        Some(p)
                    },
                }
            }
        }
    }

    /// The encoding the negotiation prefers: highest quality first, then the
    /// fixed order `br`, `gzip`, `deflate`; entries with quality zero never
    /// qualify.
    pub open spec fn preferred_of(neg: Seq<(Encoding, QValue)>) -> Option<Encoding> {
        match Self::best_entry(neg) {
            Option::None => None,
            Option::Some(e) => Some(e.0),
        }
    }

    /// Pick the preferred encoding among the negotiated ones.
    pub fn preferred_encoding(accepted_encodings: &Vec<(Encoding, QValue)>) -> (r: Option<
        Encoding,
    >)
        ensures
            r == Self::preferred_of(accepted_encodings@),
    {
        let mut best: Option<(Encoding, QValue)> = None;
        let mut i: usize = 0;
        while i < accepted_encodings.len()
            invariant
                i <= accepted_encodings@.len(),
                best == Self::best_entry(accepted_encodings@.subrange(0, i as int)),
            decreases accepted_encodings@.len() - i,
        {
            let e = accepted_encodings[i];
            proof {
                assert(accepted_encodings@.subrange(0, i + 1).drop_last() =~= accepted_encodings@
                    .subrange(0, i as int));
                assert(accepted_encodings@.subrange(0, i + 1).last() == e);
            }
            if e.1.0 > 0 {
                best = match best {
                    Option::None => Some(e),
                    Option::Some(p) => {
                        if e.1.0 > p.1.0 || (e.1.0 == p.1.0 && e.0.preference()
                            >= p.0.preference()) {
                            Some(e)
                        } else {
                            Some(p)
                        }
                    }
                };
            }
            i = i + 1;
        }
        proof {
            assert(accepted_encodings@.subrange(0, accepted_encodings@.len() as int)
                =~= accepted_encodings@);
        }
        match best {
            Option::None => None,
            Option::Some(e) => Some(e.0),
        }
    }
}

/// An ASCII whitespace character of a header value.
pub open spec fn is_header_ws(c: char) -> bool {
    c == ' ' || c == '\t'
}

/// `s` without leading header whitespace.
pub open spec fn trim_front(s: Seq<char>) -> Seq<char>
    decreases s.len(),
{
    if s.len() > 0 && is_header_ws(s.first()) {
        trim_front(s.drop_first())
    } else {
        s
    }
}

/// `s` without trailing header whitespace.
pub open spec fn trim_back(s: Seq<char>) -> Seq<char>
    decreases s.len(),
{
    if s.len() > 0 && is_header_ws(s.last()) {
        trim_back(s.drop_last())
    } else {
        s
    }
}

/// `s` without leading and trailing header whitespace.
pub open spec fn trimmed(s: Seq<char>) -> Seq<char> {
    trim_back(trim_front(s))
}

/// Whether the character at `i` is header whitespace.
fn ws_at(s: &str, i: usize) -> (r: bool)
    requires
        i < s@.len(),
    ensures
        r == is_header_ws(s@[i as int]),
{
    let c = s.get_char(i);
    c == ' ' || c == '\t'
}

/// Remove leading and trailing spaces and tabs.
pub fn trim(s: &str) -> (r: String)
    ensures
        r@ == trimmed(s@),
{
    let n = s.unicode_len();
    let mut lo: usize = 0;
    proof {
        assert(s@.skip(0) =~= s@);
    }
    while lo < n && ws_at(s, lo)
        invariant
            n == s@.len(),
            lo <= n,
            trim_front(s@) == trim_front(s@.skip(lo as int)),
        decreases n - lo,
    {
        proof {
            assert(s@.skip(lo as int).drop_first() =~= s@.skip(lo + 1));
        }
        lo = lo + 1;
    }
    proof {
        assert(trim_front(s@.skip(lo as int)) == s@.skip(lo as int));
    }
    let mut hi: usize = n;
    while hi > lo && ws_at(s, hi - 1)
        invariant
            n == s@.len(),
            lo <= hi <= n,
            trim_front(s@) == s@.skip(lo as int),
            trim_back(s@.skip(lo as int)) == trim_back(s@.subrange(lo as int, hi as int)),
        decreases hi,
    {
        proof {
            assert(s@.subrange(lo as int, hi as int).drop_last() =~= s@.subrange(
                lo as int,
                hi - 1,
            ));
            assert(s@.subrange(lo as int, hi as int).last() == s@[hi - 1]);
        }
        hi = hi - 1;
    }
    proof {
        if hi == lo {
            assert(s@.subrange(lo as int, hi as int).len() == 0);
        }
        assert(trim_back(s@.subrange(lo as int, hi as int)) == s@.subrange(lo as int, hi as int));
        assert(s@.skip(lo as int) =~= s@.subrange(lo as int, n as int));
    }
    String::from_str(s.substring_char(lo, hi))
}

/// Case-insensitive equality of ASCII letters, exact equality otherwise.
pub open spec fn ci_eq_char(a: char, b: char) -> bool {
    a == b || (65 <= a as u32 <= 90 && a as u32 + 32 == b as u32) || (65 <= b as u32 <= 90
        && b as u32 + 32 == a as u32)
}

/// Case-insensitive string equality over ASCII letters.
pub open spec fn ci_eq(a: Seq<char>, b: Seq<char>) -> bool {
    a.len() == b.len() && forall|i: int| 0 <= i < a.len() ==> ci_eq_char(a[i], b[i])
}

/// Compare two strings, ignoring ASCII letter case.
pub fn eq_ignore_ascii_case(a: &str, b: &str) -> (r: bool)
    ensures
        r == ci_eq(a@, b@),
{
    let an = a.unicode_len();
    let bn = b.unicode_len();
    if an != bn {
        return false;
    }
    let mut i: usize = 0;
    while i < an
        invariant
            an == a@.len(),
            an == b@.len(),
            i <= an,
            forall|j: int| 0 <= j < i ==> ci_eq_char(a@[j], b@[j]),
        decreases an - i,
    {
        let x = a.get_char(i) as u32;
        let y = b.get_char(i) as u32;
        let xl = if 65 <= x && x <= 90 {
            x + 32
        } else {
            x
        };
        let yl = if 65 <= y && y <= 90 {
            y + 32
        } else {
            y
        };
        if xl != yl {
            proof {
                assert(!ci_eq_char(a@[i as int], b@[i as int]));
            }
            return false;
        }
        proof {
            assert(a@[i as int] as u32 == x && b@[i as int] as u32 == y);
            assert(ci_eq_char(a@[i as int], b@[i as int])) by {
                if x == y {
                    assert(a@[i as int] == b@[i as int]);
                }
            }
        }
        i = i + 1;
    }
    true
}

/// The encoding a single `Accept-Encoding` token names, when the policy
/// permits serving it; `identity` is always recognised.
pub open spec fn token_encoding(t: Seq<char>, supported: PrecompressedVariants) -> Option<
    Encoding,
> {
    if ci_eq(t, Encoding::Gzip.token()) && supported.gzip {
        Some(Encoding::Gzip)
    } else if ci_eq(t, Encoding::Deflate.token()) && supported.deflate {
        Some(Encoding::Deflate)
    } else if ci_eq(t, Encoding::Brotli.token()) && supported.br {
        Some(Encoding::Brotli)
    } else if ci_eq(t, Encoding::Identity.token()) {
        Some(Encoding::Identity)
    } else {
        None
    }
}

/// Parse one encoding token.
fn parse_token(t: &str, supported: PrecompressedVariants) -> (r: Option<Encoding>)
    ensures
        r == token_encoding(t@, supported),
{
    proof {
        reveal_strlit("gzip");
        reveal_strlit("deflate");
        reveal_strlit("br");
        reveal_strlit("identity");
        assert("gzip"@ =~= Encoding::Gzip.token());
        assert("deflate"@ =~= Encoding::Deflate.token());
        assert("br"@ =~= Encoding::Brotli.token());
        assert("identity"@ =~= Encoding::Identity.token());
    }
    if eq_ignore_ascii_case(t, "gzip") && supported.gzip {
        Some(Encoding::Gzip)
    } else if eq_ignore_ascii_case(t, "deflate") && supported.deflate {
        Some(Encoding::Deflate)
    } else if eq_ignore_ascii_case(t, "br") && supported.br {
        Some(Encoding::Brotli)
    } else if eq_ignore_ascii_case(t, "identity") {
        Some(Encoding::Identity)
    } else {
        None
    }
}

/// Whether `c` is a decimal digit.
pub open spec fn is_digit(c: char) -> bool {
    48 <= c as u32 <= 57
}

/// The value of a decimal digit.
pub open spec fn digit_val(c: char) -> int {
    c as u32 - 48
}

/// The quality value a string like `q=0.8` denotes, scaled by 1000; `None`
/// when the string is not a well-formed q-value.
pub open spec fn qvalue_of(s: Seq<char>) -> Option<u16> {
    if s.len() < 3 || !(s[0] == 'q' || s[0] == 'Q') || s[1] != '=' || !(s[2] == '0' || s[2] == '1')
     {
        None
    } else {
        let lead: int = if s[2] == '1' {
            1000
        } else {
            0
        };
        if s.len() == 3 {
            Some(lead as u16)
        } else if s[3] != '.' || s.len() > 7 {
            None
        } else if exists|j: int| 4 <= j < s.len() && !is_digit(s[j]) {
            None
        } else {
            let d0: int = if s.len() > 4 {
                digit_val(s[4])
            } else {
                0
            };
            let d1: int = if s.len() > 5 {
                digit_val(s[5])
            } else {
                0
            };
            let d2: int = if s.len() > 6 {
                digit_val(s[6])
            } else {
                0
            };
            let total = lead + d0 * 100 + d1 * 10 + d2;
            if total <= 1000 {
                Some(total as u16)
            } else {
                None
            }
        }
    }
}

/// Parse a q-value as in RFC 7231 section 5.3.1, scaled to `0..=1000`.
pub fn parse_qvalue(s: &str) -> (r: Option<QValue>)
    ensures
        r matches Some(q) ==> qvalue_of(s@) == Some(q.0),
        r is None <==> qvalue_of(s@) is None,
{
    let n = s.unicode_len();
    if n < 3 || n > 7 {
        return None;
    }
    let c0 = s.get_char(0);
    if !(c0 == 'q' || c0 == 'Q') {
        return None;
    }
    if s.get_char(1) != '=' {
        return None;
    }
    let c2 = s.get_char(2);
    if !(c2 == '0' || c2 == '1') {
        return None;
    }
    let lead: u32 = if c2 == '1' {
        1000
    } else {
        0
    };
    if n == 3 {
        return Some(QValue(lead as u16));
    }
    if s.get_char(3) != '.' {
        return None;
    }
    let mut total: u32 = lead;
    let mut k: usize = 4;
    let mut factor: u32 = 100;
    while k < n
        invariant
            4 <= k <= n,
            n == s@.len(),
            n <= 7,
            forall|j: int| 4 <= j < k ==> is_digit(s@[j]),
            factor == if k == 4 {
                100int
            } else if k == 5 {
                10int
            } else if k == 6 {
                1int
            } else {
                0int
            },
            total == (if s@[2] == '1' {
                1000int
            } else {
                0int
            }) + (if k > 4 {
                digit_val(s@[4]) * 100
            } else {
                0int
            }) + (if k > 5 {
                digit_val(s@[5]) * 10
            } else {
                0int
            }) + (if k > 6 {
                digit_val(s@[6])
            } else {
                0int
            }),
        decreases n - k,
    {
        let c = s.get_char(k) as u32;
        if !(48 <= c && c <= 57) {
            return None;
        }
        total = total + factor * (c - 48);
        factor = factor / 10;
        k = k + 1;
    }
    if total <= 1000 {
        Some(QValue(total as u16))
    } else {
        None
    }
}

/// The `(encoding, quality)` a single comma-separated element yields, if any.
pub open spec fn entry_of(e: Seq<char>, supported: PrecompressedVariants) -> Option<
    (Encoding, QValue),
> {
    let parts = split_char(e, ';');
    let tok = trimmed(parts.first());
    match token_encoding(tok, supported) {
        Option::None => None,
        Option::Some(enc) => {
            if parts.len() == 1 {
                Some((enc, QValue(1000)))
            } else {
                let qpart = trimmed(joined_tail(parts));
                match qvalue_of(qpart) {
                    Option::None => None,
                    Option::Some(q) => Some((enc, QValue(q))),
                }
            }
        },
    }
}

/// The elements after the first, glued back together with `;`: what
/// splitting only at the first separator would have left.
pub open spec fn joined_tail(parts: Seq<Seq<char>>) -> Seq<char>
    decreases parts.len(),
{
    if parts.len() <= 1 {
        Seq::empty()
    } else if parts.len() == 2 {
        parts[1]
    } else {
        parts[1] + seq![';'] + joined_tail(parts.drop_first())
    }
}

/// The negotiated `(encoding, quality)` list of a header value.
pub open spec fn entries_of(es: Seq<Seq<char>>, supported: PrecompressedVariants) -> Seq<
    (Encoding, QValue),
>
    decreases es.len(),
{
    if es.len() == 0 {
        Seq::empty()
    } else {
        let rest = entries_of(es.drop_last(), supported);
        match entry_of(es.last(), supported) {
            Option::None => rest,
            Option::Some(p) => rest.push(p),
        }
    }
}

/// The negotiated encodings of an `Accept-Encoding` header value: one entry
/// per comma-separated element that names a known, permitted encoding with a
/// well-formed quality.
pub open spec fn encodings_of(header: Option<Seq<char>>, supported: PrecompressedVariants) -> Seq<
    (Encoding, QValue),
> {
    match header {
        Option::None => Seq::empty(),
        Option::Some(s) => entries_of(split_char(s, ','), supported),
    }
}

/// Parse `Accept-Encoding` and keep the encodings the policy permits.
pub fn encodings(header: Option<&String>, supported: PrecompressedVariants) -> (r: Vec<
    (Encoding, QValue),
>)
    ensures
        r@ == encodings_of(
            match header {
                Option::Some(h) => Some(h@),
                Option::None => None,
            },
            supported,
        ),
{
    let mut out: Vec<(Encoding, QValue)> = Vec::new();
    let h = match header {
        Option::Some(h) => h,
        Option::None => {
            return out;
        },
    };
    let elements = split_on_char(h.as_str(), ',');
    let ghost es = elements@.map_values(|x: String| x@);
    let mut i: usize = 0;
    while i < elements.len()
        invariant
            es == elements@.map_values(|x: String| x@),
            es == split_char(h@, ','),
            i <= elements@.len(),
            out@ == entries_of(es.subrange(0, i as int), supported),
        decreases elements@.len() - i,
    {
        proof {
            assert(es.subrange(0, i + 1).drop_last() =~= es.subrange(0, i as int));
            assert(es.subrange(0, i + 1).last() == es[i as int]);
        }
        let element = &elements[i];
        match parse_element(element.as_str(), supported) {
            Option::Some(p) => out.push(p),
            Option::None => {},
        }
        i = i + 1;
    }
    proof {
        assert(es.subrange(0, es.len() as int) =~= es);
    }
    out
}

/// Parse one comma-separated element of `Accept-Encoding`.
fn parse_element(e: &str, supported: PrecompressedVariants) -> (r: Option<(Encoding, QValue)>)
    ensures
        r == entry_of(e@, supported),
{
    let parts = split_on_char(e, ';');
    let ghost ps = parts@.map_values(|x: String| x@);
    proof {
        crate::strutil::lemma_split_char_len(e@, ';');
        assert(ps.first() == parts@[0]@);
    }
    let tok = trim(parts[0].as_str());
    let enc = match parse_token(tok.as_str(), supported) {
        Option::Some(enc) => enc,
        Option::None => {
            return None;
        },
    };
    if parts.len() == 1 {
        return Some((enc, QValue::one()));
    }
    let mut tail: String = parts[1].clone();
    let mut k: usize = 2;
    proof {
        assert(ps.subrange(0, 2int)[1] == ps[1]);
        assert(joined_tail(ps.subrange(0, 2int)) == ps[1]);
        assert(parts@[1]@ == ps[1]);
    }
    while k < parts.len()
        invariant
            2 <= k <= parts@.len(),
            ps == parts@.map_values(|x: String| x@),
            ps.len() >= 2,
            tail@ == joined_tail(ps.subrange(0, k as int)),
        decreases parts@.len() - k,
    {
        proof {
            lemma_joined_tail_push(ps.subrange(0, k as int), ps[k as int]);
            assert(ps.subrange(0, k as int).push(ps[k as int]) =~= ps.subrange(0, k + 1));
        }
        tail.append(";");
        tail.append(parts[k].as_str());
        proof {
            reveal_strlit(";");
            assert(tail@ =~= joined_tail(ps.subrange(0, k as int)) + seq![';'] + ps[k as int]);
            assert(tail@ == joined_tail(ps.subrange(0, k + 1)));
        }
        k = k + 1;
    }
    proof {
        assert(ps.subrange(0, ps.len() as int) =~= ps);
        assert(ps.subrange(0, 2int).len() == 2);
        assert(joined_tail(ps.subrange(0, 2int)) == ps[1]);
        assert(parts@[1]@ == ps[1]);
    }
    let qpart = trim(tail.as_str());
    match parse_qvalue(qpart.as_str()) {
        Option::Some(q) => Some((enc, q)),
        Option::None => None,
    }
}

/// Gluing one more element onto the tail join.
proof fn lemma_joined_tail_push(parts: Seq<Seq<char>>, next: Seq<char>)
    requires
        parts.len() >= 2,
    ensures
        joined_tail(parts.push(next)) == joined_tail(parts) + seq![';'] + next,
    decreases parts.len(),
{
    let q = parts.push(next);
    assert(q.drop_first() =~= parts.drop_first().push(next));
    if parts.len() == 2 {
        assert(q.drop_first().len() == 2);
        assert(joined_tail(q.drop_first()) == q.drop_first()[1]);
        assert(q.drop_first()[1] == next);
        assert(joined_tail(q) == q[1] + seq![';'] + joined_tail(q.drop_first()));
    } else {
        lemma_joined_tail_push(parts.drop_first(), next);
        assert(joined_tail(q) == q[1] + seq![';'] + joined_tail(q.drop_first()));
        assert(parts[1] + seq![';'] + (joined_tail(parts.drop_first()) + seq![';'] + next) =~= (
        parts[1] + seq![';'] + joined_tail(parts.drop_first())) + seq![';'] + next);
    }
}

} // verus!
