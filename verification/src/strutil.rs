//! Small verified helpers over strings: equality, character search, and
//! splitting on a separator character.

use vstd::prelude::*;
use vstd::string::StringExecFns;

verus! {

/// The decimal digit character of `k`.
pub open spec fn digit(k: int) -> char {
    if k == 0 {
        '0'
    } else if k == 1 {
        '1'
    } else if k == 2 {
        '2'
    } else if k == 3 {
        '3'
    } else if k == 4 {
        '4'
    } else if k == 5 {
        '5'
    } else if k == 6 {
        '6'
    } else if k == 7 {
        '7'
    } else if k == 8 {
        '8'
    } else {
        '9'
    }
}


/// The pieces of `s` between occurrences of `c`; always at least one piece.
pub open spec fn split_char(s: Seq<char>, c: char) -> Seq<Seq<char>>
    decreases s.len(),
{
    if s.len() == 0 {
        seq![Seq::<char>::empty()]
    } else {
        let rest = split_char(s.drop_first(), c);
        if s[0] == c {
            seq![Seq::<char>::empty()] + rest
        } else {
            seq![seq![s[0]] + rest[0]] + rest.drop_first()
        }
    }
}

pub proof fn lemma_split_char_len(s: Seq<char>, c: char)
    ensures
        split_char(s, c).len() >= 1,
    decreases s.len(),
{
    if s.len() > 0 {
        lemma_split_char_len(s.drop_first(), c);
    }
}

/// A string without the separator splits into itself alone.
pub proof fn lemma_split_char_none(s: Seq<char>, c: char)
    requires
        forall|j: int| 0 <= j < s.len() ==> s[j] != c,
    ensures
        split_char(s, c) =~= seq![s],
    decreases s.len(),
{
    if s.len() == 0 {
        assert(s =~= Seq::<char>::empty());
    } else {
        lemma_split_char_none(s.drop_first(), c);
        assert(split_char(s, c)[0] =~= s);
        assert(split_char(s, c) =~= seq![s]);
    }
}

/// Splitting at the first separator: the piece before it, then the split of
/// what follows it.
pub proof fn lemma_split_char_first(s: Seq<char>, c: char, i: int)
    requires
        0 <= i < s.len(),
        s[i] == c,
        forall|j: int| 0 <= j < i ==> s[j] != c,
    ensures
        split_char(s, c) =~= seq![s.subrange(0, i)] + split_char(s.subrange(i + 1, s.len() as int), c),
    decreases s.len(),
{
    if i == 0 {
        assert(s.drop_first() =~= s.subrange(1, s.len() as int));
        assert(s.subrange(0, 0) =~= Seq::<char>::empty());
        assert(split_char(s, c) =~= seq![s.subrange(0, 0)] + split_char(
            s.subrange(1, s.len() as int),
            c,
        ));
    } else {
        lemma_split_char_first(s.drop_first(), c, i - 1);
        assert(s.drop_first().subrange(0, i - 1) =~= s.subrange(0, i).drop_first());
        assert(s.drop_first().subrange(i, s.drop_first().len() as int) =~= s.subrange(
            i + 1,
            s.len() as int,
        ));
        assert(seq![s[0]] + s.subrange(0, i).drop_first() =~= s.subrange(0, i));
        assert(split_char(s, c)[0] =~= s.subrange(0, i));
        assert(split_char(s, c) =~= seq![s.subrange(0, i)] + split_char(
            s.subrange(i + 1, s.len() as int),
            c,
        ));
    }
}

/// Whether `c` occurs in `s`.
pub fn contains_char(s: &str, c: char) -> (r: bool)
    ensures
        r == s@.contains(c),
{
    let n = s.unicode_len();
    let mut i: usize = 0;
    while i < n
        invariant
            n == s@.len(),
            i <= n,
            forall|j: int| 0 <= j < i ==> s@[j] != c,
        decreases n - i,
    {
        if s.get_char(i) == c {
            assert(s@[i as int] == c);
            return true;
        }
        i = i + 1;
    }
    proof {
        if s@.contains(c) {
            let w = choose|w: int| 0 <= w < s@.len() && s@[w] == c;
            assert(s@[w] != c);
        }
    }
    false
}

/// Split `s` on every occurrence of `c`.
pub fn split_on_char(s: &str, c: char) -> (r: Vec<String>)
    ensures
        r@.map_values(|x: String| x@) == split_char(s@, c),
{
    let n = s.unicode_len();
    let mut out: Vec<String> = Vec::new();
    let mut start: usize = 0;
    let mut i: usize = 0;
    proof {
        assert(s@.subrange(0, n as int) =~= s@);
        assert(out@.map_values(|x: String| x@) + split_char(s@, c) =~= split_char(s@, c));
    }
    while i < n
        invariant
            n == s@.len(),
            start <= i <= n,
            forall|j: int| start <= j < i ==> s@[j] != c,
            split_char(s@, c) =~= out@.map_values(|x: String| x@) + split_char(
                s@.subrange(start as int, n as int),
                c,
            ),
        decreases n - i,
    {
        if s.get_char(i) == c {
            let piece = String::from_str(s.substring_char(start, i));
            proof {
                lemma_split_char_first(s@.subrange(start as int, n as int), c, i - start);
                assert(s@.subrange(start as int, n as int).subrange(0, i - start) =~= s@.subrange(
                    start as int,
                    i as int,
                ));
                assert(s@.subrange(start as int, n as int).subrange(
                    i - start + 1,
                    n - start,
                ) =~= s@.subrange(i + 1, n as int));
            }
            out.push(piece);
            proof {
                assert(out@.map_values(|x: String| x@) =~= out@.drop_last().map_values(
                    |x: String| x@,
                ).push(piece@));
                assert(split_char(s@, c) =~= out@.map_values(|x: String| x@) + split_char(
                    s@.subrange(i + 1, n as int),
                    c,
                ));
            }
            start = i + 1;
        }
        i = i + 1;
    }
    let piece = String::from_str(s.substring_char(start, n));
    proof {
        lemma_split_char_none(s@.subrange(start as int, n as int), c);
    }
    out.push(piece);
    proof {
        assert(out@.map_values(|x: String| x@) =~= out@.drop_last().map_values(
            |x: String| x@,
        ).push(piece@));
        assert(split_char(s@, c) =~= out@.map_values(|x: String| x@));
    }
    out
}

/// The decimal digits of `n`, most significant first, no leading zeros.
pub open spec fn dec_chars(n: int) -> Seq<char>
    decreases n,
{
    if n < 10 {
        seq![digit(n)]
    } else {
        dec_chars(n / 10) + seq![digit(n % 10)]
    }
}

/// Render `n` in decimal.
pub fn u64_to_dec(n: u64) -> (r: String)
    ensures
        r@ == dec_chars(n as int),
    decreases n,
{
    proof {
        vstd::arithmetic::div_mod::lemma_fundamental_div_mod(n as int, 10);
        vstd::arithmetic::div_mod::lemma_mod_bound(n as int, 10);
        vstd::arithmetic::div_mod::lemma_div_pos_is_pos(n as int, 10);
    }
    let d = digit_str_of(n % 10);
    if n < 10 {
        let ds = digit_str_of(n);
        return String::from_str(ds);
    }
    let mut r = u64_to_dec(n / 10);
    r.append(d);
    proof {
        assert(r@ =~= dec_chars(n as int / 10) + seq![digit(n as int % 10)]);
    }
    r
}

/// One decimal digit as a string slice.
fn digit_str_of(k: u64) -> (r: &'static str)
    requires
        k < 10,
    ensures
        r@ =~= seq![digit(k as int)],
{
    if k == 0 {
        let s = "0";
        proof {
            reveal_strlit("0");
        }
        s
    } else if k == 1 {
        let s = "1";
        proof {
            reveal_strlit("1");
        }
        s
    } else if k == 2 {
        let s = "2";
        proof {
            reveal_strlit("2");
        }
        s
    } else if k == 3 {
        let s = "3";
        proof {
            reveal_strlit("3");
        }
        s
    } else if k == 4 {
        let s = "4";
        proof {
            reveal_strlit("4");
        }
        s
    } else if k == 5 {
        let s = "5";
        proof {
            reveal_strlit("5");
        }
        s
    } else if k == 6 {
        let s = "6";
        proof {
            reveal_strlit("6");
        }
        s
    } else if k == 7 {
        let s = "7";
        proof {
            reveal_strlit("7");
        }
        s
    } else if k == 8 {
        let s = "8";
        proof {
            reveal_strlit("8");
        }
        s
    } else {
        let s = "9";
        proof {
            reveal_strlit("9");
        }
        s
    }
}

/// Decimal renderings hold digits only.
pub proof fn lemma_dec_chars_digits(n: int)
    requires
        n >= 0,
    ensures
        forall|i: int| 0 <= i < dec_chars(n).len() ==> 48 <= (#[trigger] dec_chars(n)[i]) as u32
            <= 57,
        dec_chars(n).len() >= 1,
    decreases n,
{
    if n >= 10 {
        lemma_dec_chars_digits(n / 10);
        vstd::arithmetic::div_mod::lemma_mod_bound(n, 10);
        vstd::arithmetic::div_mod::lemma_div_pos_is_pos(n, 10);
    } else {
    }
}

/// A one-digit rendering means a one-digit number.
pub proof fn lemma_dec_chars_len(n: int)
    requires
        n >= 0,
    ensures
        n < 10 <==> dec_chars(n).len() == 1,
    decreases n,
{
    if n >= 10 {
        lemma_dec_chars_len(n / 10);
        vstd::arithmetic::div_mod::lemma_div_pos_is_pos(n, 10);
    }
}

/// Two numbers with the same decimal rendering are the same.
pub proof fn lemma_dec_chars_injective(a: int, b: int)
    requires
        a >= 0,
        b >= 0,
        dec_chars(a) == dec_chars(b),
    ensures
        a == b,
    decreases a,
{
    lemma_dec_chars_len(a);
    lemma_dec_chars_len(b);
    if a < 10 && b < 10 {
        assert(dec_chars(a)[0] == digit(a));
        assert(dec_chars(b)[0] == digit(b));
    } else if a >= 10 && b >= 10 {
        vstd::arithmetic::div_mod::lemma_fundamental_div_mod(a, 10);
        vstd::arithmetic::div_mod::lemma_fundamental_div_mod(b, 10);
        vstd::arithmetic::div_mod::lemma_mod_bound(a, 10);
        vstd::arithmetic::div_mod::lemma_mod_bound(b, 10);
        vstd::arithmetic::div_mod::lemma_div_pos_is_pos(a, 10);
        assert(dec_chars(a).last() == digit(a % 10));
        assert(dec_chars(b).last() == digit(b % 10));
        assert(a % 10 == b % 10);
        assert(dec_chars(a).drop_last() =~= dec_chars(a / 10));
        assert(dec_chars(b).drop_last() =~= dec_chars(b / 10));
        lemma_dec_chars_injective(a / 10, b / 10);
    }
}

/// Whether `p` holds a whole path segment `..`: two dots delimited by the
/// string's ends or separators.
pub open spec fn has_dotdot_segment(p: Seq<char>) -> bool {
    exists|i: int|
        0 <= i && i + 2 <= p.len() && #[trigger] p.subrange(i, i + 2) == seq!['.', '.'] && (i == 0
            || p[i - 1] == '/') && (i + 2 == p.len() || p[i + 2] == '/')
}

/// Whether `p` holds a path segment that starts with `..`: two dots right
/// after the string's start or a separator. Weaker than a whole `..`
/// segment, and stable under cutting trailing separators and gluing a
/// suffix on.
pub open spec fn has_dotdot_prefixed_segment(p: Seq<char>) -> bool {
    exists|i: int|
        0 <= i && i + 2 <= p.len() && #[trigger] p.subrange(i, i + 2) == seq!['.', '.'] && (i == 0
            || p[i - 1] == '/')
}

/// How often `c` occurs in `s`.
pub open spec fn count_char(s: Seq<char>, c: char) -> int
    decreases s.len(),
{
    if s.len() == 0 {
        0
    } else {
        count_char(s.drop_first(), c) + if s[0] == c {
            1int
        } else {
            0int
        }
    }
}

} // verus!
