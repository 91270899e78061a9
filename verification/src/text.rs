//! Verified text helpers: decimal rendering of integers, character-wise
//! string comparison, ASCII case folding, and a lexicographic order on
//! strings (used to keep merged label lists in a canonical order).

use vstd::prelude::*;
use vstd::string::StrSliceExecFns;
use vstd::string::StringExecFns;

verus! {

/// The decimal digit character for `d`.
pub open spec fn spec_digit(d: int) -> char {
    if d == 0 {
        '0'
    } else if d == 1 {
        '1'
    } else if d == 2 {
        '2'
    } else if d == 3 {
        '3'
    } else if d == 4 {
        '4'
    } else if d == 5 {
        '5'
    } else if d == 6 {
        '6'
    } else if d == 7 {
        '7'
    } else if d == 8 {
        '8'
    } else {
        '9'
    }
}

/// The decimal rendering of a non-negative integer, most significant digit
/// first, without leading zeros (except for zero itself).
pub open spec fn spec_dec_nat(n: nat) -> Seq<char>
    decreases n,
{
    if n < 10 {
        seq![spec_digit(n as int)]
    } else {
        spec_dec_nat(n / 10) + seq![spec_digit((n % 10) as int)]
    }
}

/// The decimal rendering of an integer, with a leading minus sign when
/// negative.
pub open spec fn spec_dec_int(n: int) -> Seq<char> {
    if n >= 0 {
        spec_dec_nat(n as nat)
    } else {
        seq!['-'] + spec_dec_nat((-n) as nat)
    }
}

fn digit_str(d: u64) -> (r: &'static str)
    requires
        d < 10,
    ensures
        r@ == seq![spec_digit(d as int)],
{
    proof {
        reveal_strlit("0");
        reveal_strlit("1");
        reveal_strlit("2");
        reveal_strlit("3");
        reveal_strlit("4");
        reveal_strlit("5");
        reveal_strlit("6");
        reveal_strlit("7");
        reveal_strlit("8");
        reveal_strlit("9");
    }
    let r = if d == 0 {
        "0"
    } else if d == 1 {
        "1"
    } else if d == 2 {
        "2"
    } else if d == 3 {
        "3"
    } else if d == 4 {
        "4"
    } else if d == 5 {
        "5"
    } else if d == 6 {
        "6"
    } else if d == 7 {
        "7"
    } else if d == 8 {
        "8"
    } else {
        "9"
    };
    proof {
        assert(r@ =~= seq![spec_digit(d as int)]);
    }
    r
}

/// Renders `n` in decimal.
pub fn dec_u64(n: u64) -> (r: String)
    ensures
        r@ == spec_dec_nat(n as nat),
    decreases n,
{
    if n < 10 {
        digit_str(n).to_owned()
    } else {
        let mut s = dec_u64(n / 10);
        s.append(digit_str(n % 10));
        proof {
            assert(s@ =~= spec_dec_nat(n as nat));
        }
        s
    }
}

/// Renders `n` in decimal, with a minus sign when negative.
pub fn dec_i64(n: i64) -> (r: String)
    ensures
        r@ == spec_dec_int(n as int),
{
    if n >= 0 {
        dec_u64(n as u64)
    } else {
        let magnitude: i128 = -(n as i128);
        let mut s = String::from_str("-");
        s.append(dec_u64(magnitude as u64).as_str());
        proof {
            reveal_strlit("-");
            assert(s@ =~= spec_dec_int(n as int));
        }
        s
    }
}

/// Character-wise string equality.
pub fn str_eq(a: &str, b: &str) -> (r: bool)
    ensures
        r == (a@ == b@),
{
    let an = a.unicode_len();
    let bn = b.unicode_len();
    if an != bn {
        return false;
    }
    let mut i: usize = 0;
    while i < an
        invariant
            0 <= i <= an,
            an == a@.len(),
            an == b@.len(),
            forall|j: int| 0 <= j < i ==> a@[j] == b@[j],
        decreases an - i,
    {
        if a.get_char(i) != b.get_char(i) {
            return false;
        }
        i += 1;
    }
    proof {
        assert(a@ =~= b@);
    }
    true
}

/// ASCII case folding of one character: `A`..`Z` map to `a`..`z`, every
/// other character is left as it is.
pub open spec fn spec_lower_char(c: char) -> char {
    if 65 <= c as u32 && c as u32 <= 90 {
        ((c as u32 + 32) as u32) as char
    } else {
        c
    }
}

/// ASCII case folding of a string.
pub open spec fn spec_lower(s: Seq<char>) -> Seq<char> {
    s.map_values(|c: char| spec_lower_char(c))
}

/// Whether `s`, folded to ASCII lower case, equals the (lower-case) keyword
/// `k`.
pub fn eq_lower_ascii(s: &str, k: &str) -> (r: bool)
    ensures
        r == (spec_lower(s@) == k@),
{
    let sn = s.unicode_len();
    let kn = k.unicode_len();
    if sn != kn {
        proof {
            assert(spec_lower(s@).len() == s@.len());
        }
        return false;
    }
    let mut i: usize = 0;
    while i < sn
        invariant
            0 <= i <= sn,
            sn == s@.len(),
            sn == k@.len(),
            forall|j: int| 0 <= j < i ==> spec_lower_char(s@[j]) == k@[j],
        decreases sn - i,
    {
        let c = s.get_char(i);
        let cu = c as u32;
        let lu: u32 = if 65 <= cu && cu <= 90 {
            cu + 32
        } else {
            cu
        };
        let kc = k.get_char(i);
        if lu != kc as u32 {
            proof {
                broadcast use vstd::utf8::char_u32_cast;

                assert(spec_lower_char(s@[i as int]) != k@[i as int]);
                assert(spec_lower(s@).len() == s@.len());
                assert(spec_lower(s@)[i as int] == spec_lower_char(s@[i as int]));
            }
            return false;
        }
        proof {
            broadcast use vstd::utf8::char_u32_cast;

            assert(spec_lower_char(s@[i as int]) == k@[i as int]);
        }
        i += 1;
    }
    proof {
        assert(spec_lower(s@) =~= k@);
    }
    true
}

/// The parts joined with the separator between consecutive parts.
pub open spec fn spec_join(parts: Seq<Seq<char>>, sep: char) -> Seq<char>
    decreases parts.len(),
{
    if parts.len() == 0 {
        Seq::empty()
    } else if parts.len() == 1 {
        parts[0]
    } else {
        spec_join(parts.drop_last(), sep) + seq![sep] + parts.last()
    }
}

/// Joining after appending one part appends a separator and the part.
pub proof fn lemma_join_push(parts: Seq<Seq<char>>, x: Seq<char>, sep: char)
    ensures
        parts.len() == 0 ==> spec_join(parts.push(x), sep) == x,
        parts.len() >= 1 ==> spec_join(parts.push(x), sep) == spec_join(parts, sep) + seq![sep]
            + x,
{
    let whole = parts.push(x);
    assert(whole.drop_last() =~= parts);
    assert(whole.last() == x);
    if parts.len() == 0 {
        assert(spec_join(whole, sep) == whole[0]);
        assert(whole[0] == x);
    }
}

/// Strict lexicographic order on character sequences, by code point.
pub open spec fn lex_lt(a: Seq<char>, b: Seq<char>) -> bool
    decreases a.len(),
{
    if b.len() == 0 {
        false
    } else if a.len() == 0 {
        true
    } else if a[0] != b[0] {
        (a[0] as u32) < (b[0] as u32)
    } else {
        lex_lt(a.skip(1), b.skip(1))
    }
}

pub open spec fn lex_le(a: Seq<char>, b: Seq<char>) -> bool {
    lex_lt(a, b) || a == b
}

proof fn lemma_lex_lt_step(a: Seq<char>, b: Seq<char>)
    requires
        a.len() >= 1,
        b.len() >= 1,
        a[0] == b[0],
    ensures
        lex_lt(a, b) == lex_lt(a.skip(1), b.skip(1)),
{
}

/// Two strings always compare one way or the other.
pub proof fn lemma_lex_total(a: Seq<char>, b: Seq<char>)
    ensures
        lex_le(a, b) || lex_le(b, a),
    decreases a.len(),
{
    broadcast use vstd::utf8::char_u32_cast;

    if a.len() == 0 && b.len() == 0 {
        assert(a =~= b);
    }
    if a.len() > 0 && b.len() > 0 && a[0] != b[0] {
        vstd::utf8::char_u32_cast(a[0], a[0] as u32);
        vstd::utf8::char_u32_cast(b[0], b[0] as u32);
        assert(a[0] as u32 != b[0] as u32);
    }
    if a.len() > 0 && b.len() > 0 && a[0] == b[0] {
        lemma_lex_total(a.skip(1), b.skip(1));
        if a.skip(1) == b.skip(1) {
            assert(a.len() == 1 + a.skip(1).len());
            assert(b.len() == 1 + b.skip(1).len());
            assert(a =~= a.take(1) + a.skip(1));
            assert(b =~= b.take(1) + b.skip(1));
            assert(a.take(1) =~= b.take(1));
            assert(a =~= b);
        }
    }
}

/// Strict lexicographic order excludes equality.
pub proof fn lemma_lex_lt_irrefl(a: Seq<char>, b: Seq<char>)
    requires
        lex_lt(a, b),
    ensures
        a != b,
    decreases a.len(),
{
    if b.len() == 0 {
    } else if a.len() == 0 {
    } else if a[0] != b[0] {
    } else {
        lemma_lex_lt_irrefl(a.skip(1), b.skip(1));
        if a == b {
            assert(a.skip(1) =~= b.skip(1));
        }
    }
}

/// Lexicographic order is transitive.
pub proof fn lemma_lex_lt_trans(a: Seq<char>, b: Seq<char>, c: Seq<char>)
    requires
        lex_lt(a, b),
        lex_lt(b, c),
    ensures
        lex_lt(a, c),
    decreases a.len(),
{
    if c.len() == 0 {
    } else if b.len() == 0 {
    } else if a.len() == 0 {
    } else {
        if a[0] == b[0] && b[0] == c[0] {
            lemma_lex_lt_trans(a.skip(1), b.skip(1), c.skip(1));
        }
    }
}

/// Whether `s`, compared as a string, is strictly below `t`: the executable
/// form of `lex_lt`.
pub fn str_lt(a: &str, b: &str) -> (r: bool)
    ensures
        r == lex_lt(a@, b@),
{
    let an = a.unicode_len();
    let bn = b.unicode_len();
    let n = if an < bn {
        an
    } else {
        bn
    };
    let mut i: usize = 0;
    proof {
        assert(a@.skip(0) =~= a@);
        assert(b@.skip(0) =~= b@);
    }
    while i < n
        invariant
            0 <= i <= n,
            an == a@.len(),
            bn == b@.len(),
            n == if an < bn {
                an as int
            } else {
                bn as int
            },
            lex_lt(a@, b@) == lex_lt(a@.skip(i as int), b@.skip(i as int)),
        decreases n - i,
    {
        let ca = a.get_char(i);
        let cb = b.get_char(i);
        if ca as u32 != cb as u32 {
            proof {
                broadcast use vstd::utf8::char_u32_cast;

                assert(a@.skip(i as int)[0] == a@[i as int]);
                assert(b@.skip(i as int)[0] == b@[i as int]);
            }
            return (ca as u32) < (cb as u32);
        }
        proof {
            broadcast use vstd::utf8::char_u32_cast;

            let sa = a@.skip(i as int);
            let sb = b@.skip(i as int);
            assert(sa[0] == a@[i as int]);
            assert(sb[0] == b@[i as int]);
            lemma_lex_lt_step(sa, sb);
            assert(sa.skip(1) =~= a@.skip(i as int + 1));
            assert(sb.skip(1) =~= b@.skip(i as int + 1));
        }
        i += 1;
    }
    proof {
        if an < bn {
            assert(a@.skip(i as int).len() == 0);
            assert(b@.skip(i as int).len() > 0);
        } else if an > bn {
            assert(b@.skip(i as int).len() == 0);
        } else {
            assert(a@.skip(i as int).len() == 0);
            assert(b@.skip(i as int).len() == 0);
        }
    }
    an < bn
}

} // verus!
