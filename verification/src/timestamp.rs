use vstd::prelude::*;
use vstd::string::StrSliceExecFns;

verus! {

/// All timestamps of the service use the fixed-width format
/// `YYYY-MM-DDTHH:MM:SS.sssZ`, chosen so that lexical ordering of the
/// strings coincides with chronological ordering. This module defines what
/// a valid timestamp is and the lexical order used everywhere.

pub open spec fn is_digit(c: char) -> bool {
    48 <= c as int && c as int <= 57
}

pub open spec fn digit_val(c: char) -> int {
    c as int - 48
}

/// The two-digit decimal number written at positions `i` and `i + 1`.
pub open spec fn two_digits(s: Seq<char>, i: int) -> int {
    10 * digit_val(s[i]) + digit_val(s[i + 1])
}

/// The positions of the seven non-digit characters of the format.
pub open spec fn sep_position(i: int) -> bool {
    i == 4 || i == 7 || i == 10 || i == 13 || i == 16 || i == 19 || i == 23
}

/// The shape of the fixed-width format: 24 characters, separators where the
/// format puts them, decimal digits everywhere else.
pub open spec fn timestamp_shape(s: Seq<char>) -> bool {
    &&& s.len() == 24
    &&& (forall|i: int| 0 <= i < 24 && !sep_position(i) ==> is_digit(#[trigger] s[i]))
    &&& s[4] == '-'
    &&& s[7] == '-'
    &&& s[10] == 'T'
    &&& s[13] == ':'
    &&& s[16] == ':'
    &&& s[19] == '.'
    &&& s[23] == 'Z'
}

/// A valid timestamp has the right shape and its month, day, hour, minute
/// and second fields lie in their calendar ranges.
pub open spec fn valid_timestamp(s: Seq<char>) -> bool {
    &&& timestamp_shape(s)
    &&& 1 <= two_digits(s, 5) <= 12
    &&& 1 <= two_digits(s, 8) <= 31
    &&& two_digits(s, 11) <= 23
    &&& two_digits(s, 14) <= 59
    &&& two_digits(s, 17) <= 59
}

/// Lexical order on character sequences, by code point; the empty sequence
/// precedes every other. On valid timestamps this is chronological order.
pub open spec fn lex_le(a: Seq<char>, b: Seq<char>) -> bool
    decreases a.len(),
{
    if a.len() == 0 {
        true
    } else if b.len() == 0 {
        false
    } else if (a[0] as int) < (b[0] as int) {
        true
    } else if (a[0] as int) > (b[0] as int) {
        false
    } else {
        lex_le(a.drop_first(), b.drop_first())
    }
}

/// Strict lexical order.
pub open spec fn lex_lt(a: Seq<char>, b: Seq<char>) -> bool {
    !lex_le(b, a)
}

/// LAW: the lexical order is reflexive.
pub proof fn lemma_lex_le_refl(a: Seq<char>)
    ensures
        lex_le(a, a),
    decreases a.len(),
{
    if a.len() > 0 {
        lemma_lex_le_refl(a.drop_first());
    }
}

/// LAW: the lexical order is total.
pub proof fn lemma_lex_le_total(a: Seq<char>, b: Seq<char>)
    ensures
        lex_le(a, b) || lex_le(b, a),
    decreases a.len(),
{
    if a.len() > 0 && b.len() > 0 && a[0] as int == b[0] as int {
        lemma_lex_le_total(a.drop_first(), b.drop_first());
    }
}

/// LAW: the lexical order is transitive.
pub proof fn lemma_lex_le_trans(a: Seq<char>, b: Seq<char>, c: Seq<char>)
    requires
        lex_le(a, b),
        lex_le(b, c),
    ensures
        lex_le(a, c),
    decreases a.len(),
{
    if a.len() > 0 && b.len() > 0 && c.len() > 0 {
        if a[0] as int == b[0] as int && b[0] as int == c[0] as int {
            lemma_lex_le_trans(a.drop_first(), b.drop_first(), c.drop_first());
        }
    }
}

fn digit_at(s: &str, i: usize) -> (b: bool)
    requires
        i < s@.len(),
    ensures
        b == is_digit(s@[i as int]),
{
    let c = s.get_char(i);
    let v = c as u32;
    48 <= v && v <= 57
}

fn two_digit_at(s: &str, i: usize) -> (v: u32)
    requires
        i + 1 < s@.len(),
        i + 1 < usize::MAX,
        is_digit(s@[i as int]),
        is_digit(s@[i as int + 1]),
    ensures
        v == two_digits(s@, i as int),
{
    let c1 = s.get_char(i) as u32;
    let c2 = s.get_char(i + 1) as u32;
    10 * (c1 - 48) + (c2 - 48)
}

/// Decide whether `s` is a valid fixed-width timestamp.
pub fn is_valid_timestamp(s: &str) -> (b: bool)
    ensures
        b == valid_timestamp(s@),
{
    let n = s.unicode_len();
    if n != 24 {
        return false;
    }
    if s.get_char(4) != '-' || s.get_char(7) != '-' || s.get_char(10) != 'T'
        || s.get_char(13) != ':' || s.get_char(16) != ':' || s.get_char(19) != '.'
        || s.get_char(23) != 'Z' {
        return false;
    }
    let mut i: usize = 0;
    while i < 24
        invariant
            i <= 24,
            s@.len() == 24,
            forall|j: int| 0 <= j < i && !sep_position(j) ==> is_digit(#[trigger] s@[j]),
        decreases 24 - i,
    {
        if i != 4 && i != 7 && i != 10 && i != 13 && i != 16 && i != 19 && i != 23 {
            if !digit_at(s, i) {
                return false;
            }
        }
        i = i + 1;
    }
    let month = two_digit_at(s, 5);
    let day = two_digit_at(s, 8);
    let hour = two_digit_at(s, 11);
    let minute = two_digit_at(s, 14);
    let second = two_digit_at(s, 17);
    1 <= month && month <= 12 && 1 <= day && day <= 31 && hour <= 23 && minute <= 59
        && second <= 59
}

/// Decide the lexical order `a <= b` on strings.
pub fn str_le(a: &str, b: &str) -> (r: bool)
    ensures
        r == lex_le(a@, b@),
{
    let la = a.unicode_len();
    let lb = b.unicode_len();
    let mut i: usize = 0;
    proof {
        assert(a@.skip(0) =~= a@);
        assert(b@.skip(0) =~= b@);
    }
    loop
        invariant
            i <= la,
            i <= lb,
            la == a@.len(),
            lb == b@.len(),
            lex_le(a@, b@) == lex_le(a@.skip(i as int), b@.skip(i as int)),
        decreases la - i,
    {
        if i >= la {
            return true;
        }
        if i >= lb {
            return false;
        }
        let ca = a.get_char(i) as u32;
        let cb = b.get_char(i) as u32;
        if ca < cb {
            return true;
        }
        if ca > cb {
            return false;
        }
        proof {
            assert(a@.skip(i as int).drop_first() =~= a@.skip(i as int + 1));
            assert(b@.skip(i as int).drop_first() =~= b@.skip(i as int + 1));
        }
        i = i + 1;
    }
}

/// Decide whether two strings hold the same characters.
pub fn str_eq(a: &str, b: &str) -> (r: bool)
    ensures
        r == (a@ == b@),
{
    let la = a.unicode_len();
    let lb = b.unicode_len();
    if la != lb {
        return false;
    }
    let mut i: usize = 0;
    while i < la
        invariant
            i <= la,
            la == a@.len(),
            la == b@.len(),
            forall|j: int| 0 <= j < i ==> a@[j] == b@[j],
        decreases la - i,
    {
        if a.get_char(i) != b.get_char(i) {
            return false;
        }
        i = i + 1;
    }
    proof {
        assert(a@ =~= b@);
    }
    true
}

/// Decide the strict lexical order `a < b` on strings.
pub fn str_lt(a: &str, b: &str) -> (r: bool)
    ensures
        r == lex_lt(a@, b@),
{
    !str_le(b, a)
}

} // verus!
