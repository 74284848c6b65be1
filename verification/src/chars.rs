//! Character and string helpers shared by the markup parser and the
//! font resolver: input normalization, ASCII case folding, decimal
//! parsing and substring search, each against an exact specification.

use vstd::prelude::*;

verus! {

/// The explicit break marker that a literal line feed is rewritten to.
pub open spec fn break_tag() -> Seq<char> {
    seq!['<', 'b', 'r', '>']
}

/// How one character of raw input is rewritten: carriage returns are
/// dropped, line feeds become an explicit break marker, everything
/// else is kept.
pub open spec fn norm_char(c: char) -> Seq<char> {
    if c == '\r' {
        Seq::<char>::empty()
    } else if c == '\n' {
        break_tag()
    } else {
        seq![c]
    }
}

/// The normalized form of raw markup input.
pub open spec fn spec_normalize(s: Seq<char>) -> Seq<char>
    decreases s.len(),
{
    if s.len() == 0 {
        Seq::<char>::empty()
    } else {
        spec_normalize(s.drop_last()) + norm_char(s.last())
    }
}

/// Normalization maps each input character independently, so it
/// distributes over concatenation.  In particular a literal line feed
/// between two fragments normalizes to the same string as an explicit
/// break marker written between them.
pub proof fn lemma_normalize_concat(a: Seq<char>, b: Seq<char>)
    ensures
        spec_normalize(a + b) == spec_normalize(a) + spec_normalize(b),
    decreases b.len(),
{
    if b.len() == 0 {
        assert(a + b =~= a);
        assert(spec_normalize(a) + spec_normalize(b) =~= spec_normalize(a));
    } else {
        lemma_normalize_concat(a, b.drop_last());
        assert((a + b).drop_last() =~= a + b.drop_last());
        assert((a + b).last() == b.last());
        assert(spec_normalize(a) + spec_normalize(b) =~= spec_normalize(a) + (spec_normalize(
            b.drop_last(),
        ) + norm_char(b.last())));
    }
}

/// A literal line feed in raw input behaves identically to an explicit
/// break marker: wherever the two stand between the same fragments, the
/// normalized input is the same string, so everything downstream of
/// normalization treats them alike.
pub proof fn lemma_newline_equals_break_marker(a: Seq<char>, b: Seq<char>)
    ensures
        spec_normalize(a + seq!['\n'] + b) == spec_normalize(a + break_tag() + b),
{
    lemma_normalize_concat(a + seq!['\n'], b);
    lemma_normalize_concat(a, seq!['\n']);
    lemma_normalize_concat(a + break_tag(), b);
    lemma_normalize_concat(a, break_tag());
    assert(spec_normalize(seq!['\n']) =~= break_tag()) by {
        assert(seq!['\n'].drop_last() =~= Seq::<char>::empty());
        assert(spec_normalize(Seq::<char>::empty()) + norm_char('\n') =~= break_tag());
    }
    assert(spec_normalize(break_tag()) =~= break_tag()) by {
        reveal_with_fuel(spec_normalize, 6);
        let s3 = seq!['<', 'b', 'r'];
        let s2 = seq!['<', 'b'];
        let s1 = seq!['<'];
        assert(break_tag().drop_last() =~= s3);
        assert(s3.drop_last() =~= s2);
        assert(s2.drop_last() =~= s1);
        assert(s1.drop_last() =~= Seq::<char>::empty());
        assert(spec_normalize(s1) =~= s1);
        assert(spec_normalize(s2) =~= s2);
        assert(spec_normalize(s3) =~= s3);
    }
}

/// Relies on String::push: appends one character at the end.
#[verifier::external_body]
pub fn push_char(s: &mut String, c: char)
    ensures
        final(s)@ == old(s)@.push(c),
{
    s.push(c);
}

/// Rewrites raw input so that a literal line feed behaves exactly like
/// an explicit break marker: carriage returns are stripped and each
/// line feed becomes the marker text.
pub fn normalize_input(s: &str) -> (r: String)
    ensures
        r@ == spec_normalize(s@),
{
    let n = s.unicode_len();
    let mut out = String::new();
    let mut i: usize = 0;
    while i < n
        invariant
            i <= n,
            n == s@.len(),
            out@ == spec_normalize(s@.take(i as int)),
        decreases n - i,
    {
        let c = s.get_char(i);
        if c == '\r' {
        } else if c == '\n' {
            out.append("<br>");
            proof {
                reveal_strlit("<br>");
                assert("<br>"@ =~= break_tag());
            }
        } else {
            push_char(&mut out, c);
        }
        proof {
            assert(s@.take(i + 1 as int).drop_last() =~= s@.take(i as int));
            assert(s@.take(i + 1 as int).last() == s@[i as int]);
            assert(out@ =~= spec_normalize(s@.take(i as int)) + norm_char(s@[i as int]));
        }
        i += 1;
    }
    proof {
        assert(s@.take(n as int) =~= s@);
    }
    out
}

/// ASCII case folding of one character: 'A' through 'Z' map to their
/// lower-case forms, everything else is unchanged.
pub open spec fn lower_char(c: char) -> char {
    if 'A' <= c && c <= 'Z' {
        ((c as int) + 32) as char
    } else {
        c
    }
}

/// ASCII case folding of a string.
pub open spec fn lower(s: Seq<char>) -> Seq<char> {
    s.map_values(|c: char| lower_char(c))
}

/// Relies on char::to_ascii_lowercase: 'A' through 'Z' map to their
/// lower-case forms, every other character is returned unchanged.
#[verifier::external_body]
pub fn to_lower_char(c: char) -> (r: char)
    ensures
        r == lower_char(c),
{
    c.to_ascii_lowercase()
}

/// ASCII case folding of a whole string.
pub fn to_lowercase(s: &str) -> (r: String)
    ensures
        r@ == lower(s@),
{
    let n = s.unicode_len();
    let mut out = String::new();
    let mut i: usize = 0;
    while i < n
        invariant
            i <= n,
            n == s@.len(),
            out@ == lower(s@.take(i as int)),
        decreases n - i,
    {
        let c = s.get_char(i);
        let lc = to_lower_char(c);
        push_char(&mut out, lc);
        proof {
            assert(out@ =~= lower(s@.take(i + 1 as int)));
        }
        i += 1;
    }
    proof {
        assert(s@.take(n as int) =~= s@);
    }
    out
}

/// Character-wise string equality.
pub fn str_eq(s: &str, t: &str) -> (r: bool)
    ensures
        r == (s@ == t@),
{
    let n = s.unicode_len();
    let m = t.unicode_len();
    if n != m {
        return false;
    }
    let mut i: usize = 0;
    while i < n
        invariant
            i <= n,
            n == s@.len(),
            n == t@.len(),
            forall|j: int| 0 <= j < i ==> s@[j] == t@[j],
        decreases n - i,
    {
        if s.get_char(i) != t.get_char(i) {
            return false;
        }
        i += 1;
    }
    proof {
        assert(s@ =~= t@);
    }
    true
}

/// Whether `p` occurs as a contiguous subsequence of `s`.
pub open spec fn contains_seq(s: Seq<char>, p: Seq<char>) -> bool {
    exists|i: int| 0 <= i && i + p.len() <= s.len() && #[trigger] s.subrange(i, i + p.len()) == p
}

/// Substring search against `contains_seq`.
pub fn contains_sub(s: &str, p: &str) -> (r: bool)
    ensures
        r == contains_seq(s@, p@),
{
    let n = s.unicode_len();
    let m = p.unicode_len();
    if m > n {
        return false;
    }
    let mut i: usize = 0;
    while i <= n - m
        invariant
            m <= n,
            n == s@.len(),
            m == p@.len(),
            i <= n - m + 1,
            forall|k: int| 0 <= k < i ==> #[trigger] s@.subrange(k, k + p@.len()) != p@,
        decreases n - i,
    {
        let mut j: usize = 0;
        let mut matched = true;
        while j < m
            invariant
                m <= n,
                n == s@.len(),
                m == p@.len(),
                i + m <= n,
                j <= m,
                matched ==> forall|k: int| 0 <= k < j ==> s@[i + k] == p@[k],
                !matched ==> s@.subrange(i as int, i + p@.len()) != p@,
            decreases m - j,
        {
            if s.get_char(i + j) != p.get_char(j) {
                proof {
                    assert(s@.subrange(i as int, i + p@.len())[j as int] == s@[i + j]);
                }
                matched = false;
                j = m;
            } else {
                j += 1;
            }
        }
        if matched {
            proof {
                assert(s@.subrange(i as int, i + p@.len()) =~= p@);
            }
            return true;
        }
        proof {
            if m == 0 {
                assert(s@.subrange(i as int, i + p@.len()) =~= p@);
            }
        }
        i += 1;
    }
    false
}

/// Whether `c` is a decimal digit.
pub open spec fn is_digit(c: char) -> bool {
    '0' <= c && c <= '9'
}

pub open spec fn all_digits(s: Seq<char>) -> bool {
    forall|i: int| 0 <= i < s.len() ==> is_digit(s[i])
}

/// The numeric value of a digit string.
pub open spec fn digits_val(s: Seq<char>) -> int
    decreases s.len(),
{
    if s.len() == 0 {
        0
    } else {
        digits_val(s.drop_last()) * 10 + (s.last() as int - '0' as int)
    }
}

pub proof fn lemma_digits_val_nonneg(s: Seq<char>)
    requires
        all_digits(s),
    ensures
        digits_val(s) >= 0,
    decreases s.len(),
{
    if s.len() > 0 {
        assert(all_digits(s.drop_last()));
        lemma_digits_val_nonneg(s.drop_last());
    }
}

/// A longer digit string never denotes a smaller value.
pub proof fn lemma_digits_val_prefix_le(s: Seq<char>, k: int)
    requires
        all_digits(s),
        0 <= k <= s.len(),
    ensures
        digits_val(s.take(k)) <= digits_val(s),
    decreases s.len() - k,
{
    if k == s.len() {
        assert(s.take(k) =~= s);
    } else {
        lemma_digits_val_prefix_le(s, k + 1);
        assert(s.take(k + 1).drop_last() =~= s.take(k));
        assert(all_digits(s.take(k)));
        lemma_digits_val_nonneg(s.take(k));
        assert(digits_val(s.take(k + 1)) == digits_val(s.take(k)) * 10 + (s[k] as int
            - '0' as int));
    }
}

/// The index of the first decimal point, if any.
pub open spec fn first_dot(s: Seq<char>) -> Option<int>
    decreases s.len(),
{
    if s.len() == 0 {
        None
    } else if s[0] == '.' {
        Some(0)
    } else {
        match first_dot(s.drop_first()) {
            Some(i) => Some(i + 1),
            None => None,
        }
    }
}

proof fn lemma_first_dot_at(s: Seq<char>, i: int)
    requires
        0 <= i < s.len(),
        s[i] == '.',
        forall|j: int| 0 <= j < i ==> s[j] != '.',
    ensures
        first_dot(s) == Some(i),
    decreases i,
{
    if i > 0 {
        assert(forall|j: int| 0 <= j < i - 1 ==> s.drop_first()[j] == s[j + 1]);
        assert(s.drop_first()[i - 1] == s[i]);
        lemma_first_dot_at(s.drop_first(), i - 1);
    }
}

proof fn lemma_first_dot_none(s: Seq<char>)
    requires
        forall|j: int| 0 <= j < s.len() ==> s[j] != '.',
    ensures
        first_dot(s) is None,
    decreases s.len(),
{
    if s.len() > 0 {
        assert(forall|j: int|
            0 <= j < s.drop_first().len() ==> s.drop_first()[j] == s[j + 1] && #[trigger] s
                .drop_first()[j] == s[j + 1]);
        lemma_first_dot_none(s.drop_first());
    }
}

/// The i-th fraction digit's value; zero where the fraction is shorter.
pub open spec fn frac_digit(b: Seq<char>, i: int) -> int {
    if 0 <= i < b.len() {
        b[i] as int - '0' as int
    } else {
        0
    }
}

/// The first three fraction digits, as thousandths.
pub open spec fn frac_millis(b: Seq<char>) -> int {
    100 * frac_digit(b, 0) + 10 * frac_digit(b, 1) + frac_digit(b, 2)
}

/// What a decimal size string denotes, in thousandths: an unsigned
/// decimal number, with an optional fraction part after one decimal
/// point and at least one digit in all, resolved to thousandths (a
/// fraction beyond the third digit is cut), where the value fits;
/// nothing otherwise.
pub open spec fn spec_parse_size(s: Seq<char>) -> Option<u32> {
    match first_dot(s) {
        None => if s.len() > 0 && all_digits(s) && digits_val(s) * 1000 <= u32::MAX {
            Some((digits_val(s) * 1000) as u32)
        } else {
            None
        },
        Some(i) => {
            let a = s.take(i);
            let b = s.skip(i + 1);
            if a.len() + b.len() > 0 && all_digits(a) && all_digits(b) && digits_val(a) * 1000
                + frac_millis(b) <= u32::MAX {
                Some((digits_val(a) * 1000 + frac_millis(b)) as u32)
            } else {
                None
            }
        },
    }
}

/// Parses `s[lo..hi)` as a digit string whose value is at most `bound`.
fn parse_digit_range(s: &str, lo: usize, hi: usize, bound: u64) -> (r: Option<u64>)
    requires
        lo <= hi <= s@.len(),
        bound <= 0x1000_0000_0000_0000,
    ensures
        ({
            let part = s@.subrange(lo as int, hi as int);
            match r {
                Some(v) => all_digits(part) && v == digits_val(part) && v <= bound,
                None => !(all_digits(part) && digits_val(part) <= bound),
            }
        }),
{
    let ghost part = s@.subrange(lo as int, hi as int);
    let mut acc: u64 = 0;
    let mut i: usize = lo;
    proof {
        assert(s@.subrange(lo as int, lo as int) =~= Seq::<char>::empty());
    }
    while i < hi
        invariant
            lo <= i <= hi <= s@.len(),
            part == s@.subrange(lo as int, hi as int),
            bound <= 0x1000_0000_0000_0000,
            all_digits(s@.subrange(lo as int, i as int)),
            acc == digits_val(s@.subrange(lo as int, i as int)),
            acc <= bound,
        decreases hi - i,
    {
        let c = s.get_char(i);
        let v = c as u32;
        proof {
            assert(part[i - lo] == s@[i as int]);
        }
        if v < 48 || v > 57 {
            proof {
                assert(!is_digit(part[i - lo]));
            }
            return None;
        }
        let d = (v - 48) as u64;
        let acc2 = acc * 10 + d;
        proof {
            assert(s@.subrange(lo as int, i + 1 as int).drop_last() =~= s@.subrange(
                lo as int,
                i as int,
            ));
            assert(s@.subrange(lo as int, i + 1 as int).last() == s@[i as int]);
        }
        if acc2 > bound {
            proof {
                if all_digits(part) && digits_val(part) <= bound {
                    lemma_digits_val_prefix_le(part, i + 1 - lo);
                    assert(part.take(i + 1 - lo) =~= s@.subrange(lo as int, i + 1 as int));
                }
            }
            return None;
        }
        acc = acc2;
        i += 1;
    }
    proof {
        assert(s@.subrange(lo as int, hi as int) =~= part);
    }
    Some(acc)
}

/// The largest whole part a size in thousandths can carry.
const SIZE_WHOLE_MAX: u64 = 4294967;

/// Decimal parsing of a font size into thousandths.
pub fn parse_size(s: &str) -> (r: Option<u32>)
    ensures
        r == spec_parse_size(s@),
{
    let n = s.unicode_len();
    let mut dot_idx: usize = n;
    let mut i: usize = 0;
    while i < n
        invariant
            i <= n,
            n == s@.len(),
            dot_idx == n || (dot_idx < i && s@[dot_idx as int] == '.'),
            dot_idx == n ==> forall|j: int| 0 <= j < i ==> s@[j] != '.',
            dot_idx < n ==> forall|j: int| 0 <= j < dot_idx ==> s@[j] != '.',
        decreases n - i,
    {
        if dot_idx == n && s.get_char(i) == '.' {
            dot_idx = i;
        }
        i += 1;
    }
    if dot_idx == n {
        proof {
            lemma_first_dot_none(s@);
        }
        if n == 0 {
            return None;
        }
        match parse_digit_range(s, 0, n, SIZE_WHOLE_MAX) {
            Some(v) => {
                proof {
                    assert(s@.subrange(0, n as int) =~= s@);
                }
                Some((v * 1000) as u32)
            },
            None => {
                proof {
                    assert(s@.subrange(0, n as int) =~= s@);
                }
                None
            },
        }
    } else {
        proof {
            lemma_first_dot_at(s@, dot_idx as int);
        }
        let ghost a = s@.take(dot_idx as int);
        let ghost b = s@.skip(dot_idx + 1 as int);
        if dot_idx == 0 && dot_idx + 1 == n {
            return None;
        }
        let va = match parse_digit_range(s, 0, dot_idx, SIZE_WHOLE_MAX) {
            Some(v) => v,
            None => {
                proof {
                    assert(s@.subrange(0, dot_idx as int) =~= a);
                    if all_digits(a) && all_digits(b) {
                        assert(digits_val(a) > SIZE_WHOLE_MAX);
                        assert(frac_digit(b, 0) >= 0 && frac_digit(b, 1) >= 0 && frac_digit(b, 2)
                            >= 0);
                        assert(frac_millis(b) >= 0);
                        assert(digits_val(a) * 1000 + frac_millis(b) > u32::MAX);
                    }
                }
                return None;
            },
        };
        proof {
            assert(s@.subrange(0, dot_idx as int) =~= a);
        }
        let mut j: usize = dot_idx + 1;
        while j < n
            invariant
                dot_idx + 1 <= j <= n,
                n == s@.len(),
                dot_idx < n,
                first_dot(s@) == Some(dot_idx as int),
                a == s@.take(dot_idx as int),
                b == s@.skip(dot_idx + 1 as int),
                all_digits(a),
                va == digits_val(a),
                va <= SIZE_WHOLE_MAX,
                !(dot_idx == 0 && dot_idx + 1 == n),
                forall|k: int| 0 <= k < j - dot_idx - 1 ==> is_digit(#[trigger] b[k]),
            decreases n - j,
        {
            let c = s.get_char(j);
            let v = c as u32;
            proof {
                assert(b[j - dot_idx - 1] == s@[j as int]);
            }
            if v < 48 || v > 57 {
                proof {
                    assert(!is_digit(b[j - dot_idx - 1]));
                }
                return None;
            }
            j += 1;
        }
        proof {
            assert(all_digits(b));
        }
        let mut f: u64 = 0;
        if dot_idx + 1 < n {
            proof {
                assert(b[0] == s@[dot_idx + 1 as int]);
                assert(is_digit(b[0]));
            }
            f = f + ((s.get_char(dot_idx + 1) as u32 - 48) as u64) * 100;
        }
        if n - dot_idx > 2 {
            proof {
                assert(b[1] == s@[dot_idx + 2 as int]);
                assert(is_digit(b[1]));
            }
            f = f + ((s.get_char(dot_idx + 2) as u32 - 48) as u64) * 10;
        }
        if n - dot_idx > 3 {
            proof {
                assert(b[2] == s@[dot_idx + 3 as int]);
                assert(is_digit(b[2]));
            }
            f = f + (s.get_char(dot_idx + 3) as u32 - 48) as u64;
        }
        proof {
            assert(f == frac_millis(b));
        }
        let total = va * 1000 + f;
        if total > 0xFFFF_FFFF {
            return None;
        }
        Some(total as u32)
    }
}

} // verus!
