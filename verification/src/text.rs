//! Verified text utilities shared by the planner and the ingestion passes:
//! character-sequence comparison, decimal formatting and parsing, whitespace
//! tokenization, and sorting of string lists.

use vstd::prelude::*;

use itertools::Itertools;

verus! {

/// Equality of two string slices, usable where only `&str` is at hand.
pub fn str_eq(a: &str, b: &str) -> (r: bool)
    ensures
        r == (a@ == b@),
{
    let la = a.unicode_len();
    let lb = b.unicode_len();
    if la != lb {
        assert(a@ != b@) by {
            assert(a@.len() != b@.len());
        }
        return false;
    }
    let mut i: usize = 0;
    while i < la
        invariant
            i <= la,
            la == a@.len(),
            la == b@.len(),
            forall|j: int| 0 <= j < i ==> a@[j] == b@[j],
        decreases la - i,
    {
        if a.get_char(i) != b.get_char(i) {
            return false;
        }
        i += 1;
    }
    proof {
        assert(a@ =~= b@);
    }
    true
}

/// Whether `p` is a prefix of `s`.
pub open spec fn spec_has_prefix(s: Seq<char>, p: Seq<char>) -> bool {
    p.len() <= s.len() && s.subrange(0, p.len() as int) == p
}

pub fn str_has_prefix(s: &str, p: &str) -> (r: bool)
    ensures
        r == spec_has_prefix(s@, p@),
{
    let ls = s.unicode_len();
    let lp = p.unicode_len();
    if lp > ls {
        return false;
    }
    let mut i: usize = 0;
    while i < lp
        invariant
            i <= lp,
            lp <= ls,
            ls == s@.len(),
            lp == p@.len(),
            forall|j: int| 0 <= j < i ==> s@[j] == p@[j],
        decreases lp - i,
    {
        if s.get_char(i) != p.get_char(i) {
            assert(s@.subrange(0, p@.len() as int)[i as int] != p@[i as int]);
            return false;
        }
        i += 1;
    }
    proof {
        assert(s@.subrange(0, p@.len() as int) =~= p@);
    }
    true
}

/// Lexicographic order on character sequences, by code point.
#[verifier::opaque]
pub open spec fn lex_le(a: Seq<char>, b: Seq<char>) -> bool
    decreases a.len(),
{
    if a.len() == 0 {
        true
    } else if b.len() == 0 {
        false
    } else if a[0] == b[0] {
        lex_le(a.skip(1), b.skip(1))
    } else {
        (a[0] as int) < (b[0] as int)
    }
}

/// The order agrees on a shared prefix: comparing two sequences equals
/// comparing what follows the prefix.
pub proof fn lemma_lex_le_skip(a: Seq<char>, b: Seq<char>, i: int)
    requires
        0 <= i <= a.len(),
        i <= b.len(),
        forall|j: int| 0 <= j < i ==> a[j] == b[j],
    ensures
        lex_le(a, b) == lex_le(a.skip(i), b.skip(i)),
    decreases i,
{
    reveal(lex_le);
    if i > 0 {
        assert(a[0] == b[0]);
        assert(lex_le(a, b) == lex_le(a.skip(1), b.skip(1)));
        assert(forall|j: int|
            0 <= j < i - 1 ==> a.skip(1)[j] == a[j + 1] && b.skip(1)[j] == b[j + 1] && a.skip(
                1,
            )[j] == b.skip(1)[j]);
        lemma_lex_le_skip(a.skip(1), b.skip(1), i - 1);
        assert(a.skip(1).skip(i - 1) =~= a.skip(i));
        assert(b.skip(1).skip(i - 1) =~= b.skip(i));
    } else {
        assert(a.skip(0) =~= a);
        assert(b.skip(0) =~= b);
    }
}

/// The order is total.
pub proof fn lemma_lex_le_total(a: Seq<char>, b: Seq<char>)
    ensures
        lex_le(a, b) || lex_le(b, a),
    decreases a.len(),
{
    reveal(lex_le);
    if a.len() > 0 && b.len() > 0 {
        if a[0] == b[0] {
            lemma_lex_le_total(a.skip(1), b.skip(1));
        }
    }
}

/// The order is transitive.
pub proof fn lemma_lex_le_trans(a: Seq<char>, b: Seq<char>, c: Seq<char>)
    requires
        lex_le(a, b),
        lex_le(b, c),
    ensures
        lex_le(a, c),
    decreases a.len(),
{
    reveal(lex_le);
    if a.len() == 0 {
    } else {
        assert(b.len() > 0);
        assert(c.len() > 0);
        if a[0] == b[0] && b[0] == c[0] {
            lemma_lex_le_trans(a.skip(1), b.skip(1), c.skip(1));
        }
    }
}

/// Compares two string slices in the order of [`lex_le`].
pub fn lex_le_str(x: &str, y: &str) -> (r: bool)
    ensures
        r == lex_le(x@, y@),
{
    let lx = x.unicode_len();
    let ly = y.unicode_len();
    let n = if lx < ly {
        lx
    } else {
        ly
    };
    let mut i: usize = 0;
    while i < n
        invariant
            i <= n,
            n <= lx,
            n <= ly,
            lx == x@.len(),
            ly == y@.len(),
            forall|j: int| 0 <= j < i ==> x@[j] == y@[j],
        decreases n - i,
    {
        let cx = x.get_char(i);
        let cy = y.get_char(i);
        if cx != cy {
            proof {
                lemma_lex_le_skip(x@, y@, i as int);
                reveal(lex_le);
                assert(x@.skip(i as int)[0] == x@[i as int]);
                assert(y@.skip(i as int)[0] == y@[i as int]);
            }
            return cx < cy;
        }
        i += 1;
    }
    proof {
        lemma_lex_le_skip(x@, y@, n as int);
        reveal(lex_le);
        assert(x@.skip(n as int).len() == lx - n);
        assert(y@.skip(n as int).len() == ly - n);
    }
    lx <= ly
}

/// Relies on `itertools::Itertools::sorted`, which collects the iterator into
/// a `Vec` and stable-sorts it with `Ord` on `String`; that order compares
/// UTF-8 bytes, which coincides with code-point order of the characters.
#[verifier::external_body]
pub fn sorted_strings(v: Vec<String>) -> (r: Vec<String>)
    ensures
        r@.map_values(|s: String| s@).to_multiset() == v@.map_values(
            |s: String| s@,
        ).to_multiset(),
        forall|i: int, j: int| 0 <= i < j < r@.len() ==> lex_le(r@[i]@, r@[j]@),
{
    v.into_iter().sorted().collect()
}

/// The decimal digit character for a value below ten.
pub open spec fn digit_char(d: nat) -> char {
    if d == 0 {
        '0'
    } else if d == 1 {
        '1'
    } else if d == 2 {
        '2'
    } else if d == 3 {
        '3'
    } else if d == 4 {
        '4'
    } else if d == 5 {
        '5'
    } else if d == 6 {
        '6'
    } else if d == 7 {
        '7'
    } else if d == 8 {
        '8'
    } else {
        '9'
    }
}

/// Decimal rendering of a natural number, most significant digit first.
pub open spec fn dec_digits(x: nat) -> Seq<char>
    decreases x,
{
    if x < 10 {
        seq![digit_char(x)]
    } else {
        dec_digits(x / 10).push(digit_char(x % 10))
    }
}

fn digit_str(d: u64) -> (r: &'static str)
    requires
        d < 10,
    ensures
        r@ == seq![digit_char(d as nat)],
{
    proof {
        reveal_strlit("0");
        reveal_strlit("1");
        reveal_strlit("2");
        reveal_strlit("3");
        reveal_strlit("4");
        reveal_strlit("5");
        reveal_strlit("6");
        reveal_strlit("7");
        reveal_strlit("8");
        reveal_strlit("9");
    }
    let r = match d {
        0 => "0",
        1 => "1",
        2 => "2",
        3 => "3",
        4 => "4",
        5 => "5",
        6 => "6",
        7 => "7",
        8 => "8",
        _ => "9",
    };
    proof {
        assert(r@ =~= seq![digit_char(d as nat)]);
    }
    r
}

/// Appends the decimal rendering of `x` to `out`.
pub fn push_dec(out: &mut String, x: u64)
    ensures
        final(out)@ == old(out)@ + dec_digits(x as nat),
    decreases x,
{
    if x >= 10 {
        push_dec(out, x / 10);
        out.append(digit_str(x % 10));
    } else {
        out.append(digit_str(x));
    }
}

/// Decimal rendering of `x` as an owned string.
pub fn u64_to_dec(x: u64) -> (r: String)
    ensures
        r@ == dec_digits(x as nat),
{
    let mut out = String::new();
    push_dec(&mut out, x);
    proof {
        assert(out@ =~= dec_digits(x as nat));
    }
    out
}

/// The rendering is the inverse of the value: reading the digits back
/// yields the number, so distinct numbers render distinctly.
pub proof fn lemma_dec_digits_inverse(x: nat)
    ensures
        dec_val(dec_digits(x)) == x,
        all_digits(dec_digits(x)),
        dec_digits(x).len() >= 1,
    decreases x,
{
    if x < 10 {
        let s = dec_digits(x);
        assert(s == seq![digit_char(x)]);
        assert(s.drop_last() =~= Seq::<char>::empty());
        assert(dec_val(Seq::<char>::empty()) == 0);
        assert(dec_val(s) == dec_val(s.drop_last()) * 10 + digit_val(s.last()));
        assert(dec_val(s) == digit_val(digit_char(x)));
        assert(digit_val(digit_char(x)) == x);
        assert('0' <= digit_char(x) <= '9');
    } else {
        lemma_dec_digits_inverse(x / 10);
        let prefix = dec_digits(x / 10);
        let s = dec_digits(x);
        assert(s == prefix.push(digit_char(x % 10)));
        assert(s.drop_last() =~= prefix);
        assert(dec_val(s) == dec_val(prefix) * 10 + digit_val(digit_char(x % 10)));
        assert(digit_val(digit_char(x % 10)) == x % 10);
        assert(dec_val(prefix) * 10 + x % 10 == x) by (nonlinear_arith)
            requires
                dec_val(prefix) == x / 10,
                x == 10 * (x / 10) + x % 10,
        ;
        assert(forall|i: int|
            0 <= i < s.len() ==> '0' <= #[trigger] s[i] <= '9') by {
            assert(forall|i: int| 0 <= i < prefix.len() ==> s[i] == prefix[i]);
            assert('0' <= digit_char(x % 10) <= '9');
        }
    }
}

/// Decimal rendering of a signed number: a minus sign, then the magnitude.
pub open spec fn dec_digits_signed(x: int) -> Seq<char> {
    if x < 0 {
        seq!['-'] + dec_digits((-x) as nat)
    } else {
        dec_digits(x as nat)
    }
}

/// Appends the decimal rendering of a signed number to `out`.
pub fn push_dec_signed(out: &mut String, x: i64)
    ensures
        final(out)@ == old(out)@ + dec_digits_signed(x as int),
{
    if x >= 0 {
        push_dec(out, x as u64);
    } else {
        proof {
            reveal_strlit("-");
        }
        out.append("-");
        let mag: u64 = ((-(x as i128)) as u64);
        push_dec(out, mag);
        proof {
            assert(out@ =~= old(out)@ + dec_digits_signed(x as int));
        }
    }
}

/// Distinct signed numbers render distinctly.
pub proof fn lemma_dec_digits_signed_injective(x: int, y: int)
    requires
        x != y,
    ensures
        dec_digits_signed(x) != dec_digits_signed(y),
{
    if x >= 0 && y >= 0 {
        lemma_dec_digits_inverse(x as nat);
        lemma_dec_digits_inverse(y as nat);
        if dec_digits_signed(x) == dec_digits_signed(y) {
            assert(dec_val(dec_digits(x as nat)) == dec_val(dec_digits(y as nat)));
            assert(false);
        }
    } else if x < 0 && y < 0 {
        lemma_dec_digits_inverse((-x) as nat);
        lemma_dec_digits_inverse((-y) as nat);
        if dec_digits_signed(x) == dec_digits_signed(y) {
            let sx = seq!['-'] + dec_digits((-x) as nat);
            let sy = seq!['-'] + dec_digits((-y) as nat);
            assert(sx == sy);
            assert(sx.skip(1) =~= dec_digits((-x) as nat));
            assert(sy.skip(1) =~= dec_digits((-y) as nat));
            assert(dec_digits((-x) as nat) == dec_digits((-y) as nat));
            assert(false);
        }
    } else {
        let neg: int = if x < 0 {
            x
        } else {
            y
        };
        let pos: int = if x < 0 {
            y
        } else {
            x
        };
        lemma_dec_digits_inverse(pos as nat);
        lemma_dec_digits_inverse((-neg) as nat);
        if dec_digits_signed(neg) == dec_digits_signed(pos) {
            let sn = seq!['-'] + dec_digits((-neg) as nat);
            assert(sn[0] == '-');
            assert(dec_digits_signed(pos)[0] == dec_digits(pos as nat)[0]);
            assert('0' <= dec_digits(pos as nat)[0] <= '9');
            assert(false);
        }
    }
}

/// Whether some element of `v` views as `s`.
pub open spec fn has_str(v: Seq<String>, s: Seq<char>) -> bool {
    exists|i: int| 0 <= i < v.len() && v[i]@ == s
}

/// A copy of a string list, value for value.
pub fn clone_strings(v: &Vec<String>) -> (r: Vec<String>)
    ensures
        r@ == v@,
{
    let mut r: Vec<String> = Vec::new();
    let mut i: usize = 0;
    while i < v.len()
        invariant
            i <= v@.len(),
            r@ =~= v@.take(i as int),
        decreases v@.len() - i,
    {
        r.push(v[i].clone());
        proof {
            assert(r@ =~= v@.take(i as int + 1));
        }
        i += 1;
    }
    proof {
        assert(v@.take(v@.len() as int) =~= v@);
    }
    r
}

/// The characters the library treats as whitespace when counting query
/// tokens: ASCII space, tab, carriage return and line feed.
pub open spec fn is_ws(c: char) -> bool {
    c == ' ' || c == '\t' || c == '\n' || c == '\r'
}

pub open spec fn token_count_from(s: Seq<char>, prev_ws: bool) -> nat
    decreases s.len(),
{
    if s.len() == 0 {
        0
    } else {
        (if prev_ws && !is_ws(s[0]) {
            1nat
        } else {
            0nat
        }) + token_count_from(s.skip(1), is_ws(s[0]))
    }
}

/// Number of maximal whitespace-separated tokens in `s`.
pub open spec fn token_count(s: Seq<char>) -> nat {
    token_count_from(s, true)
}

fn is_ws_exec(c: char) -> (r: bool)
    ensures
        r == is_ws(c),
{
    c == ' ' || c == '\t' || c == '\n' || c == '\r'
}

/// Whether `s` splits into two or more whitespace-separated tokens.
pub fn multi_token(s: &str) -> (r: bool)
    ensures
        r == (token_count(s@) > 1),
{
    let len = s.unicode_len();
    let mut i: usize = 0;
    let mut prev_ws = true;
    let mut count: usize = 0;
    proof {
        assert(s@.skip(0) =~= s@);
    }
    while i < len
        invariant
            i <= len,
            len == s@.len(),
            count <= i,
            count + token_count_from(s@.skip(i as int), prev_ws) == token_count(s@),
        decreases len - i,
    {
        let c = s.get_char(i);
        proof {
            assert(s@.skip(i as int)[0] == s@[i as int]);
            assert(s@.skip(i as int).skip(1) =~= s@.skip(i as int + 1));
        }
        if prev_ws && !is_ws_exec(c) {
            count += 1;
        }
        prev_ws = is_ws_exec(c);
        i += 1;
    }
    proof {
        assert(s@.skip(len as int).len() == 0);
    }
    count > 1
}

/// If no character of `s` is whitespace, `s` holds at most one token.
pub proof fn lemma_no_ws_single_token(s: Seq<char>)
    requires
        forall|i: int| 0 <= i < s.len() ==> !is_ws(s[i]),
    ensures
        token_count(s) <= 1,
{
    lemma_no_ws_from(s, true);
}

proof fn lemma_no_ws_from(s: Seq<char>, prev_ws: bool)
    requires
        forall|i: int| 0 <= i < s.len() ==> !is_ws(s[i]),
    ensures
        token_count_from(s, prev_ws) <= if prev_ws {
            1nat
        } else {
            0nat
        },
    decreases s.len(),
{
    if s.len() > 0 {
        assert(forall|i: int| 0 <= i < s.skip(1).len() ==> s.skip(1)[i] == s[i + 1]);
        lemma_no_ws_from(s.skip(1), is_ws(s[0]));
    }
}

/// Whether every character of `s` is a decimal digit.
pub open spec fn all_digits(s: Seq<char>) -> bool {
    forall|i: int| 0 <= i < s.len() ==> '0' <= #[trigger] s[i] <= '9'
}

pub open spec fn digit_val(c: char) -> nat {
    ((c as int) - ('0' as int)) as nat
}

/// Value of a sequence of decimal digits, most significant first.
pub open spec fn dec_val(s: Seq<char>) -> nat
    decreases s.len(),
{
    if s.len() == 0 {
        0
    } else {
        dec_val(s.drop_last()) * 10 + digit_val(s.last())
    }
}

/// Parses an unsigned decimal number, accepting exactly the non-empty
/// all-digit strings whose value fits the type.
pub fn parse_u64(s: &str) -> (r: Option<u64>)
    ensures
        r is Some <==> s@.len() > 0 && all_digits(s@) && dec_val(s@) <= u64::MAX,
        r is Some ==> r->Some_0 == dec_val(s@),
{
    let len = s.unicode_len();
    if len == 0 {
        return None;
    }
    let mut i: usize = 0;
    let mut acc: u64 = 0;
    let mut over = false;
    while i < len
        invariant
            i <= len,
            len == s@.len(),
            forall|j: int| 0 <= j < i ==> '0' <= #[trigger] s@[j] <= '9',
            !over ==> acc == dec_val(s@.take(i as int)),
            over ==> dec_val(s@.take(i as int)) > u64::MAX,
        decreases len - i,
    {
        let c = s.get_char(i);
        if c < '0' || c > '9' {
            assert(!all_digits(s@));
            return None;
        }
        let d: u64 = (c as u32 as u64) - 48;
        proof {
            assert(s@.take(i as int + 1).drop_last() =~= s@.take(i as int));
            assert(s@.take(i as int + 1).last() == s@[i as int]);
            assert(digit_val(s@[i as int]) == d);
        }
        if !over {
            if acc > (u64::MAX - d) / 10 {
                proof {
                    let v = dec_val(s@.take(i as int)) as int;
                    assert(v * 10 + d > u64::MAX) by (nonlinear_arith)
                        requires
                            v == acc as int,
                            acc as int > ((u64::MAX - d) as int) / 10,
                            0 <= d < 10,
                    ;
                }
                over = true;
            } else {
                proof {
                    let v = acc as int;
                    assert(v * 10 + d <= u64::MAX) by (nonlinear_arith)
                        requires
                            0 <= v <= ((u64::MAX - d) as int) / 10,
                            0 <= d < 10,
                    ;
                }
                acc = acc * 10 + d;
            }
        } else {
            proof {
                let v = dec_val(s@.take(i as int)) as int;
                assert(v * 10 + d > u64::MAX) by (nonlinear_arith)
                    requires
                        v > u64::MAX,
                        0 <= d,
                ;
            }
        }
        i += 1;
    }
    proof {
        assert(s@.take(len as int) =~= s@);
    }
    if over {
        None
    } else {
        Some(acc)
    }
}

pub fn parse_u32(s: &str) -> (r: Option<u32>)
    ensures
        r is Some <==> s@.len() > 0 && all_digits(s@) && dec_val(s@) <= u32::MAX,
        r is Some ==> r->Some_0 == dec_val(s@),
{
    match parse_u64(s) {
        None => None,
        Some(v) => {
            if v <= u32::MAX as u64 {
                Some(v as u32)
            } else {
                None
            }
        },
    }
}

/// `s` with every leading `'0'` removed.
pub open spec fn trim_zeros(s: Seq<char>) -> Seq<char>
    decreases s.len(),
{
    if s.len() > 0 && s[0] == '0' {
        trim_zeros(s.skip(1))
    } else {
        s
    }
}

pub fn trim_leading_zeros(s: &str) -> (r: String)
    ensures
        r@ == trim_zeros(s@),
{
    let len = s.unicode_len();
    let mut i: usize = 0;
    proof {
        assert(s@.skip(0) =~= s@);
    }
    while i < len && s.get_char(i) == '0'
        invariant
            i <= len,
            len == s@.len(),
            trim_zeros(s@) == trim_zeros(s@.skip(i as int)),
        decreases len - i,
    {
        proof {
            assert(s@.skip(i as int)[0] == s@[i as int]);
            assert(s@.skip(i as int).skip(1) =~= s@.skip(i as int + 1));
        }
        i += 1;
    }
    let tail = s.substring_char(i, len);
    proof {
        if i < len {
            assert(s@.skip(i as int)[0] == s@[i as int]);
        }
        assert(s@.skip(i as int) =~= s@.subrange(i as int, len as int));
    }
    String::from_str(tail)
}

/// The pieces of `s` delimited by `sep`, in order; delimiters are dropped and
/// empty pieces are kept.
pub open spec fn split_seq(s: Seq<char>, sep: char) -> Seq<Seq<char>>
    decreases s.len(),
{
    if s.len() == 0 {
        seq![Seq::<char>::empty()]
    } else if s[0] == sep {
        seq![Seq::<char>::empty()] + split_seq(s.skip(1), sep)
    } else {
        let rest = split_seq(s.skip(1), sep);
        seq![seq![s[0]] + rest[0]] + rest.skip(1)
    }
}

proof fn lemma_split_prefix(t: Seq<char>, sep: char, k: int)
    requires
        0 <= k <= t.len(),
        forall|j: int| 0 <= j < k ==> t[j] != sep,
    ensures
        k == t.len() ==> split_seq(t, sep) =~= seq![t],
        k < t.len() && t[k] == sep ==> split_seq(t, sep) =~= seq![t.take(k)] + split_seq(
            t.skip(k + 1),
            sep,
        ),
    decreases k,
{
    if k == 0 {
        if t.len() > 0 && t[0] == sep {
            assert(t.take(0) =~= Seq::<char>::empty());
            assert(t.skip(1) =~= t.skip(k + 1));
        } else if t.len() == 0 {
            assert(t =~= Seq::<char>::empty());
            assert(split_seq(t, sep) =~= seq![t]);
        }
    } else {
        assert(t[0] != sep);
        let u = t.skip(1);
        assert(forall|j: int| 0 <= j < k - 1 ==> u[j] == t[j + 1] && u[j] != sep);
        lemma_split_prefix(u, sep, k - 1);
        let r = split_seq(u, sep);
        if k == t.len() {
            assert(r =~= seq![u]);
            assert(seq![t[0]] + u =~= t);
            assert(split_seq(t, sep) == seq![seq![t[0]] + r[0]] + r.skip(1));
            assert(r.skip(1) =~= Seq::<Seq<char>>::empty());
            assert(seq![t[0]] + r[0] =~= t);
            assert(seq![t[0]] + r[0] == t);
            assert((seq![seq![t[0]] + r[0]] + r.skip(1)).len() == 1);
            assert((seq![seq![t[0]] + r[0]] + r.skip(1))[0] == t);
            assert(split_seq(t, sep) =~= seq![t]);
        } else if t[k] == sep {
            assert(u[k - 1] == t[k]);
            assert(r =~= seq![u.take(k - 1)] + split_seq(u.skip(k), sep));
            assert(seq![t[0]] + u.take(k - 1) =~= t.take(k));
            assert(u.skip(k) =~= t.skip(k + 1));
            assert(r.skip(1) =~= split_seq(t.skip(k + 1), sep));
            assert(split_seq(t, sep) =~= seq![t.take(k)] + split_seq(t.skip(k + 1), sep));
        }
    }
}

/// Splits `s` on `sep`, keeping empty pieces.
pub fn split_on(s: &str, sep: char) -> (r: Vec<String>)
    ensures
        r@.map_values(|p: String| p@) =~= split_seq(s@, sep),
{
    let len = s.unicode_len();
    let mut out: Vec<String> = Vec::new();
    let mut start: usize = 0;
    let mut i: usize = 0;
    proof {
        assert(s@.skip(0) =~= s@);
        assert(out@.map_values(|p: String| p@) =~= Seq::<Seq<char>>::empty());
    }
    while i < len
        invariant
            start <= i <= len,
            len == s@.len(),
            forall|j: int| start <= j < i ==> s@[j] != sep,
            split_seq(s@, sep) =~= out@.map_values(|p: String| p@) + split_seq(
                s@.skip(start as int),
                sep,
            ),
        decreases len - i,
    {
        if s.get_char(i) == sep {
            let piece = s.substring_char(start, i);
            proof {
                let t = s@.skip(start as int);
                assert(forall|j: int|
                    0 <= j < i - start ==> t[j] == s@[j + start] && t[j] != sep);
                assert(t[i - start] == s@[i as int]);
                lemma_split_prefix(t, sep, i - start);
                assert(t.take(i - start) =~= s@.subrange(start as int, i as int));
                assert(t.skip(i - start + 1) =~= s@.skip(i as int + 1));
            }
            out.push(String::from_str(piece));
            start = i + 1;
        }
        i += 1;
    }
    let piece = s.substring_char(start, len);
    proof {
        let t = s@.skip(start as int);
        assert(forall|j: int| 0 <= j < t.len() ==> t[j] == s@[j + start] && t[j] != sep);
        lemma_split_prefix(t, sep, t.len() as int);
        assert(t =~= s@.subrange(start as int, len as int));
    }
    out.push(String::from_str(piece));
    out
}

} // verus!
