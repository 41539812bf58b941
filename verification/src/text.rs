//! Character-level parsing primitives shared by all collectors: whitespace
//! and digit classification, decimal numbers, trimming, splitting a source
//! into columns and lines.

use vstd::prelude::*;

verus! {

// ---------------------------------------------------------------------------
// Character classes
// ---------------------------------------------------------------------------

/// The blank characters that kernel pseudo-files use to separate columns and
/// that surround values in single-value files.
pub open spec fn is_space(c: char) -> bool {
    c == ' ' || c == '\t' || c == '\n' || c == '\r'
}

/// A decimal digit.
pub open spec fn is_digit(c: char) -> bool {
    48 <= c as int && c as int <= 57
}

/// The numeric value of a decimal digit.
pub open spec fn digit_val(c: char) -> nat {
    (c as int - 48) as nat
}

pub fn space_char(c: char) -> (r: bool)
    ensures
        r == is_space(c),
{
    c == ' ' || c == '\t' || c == '\n' || c == '\r'
}

pub fn digit_char(c: char) -> (r: bool)
    ensures
        r == is_digit(c),
{
    let u = c as u32;
    48 <= u && u <= 57
}

// ---------------------------------------------------------------------------
// Unsigned decimal numbers
// ---------------------------------------------------------------------------

pub open spec fn all_digits(s: Seq<char>) -> bool {
    forall|i: int| 0 <= i < s.len() ==> is_digit(#[trigger] s[i])
}

/// The value of a string of decimal digits, most significant first.
pub open spec fn dec_value(s: Seq<char>) -> nat
    decreases s.len(),
{
    if s.len() == 0 {
        0
    } else {
        dec_value(s.drop_last()) * 10 + digit_val(s.last())
    }
}

/// A digit string is worth at least any of its prefixes.
pub proof fn lemma_dec_value_prefix(s: Seq<char>, i: int)
    requires
        0 <= i <= s.len(),
    ensures
        dec_value(s.take(i)) <= dec_value(s),
    decreases s.len() - i,
{
    if i == s.len() {
        assert(s.take(i) =~= s);
    } else {
        assert(s.take(i + 1).drop_last() =~= s.take(i));
        assert(dec_value(s.take(i + 1)) == dec_value(s.take(i)) * 10 + digit_val(s.take(i + 1).last()));
        lemma_dec_value_prefix(s, i + 1);
    }
}

pub open spec fn spec_parse_u64(s: Seq<char>) -> Option<u64> {
    if s.len() > 0 && all_digits(s) && dec_value(s) <= u64::MAX {
        Some((dec_value(s) as u64))
    } else {
        None
    }
}

/// Parses a non-empty, all-digit decimal string into a `u64`; anything else
/// (empty text, a sign, a stray character, a value past `u64::MAX`) is
/// rejected.
pub fn parse_u64(s: &str) -> (r: Option<u64>)
    ensures
        r == spec_parse_u64(s@),
{
    let n = s.unicode_len();
    if n == 0 {
        return None;
    }
    let mut acc: u64 = 0;
    let mut i: usize = 0;
    while i < n
        invariant
            0 <= i <= n,
            n == s@.len(),
            all_digits(s@.take(i as int)),
            acc == dec_value(s@.take(i as int)),
        decreases n - i,
    {
        let c = s.get_char(i);
        if !digit_char(c) {
            assert(!all_digits(s@));
            return None;
        }
        let d = (c as u32 - 48) as u64;
        proof {
            assert(s@.take(i + 1).drop_last() =~= s@.take(i as int));
            assert(s@.take(i + 1).last() == s@[i as int]);
        }
        let next = match acc.checked_mul(10) {
            Some(m) => m.checked_add(d),
            None => None,
        };
        match next {
            Some(v) => {
                acc = v;
            },
            None => {
                proof {
                    assert(dec_value(s@.take(i + 1)) > u64::MAX);
                    lemma_dec_value_prefix(s@, i + 1);
                }
                return None;
            },
        }
        i = i + 1;
    }
    proof {
        assert(s@.take(n as int) =~= s@);
    }
    Some(acc)
}

// ---------------------------------------------------------------------------
// Rendering numbers
// ---------------------------------------------------------------------------

/// The digit character for a value under ten.
pub open spec fn digit_of(d: nat) -> char {
    if d == 0 {
        '0'
    } else if d == 1 {
        '1'
    } else if d == 2 {
        '2'
    } else if d == 3 {
        '3'
    } else if d == 4 {
        '4'
    } else if d == 5 {
        '5'
    } else if d == 6 {
        '6'
    } else if d == 7 {
        '7'
    } else if d == 8 {
        '8'
    } else {
        '9'
    }
}

/// The canonical decimal rendering of a number: no sign, no leading zero.
pub open spec fn dec_digits(n: nat) -> Seq<char>
    decreases n,
{
    if n < 10 {
        seq![digit_of(n)]
    } else {
        dec_digits(n / 10).push(digit_of(n % 10))
    }
}

/// Reading the canonical rendering back gives the number.
pub proof fn lemma_dec_digits_value(n: nat)
    ensures
        dec_value(dec_digits(n)) == n,
        all_digits(dec_digits(n)),
        dec_digits(n).len() >= 1,
    decreases n,
{
    if n < 10 {
        let s = dec_digits(n);
        assert(s.len() == 1);
        assert(s.last() == digit_of(n));
        assert(s.drop_last() =~= Seq::<char>::empty());
        assert(dec_value(s.drop_last()) == 0);
        assert(dec_value(s) == 0 * 10 + digit_val(digit_of(n)));
        assert(digit_val(digit_of(n)) == n);
    } else {
        lemma_dec_digits_value(n / 10);
        assert(dec_digits(n).drop_last() =~= dec_digits(n / 10));
        assert(dec_value(dec_digits(n)) == (n / 10) * 10 + digit_val(digit_of(n % 10)));
        assert((n / 10) * 10 + n % 10 == n) by (nonlinear_arith);
        assert(forall|i: int|
            0 <= i < dec_digits(n).len() - 1 ==> dec_digits(n)[i] == dec_digits(n / 10)[i]);
    }
}

/// A digit string that does not start with zero is worth at least one.
pub proof fn lemma_dec_value_pos(d: Seq<char>)
    requires
        all_digits(d),
        d.len() >= 1,
        d[0] != '0',
    ensures
        dec_value(d) >= 1,
    decreases d.len(),
{
    if d.len() == 1 {
        assert(d.last() == d[0]);
        assert(digit_val(d[0]) >= 1);
    } else {
        assert(all_digits(d.drop_last())) by {
            assert(forall|i: int| 0 <= i < d.len() - 1 ==> d.drop_last()[i] == #[trigger] d[i]);
        }
        lemma_dec_value_pos(d.drop_last());
    }
}

/// The canonical rendering has no leading zero (except for zero itself).
pub proof fn lemma_dec_digits_canonical(n: nat)
    ensures
        dec_digits(n).len() == 1 || dec_digits(n)[0] != '0',
        dec_digits(n).len() == 1 <==> n < 10,
    decreases n,
{
    if n >= 10 {
        lemma_dec_digits_canonical(n / 10);
        lemma_dec_digits_value(n / 10);
        assert(dec_digits(n)[0] == dec_digits(n / 10)[0]);
        if dec_digits(n / 10).len() == 1 {
            assert(n / 10 >= 1);
            assert(dec_digits(n / 10) == seq![digit_of(n / 10)]);
            assert(digit_of(n / 10) != '0');
        }
    }
}

/// A digit string with no leading zero is the canonical rendering of its own
/// value.
pub proof fn lemma_canonical_digits(d: Seq<char>)
    requires
        all_digits(d),
        d.len() >= 1,
        d.len() == 1 || d[0] != '0',
    ensures
        dec_digits(dec_value(d)) == d,
    decreases d.len(),
{
    if d.len() == 1 {
        assert(d.drop_last() =~= Seq::<char>::empty());
        assert(d.last() == d[0]);
        assert(dec_value(d.drop_last()) == 0);
        assert(dec_value(d) == 0 * 10 + digit_val(d[0]));
        assert(digit_val(d[0]) < 10);
        assert(dec_digits(dec_value(d)) == seq![digit_of(digit_val(d[0]))]);
        assert(digit_of(digit_val(d[0])) == d[0]);
        assert(dec_digits(dec_value(d)) =~= d);
    } else {
        let dl = d.drop_last();
        assert(all_digits(dl) && dl[0] == d[0]) by {
            assert(forall|i: int| 0 <= i < d.len() - 1 ==> dl[i] == #[trigger] d[i]);
        }
        lemma_canonical_digits(dl);
        lemma_dec_value_pos(dl);
        let v = dec_value(d);
        assert(v == dec_value(dl) * 10 + digit_val(d.last()));
        assert(v >= 10) by (nonlinear_arith)
            requires
                v == dec_value(dl) * 10 + digit_val(d.last()),
                dec_value(dl) >= 1,
        ;
        assert(v / 10 == dec_value(dl) && v % 10 == digit_val(d.last())) by (nonlinear_arith)
            requires
                v == dec_value(dl) * 10 + digit_val(d.last()),
                digit_val(d.last()) < 10,
        ;
        assert(digit_of(digit_val(d.last())) == d.last());
        assert(dec_digits(v) == dec_digits(dec_value(dl)).push(d.last()));
        assert(dl.push(d.last()) =~= d);
    }
}

/// The digit character of a value under ten, as a one-character text.
pub fn digit_str(d: u64) -> (r: &'static str)
    requires
        d < 10,
    ensures
        r@ =~= seq![digit_of(d as nat)],
{
    proof {
        reveal_strlit("0");
        reveal_strlit("1");
        reveal_strlit("2");
        reveal_strlit("3");
        reveal_strlit("4");
        reveal_strlit("5");
        reveal_strlit("6");
        reveal_strlit("7");
        reveal_strlit("8");
        reveal_strlit("9");
    }
    if d == 0 {
        "0"
    } else if d == 1 {
        "1"
    } else if d == 2 {
        "2"
    } else if d == 3 {
        "3"
    } else if d == 4 {
        "4"
    } else if d == 5 {
        "5"
    } else if d == 6 {
        "6"
    } else if d == 7 {
        "7"
    } else if d == 8 {
        "8"
    } else {
        "9"
    }
}

/// Appends the canonical decimal rendering of a number.
pub fn push_u64_dec(out: &mut String, n: u64)
    ensures
        final(out)@ == old(out)@ + dec_digits(n as nat),
    decreases n,
{
    if n < 10 {
        let d = digit_str(n);
        out.append(d);
        proof {
            assert(out@ =~= old(out)@ + dec_digits(n as nat));
        }
    } else {
        push_u64_dec(out, n / 10);
        let d = digit_str(n % 10);
        out.append(d);
        proof {
            assert(out@ =~= old(out)@ + dec_digits(n as nat));
        }
    }
}

// ---------------------------------------------------------------------------
// Powers of ten, for fractional parts
// ---------------------------------------------------------------------------

pub open spec fn pow10(k: nat) -> nat
    decreases k,
{
    if k == 0 {
        1
    } else {
        10 * pow10((k - 1) as nat)
    }
}

pub proof fn lemma_pow10_values()
    ensures
        pow10(0) == 1,
        pow10(1) == 10,
        pow10(2) == 100,
        pow10(3) == 1000,
        pow10(4) == 10000,
        pow10(5) == 100000,
        pow10(6) == 1000000,
        pow10(7) == 10000000,
        pow10(8) == 100000000,
        pow10(9) == 1000000000,
{
    assert(pow10(0) == 1);
    assert(pow10(1) == 10);
    assert(pow10(2) == 100);
    assert(pow10(3) == 1000);
    assert(pow10(4) == 10000);
    assert(pow10(5) == 100000);
    assert(pow10(6) == 1000000);
    assert(pow10(7) == 10000000);
    assert(pow10(8) == 100000000);
    assert(pow10(9) == 1000000000);
}

/// A digit string of length `k` is worth less than `10^k`.
pub proof fn lemma_dec_value_bound(s: Seq<char>)
    requires
        all_digits(s),
    ensures
        dec_value(s) < pow10(s.len()),
    decreases s.len(),
{
    if s.len() > 0 {
        assert(all_digits(s.drop_last())) by {
            assert(forall|i: int| 0 <= i < s.len() - 1 ==> s.drop_last()[i] == #[trigger] s[i]);
        }
        lemma_dec_value_bound(s.drop_last());
        assert(digit_val(s.last()) <= 9);
        assert(dec_value(s.drop_last()) * 10 + 9 < pow10((s.len() - 1) as nat) * 10) by (nonlinear_arith)
            requires
                dec_value(s.drop_last()) < pow10((s.len() - 1) as nat),
        ;
        assert(pow10(s.len()) == 10 * pow10((s.len() - 1) as nat));
    }
}

pub proof fn lemma_pow10_pos(k: nat)
    ensures
        pow10(k) >= 1,
    decreases k,
{
    if k > 0 {
        lemma_pow10_pos((k - 1) as nat);
    }
}

pub proof fn lemma_pow10_adds(a: nat, b: nat)
    ensures
        pow10(a + b) == pow10(a) * pow10(b),
    decreases a,
{
    if a == 0 {
        assert(pow10(a + b) == pow10(b));
        assert(1 * pow10(b) == pow10(b)) by (nonlinear_arith);
    } else {
        let c = (a - 1) as nat;
        lemma_pow10_adds(c, b);
        assert(pow10(a + b) == 10 * pow10(c + b));
        assert(pow10(a) == 10 * pow10(c));
        assert(10 * (pow10(c) * pow10(b)) == (10 * pow10(c)) * pow10(b)) by (nonlinear_arith);
    }
}

pub proof fn lemma_pow10_mono(a: nat, b: nat)
    requires
        a <= b,
    ensures
        pow10(a) <= pow10(b),
{
    lemma_pow10_adds(a, (b - a) as nat);
    lemma_pow10_pos((b - a) as nat);
    assert(pow10(a) * 1 <= pow10(a) * pow10((b - a) as nat)) by (nonlinear_arith)
        requires
            pow10((b - a) as nat) >= 1,
    ;
}

/// Ten to the `k`th, for small `k`.
pub fn pow10_u64(k: usize) -> (r: u64)
    requires
        k <= 9,
    ensures
        r == pow10(k as nat),
{
    let mut r: u64 = 1;
    let mut j: usize = 0;
    while j < k
        invariant
            0 <= j <= k <= 9,
            r == pow10(j as nat),
        decreases k - j,
    {
        proof {
            lemma_pow10_values();
            lemma_pow10_mono(j as nat, 8);
            lemma_pow10_adds(j as nat, 1);
        }
        r = r * 10;
        j = j + 1;
    }
    r
}

// ---------------------------------------------------------------------------
// Decimal fractions
// ---------------------------------------------------------------------------

/// The fractional digits of a decimal number, scaled to billionths and
/// truncated past the ninth digit.
pub open spec fn frac_billionths(f: Seq<char>) -> nat {
    if f.len() >= 9 {
        dec_value(f.take(9))
    } else {
        dec_value(f) * pow10((9 - f.len()) as nat)
    }
}

pub proof fn lemma_frac_billionths_bound(f: Seq<char>)
    requires
        all_digits(f),
    ensures
        frac_billionths(f) < 1000000000,
{
    lemma_pow10_values();
    if f.len() >= 9 {
        assert(all_digits(f.take(9))) by {
            assert(forall|i: int| 0 <= i < 9 ==> f.take(9)[i] == #[trigger] f[i]);
        }
        lemma_dec_value_bound(f.take(9));
    } else {
        lemma_dec_value_bound(f);
        lemma_pow10_adds(f.len(), (9 - f.len()) as nat);
        assert(dec_value(f) * pow10((9 - f.len()) as nat) < pow10(f.len()) * pow10(
            (9 - f.len()) as nat,
        )) by (nonlinear_arith)
            requires
                dec_value(f) < pow10(f.len()),
                pow10((9 - f.len()) as nat) >= 1,
        {
            lemma_pow10_pos((9 - f.len()) as nat);
        }
    }
}

/// What a decimal-fraction column means: whole units and billionths, with at
/// most one point, digits on at least one of its sides, and a whole part that
/// fits a `u64`.
pub open spec fn spec_parse_decimal(s: Seq<char>) -> Option<(u64, u32)> {
    let k = char_index(s, '.') as int;
    if k == s.len() {
        match spec_parse_u64(s) {
            Some(v) => Some((v, 0u32)),
            None => None,
        }
    } else {
        let ip = s.take(k);
        let fp = s.skip(k + 1);
        if ip.len() + fp.len() > 0 && all_digits(ip) && all_digits(fp) && dec_value(ip)
            <= u64::MAX {
            Some(((dec_value(ip) as u64), (frac_billionths(fp) as u32)))
        } else {
            None
        }
    }
}

/// Parses a decimal-fraction column into whole units and billionths,
/// truncating past the ninth fractional digit.
#[verifier::loop_isolation(false)]
pub fn parse_decimal(s: &str) -> (r: Option<(u64, u32)>)
    ensures
        r == spec_parse_decimal(s@),
        r matches Some(p) ==> p.1 < 1000000000,
{
    let n = s.unicode_len();
    let k = find_char(s, '.');
    if k == n {
        return match parse_u64(s) {
            Some(v) => Some((v, 0)),
            None => None,
        };
    }
    let ip = s.substring_char(0, k);
    let fp = s.substring_char(k + 1, n);
    proof {
        assert(ip@ =~= s@.take(k as int));
        assert(fp@ =~= s@.skip(k + 1));
    }
    let ni = ip.unicode_len();
    let nf = fp.unicode_len();
    if ni == 0 && nf == 0 {
        return None;
    }
    let units: u64 = if ni == 0 {
        0
    } else {
        match parse_u64(ip) {
            Some(v) => v,
            None => {
                return None;
            },
        }
    };
    let mut j: usize = 0;
    while j < nf
        invariant
            0 <= j <= nf,
            nf == fp@.len(),
            forall|i: int| 0 <= i < j ==> is_digit(#[trigger] fp@[i]),
        decreases nf - j,
    {
        if !digit_char(fp.get_char(j)) {
            assert(!all_digits(fp@));
            return None;
        }
        j = j + 1;
    }
    assert(all_digits(fp@));
    proof {
        lemma_frac_billionths_bound(fp@);
        lemma_pow10_values();
    }
    let billionths: u64;
    if nf >= 9 {
        let nine = fp.substring_char(0, 9);
        proof {
            assert(nine@ =~= fp@.take(9));
            assert(all_digits(nine@)) by {
                assert(forall|i: int| 0 <= i < 9 ==> fp@.take(9)[i] == #[trigger] fp@[i]);
            }
            lemma_dec_value_bound(nine@);
        }
        billionths = parse_u64(nine).unwrap();
        assert(billionths == frac_billionths(fp@));
    } else if nf == 0 {
        billionths = 0;
        proof {
            assert(dec_value(fp@) == 0);
            assert(dec_value(fp@) * pow10((9 - fp@.len()) as nat) == 0) by (nonlinear_arith)
                requires
                    dec_value(fp@) == 0,
            ;
        }
        assert(billionths == frac_billionths(fp@));
    } else {
        proof {
            lemma_dec_value_bound(fp@);
            lemma_pow10_mono(fp@.len(), 8);
        }
        let v = parse_u64(fp).unwrap();
        let p = pow10_u64(9 - nf);
        proof {
            assert(v * p < 1000000000) by (nonlinear_arith)
                requires
                    v == dec_value(fp@),
                    p == pow10((9 - fp@.len()) as nat),
                    dec_value(fp@) * pow10((9 - fp@.len()) as nat) < 1000000000,
            ;
        }
        billionths = v * p;
        assert(billionths == frac_billionths(fp@));
    }
    proof {
        let ksp = char_index(s@, '.') as int;
        assert(ksp == k as int);
        assert(ksp < s@.len());
        let ip_s = s@.take(ksp);
        let fp_s = s@.skip(ksp + 1);
        assert(ip_s == ip@);
        assert(fp_s == fp@);
        assert(all_digits(ip_s));
        assert(dec_value(ip_s) <= u64::MAX);
        assert(units == dec_value(ip_s) as u64);
        assert(all_digits(fp_s));
        assert(ip_s.len() + fp_s.len() > 0);
        assert(billionths == frac_billionths(fp_s));
        assert(billionths as u32 == frac_billionths(fp_s) as u32);
    }
    Some((units, billionths as u32))
}

// ---------------------------------------------------------------------------
// Trimming
// ---------------------------------------------------------------------------

pub open spec fn lead_spaces(s: Seq<char>) -> nat
    decreases s.len(),
{
    if s.len() > 0 && is_space(s[0]) {
        1 + lead_spaces(s.skip(1))
    } else {
        0
    }
}

pub open spec fn trail_spaces(s: Seq<char>) -> nat
    decreases s.len(),
{
    if s.len() > 0 && is_space(s.last()) {
        1 + trail_spaces(s.drop_last())
    } else {
        0
    }
}

/// The string with leading and trailing blanks removed.
pub open spec fn trim_spec(s: Seq<char>) -> Seq<char> {
    if lead_spaces(s) == s.len() {
        Seq::empty()
    } else {
        s.subrange(lead_spaces(s) as int, s.len() - trail_spaces(s))
    }
}

proof fn lemma_lead_spaces_at(s: Seq<char>, a: int)
    requires
        0 <= a <= s.len(),
        forall|j: int| 0 <= j < a ==> is_space(#[trigger] s[j]),
        a == s.len() || !is_space(s[a]),
    ensures
        lead_spaces(s) == a,
    decreases a,
{
    if a == 0 {
    } else {
        lemma_lead_spaces_at(s.skip(1), a - 1);
    }
}

proof fn lemma_trail_spaces_at(s: Seq<char>, b: int)
    requires
        0 <= b <= s.len(),
        forall|j: int| b <= j < s.len() ==> is_space(#[trigger] s[j]),
        b == 0 || !is_space(s[b - 1]),
    ensures
        trail_spaces(s) == s.len() - b,
    decreases s.len() - b,
{
    if b == s.len() {
    } else {
        assert(is_space(s.last()));
        lemma_trail_spaces_at(s.drop_last(), b);
    }
}

/// Removes leading and trailing blanks.
pub fn trim(s: &str) -> (r: &str)
    ensures
        r@ == trim_spec(s@),
{
    let n = s.unicode_len();
    let mut a: usize = 0;
    while a < n && space_char(s.get_char(a))
        invariant
            0 <= a <= n,
            n == s@.len(),
            forall|j: int| 0 <= j < a ==> is_space(#[trigger] s@[j]),
        decreases n - a,
    {
        a = a + 1;
    }
    proof {
        lemma_lead_spaces_at(s@, a as int);
    }
    if a == n {
        let r = s.substring_char(0, 0);
        proof {
            assert(r@ =~= trim_spec(s@));
        }
        return r;
    }
    let mut b: usize = n;
    while b > a + 1 && space_char(s.get_char(b - 1))
        invariant
            a < b <= n,
            n == s@.len(),
            !is_space(s@[a as int]),
            forall|j: int| b <= j < n ==> is_space(#[trigger] s@[j]),
        decreases b,
    {
        b = b - 1;
    }
    // at exit either b == a + 1 (and s[a] is not a space) or s[b-1] is not a space
    proof {
        lemma_trail_spaces_at(s@, b as int);
    }
    let r = s.substring_char(a, b);
    proof {
        assert(r@ =~= trim_spec(s@));
    }
    r
}

// ---------------------------------------------------------------------------
// Columns (whitespace-separated tokens)
// ---------------------------------------------------------------------------

pub open spec fn tokens_from(s: Seq<char>, cur: Seq<char>, acc: Seq<Seq<char>>) -> Seq<Seq<char>>
    decreases s.len(),
{
    if s.len() == 0 {
        if cur.len() > 0 {
            acc.push(cur)
        } else {
            acc
        }
    } else if is_space(s[0]) {
        tokens_from(
            s.skip(1),
            Seq::empty(),
            if cur.len() > 0 {
                acc.push(cur)
            } else {
                acc
            },
        )
    } else {
        tokens_from(s.skip(1), cur.push(s[0]), acc)
    }
}

/// The whitespace-separated columns of a piece of text, in order.
pub open spec fn tokens(s: Seq<char>) -> Seq<Seq<char>> {
    tokens_from(s, Seq::empty(), Seq::empty())
}

/// Splits a piece of text into its whitespace-separated columns.
pub fn split_tokens(s: &str) -> (r: Vec<String>)
    ensures
        r.deep_view() == tokens(s@),
{
    let n = s.unicode_len();
    let mut out: Vec<String> = Vec::new();
    let mut start: usize = 0;
    let mut i: usize = 0;
    proof {
        assert(s@.skip(0) =~= s@);
        assert(s@.subrange(0, 0) =~= Seq::<char>::empty());
        assert(out.deep_view() =~= Seq::<Seq<char>>::empty());
    }
    while i < n
        invariant
            0 <= start <= i <= n,
            n == s@.len(),
            forall|j: int| start <= j < i ==> !is_space(#[trigger] s@[j]),
            tokens(s@) == tokens_from(
                s@.skip(i as int),
                s@.subrange(start as int, i as int),
                out.deep_view(),
            ),
        decreases n - i,
    {
        let ghost prev = out.deep_view();
        let ghost cur = s@.subrange(start as int, i as int);
        proof {
            assert(s@.skip(i as int)[0] == s@[i as int]);
            assert(s@.skip(i as int).skip(1) =~= s@.skip(i + 1));
        }
        let c = s.get_char(i);
        if space_char(c) {
            if start < i {
                let tok = String::from_str(s.substring_char(start, i));
                out.push(tok);
                proof {
                    assert(out.deep_view() =~= prev.push(cur));
                }
            }
            proof {
                assert(s@.subrange(i + 1, i + 1) =~= Seq::<char>::empty());
            }
            start = i + 1;
        } else {
            proof {
                assert(s@.subrange(start as int, i + 1) =~= cur.push(s@[i as int]));
            }
        }
        i = i + 1;
    }
    proof {
        assert(s@.skip(n as int) =~= Seq::<char>::empty());
    }
    if start < n {
        let ghost prev = out.deep_view();
        let tok = String::from_str(s.substring_char(start, n));
        out.push(tok);
        proof {
            assert(out.deep_view() =~= prev.push(s@.subrange(start as int, n as int)));
        }
    }
    out
}

// ---------------------------------------------------------------------------
// Lines
// ---------------------------------------------------------------------------

/// Drops one carriage return left at the end of a line by a CRLF ending.
pub open spec fn strip_cr(l: Seq<char>) -> Seq<char> {
    if l.len() > 0 && l.last() == '\r' {
        l.drop_last()
    } else {
        l
    }
}

pub open spec fn lines_from(s: Seq<char>, cur: Seq<char>, acc: Seq<Seq<char>>) -> Seq<Seq<char>>
    decreases s.len(),
{
    if s.len() == 0 {
        if cur.len() > 0 {
            acc.push(cur)
        } else {
            acc
        }
    } else if s[0] == '\n' {
        lines_from(s.skip(1), Seq::empty(), acc.push(strip_cr(cur)))
    } else {
        lines_from(s.skip(1), cur.push(s[0]), acc)
    }
}

/// The lines of a multi-line source: split at newlines, a carriage return
/// before a newline dropped, and a trailing newline ending the last line
/// rather than opening an empty one.
pub open spec fn lines(s: Seq<char>) -> Seq<Seq<char>> {
    lines_from(s, Seq::empty(), Seq::empty())
}

/// Splits a multi-line source into its lines.
pub fn split_lines(s: &str) -> (r: Vec<String>)
    ensures
        r.deep_view() == lines(s@),
{
    let n = s.unicode_len();
    let mut out: Vec<String> = Vec::new();
    let mut start: usize = 0;
    let mut i: usize = 0;
    proof {
        assert(s@.skip(0) =~= s@);
        assert(s@.subrange(0, 0) =~= Seq::<char>::empty());
        assert(out.deep_view() =~= Seq::<Seq<char>>::empty());
    }
    while i < n
        invariant
            0 <= start <= i <= n,
            n == s@.len(),
            forall|j: int| start <= j < i ==> #[trigger] s@[j] != '\n',
            lines(s@) == lines_from(
                s@.skip(i as int),
                s@.subrange(start as int, i as int),
                out.deep_view(),
            ),
        decreases n - i,
    {
        let ghost prev = out.deep_view();
        let ghost cur = s@.subrange(start as int, i as int);
        proof {
            assert(s@.skip(i as int)[0] == s@[i as int]);
            assert(s@.skip(i as int).skip(1) =~= s@.skip(i + 1));
        }
        let c = s.get_char(i);
        if c == '\n' {
            let line = if start < i && s.get_char(i - 1) == '\r' {
                String::from_str(s.substring_char(start, i - 1))
            } else {
                String::from_str(s.substring_char(start, i))
            };
            proof {
                if start < i && s@[i - 1] == '\r' {
                    assert(cur.last() == s@[i - 1]);
                    assert(s@.subrange(start as int, i - 1) =~= cur.drop_last());
                }
                assert(line@ == strip_cr(cur));
            }
            out.push(line);
            proof {
                assert(out.deep_view() =~= prev.push(strip_cr(cur)));
                assert(s@.subrange(i + 1, i + 1) =~= Seq::<char>::empty());
            }
            start = i + 1;
        } else {
            proof {
                assert(s@.subrange(start as int, i + 1) =~= cur.push(s@[i as int]));
            }
        }
        i = i + 1;
    }
    proof {
        assert(s@.skip(n as int) =~= Seq::<char>::empty());
    }
    if start < n {
        let ghost prev = out.deep_view();
        let line = String::from_str(s.substring_char(start, n));
        out.push(line);
        proof {
            assert(out.deep_view() =~= prev.push(s@.subrange(start as int, n as int)));
        }
    }
    out
}

// ---------------------------------------------------------------------------
// The first line of a source, as a line-oriented reader would hand it over
// (up to and including the first newline)
// ---------------------------------------------------------------------------

pub open spec fn first_line_len(s: Seq<char>) -> nat
    decreases s.len(),
{
    if s.len() == 0 {
        0
    } else if s[0] == '\n' {
        1
    } else {
        1 + first_line_len(s.skip(1))
    }
}

/// Everything up to and including the first newline, or the whole text when
/// it has none.
pub open spec fn first_line(s: Seq<char>) -> Seq<char> {
    s.take(first_line_len(s) as int)
}

proof fn lemma_first_line_len_at(s: Seq<char>, k: int)
    requires
        0 <= k <= s.len(),
        forall|j: int| 0 <= j < k ==> #[trigger] s[j] != '\n',
        k == s.len() || s[k] == '\n',
    ensures
        first_line_len(s) == if k < s.len() {
            k + 1
        } else {
            k
        },
    decreases k,
{
    if k == 0 {
    } else {
        lemma_first_line_len_at(s.skip(1), k - 1);
    }
}

/// Takes the first line of a source, newline included.
pub fn take_first_line(s: &str) -> (r: &str)
    ensures
        r@ == first_line(s@),
{
    let n = s.unicode_len();
    let mut k: usize = 0;
    while k < n && s.get_char(k) != '\n'
        invariant
            0 <= k <= n,
            n == s@.len(),
            forall|j: int| 0 <= j < k ==> #[trigger] s@[j] != '\n',
        decreases n - k,
    {
        k = k + 1;
    }
    proof {
        lemma_first_line_len_at(s@, k as int);
    }
    if k < n {
        s.substring_char(0, k + 1)
    } else {
        s.substring_char(0, n)
    }
}

// ---------------------------------------------------------------------------
// Prefixes, equality, finding a character
// ---------------------------------------------------------------------------

/// Whether `p` is a prefix of `s`, compared character by character.
pub fn starts_with(s: &str, p: &str) -> (r: bool)
    ensures
        r == p@.is_prefix_of(s@),
{
    let n = s.unicode_len();
    let np = p.unicode_len();
    if np > n {
        return false;
    }
    let mut i: usize = 0;
    while i < np
        invariant
            0 <= i <= np <= n,
            n == s@.len(),
            np == p@.len(),
            forall|j: int| 0 <= j < i ==> #[trigger] s@[j] == p@[j],
        decreases np - i,
    {
        if s.get_char(i) != p.get_char(i) {
            assert(!(p@ =~= s@.subrange(0, np as int)));
            return false;
        }
        i = i + 1;
    }
    proof {
        assert(p@ =~= s@.subrange(0, np as int));
    }
    true
}

/// Whether two pieces of text hold the same characters.
pub fn str_eq(a: &str, b: &str) -> (r: bool)
    ensures
        r == (a@ == b@),
{
    let n = a.unicode_len();
    if n != b.unicode_len() {
        return false;
    }
    let mut i: usize = 0;
    while i < n
        invariant
            0 <= i <= n,
            n == a@.len(),
            n == b@.len(),
            forall|j: int| 0 <= j < i ==> #[trigger] a@[j] == b@[j],
        decreases n - i,
    {
        if a.get_char(i) != b.get_char(i) {
            assert(a@ != b@);
            return false;
        }
        i = i + 1;
    }
    proof {
        assert(a@ =~= b@);
    }
    true
}

/// The label of a `label : value` line: what stands before the first colon,
/// trimmed.
pub open spec fn line_key(l: Seq<char>) -> Seq<char> {
    trim_spec(l.take(char_index(l, ':') as int))
}

/// The value of a `label : value` line: what stands between the first colon
/// and the second one or the end, trimmed.
pub open spec fn line_value(l: Seq<char>) -> Seq<char> {
    let rest = l.skip(char_index(l, ':') as int + 1);
    trim_spec(rest.take(char_index(rest, ':') as int))
}

/// The index of the first occurrence of `c`, or the length when absent.
pub open spec fn char_index(s: Seq<char>, c: char) -> nat
    decreases s.len(),
{
    if s.len() == 0 {
        0
    } else if s[0] == c {
        0
    } else {
        1 + char_index(s.skip(1), c)
    }
}

pub open spec fn contains_char(s: Seq<char>, c: char) -> bool {
    exists|i: int| 0 <= i < s.len() && s[i] == c
}

pub proof fn lemma_char_index_at(s: Seq<char>, c: char, k: int)
    requires
        0 <= k <= s.len(),
        forall|j: int| 0 <= j < k ==> #[trigger] s[j] != c,
        k == s.len() || s[k] == c,
    ensures
        char_index(s, c) == k,
        contains_char(s, c) <==> k < s.len(),
    decreases k,
{
    if k == 0 {
        if s.len() > 0 && s[0] == c {
        } else {
            assert(forall|i: int| 0 <= i < s.len() ==> #[trigger] s[i] != c);
        }
    } else {
        lemma_char_index_at(s.skip(1), c, k - 1);
        if k < s.len() {
            assert(s[k] == c);
        } else {
            assert(forall|i: int| 0 <= i < s.len() ==> #[trigger] s[i] != c) by {
                assert(forall|i: int| 1 <= i < s.len() ==> s.skip(1)[i - 1] == #[trigger] s[i]);
            }
        }
    }
}

/// Finds the first occurrence of `c`, returning the text's length when
/// absent.
pub fn find_char(s: &str, c: char) -> (r: usize)
    ensures
        r == char_index(s@, c),
        r <= s@.len(),
        contains_char(s@, c) <==> r < s@.len(),
{
    let n = s.unicode_len();
    let mut k: usize = 0;
    while k < n && s.get_char(k) != c
        invariant
            0 <= k <= n,
            n == s@.len(),
            forall|j: int| 0 <= j < k ==> #[trigger] s@[j] != c,
        decreases n - k,
    {
        k = k + 1;
    }
    proof {
        lemma_char_index_at(s@, c, k as int);
    }
    k
}

} // verus!
