use vstd::prelude::*;
use rustc_apfloat::ieee::Double;
use rustc_apfloat::Float;
use crate::eval::{all_digits, digits_value, is_digit};
use crate::float::{
    float_is_finite, float_is_nan, float_nonzero, float_parse, ieee_parse, is_finite, is_nan, is_zero, magnitude,
    sign_bit,
};
use crate::text::digits;
use crate::text::{chars_of, string_of};

verus! {

// A double is written the way Rust writes it: the shortest decimal that reads back as
// the same double, without an exponent. The decimal digits come from `rustc_apfloat`,
// which writes a double in scientific notation to a given number of significant digits
// (the exact value rounded); the shortest such text that reads back as the double is
// chosen, and its digits are then written out in full.

/// The text of a finite, nonzero double in scientific notation with at most `p`
/// significant digits, as `rustc_apfloat` writes it (`D.DDDE+X`).
pub uninterp spec fn ieee_sci(a: u64, p: nat) -> Seq<char>;

/// The scientific text of a double with at most `p` significant digits
/// (`rustc_apfloat`'s `Display` with width 0 and precision `p`).
#[verifier::external_body]
fn float_sci(a: u64, p: usize) -> (r: String)
    requires
        1 <= p <= 17,
        is_finite(a),
        !is_zero(a),
    ensures
        r@ == ieee_sci(a, p as nat),
{
    format!("{:w$.p$}", Double::from_bits(a as u128), w = 0, p = p)
}

/// The position of the first `c` in `s`.
pub open spec fn index_of(s: Seq<char>, c: char) -> Option<int>
    decreases s.len(),
{
    if s.len() == 0 {
        None
    } else if s[0] == c {
        Some(0)
    } else {
        match index_of(s.drop_first(), c) {
            Some(i) => Some(i + 1),
            None => None,
        }
    }
}

/// Digits without their trailing zeros (one digit is kept).
pub open spec fn strip_zeros(ds: Seq<char>) -> Seq<char>
    decreases ds.len(),
{
    if ds.len() > 1 && ds.last() == '0' {
        strip_zeros(ds.drop_last())
    } else {
        ds
    }
}

/// The significant digits of a mantissa `D.DDD` (or of digits without a point).
pub open spec fn mantissa_digits(mant: Seq<char>) -> Seq<char> {
    if mant.len() >= 2 && mant[1] == '.' {
        seq![mant[0]] + mant.skip(2)
    } else {
        mant
    }
}

/// The value of an exponent `+X` or `-X` of one to six digits.
pub open spec fn exponent_value(ex: Seq<char>) -> Option<int> {
    if ex.len() < 2 || ex.len() > 7 || !(ex[0] == '+' || ex[0] == '-') || !all_digits(ex.skip(1)) {
        None
    } else if ex[0] == '-' {
        Some(-digits_value(ex.skip(1)))
    } else {
        Some(digits_value(ex.skip(1)))
    }
}

/// The parts of a scientific text: whether it is negative, its significant digits
/// (without trailing zeros), and the power of ten of the first digit; none where the
/// text is not of that form (or has more than a million digits, or an exponent of more
/// than six digits).
pub open spec fn sci_parts(t: Seq<char>) -> Option<(bool, Seq<char>, int)> {
    let neg = t.len() > 0 && t[0] == '-';
    let u = if neg {
        t.skip(1)
    } else {
        t
    };
    match index_of(u, 'E') {
        None => None,
        Some(k) => {
            let ds = mantissa_digits(u.take(k));
            if ds.len() == 0 || ds.len() > 1_000_000 || !all_digits(ds) {
                None
            } else {
                match exponent_value(u.skip(k + 1)) {
                    Some(x) => Some((neg, strip_zeros(ds), x)),
                    None => None,
                }
            }
        },
    }
}

/// `n` zeros.
pub open spec fn zeros(n: nat) -> Seq<char> {
    Seq::new(n, |i: int| '0')
}

/// Significant digits whose first digit stands at the power of ten `x`, written out
/// without an exponent.
pub open spec fn positional(ds: Seq<char>, x: int) -> Seq<char> {
    let n = ds.len() as int;
    if x >= n - 1 {
        ds + zeros((x - (n - 1)) as nat)
    } else if x >= 0 {
        ds.take(x + 1) + "."@ + ds.skip(x + 1)
    } else {
        "0."@ + zeros((-x - 1) as nat) + ds
    }
}

/// Decimal digits increased by one in their last place, carrying; a carry out of the
/// first digit gives a leading `1`.
pub open spec fn digits_plus_one(ds: Seq<char>) -> Seq<char>
    decreases ds.len(),
{
    if ds.len() == 0 {
        seq!['1']
    } else if ds.last() == '9' {
        digits_plus_one(ds.drop_last()).push('0')
    } else {
        ds.drop_last().push(((ds.last() as u32) + 1) as char)
    }
}

/// Digits padded with zeros to `p` digits.
pub open spec fn padded(ds: Seq<char>, p: nat) -> Seq<char> {
    if ds.len() >= p {
        ds
    } else {
        ds + zeros((p - ds.len()) as nat)
    }
}

/// The next decimal with `p` significant digits above the digits `ds` whose first digit
/// stands at the power of ten `x`: its digits (without trailing zeros) and the power of
/// ten of its first digit.
pub open spec fn next_decimal(ds: Seq<char>, x: int, p: nat) -> (Seq<char>, int) {
    let q = padded(ds, p);
    let up = digits_plus_one(q);
    if up.len() > q.len() {
        (strip_zeros(up), x + 1)
    } else {
        (strip_zeros(up), x)
    }
}

/// A decimal in scientific notation: `D.DDDE+X`, with `D.0` for a single digit.
pub open spec fn sci_text(neg: bool, ds: Seq<char>, x: int) -> Seq<char> {
    (if neg {
        "-"@
    } else {
        Seq::empty()
    }) + seq![ds[0]] + "."@ + (if ds.len() > 1 {
        ds.skip(1)
    } else {
        "0"@
    }) + "E"@ + (if x < 0 {
        "-"@ + digits((-x) as nat)
    } else {
        "+"@ + digits(x as nat)
    })
}

/// The decimal of `p` significant digits that Rust writes for a finite, nonzero double,
/// if one reads back as the double: the one nearest to it, or else the next one further
/// from zero (nearer decimals can fall outside the double's interval on its narrow side,
/// at a power of two).
pub open spec fn candidate(a: u64, p: nat) -> Option<(bool, Seq<char>, int)> {
    let t = ieee_sci(a, p);
    match sci_parts(t) {
        None => None,
        Some((m, ds, x)) => if ieee_parse(t) == Some(a) {
            Some((m, ds, x))
        } else if ieee_parse(t) matches Some(b) && magnitude(b) < magnitude(a) {
            let (ds2, x2) = next_decimal(ds, x, p);
            if ieee_parse(sci_text(m, ds2, x2)) == Some(a) {
                Some((m, ds2, x2))
            } else {
                None
            }
        } else {
            None
        },
    }
}

/// The shortest decimal, from `p` significant digits up to 17, that Rust writes for a
/// finite, nonzero double.
pub open spec fn shortest_from(a: u64, p: nat) -> Option<(bool, Seq<char>, int)>
    decreases 18 - p,
{
    if p > 17 {
        None
    } else {
        match candidate(a, p) {
            Some(c) => Some(c),
            None => shortest_from(a, p + 1),
        }
    }
}

/// The text of a double as Rust writes it: `NaN`, `inf` or `-inf`, `0` or `-0`, or the
/// shortest decimal that reads back as the double, without an exponent.
pub open spec fn double_text(a: u64) -> Seq<char> {
    let neg = a & sign_bit() != 0;
    if is_nan(a) {
        "NaN"@
    } else if !is_finite(a) {
        if neg {
            "-inf"@
        } else {
            "inf"@
        }
    } else if is_zero(a) {
        if neg {
            "-0"@
        } else {
            "0"@
        }
    } else {
        match shortest_from(a, 1) {
            Some((m, ds, x)) => (if m {
                "-"@
            } else {
                Seq::empty()
            }) + positional(ds, x),
            None => ieee_sci(a, 17),
        }
    }
}

proof fn lemma_index_of(s: Seq<char>, c: char)
    ensures
        index_of(s, c) matches Some(i) ==> 0 <= i < s.len() && s[i] == c && forall|j: int| 0 <= j < i ==> s[j] != c,
        index_of(s, c) is None ==> forall|j: int| 0 <= j < s.len() ==> s[j] != c,
    decreases s.len(),
{
    if s.len() > 0 {
        lemma_index_of(s.drop_first(), c);
        if s[0] != c {
            assert forall|j: int| 1 <= j < s.len() implies s[j] == s.drop_first()[j - 1] by {}
        }
    }
}

/// The position of the first `c` in `t` from `start` on, or the length of `t`.
fn find_char(t: &Vec<char>, start: usize, c: char) -> (k: usize)
    requires
        start <= t.len(),
    ensures
        start <= k <= t.len(),
        k < t.len() ==> index_of(t@.skip(start as int), c) == Some(k - start),
        k == t.len() ==> index_of(t@.skip(start as int), c) is None,
{
    let ghost u = t@.skip(start as int);
    let mut k: usize = start;
    while k < t.len() && t[k] != c
        invariant
            start <= k <= t.len(),
            u == t@.skip(start as int),
            forall|j: int| 0 <= j < k - start ==> u[j] != c,
        decreases t.len() - k,
    {
        k = k + 1;
    }
    proof {
        lemma_index_of(u, c);
        if k < t.len() {
            assert(u[k - start] == c);
            match index_of(u, c) {
                Some(i) => {
                    if i > k - start {
                        assert(u[k - start] == c);
                    }
                },
                None => {},
            }
        }
    }
    k
}

/// The significant digits of the mantissa `t[start..k]`.
fn mantissa_of(t: &Vec<char>, start: usize, k: usize) -> (r: Vec<char>)
    requires
        start <= k <= t.len(),
    ensures
        r@ == mantissa_digits(t@.subrange(start as int, k as int)),
{
    let ghost mant = t@.subrange(start as int, k as int);
    let dotted = k - start >= 2 && t[start + 1] == '.';
    let mut ds: Vec<char> = Vec::new();
    let mut i: usize = start;
    while i < k
        invariant
            start <= i <= k <= t.len(),
            mant == t@.subrange(start as int, k as int),
            dotted == (mant.len() >= 2 && mant[1] == '.'),
            dotted && i <= start + 1 ==> ds@ == mant.take(i - start),
            dotted && i >= start + 2 ==> ds@ == seq![mant[0]] + mant.subrange(2, i - start),
            !dotted ==> ds@ == mant.take(i - start),
        decreases k - i,
    {
        if !(dotted && i == start + 1) {
            ds.push(t[i]);
        }
        proof {
            if dotted {
                if i + 1 >= start + 2 {
                    assert(ds@ =~= seq![mant[0]] + mant.subrange(2, i + 1 - start));
                } else {
                    assert(ds@ =~= mant.take(i + 1 - start));
                }
            } else {
                assert(ds@ =~= mant.take(i + 1 - start));
            }
        }
        i = i + 1;
    }
    proof {
        if dotted {
            assert(ds@ =~= seq![mant[0]] + mant.skip(2));
        } else {
            assert(ds@ =~= mant);
        }
    }
    ds
}

/// Whether the characters are one to a million digits.
fn digit_run(ds: &Vec<char>) -> (r: bool)
    ensures
        r == (ds@.len() > 0 && ds@.len() <= 1_000_000 && all_digits(ds@)),
{
    if ds.len() == 0 || ds.len() > 1_000_000 {
        return false;
    }
    let mut j: usize = 0;
    while j < ds.len()
        invariant
            j <= ds.len(),
            forall|q: int| 0 <= q < j ==> is_digit(#[trigger] ds@[q]),
        decreases ds.len() - j,
    {
        if !('0' <= ds[j] && ds[j] <= '9') {
            assert(!is_digit(ds@[j as int]));
            return false;
        }
        j = j + 1;
    }
    true
}

/// The value of the exponent `t[from..]`.
#[verifier::loop_isolation(false)]
fn exponent_of(t: &Vec<char>, from: usize) -> (r: Option<i64>)
    requires
        from <= t.len(),
    ensures
        match r {
            Some(x) => exponent_value(t@.skip(from as int)) == Some(x as int) && -1_000_000 < x < 1_000_000,
            None => exponent_value(t@.skip(from as int)) is None,
        },
{
    let ghost ex = t@.skip(from as int);
    let n = t.len() - from;
    if n < 2 || n > 7 {
        return None;
    }
    assert(ex[0] == t@[from as int]);
    if !(t[from] == '+' || t[from] == '-') {
        return None;
    }
    let ghost body = ex.skip(1);
    assert(body == t@.skip(from + 1));
    let mut v: i64 = 0;
    let mut q: usize = from + 1;
    while q < t.len()
        invariant
            from + 1 <= q <= t.len(),
            t.len() - from <= 7,
            body == t@.skip(from + 1),
            forall|w: int| 0 <= w < q - from - 1 ==> is_digit(#[trigger] body[w]),
            v == digits_value(body.take(q - from - 1)),
            0 <= v < pow10(q - from - 1),
        decreases t.len() - q,
    {
        let c = t[q];
        if !('0' <= c && c <= '9') {
            assert(body[q - from - 1] == c);
            assert(!is_digit(body[q - from - 1]));
            return None;
        }
        assert(body.take(q - from).drop_last() == body.take(q - from - 1));
        assert(body.take(q - from).last() == c);
        proof {
            lemma_pow10_bound(q - from - 1);
        }
        v = v * 10 + (c as u32 - '0' as u32) as i64;
        q = q + 1;
    }
    assert(body.take(body.len() as int) == body);
    assert(body.len() <= 6);
    proof {
        lemma_pow10_bound(body.len() as int);
    }
    assert(all_digits(body));
    assert(ex.skip(1) == body);
    if t[from] == '-' {
        Some(-v)
    } else {
        Some(v)
    }
}

/// The parts of a scientific text.
fn scientific_parts(t: &Vec<char>) -> (r: Option<(bool, Vec<char>, i64)>)
    ensures
        match r {
            Some((m, ds, x)) => sci_parts(t@) == Some((m, ds@, x as int)) && ds@.len() <= 1_000_000 && -1_000_000
                < x < 1_000_000 && ds@.len() > 0 && all_digits(ds@),
            None => sci_parts(t@) is None,
        },
{
    let neg = t.len() > 0 && t[0] == '-';
    let start: usize = if neg {
        1
    } else {
        0
    };
    let ghost u = if neg {
        t@.skip(1)
    } else {
        t@
    };
    assert(u == t@.skip(start as int));
    let k = find_char(t, start, 'E');
    if k == t.len() {
        return None;
    }
    assert(u.take(k - start) == t@.subrange(start as int, k as int));
    assert(u.skip(k - start + 1) == t@.skip(k + 1));
    let ds = mantissa_of(t, start, k);
    if !digit_run(&ds) {
        return None;
    }
    match exponent_of(t, k + 1) {
        Some(x) => {
            let stripped = strip_trailing_zeros(ds);
            proof {
                lemma_strip_zeros_len(ds@);
                lemma_strip_zeros_digits(ds@);
            }
            Some((neg, stripped, x))
        },
        None => None,
    }
}

proof fn lemma_strip_zeros_len(ds: Seq<char>)
    ensures
        strip_zeros(ds).len() <= ds.len(),
    decreases ds.len(),
{
    if ds.len() > 1 && ds.last() == '0' {
        lemma_strip_zeros_len(ds.drop_last());
    }
}

/// Ten to the power `n`.
pub open spec fn pow10(n: int) -> int
    decreases n,
{
    if n <= 0 {
        1
    } else {
        10 * pow10(n - 1)
    }
}

proof fn lemma_pow10_bound(n: int)
    requires
        0 <= n <= 6,
    ensures
        pow10(n) <= 1_000_000,
        pow10(n + 1) == 10 * pow10(n),
{
    reveal_with_fuel(pow10, 8);
}

/// Digits without their trailing zeros.
fn strip_trailing_zeros(ds: Vec<char>) -> (r: Vec<char>)
    ensures
        r@ == strip_zeros(ds@),
{
    let mut v = ds;
    let ghost start = v@;
    while v.len() > 1 && v[v.len() - 1] == '0'
        invariant
            strip_zeros(start) == strip_zeros(v@),
        decreases v.len(),
    {
        let ghost before = v@;
        v.pop();
        assert(v@ == before.drop_last());
    }
    v
}

/// `n` zeros after the given characters.
fn push_zeros(v: &mut Vec<char>, n: i64)
    requires
        n >= 0,
    ensures
        final(v)@ == old(v)@ + zeros(n as nat),
{
    let mut i: i64 = 0;
    while i < n
        invariant
            0 <= i <= n,
            v@ == old(v)@ + zeros(i as nat),
        decreases n - i,
    {
        v.push('0');
        assert(v@ =~= old(v)@ + zeros((i + 1) as nat));
        i = i + 1;
    }
}

/// Significant digits written out without an exponent.
#[verifier::loop_isolation(false)]
#[verifier::rlimit(40)]
fn write_positional(neg: bool, ds: &Vec<char>, x: i64) -> (r: Vec<char>)
    requires
        -1_000_000 <= x <= 1_000_000,
        ds.len() <= 1_000_001,
    ensures
        r@ == (if neg {
            "-"@
        } else {
            Seq::<char>::empty()
        }) + positional(ds@, x as int),
{
    proof {
        reveal_strlit("-");
        reveal_strlit(".");
        reveal_strlit("0.");
    }
    let mut out: Vec<char> = Vec::new();
    if neg {
        out.push('-');
    }
    let ghost pre = out@;
    assert(pre == (if neg { "-"@ } else { Seq::<char>::empty() }));
    let n = ds.len() as i64;
    if x >= n - 1 {
        let mut i: usize = 0;
        while i < ds.len()
            invariant
                i <= ds.len(),
                out@ == pre + ds@.take(i as int),
            decreases ds.len() - i,
        {
            out.push(ds[i]);
            assert(out@ =~= pre + ds@.take(i + 1));
            i = i + 1;
        }
        assert(ds@.take(ds.len() as int) == ds@);
        push_zeros(&mut out, x - (n - 1));
        assert(out@ =~= pre + positional(ds@, x as int));
    } else if x >= 0 {
        let mut i: usize = 0;
        while i < ds.len()
            invariant
                i <= ds.len(),
                0 <= x < n - 1,
                n == ds.len(),
                i <= x + 1 ==> out@ == pre + ds@.take(i as int),
                i > x + 1 ==> out@ == pre + ds@.take(x + 1) + "."@ + ds@.subrange(x + 1, i as int),
            decreases ds.len() - i,
        {
            if i as i64 == x + 1 {
                out.push('.');
                assert(out@ =~= pre + ds@.take(x + 1) + "."@ + ds@.subrange(x + 1, i as int));
            }
            out.push(ds[i]);
            if i as i64 + 1 <= x + 1 {
                assert(out@ =~= pre + ds@.take(i + 1));
            } else {
                assert(out@ =~= pre + ds@.take(x + 1) + "."@ + ds@.subrange(x + 1, i + 1));
            }
            i = i + 1;
        }
        assert(out@ =~= pre + positional(ds@, x as int));
    } else {
        out.push('0');
        out.push('.');
        assert(out@ =~= pre + "0."@);
        push_zeros(&mut out, -x - 1);
        let ghost mid = out@;
        let mut i: usize = 0;
        while i < ds.len()
            invariant
                i <= ds.len(),
                out@ == mid + ds@.take(i as int),
            decreases ds.len() - i,
        {
            out.push(ds[i]);
            assert(out@ =~= mid + ds@.take(i + 1));
            i = i + 1;
        }
        assert(ds@.take(ds.len() as int) == ds@);
        assert(out@ =~= pre + positional(ds@, x as int));
    }
    out
}

/// Decimal digits increased by one in their last place.
fn plus_one(ds: &Vec<char>) -> (r: Vec<char>)
    requires
        all_digits(ds@),
    ensures
        r@ == digits_plus_one(ds@),
        r@.len() <= ds@.len() + 1,
        all_digits(r@),
    decreases ds.len(),
{
    if ds.len() == 0 {
        let mut r = Vec::new();
        r.push('1');
        return r;
    }
    let last = ds[ds.len() - 1];
    let mut rest: Vec<char> = Vec::new();
    let mut i: usize = 0;
    while i < ds.len() - 1
        invariant
            i <= ds.len() - 1,
            rest@ == ds@.take(i as int),
        decreases ds.len() - 1 - i,
    {
        rest.push(ds[i]);
        i = i + 1;
    }
    assert(rest@ =~= ds@.drop_last());
    assert(is_digit(ds@[ds.len() - 1]));
    if last == '9' {
        let mut r = plus_one(&rest);
        r.push('0');
        r
    } else {
        let b: u8 = (last as u32) as u8;
        assert(b == last as u32);
        rest.push((b + 1) as char);
        rest
    }
}

/// Digits padded with zeros to `p` digits.
fn pad_digits(ds: &Vec<char>, p: usize) -> (r: Vec<char>)
    ensures
        r@ == padded(ds@, p as nat),
{
    let mut r: Vec<char> = Vec::new();
    let mut i: usize = 0;
    while i < ds.len()
        invariant
            i <= ds.len(),
            r@ == ds@.take(i as int),
        decreases ds.len() - i,
    {
        r.push(ds[i]);
        i = i + 1;
    }
    assert(ds@.take(ds.len() as int) == ds@);
    while r.len() < p
        invariant
            r@.len() >= ds@.len(),
            r@.len() <= (if ds@.len() >= p { ds@.len() as int } else { p as int }),
            r@ == ds@ + zeros((r@.len() - ds@.len()) as nat),
        decreases p - r.len(),
    {
        r.push('0');
        assert(r@ =~= ds@ + zeros((r@.len() - ds@.len()) as nat));
    }
    if ds.len() >= p {
        assert(r@ =~= ds@);
    }
    r
}

/// The scientific text of a decimal.
fn sci_text_of(neg: bool, ds: &Vec<char>, x: i64) -> (r: String)
    requires
        ds@.len() > 0,
        -1_000_000 <= x <= 1_000_000,
    ensures
        r@ == sci_text(neg, ds@, x as int),
{
    proof {
        reveal_strlit("-");
        reveal_strlit("+");
        reveal_strlit(".");
        reveal_strlit("0");
        reveal_strlit("E");
    }
    let mut out: Vec<char> = Vec::new();
    if neg {
        out.push('-');
    }
    let ghost sign = out@;
    assert(sign == (if neg { "-"@ } else { Seq::<char>::empty() }));
    out.push(ds[0]);
    out.push('.');
    let ghost lead = out@;
    assert(lead == sign + seq![ds@[0]] + "."@);
    if ds.len() > 1 {
        let mut i: usize = 1;
        while i < ds.len()
            invariant
                1 <= i <= ds.len(),
                out@ == lead + ds@.subrange(1, i as int),
            decreases ds.len() - i,
        {
            out.push(ds[i]);
            assert(out@ =~= lead + ds@.subrange(1, i + 1));
            i = i + 1;
        }
        assert(ds@.subrange(1, ds@.len() as int) == ds@.skip(1));
    } else {
        out.push('0');
    }
    let ghost mant = out@;
    assert(mant == lead + (if ds@.len() > 1 { ds@.skip(1) } else { "0"@ }));
    out.push('E');
    let mag: u64 = if x < 0 {
        (-x) as u64
    } else {
        x as u64
    };
    if x < 0 {
        out.push('-');
    } else {
        out.push('+');
    }
    let ghost head = out@;
    assert(head == mant + "E"@ + (if x < 0 { "-"@ } else { "+"@ }));
    let ds_exp = crate::text::nat_digits(mag);
    let mut j: usize = 0;
    while j < ds_exp.len()
        invariant
            j <= ds_exp.len(),
            out@ == head + ds_exp@.take(j as int),
        decreases ds_exp.len() - j,
    {
        out.push(ds_exp[j]);
        assert(out@ =~= head + ds_exp@.take(j + 1));
        j = j + 1;
    }
    assert(ds_exp@.take(ds_exp.len() as int) == ds_exp@);
    assert(out@ =~= sci_text(neg, ds@, x as int));
    string_of(&out)
}

/// The decimal of `p` significant digits written for a double, if one reads back as it.
fn candidate_of(a: u64, p: usize) -> (r: Option<(bool, Vec<char>, i64)>)
    requires
        1 <= p <= 17,
        is_finite(a),
        !is_zero(a),
    ensures
        match r {
            Some((m, ds, x)) => candidate(a, p as nat) == Some((m, ds@, x as int)) && ds@.len() <= 1_000_001
                && -1_000_000 <= x <= 1_000_000,
            None => candidate(a, p as nat) is None,
        },
{
    let t = float_sci(a, p);
    let cs = chars_of(t.as_str());
    assert(cs@ == ieee_sci(a, p as nat));
    let parts = scientific_parts(&cs);
    match parts {
        None => {
            assert(sci_parts(ieee_sci(a, p as nat)) is None);
            None
        },
        Some((m, ds, x)) => {
            let back = float_parse(t.as_str());
            match back {
                Some(b) => {
                    if b == a {
                        return Some((m, ds, x));
                    }
                    if !((b & 0x7fff_ffff_ffff_ffffu64) < (a & 0x7fff_ffff_ffff_ffffu64)) {
                        return None;
                    }
                    let q = pad_digits(&ds, p);
                    assert(all_digits(q@)) by {
                        assert forall|i: int| 0 <= i < q@.len() implies is_digit(#[trigger] q@[i]) by {
                            if i >= ds@.len() {
                                assert(q@[i] == '0');
                            }
                        }
                    }
                    let up = plus_one(&q);
                    let x2: i64 = if up.len() > q.len() {
                        x + 1
                    } else {
                        x
                    };
                    let ds2 = strip_trailing_zeros(up);
                    proof {
                        lemma_strip_zeros_len(up@);
                        lemma_digits_plus_one_len(q@);
                        lemma_strip_zeros_digits(up@);
                    }
                    let t2 = sci_text_of(m, &ds2, x2);
                    match float_parse(t2.as_str()) {
                        Some(c) => {
                            if c == a {
                                Some((m, ds2, x2))
                            } else {
                                None
                            }
                        },
                        None => None,
                    }
                },
                None => None,
            }
        },
    }
}

proof fn lemma_strip_zeros_digits(ds: Seq<char>)
    requires
        all_digits(ds),
        ds.len() > 0,
    ensures
        all_digits(strip_zeros(ds)),
        strip_zeros(ds).len() > 0,
    decreases ds.len(),
{
    if ds.len() > 1 && ds.last() == '0' {
        assert(all_digits(ds.drop_last())) by {
            assert forall|i: int| 0 <= i < ds.drop_last().len() implies is_digit(#[trigger] ds.drop_last()[i]) by {
                assert(ds.drop_last()[i] == ds[i]);
            }
        }
        lemma_strip_zeros_digits(ds.drop_last());
    }
}

proof fn lemma_digits_plus_one_len(ds: Seq<char>)
    ensures
        digits_plus_one(ds).len() > 0,
        digits_plus_one(ds).len() <= ds.len() + 1,
    decreases ds.len(),
{
    if ds.len() > 0 && ds.last() == '9' {
        lemma_digits_plus_one_len(ds.drop_last());
    }
}

/// The text of a double as Rust writes it.
pub fn double_to_text(a: u64) -> (r: String)
    ensures
        r@ == double_text(a),
{
    let neg = a & 0x8000_0000_0000_0000u64 != 0;
    if float_is_nan(a) {
        return String::from_str("NaN");
    }
    if !float_is_finite(a) {
        return if neg {
            String::from_str("-inf")
        } else {
            String::from_str("inf")
        };
    }
    if !float_nonzero(a) {
        return if neg {
            String::from_str("-0")
        } else {
            String::from_str("0")
        };
    }
    let mut p: usize = 1;
    while p <= 17
        invariant
            1 <= p <= 18,
            is_finite(a),
            !is_zero(a),
            shortest_from(a, 1) == shortest_from(a, p as nat),
        decreases 18 - p,
    {
        match candidate_of(a, p) {
            Some((m, ds, x)) => {
                return string_of(&write_positional(m, &ds, x));
            },
            None => {},
        }
        p = p + 1;
    }
    float_sci(a, 17)
}

} // verus!
