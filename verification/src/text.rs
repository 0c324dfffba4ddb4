use vstd::prelude::*;

verus! {

broadcast use vstd::string::group_string_axioms;

/// The character of a decimal digit.
pub open spec fn digit_char(d: nat) -> char {
    (d + 48) as char
}

/// Decimal digits of a natural number, most significant first, without leading zeros.
pub open spec fn digits(n: nat) -> Seq<char>
    decreases n,
{
    if n < 10 {
        seq![digit_char(n)]
    } else {
        digits(n / 10) + seq![digit_char(n % 10)]
    }
}

/// The decimal text of an integer, as Rust's `Display` writes it.
pub open spec fn int_text(i: int) -> Seq<char> {
    if i < 0 {
        seq!['-'] + digits((-i) as nat)
    } else {
        digits(i as nat)
    }
}

/// Appends one character to a string (`String::push`).
#[verifier::external_body]
pub fn push_char(s: &mut String, c: char)
    ensures
        final(s)@ == old(s)@.push(c),
{
    s.push(c)
}

/// The characters of a string slice, in order.
pub fn chars_of(s: &str) -> (r: Vec<char>)
    ensures
        r@ == s@,
{
    let mut v: Vec<char> = Vec::new();
    for c in it: s.chars()
        invariant
            v@ == it.seq().take(it.index() as int),
    {
        v.push(c);
    }
    v
}

/// A string made of the given characters.
pub fn string_of(cs: &Vec<char>) -> (r: String)
    ensures
        r@ == cs@,
{
    let mut s = String::new();
    let mut i: usize = 0;
    while i < cs.len()
        invariant
            i <= cs.len(),
            s@ == cs@.take(i as int),
        decreases cs.len() - i,
    {
        push_char(&mut s, cs[i]);
        i = i + 1;
        assert(s@ == cs@.take(i as int));
    }
    assert(cs@.take(cs.len() as int) == cs@);
    s
}

/// The decimal digits of `n`.
pub fn nat_digits(n: u64) -> (r: Vec<char>)
    ensures
        r@ == digits(n as nat),
    decreases n,
{
    let d: u64 = n % 10;
    let c: char = ((d as u8) + 48u8) as char;
    if n < 10 {
        let mut v: Vec<char> = Vec::new();
        v.push(c);
        v
    } else {
        let mut v = nat_digits(n / 10);
        v.push(c);
        v
    }
}

/// The decimal text of a signed integer.
pub fn int_to_text(i: i64) -> (r: String)
    ensures
        r@ == int_text(i as int),
{
    if i < 0 {
        let m: u64 = ((-(i + 1)) as u64) + 1;
        let ds = nat_digits(m);
        let mut v: Vec<char> = Vec::new();
        v.push('-');
        let mut k: usize = 0;
        while k < ds.len()
            invariant
                k <= ds.len(),
                v@ == seq!['-'] + ds@.take(k as int),
            decreases ds.len() - k,
        {
            v.push(ds[k]);
            k = k + 1;
            assert(v@ == seq!['-'] + ds@.take(k as int));
        }
        assert(ds@.take(ds.len() as int) == ds@);
        string_of(&v)
    } else {
        string_of(&nat_digits(i as u64))
    }
}

/// The decimal text of an unsigned size.
pub fn usize_to_text(n: usize) -> (r: String)
    ensures
        r@ == digits(n as nat),
{
    string_of(&nat_digits(n as u64))
}

} // verus!

verus! {

/// The lowercase of a string by Unicode's rules (what `str::to_lowercase` gives).
pub uninterp spec fn unicode_lowercase(s: Seq<char>) -> Seq<char>;

/// The uppercase of a string by Unicode's rules (what `str::to_uppercase` gives).
pub uninterp spec fn unicode_uppercase(s: Seq<char>) -> Seq<char>;

/// `str::to_lowercase`.
#[verifier::external_body]
pub fn to_lowercase(s: &str) -> (r: String)
    ensures
        r@ == unicode_lowercase(s@),
{
    s.to_lowercase()
}

/// `str::to_uppercase`.
#[verifier::external_body]
pub fn to_uppercase(s: &str) -> (r: String)
    ensures
        r@ == unicode_uppercase(s@),
{
    s.to_uppercase()
}

/// Whether two character sequences are equal, compared one by one.
pub fn chars_equal(a: &Vec<char>, b: &Vec<char>) -> (r: bool)
    ensures
        r == (a@ == b@),
{
    if a.len() != b.len() {
        return false;
    }
    let mut i: usize = 0;
    while i < a.len()
        invariant
            i <= a.len(),
            a.len() == b.len(),
            a@.take(i as int) == b@.take(i as int),
        decreases a.len() - i,
    {
        if a[i] != b[i] {
            return false;
        }
        assert(a@.take(i + 1) == a@.take(i as int).push(a@[i as int]));
        assert(b@.take(i + 1) == b@.take(i as int).push(b@[i as int]));
        i = i + 1;
    }
    assert(a@ == a@.take(a.len() as int));
    assert(b@ == b@.take(b.len() as int));
    true
}

/// Whether two strings are equal.
pub fn str_equal(a: &str, b: &str) -> (r: bool)
    ensures
        r == (a@ == b@),
{
    chars_equal(&chars_of(a), &chars_of(b))
}

/// Whether a character is white space in Unicode's sense (as `char::is_whitespace`).
pub open spec fn is_space(c: char) -> bool {
    ('\u{9}' <= c && c <= '\u{d}') || c == ' ' || c == '\u{85}' || c == '\u{a0}' || c == '\u{1680}' || (
    '\u{2000}' <= c && c <= '\u{200a}') || c == '\u{2028}' || c == '\u{2029}' || c == '\u{202f}' || c
        == '\u{205f}' || c == '\u{3000}'
}

/// A text without its leading white space.
pub open spec fn trim_start(s: Seq<char>) -> Seq<char>
    decreases s.len(),
{
    if s.len() > 0 && is_space(s[0]) {
        trim_start(s.drop_first())
    } else {
        s
    }
}

/// A text without its trailing white space.
pub open spec fn trim_end(s: Seq<char>) -> Seq<char>
    decreases s.len(),
{
    if s.len() > 0 && is_space(s.last()) {
        trim_end(s.drop_last())
    } else {
        s
    }
}

/// A text without leading and trailing white space (as `str::trim`).
pub open spec fn trimmed(s: Seq<char>) -> Seq<char> {
    trim_end(trim_start(s))
}

/// The ASCII lower-case form of a character; other characters are kept.
pub open spec fn ascii_lower(c: char) -> char {
    if 'A' <= c && c <= 'Z' {
        ((c as u32) + 32) as char
    } else {
        c
    }
}

/// Whether two texts are equal when ASCII letters are compared without case (as
/// `str::eq_ignore_ascii_case`).
pub open spec fn eq_ignore_ascii(a: Seq<char>, b: Seq<char>) -> bool {
    a.len() == b.len() && forall|i: int| 0 <= i < a.len() ==> ascii_lower(#[trigger] a[i]) == ascii_lower(b[i])
}

/// The words of a text: its runs of characters that are not white space, in order (as
/// `str::split_whitespace`).
pub open spec fn words(s: Seq<char>) -> Seq<Seq<char>>
    decreases s.len(),
{
    if s.len() == 0 {
        Seq::empty()
    } else if is_space(s.last()) {
        words(s.drop_last())
    } else if s.len() >= 2 && !is_space(s[s.len() - 2]) {
        let w = words(s.drop_last());
        w.update(w.len() - 1, w.last().push(s.last()))
    } else {
        words(s.drop_last()).push(seq![s.last()])
    }
}

/// A text that ends in a character that is not white space has a word.
pub proof fn lemma_words_nonempty(s: Seq<char>)
    requires
        s.len() > 0,
        !is_space(s.last()),
    ensures
        words(s).len() > 0,
    decreases s.len(),
{
    if s.len() >= 2 && !is_space(s[s.len() - 2]) {
        lemma_words_nonempty(s.drop_last());
    }
}

/// Whether a character is white space.
pub fn char_is_space(c: char) -> (r: bool)
    ensures
        r == is_space(c),
{
    ('\u{9}' <= c && c <= '\u{d}') || c == ' ' || c == '\u{85}' || c == '\u{a0}' || c == '\u{1680}' || (
    '\u{2000}' <= c && c <= '\u{200a}') || c == '\u{2028}' || c == '\u{2029}' || c == '\u{202f}' || c
        == '\u{205f}' || c == '\u{3000}'
}

/// The text without leading and trailing white space.
pub fn trim(s: &str) -> (r: String)
    ensures
        r@ == trimmed(s@),
{
    let cs = chars_of(s);
    let mut a: usize = 0;
    assert(cs@.skip(0) == cs@);
    while a < cs.len() && char_is_space(cs[a])
        invariant
            a <= cs.len(),
            trim_start(cs@) == trim_start(cs@.skip(a as int)),
        decreases cs.len() - a,
    {
        assert(cs@.skip(a as int).drop_first() == cs@.skip(a + 1));
        a = a + 1;
    }
    let ghost front = cs@.skip(a as int);
    assert(trim_start(cs@) == front);
    let mut b: usize = cs.len();
    assert(front.take(b - a) == front);
    while b > a && char_is_space(cs[b - 1])
        invariant
            a <= b <= cs.len(),
            front == cs@.skip(a as int),
            trim_end(front) == trim_end(front.take(b - a)),
        decreases b,
    {
        assert(front.take(b - a).last() == cs@[b - 1]);
        assert(front.take(b - a).drop_last() == front.take(b - 1 - a));
        b = b - 1;
    }
    assert(b > a ==> front.take(b - a).last() == cs@[b - 1]);
    let mut out: Vec<char> = Vec::new();
    let mut i: usize = a;
    while i < b
        invariant
            a <= i <= b <= cs.len(),
            out@ == cs@.subrange(a as int, i as int),
        decreases b - i,
    {
        out.push(cs[i]);
        i = i + 1;
    }
    assert(out@ == front.take(b - a));
    string_of(&out)
}

/// The ASCII lower-case form of a character.
fn char_ascii_lower(c: char) -> (r: char)
    ensures
        r == ascii_lower(c),
{
    if 'A' <= c && c <= 'Z' {
        let b: u8 = (c as u32) as u8;
        assert(b == c as u32);
        ((b + 32) as char)
    } else {
        c
    }
}

/// Whether two texts are equal when ASCII letters are compared without case.
pub fn eq_ignore_case(a: &str, b: &str) -> (r: bool)
    ensures
        r == eq_ignore_ascii(a@, b@),
{
    let x = chars_of(a);
    let y = chars_of(b);
    if x.len() != y.len() {
        return false;
    }
    let mut i: usize = 0;
    while i < x.len()
        invariant
            i <= x.len(),
            x.len() == y.len(),
            x@ == a@,
            y@ == b@,
            forall|j: int| 0 <= j < i ==> ascii_lower(#[trigger] x@[j]) == ascii_lower(y@[j]),
        decreases x.len() - i,
    {
        if char_ascii_lower(x[i]) != char_ascii_lower(y[i]) {
            return false;
        }
        i = i + 1;
    }
    true
}

/// The words of a text.
pub fn split_words(s: &str) -> (r: Vec<String>)
    ensures
        r@.map_values(|w: String| w@) == words(s@),
{
    let cs = chars_of(s);
    let mut ws: Vec<Vec<char>> = Vec::new();
    let mut i: usize = 0;
    assert(cs@.take(0) =~= Seq::<char>::empty());
    assert(ws@.map_values(|w: Vec<char>| w@) =~= Seq::<Seq<char>>::empty());
    while i < cs.len()
        invariant
            i <= cs.len(),
            cs@ == s@,
            ws@.map_values(|w: Vec<char>| w@) == words(cs@.take(i as int)),
        decreases cs.len() - i,
    {
        let ghost t = cs@.take(i + 1);
        assert(t.drop_last() == cs@.take(i as int));
        assert(t.last() == cs@[i as int]);
        let c = cs[i];
        let ghost before = ws@.map_values(|w: Vec<char>| w@);
        if char_is_space(c) {
        } else if i >= 1 && !char_is_space(cs[i - 1]) {
            assert(t[t.len() - 2] == cs@[i - 1]);
            proof {
                assert(cs@.take(i as int).last() == cs@[i - 1]);
                lemma_words_nonempty(cs@.take(i as int));
            }
            let k = ws.len() - 1;
            let mut last = ws.pop().unwrap();
            last.push(c);
            ws.push(last);
            assert(ws@.map_values(|w: Vec<char>| w@) =~= before.update(k as int, before.last().push(c)));
        } else {
            let mut w: Vec<char> = Vec::new();
            w.push(c);
            ws.push(w);
            assert(ws@.map_values(|w: Vec<char>| w@) =~= before.push(seq![c]));
        }
        i = i + 1;
    }
    assert(cs@.take(cs.len() as int) == cs@);
    let mut r: Vec<String> = Vec::new();
    let mut j: usize = 0;
    while j < ws.len()
        invariant
            j <= ws.len(),
            r@.map_values(|w: String| w@) == ws@.map_values(|w: Vec<char>| w@).take(j as int),
        decreases ws.len() - j,
    {
        let ghost before = r@.map_values(|w: String| w@);
        r.push(string_of(&ws[j]));
        assert(r@.map_values(|w: String| w@) =~= before.push(ws@[j as int]@));
        j = j + 1;
    }
    assert(ws@.map_values(|w: Vec<char>| w@).take(ws.len() as int) == ws@.map_values(|w: Vec<char>| w@));
    r
}

} // verus!
