use vstd::prelude::*;

verus! {

/// The number of bytes that UTF-8 takes for a character.
pub open spec fn utf8_width(c: char) -> nat {
    if (c as u32) < 0x80 {
        1
    } else if (c as u32) < 0x800 {
        2
    } else if (c as u32) < 0x10000 {
        3
    } else {
        4
    }
}

/// The number of bytes that UTF-8 takes for a sequence of characters.
pub open spec fn utf8_len(s: Seq<char>) -> nat
    decreases s.len(),
{
    if s.len() == 0 {
        0
    } else {
        utf8_len(s.drop_last()) + utf8_width(s.last())
    }
}

/// The pieces of a pattern between its `%` characters, as `str::split('%')` gives them:
/// one more piece than there are `%`, empty pieces included.
pub open spec fn split_percent(p: Seq<char>) -> Seq<Seq<char>>
    decreases p.len(),
{
    if p.len() == 0 {
        seq![Seq::empty()]
    } else {
        let rest = split_percent(p.drop_last());
        if p.last() == '%' {
            rest.push(Seq::empty())
        } else {
            rest.update(rest.len() - 1, rest.last().push(p.last()))
        }
    }
}

/// Whether `s` begins with `part`.
pub open spec fn starts_with(s: Seq<char>, part: Seq<char>) -> bool {
    part.len() <= s.len() && s.take(part.len() as int) == part
}

/// Whether `s` ends with `part`.
pub open spec fn ends_with(s: Seq<char>, part: Seq<char>) -> bool {
    part.len() <= s.len() && s.skip(s.len() - part.len()) == part
}

/// The first position at or after `k` where `part` occurs in `s`.
pub open spec fn find_from(s: Seq<char>, part: Seq<char>, k: int) -> Option<int>
    decreases s.len() + 1 - k,
{
    if k < 0 || k + part.len() > s.len() {
        None
    } else if s.subrange(k, k + part.len()) == part {
        Some(k)
    } else {
        find_from(s, part, k + 1)
    }
}

/// The pieces of a pattern with two or more `%`, matched from piece `i` on, where `pos`
/// is the position reached in the text. The first piece must begin the text, the last
/// must end it, and each middle piece is searched for from `pos`, which then advances
/// by the piece's byte offset in the rest of the text plus the piece's length in
/// characters. `None` stands for a search that would start past the end of the text,
/// which cannot be carried out.
pub open spec fn match_pieces(text: Seq<char>, parts: Seq<Seq<char>>, i: int, pos: int) -> Option<
    bool,
>
    decreases parts.len() - i,
{
    if i < 0 || i >= parts.len() {
        Some(true)
    } else if i == 0 {
        if !starts_with(text, parts[0]) {
            Some(false)
        } else {
            match_pieces(text, parts, 1, parts[0].len() as int)
        }
    } else if i == parts.len() - 1 {
        Some(text.len() >= pos + parts[i].len() && ends_with(text, parts[i]))
    } else if pos > text.len() {
        None
    } else {
        let rest = text.skip(pos);
        match find_from(rest, parts[i], 0) {
            Some(k) => match_pieces(
                text,
                parts,
                i + 1,
                pos + utf8_len(rest.take(k)) + parts[i].len(),
            ),
            None => Some(false),
        }
    }
}

/// The pieces `parts[i..]` occur in the text in order from position `pos` on, each after
/// the one before, the last at the end of the text.
pub open spec fn fits_from(text: Seq<char>, parts: Seq<Seq<char>>, i: int, pos: int) -> bool
    decreases parts.len() - i,
{
    if i < 0 || i >= parts.len() {
        false
    } else if i == parts.len() - 1 {
        pos + parts[i].len() <= text.len() && ends_with(text, parts[i])
    } else {
        exists|x: int|
            pos <= x && x + parts[i].len() <= text.len() && #[trigger] text.subrange(x, x + parts[i].len())
                == parts[i] && fits_from(text, parts, i + 1, x + parts[i].len())
    }
}

/// The text is the pieces of a pattern in order, with any text between them: the first
/// piece at the start, the last at the end.
pub open spec fn pieces_fit(text: Seq<char>, parts: Seq<Seq<char>>) -> bool {
    parts.len() >= 2 && starts_with(text, parts[0]) && fits_from(text, parts, 1, parts[0].len() as int)
}

/// Whether a text matches a LIKE pattern. Without `%` the pattern must equal the text; with
/// one `%` the text must begin with the piece before it and end with the piece after it;
/// with more, the pieces are searched for as `match_pieces` says, and where that search
/// would start past the end of the text, the text matches when it is the pieces in order.
pub open spec fn like_outcome(text: Seq<char>, pattern: Seq<char>) -> bool {
    if !pattern.contains('%') {
        text == pattern
    } else {
        let parts = split_percent(pattern);
        if parts.len() == 2 {
            starts_with(text, parts[0]) && ends_with(text, parts[1])
        } else {
            match match_pieces(text, parts, 0, 0) {
                Some(m) => m,
                None => pieces_fit(text, parts),
            }
        }
    }
}

/// The pieces `parts[i..]` placed from `pos` on, each middle piece at its first occurrence.
spec fn first_fit(text: Seq<char>, parts: Seq<Seq<char>>, i: int, pos: int) -> bool
    decreases parts.len() - i,
{
    if i < 0 || i >= parts.len() {
        false
    } else if i == parts.len() - 1 {
        pos + parts[i].len() <= text.len() && ends_with(text, parts[i])
    } else {
        match find_from(text, parts[i], pos) {
            Some(x) => first_fit(text, parts, i + 1, x + parts[i].len()),
            None => false,
        }
    }
}

/// An occurrence at or after `k` is found, at or before it.
proof fn lemma_find_from_least(s: Seq<char>, part: Seq<char>, k: int, x: int)
    requires
        0 <= k <= x,
        x + part.len() <= s.len(),
        s.subrange(x, x + part.len()) == part,
    ensures
        find_from(s, part, k) matches Some(y) && k <= y <= x,
    decreases x - k,
{
    if s.subrange(k, k + part.len()) != part {
        lemma_find_from_least(s, part, k + 1, x);
    }
}

/// Pieces that fit from a position fit from any earlier one.
proof fn lemma_fits_earlier(text: Seq<char>, parts: Seq<Seq<char>>, i: int, p1: int, p2: int)
    requires
        p1 <= p2,
        fits_from(text, parts, i, p2),
    ensures
        fits_from(text, parts, i, p1),
{
    if 0 <= i < parts.len() - 1 {
        let x = choose|x: int|
            p2 <= x && x + parts[i].len() <= text.len() && #[trigger] text.subrange(x, x + parts[i].len())
                == parts[i] && fits_from(text, parts, i + 1, x + parts[i].len());
        assert(p1 <= x);
    }
}

/// Placing each middle piece at its first occurrence fits exactly where some placement does.
proof fn lemma_first_fit(text: Seq<char>, parts: Seq<Seq<char>>, i: int, pos: int)
    requires
        0 <= pos,
        0 <= i < parts.len(),
    ensures
        first_fit(text, parts, i, pos) == fits_from(text, parts, i, pos),
    decreases parts.len() - i,
{
    if i < parts.len() - 1 {
        let len = parts[i].len() as int;
        lemma_find_from_bounds(text, parts[i], pos);
        match find_from(text, parts[i], pos) {
            Some(y) => {
                lemma_first_fit(text, parts, i + 1, y + len);
                if fits_from(text, parts, i, pos) {
                    let x = choose|x: int|
                        pos <= x && x + len <= text.len() && #[trigger] text.subrange(x, x + len) == parts[i]
                            && fits_from(text, parts, i + 1, x + len);
                    lemma_find_from_least(text, parts[i], pos, x);
                    lemma_fits_earlier(text, parts, i + 1, y + len, x + len);
                }
                if first_fit(text, parts, i, pos) {
                    assert(text.subrange(y, y + len) == parts[i]);
                }
            },
            None => {
                if fits_from(text, parts, i, pos) {
                    let x = choose|x: int|
                        pos <= x && x + len <= text.len() && #[trigger] text.subrange(x, x + len) == parts[i]
                            && fits_from(text, parts, i + 1, x + len);
                    lemma_find_from_least(text, parts[i], pos, x);
                }
            },
        }
    }
}

proof fn lemma_split_nonempty(p: Seq<char>)
    ensures
        split_percent(p).len() >= 1,
    decreases p.len(),
{
    if p.len() > 0 {
        lemma_split_nonempty(p.drop_last());
    }
}

proof fn lemma_split_count(p: Seq<char>)
    ensures
        split_percent(p).len() == 1 <==> !p.contains('%'),
    decreases p.len(),
{
    if p.len() > 0 {
        lemma_split_count(p.drop_last());
        lemma_split_nonempty(p.drop_last());
        if p.last() == '%' {
            assert(p.contains('%')) by {
                assert(p[p.len() - 1] == '%');
            }
        } else {
            assert(p.contains('%') <==> p.drop_last().contains('%')) by {
                if p.contains('%') {
                    let j = choose|j: int| 0 <= j < p.len() && p[j] == '%';
                    assert(j < p.len() - 1);
                    assert(p.drop_last()[j] == '%');
                }
                if p.drop_last().contains('%') {
                    let j = choose|j: int| 0 <= j < p.len() - 1 && p.drop_last()[j] == '%';
                    assert(p[j] == '%');
                }
            }
        }
    }
}

/// Splits a pattern at its `%` characters.
fn split_on_percent(p: &Vec<char>) -> (r: Vec<Vec<char>>)
    ensures
        r@.len() == split_percent(p@).len(),
        forall|i: int| 0 <= i < r@.len() ==> #[trigger] r@[i]@ == split_percent(p@)[i],
{
    let mut parts: Vec<Vec<char>> = Vec::new();
    let mut cur: Vec<char> = Vec::new();
    let mut i: usize = 0;
    proof {
        lemma_split_nonempty(p@.take(0));
        assert(p@.take(0) == Seq::<char>::empty());
    }
    while i < p.len()
        invariant
            i <= p.len(),
            parts@.len() + 1 == split_percent(p@.take(i as int)).len(),
            forall|j: int| 0 <= j < parts@.len() ==> #[trigger] parts@[j]@ == split_percent(
                p@.take(i as int),
            )[j],
            cur@ == split_percent(p@.take(i as int)).last(),
        decreases p.len() - i,
    {
        let c = p[i];
        let ghost before = p@.take(i as int);
        assert(p@.take(i + 1).drop_last() == before);
        assert(p@.take(i + 1).last() == c);
        proof {
            lemma_split_nonempty(before);
        }
        if c == '%' {
            parts.push(cur);
            cur = Vec::new();
        } else {
            cur.push(c);
        }
        i = i + 1;
    }
    assert(p@.take(p.len() as int) == p@);
    parts.push(cur);
    parts
}

/// Whether `s` begins with `part` (character sequences).
pub(crate) fn seq_starts_with(s: &Vec<char>, part: &Vec<char>) -> (r: bool)
    ensures
        r == starts_with(s@, part@),
{
    if part.len() > s.len() {
        return false;
    }
    matches_at(s, part, 0)
}

/// Whether `part` occurs in `s` at position `k`.
fn matches_at(s: &Vec<char>, part: &Vec<char>, k: usize) -> (r: bool)
    requires
        k + part.len() <= s.len(),
    ensures
        r == (s@.subrange(k as int, k + part.len()) == part@),
{
    let mut j: usize = 0;
    while j < part.len()
        invariant
            j <= part.len(),
            k + part.len() <= s.len(),
            forall|t: int| 0 <= t < j ==> s@[k + t] == part@[t],
        decreases part.len() - j,
    {
        if s[k + j] != part[j] {
            assert(s@.subrange(k as int, k + part.len())[j as int] != part@[j as int]);
            return false;
        }
        j = j + 1;
    }
    assert(s@.subrange(k as int, k + part.len()) == part@);
    true
}

/// Whether `s` ends with `part` (character sequences).
fn seq_ends_with(s: &Vec<char>, part: &Vec<char>) -> (r: bool)
    ensures
        r == ends_with(s@, part@),
{
    if part.len() > s.len() {
        return false;
    }
    let k = s.len() - part.len();
    let r = matches_at(s, part, k);
    assert(s@.subrange(k as int, k + part.len()) == s@.skip(k as int));
    r
}

/// The first position at or after `k` where `part` occurs in `s`.
fn find_part(s: &Vec<char>, part: &Vec<char>, k: usize) -> (r: Option<usize>)
    ensures
        r matches Some(x) ==> find_from(s@, part@, k as int) == Some(x as int),
        r is None ==> find_from(s@, part@, k as int) is None,
    decreases s.len() + 1 - k,
{
    if part.len() > s.len() || k > s.len() - part.len() {
        return None;
    }
    if matches_at(s, part, k) {
        Some(k)
    } else {
        proof {
            if part.len() == 0 {
                assert(s@.subrange(k as int, k as int) =~= part@);
            }
        }
        find_part(s, part, k + 1)
    }
}

/// The number of bytes that UTF-8 takes for a character.
pub(crate) fn char_width(c: char) -> (r: usize)
    ensures
        r == utf8_width(c),
{
    let u = c as u32;
    if u < 0x80 {
        1
    } else if u < 0x800 {
        2
    } else if u < 0x10000 {
        3
    } else {
        4
    }
}

proof fn lemma_find_from_bounds(s: Seq<char>, part: Seq<char>, k: int)
    ensures
        find_from(s, part, k) matches Some(x) ==> k <= x && x + part.len() <= s.len()
            && s.subrange(x, x + part.len()) == part,
    decreases s.len() + 1 - k,
{
    if !(k < 0 || k + part.len() > s.len()) && s.subrange(k, k + part.len()) != part {
        lemma_find_from_bounds(s, part, k + 1);
    }
}

proof fn lemma_utf8_len_bound(s: Seq<char>)
    ensures
        utf8_len(s) <= 4 * s.len(),
    decreases s.len(),
{
    if s.len() > 0 {
        lemma_utf8_len_bound(s.drop_last());
    }
}

/// The number of bytes that UTF-8 takes for the first `k` characters of `s` after `from`.
fn utf8_prefix_len(s: &Vec<char>, from: usize, k: usize) -> (r: u128)
    requires
        from + k <= s.len(),
    ensures
        r == utf8_len(s@.skip(from as int).take(k as int)),
{
    let mut n: u128 = 0;
    let mut j: usize = 0;
    while j < k
        invariant
            j <= k,
            from + k <= s.len(),
            n == utf8_len(s@.skip(from as int).take(j as int)),
        decreases k - j,
    {
        proof {
            lemma_utf8_len_bound(s@.skip(from as int).take(j as int));
        }
        let w = char_width(s[from + j]);
        assert(s@.skip(from as int).take(j + 1).drop_last() == s@.skip(from as int).take(j as int));
        n = n + (w as u128);
        j = j + 1;
    }
    n
}

/// The character sequences of a list of pieces.
pub open spec fn piece_views(v: Seq<Vec<char>>) -> Seq<Seq<char>> {
    v.map_values(|p: Vec<char>| p@)
}

/// Matches the pieces of a pattern with two or more `%` against a text.
fn match_pieces_exec(text: &Vec<char>, parts: &Vec<Vec<char>>) -> (r: Option<bool>)
    requires
        parts.len() >= 3,
    ensures
        r == match_pieces(text@, piece_views(parts@), 0, 0),
{
    let ghost ps = piece_views(parts@);
    let ghost result = match_pieces(text@, ps, 0, 0);
    if !seq_starts_with(text, &parts[0]) {
        return Some(false);
    }
    assert(ps[0] == parts@[0]@);
    let mut pos: u128 = parts[0].len() as u128;
    let mut i: usize = 1;
    while i < parts.len()
        invariant
            1 <= i <= parts.len(),
            parts.len() >= 3,
            ps == piece_views(parts@),
            result == match_pieces(text@, ps, 0, 0),
            pos <= 4 * text.len(),
            match_pieces(text@, ps, i as int, pos as int) == result,
        decreases parts.len() - i,
    {
        assert(ps[i as int] == parts@[i as int]@);
        if i == parts.len() - 1 {
            let last = &parts[i];
            let r = (text.len() as u128) >= pos + (last.len() as u128) && seq_ends_with(text, last);
            return Some(r);
        }
        if pos > text.len() as u128 {
            return None;
        }
        let p: usize = pos as usize;
        let part = &parts[i];
        let mut rest: Vec<char> = Vec::new();
        let mut t: usize = p;
        while t < text.len()
            invariant
                p <= t <= text.len(),
                rest@ == text@.subrange(p as int, t as int),
            decreases text.len() - t,
        {
            rest.push(text[t]);
            t = t + 1;
        }
        assert(rest@ == text@.skip(p as int));
        match find_part(&rest, part, 0) {
            Some(k) => {
                proof {
                    lemma_find_from_bounds(rest@, part@, 0);
                }
                let b = utf8_prefix_len(text, p, k);
                proof {
                    assert(text@.skip(p as int).take(k as int) == rest@.take(k as int));
                    lemma_utf8_len_bound(rest@.take(k as int));
                }
                pos = pos + b + (part.len() as u128);
            },
            None => {
                return Some(false);
            },
        }
        i = i + 1;
    }
    Some(true)
}

/// Whether the text is the pieces of a pattern in order.
fn fit_pieces_exec(text: &Vec<char>, parts: &Vec<Vec<char>>) -> (r: bool)
    requires
        parts.len() >= 2,
    ensures
        r == pieces_fit(text@, piece_views(parts@)),
{
    let ghost ps = piece_views(parts@);
    assert(ps[0] == parts@[0]@);
    if !seq_starts_with(text, &parts[0]) {
        return false;
    }
    let mut pos: usize = parts[0].len();
    let mut i: usize = 1;
    proof {
        lemma_first_fit(text@, ps, 1, pos as int);
    }
    while i < parts.len() - 1
        invariant
            1 <= i <= parts.len() - 1,
            parts.len() >= 2,
            ps == piece_views(parts@),
            pos <= text.len(),
            first_fit(text@, ps, i as int, pos as int) == pieces_fit(text@, ps),
        decreases parts.len() - i,
    {
        assert(ps[i as int] == parts@[i as int]@);
        match find_part(text, &parts[i], pos) {
            Some(x) => {
                proof {
                    lemma_find_from_bounds(text@, ps[i as int], pos as int);
                }
                pos = x + parts[i].len();
            },
            None => {
                return false;
            },
        }
        i = i + 1;
    }
    let last = &parts[i];
    assert(ps[i as int] == parts@[i as int]@);
    last.len() <= text.len() - pos && seq_ends_with(text, last)
}

/// Matches a text against a LIKE pattern.
pub fn like_match(text: &Vec<char>, pattern: &Vec<char>) -> (r: bool)
    ensures
        r == like_outcome(text@, pattern@),
{
    let parts = split_on_percent(pattern);
    proof {
        lemma_split_count(pattern@);
        lemma_split_nonempty(pattern@);
        assert(piece_views(parts@) =~= split_percent(pattern@));
    }
    if parts.len() == 1 {
        crate::text::chars_equal(text, pattern)
    } else if parts.len() == 2 {
        seq_starts_with(text, &parts[0]) && seq_ends_with(text, &parts[1])
    } else {
        match match_pieces_exec(text, &parts) {
            Some(m) => m,
            None => fit_pieces_exec(text, &parts),
        }
    }
}

} // verus!
