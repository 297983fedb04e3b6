use vstd::prelude::*;

verus! {

/// `p` stands in `s` starting at index `i`.
pub open spec fn occurs_at(s: Seq<char>, p: Seq<char>, i: int) -> bool {
    0 <= i && i + p.len() <= s.len() && s.subrange(i, i + p.len()) == p
}

/// `p` stands somewhere in `s`.
pub open spec fn contains_text(s: Seq<char>, p: Seq<char>) -> bool {
    exists|i: int| occurs_at(s, p, i)
}

/// `s` ends with `p`.
pub open spec fn ends_with_text(s: Seq<char>, p: Seq<char>) -> bool {
    p.len() <= s.len() && s.subrange(s.len() - p.len(), s.len() as int) == p
}

/// The first index at or after `from` where `c` stands in `s`, if any.
pub open spec fn first_from(s: Seq<char>, c: char, from: int) -> Option<int> {
    if exists|i: int| from <= i < s.len() && s[i] == c {
        Some(choose|i: int| from <= i < s.len() && s[i] == c && forall|k: int| from <= k < i ==> s[k] != c)
    } else {
        None
    }
}

/// The first index at which `p` stands in `s`, if any.
pub open spec fn first_occurrence(s: Seq<char>, p: Seq<char>) -> Option<int> {
    if contains_text(s, p) {
        Some(choose|i: int| occurs_at(s, p, i) && forall|k: int| 0 <= k < i ==> !occurs_at(s, p, k))
    } else {
        None
    }
}

/// Whether two strings hold the same characters.
pub fn same_text(a: &str, b: &str) -> (r: bool)
    ensures
        r == (a@ == b@),
{
    let n = a.unicode_len();
    if n != b.unicode_len() {
        return false;
    }
    let mut i: usize = 0;
    while i < n
        invariant
            n == a@.len(),
            n == b@.len(),
            i <= n,
            a@.subrange(0, i as int) == b@.subrange(0, i as int),
        decreases n - i,
    {
        if a.get_char(i) != b.get_char(i) {
            return false;
        }
        assert(a@.subrange(0, i + 1) =~= a@.subrange(0, i as int).push(a@[i as int]));
        assert(b@.subrange(0, i + 1) =~= b@.subrange(0, i as int).push(b@[i as int]));
        i += 1;
    }
    assert(a@ =~= a@.subrange(0, n as int));
    assert(b@ =~= b@.subrange(0, n as int));
    true
}

/// Whether `p` stands in `s` at index `i`.
pub fn matches_at(s: &str, p: &str, i: usize) -> (r: bool)
    ensures
        r == occurs_at(s@, p@, i as int),
{
    let n = s.unicode_len();
    let m = p.unicode_len();
    if i > n || m > n - i {
        return false;
    }
    let mut j: usize = 0;
    while j < m
        invariant
            n == s@.len(),
            m == p@.len(),
            i + m <= n,
            j <= m,
            forall|k: int| 0 <= k < j ==> s@[i + k] == p@[k],
        decreases m - j,
    {
        if s.get_char(i + j) != p.get_char(j) {
            assert(s@.subrange(i as int, i + m)[j as int] != p@[j as int]);
            return false;
        }
        j += 1;
    }
    assert(s@.subrange(i as int, i + m) =~= p@);
    true
}

/// The first index at which `p` stands in `s`, if any.
pub fn find_text(s: &str, p: &str) -> (r: Option<usize>)
    ensures
        r.is_none() ==> !contains_text(s@, p@),
        r.is_some() ==> occurs_at(s@, p@, r.unwrap() as int) && forall|k: int|
            0 <= k < r.unwrap() ==> !occurs_at(s@, p@, k),
        r.is_none() == first_occurrence(s@, p@).is_none(),
        r.is_some() ==> first_occurrence(s@, p@) == Some(r.unwrap() as int),
{
    let n = s.unicode_len();
    let mut i: usize = 0;
    while i <= n
        invariant
            n == s@.len(),
            forall|k: int| 0 <= k < i ==> !occurs_at(s@, p@, k),
        decreases n + 1 - i,
    {
        if matches_at(s, p, i) {
            proof {
                let j = first_occurrence(s@, p@).unwrap();
                assert(occurs_at(s@, p@, i as int));
                if j < i {
                    assert(!occurs_at(s@, p@, j));
                }
                if j > i {
                    assert(!occurs_at(s@, p@, i as int));
                }
            }
            return Some(i);
        }
        if i == n {
            assert forall|k: int| !occurs_at(s@, p@, k) by {
                if occurs_at(s@, p@, k) {
                    assert(k <= n);
                }
            }
            return None;
        }
        i += 1;
    }
    None
}

/// Whether `p` stands anywhere in `s`.
pub fn contains(s: &str, p: &str) -> (r: bool)
    ensures
        r == contains_text(s@, p@),
{
    find_text(s, p).is_some()
}

/// Whether `s` ends with `p`.
pub fn ends_with(s: &str, p: &str) -> (r: bool)
    ensures
        r == ends_with_text(s@, p@),
{
    let n = s.unicode_len();
    let m = p.unicode_len();
    if m > n {
        return false;
    }
    matches_at(s, p, n - m)
}

/// Whether `h` is the text of one of `v`.
pub open spec fn holds_text(v: Seq<String>, h: Seq<char>) -> bool {
    exists|i: int| 0 <= i < v.len() && v[i]@ == h
}

/// The texts of a list of strings.
pub open spec fn texts(v: Seq<String>) -> Seq<Seq<char>> {
    v.map_values(|s: String| s@)
}

/// Whether `h` is the text of one of `v`.
pub fn contains_string(v: &Vec<String>, h: &String) -> (r: bool)
    ensures
        r == holds_text(v@, h@),
{
    let mut i: usize = 0;
    while i < v.len()
        invariant
            forall|k: int| 0 <= k < i ==> v@[k]@ != h@,
        decreases v.len() - i,
    {
        if v[i] == *h {
            return true;
        }
        i += 1;
    }
    false
}

/// Where the space-separated piece of `s` that starts at `from` ends: at the
/// next space, or at the end of `s`.
pub open spec fn piece_end(s: Seq<char>, from: int) -> int {
    if exists|i: int| from <= i < s.len() && s[i] == ' ' {
        choose|i: int| from <= i < s.len() && s[i] == ' ' && forall|k: int| from <= k < i ==> s[k] != ' '
    } else {
        s.len() as int
    }
}

/// The pieces of `s` from index `from` on, split at each space as
/// `str::split(' ')` does: empty pieces stay.
#[verifier::opaque]
pub open spec fn pieces_from(s: Seq<char>, from: int) -> Seq<Seq<char>>
    decreases s.len() - from,
{
    if from < 0 || from > s.len() {
        Seq::empty()
    } else {
        let e = piece_end(s, from);
        if e >= s.len() || e < from {
            seq![s.subrange(from, s.len() as int)]
        } else {
            seq![s.subrange(from, e)] + pieces_from(s, e + 1)
        }
    }
}

/// The pieces of `s` split at each space.
pub open spec fn pieces(s: Seq<char>) -> Seq<Seq<char>> {
    pieces_from(s, 0)
}

proof fn lemma_pieces_step(s: Seq<char>, start: int, e: int)
    requires
        0 <= start <= e <= s.len(),
        forall|k: int| start <= k < e ==> s[k] != ' ',
        e < s.len() ==> s[e] == ' ',
    ensures
        e < s.len() ==> pieces_from(s, start) == seq![s.subrange(start, e)] + pieces_from(s, e + 1),
        e == s.len() ==> pieces_from(s, start) == seq![s.subrange(start, e)],
{
    reveal(pieces_from);
    if e < s.len() {
        assert(piece_end(s, start) == e);
    } else {
        assert(!(exists|i: int| start <= i < s.len() && s[i] == ' '));
    }
}

/// Splits `s` at each space, keeping empty pieces.
pub fn split_spaces(s: &str) -> (r: Vec<String>)
    ensures
        texts(r@) == pieces(s@),
{
    let n = s.unicode_len();
    let mut out: Vec<String> = Vec::new();
    let mut start: usize = 0;
    loop
        invariant
            n == s@.len(),
            start <= n,
            texts(out@) + pieces_from(s@, start as int) == pieces(s@),
        decreases n - start,
    {
        let mut e: usize = start;
        while e < n && s.get_char(e) != ' '
            invariant
                start <= e <= n,
                n == s@.len(),
                forall|k: int| start <= k < e ==> s@[k] != ' ',
            decreases n - e,
        {
            e += 1;
        }
        let piece = s.substring_char(start, e);
        let ghost before = out@;
        let ghost p = s@.subrange(start as int, e as int);
        out.push(piece.to_owned());
        proof {
            lemma_pieces_step(s@, start as int, e as int);
            assert(texts(out@) =~= texts(before).push(p));
        }
        if e >= n {
            proof {
                assert(texts(out@) =~= texts(before) + pieces_from(s@, start as int));
            }
            return out;
        }
        proof {
            assert(texts(out@) + pieces_from(s@, e + 1) =~= texts(before) + pieces_from(s@, start as int));
        }
        start = e + 1;
    }
}

/// The first of `ws` that ends with `suf`.
pub open spec fn first_ending(ws: Seq<Seq<char>>, suf: Seq<char>) -> Option<Seq<char>>
    decreases ws.len(),
{
    if ws.len() == 0 {
        None
    } else if ends_with_text(ws[0], suf) {
        Some(ws[0])
    } else {
        first_ending(ws.drop_first(), suf)
    }
}

/// The index of the first of `words` that ends with `suf`.
pub fn find_ending(words: &Vec<String>, suf: &str) -> (r: Option<usize>)
    ensures
        r.is_none() == first_ending(texts(words@), suf@).is_none(),
        r.is_some() ==> r.unwrap() < words@.len() && first_ending(texts(words@), suf@) == Some(words@[r.unwrap() as int]@),
{
    let ghost ws = texts(words@);
    let mut i: usize = 0;
    assert(ws.skip(0) =~= ws);
    while i < words.len()
        invariant
            i <= words.len(),
            ws == texts(words@),
            first_ending(ws, suf@) == first_ending(ws.skip(i as int), suf@),
        decreases words.len() - i,
    {
        assert(ws.skip(i as int)[0] == words@[i as int]@);
        assert(ws.skip(i as int).drop_first() =~= ws.skip(i + 1));
        if ends_with(words[i].as_str(), suf) {
            return Some(i);
        }
        i += 1;
    }
    assert(ws.skip(i as int) =~= Seq::<Seq<char>>::empty());
    None
}

/// A character of the Unicode White_Space property, which `char::is_whitespace`
/// and so `str::trim` go by.
pub open spec fn is_white_space(c: char) -> bool {
    ('\u{9}' <= c && c <= '\u{d}') || c == ' ' || c == '\u{85}' || c == '\u{a0}' || c == '\u{1680}'
        || ('\u{2000}' <= c && c <= '\u{200a}') || c == '\u{2028}' || c == '\u{2029}' || c == '\u{202f}'
        || c == '\u{205f}' || c == '\u{3000}'
}

/// `s` without its leading white space.
pub open spec fn trim_front(s: Seq<char>) -> Seq<char>
    decreases s.len(),
{
    if s.len() > 0 && is_white_space(s[0]) {
        trim_front(s.drop_first())
    } else {
        s
    }
}

/// `s` without its trailing white space.
pub open spec fn trim_back(s: Seq<char>) -> Seq<char>
    decreases s.len(),
{
    if s.len() > 0 && is_white_space(s.last()) {
        trim_back(s.drop_last())
    } else {
        s
    }
}

/// What `str::trim` makes of a string: it without leading and trailing white space.
pub open spec fn trimmed(s: Seq<char>) -> Seq<char> {
    trim_back(trim_front(s))
}

fn white_space(c: char) -> (r: bool)
    ensures
        r == is_white_space(c),
{
    ('\u{9}' <= c && c <= '\u{d}') || c == ' ' || c == '\u{85}' || c == '\u{a0}' || c == '\u{1680}'
        || ('\u{2000}' <= c && c <= '\u{200a}') || c == '\u{2028}' || c == '\u{2029}' || c == '\u{202f}'
        || c == '\u{205f}' || c == '\u{3000}'
}

/// `s` without leading and trailing white space, as `str::trim` cuts it.
pub fn trim(s: &str) -> (r: &str)
    ensures
        r@ == trimmed(s@),
{
    let n = s.unicode_len();
    let mut i: usize = 0;
    assert(s@.subrange(0, n as int) =~= s@);
    while i < n && white_space(s.get_char(i))
        invariant
            i <= n,
            n == s@.len(),
            trim_front(s@) == trim_front(s@.subrange(i as int, n as int)),
        decreases n - i,
    {
        assert(s@.subrange(i as int, n as int).drop_first() =~= s@.subrange(i + 1, n as int));
        i += 1;
    }
    assert(trim_front(s@.subrange(i as int, n as int)) == s@.subrange(i as int, n as int));
    let mut j: usize = n;
    while j > i && white_space(s.get_char(j - 1))
        invariant
            i <= j <= n,
            n == s@.len(),
            trim_back(s@.subrange(i as int, n as int)) == trim_back(s@.subrange(i as int, j as int)),
        decreases j,
    {
        assert(s@.subrange(i as int, j as int).drop_last() =~= s@.subrange(i as int, j - 1));
        j -= 1;
    }
    assert(trim_back(s@.subrange(i as int, j as int)) == s@.subrange(i as int, j as int));
    s.substring_char(i, j)
}

/// What `str::to_lowercase` makes of a string.
pub uninterp spec fn lower_of(s: Seq<char>) -> Seq<char>;

/// Relies on `str::to_lowercase`: the result depends on the characters alone,
/// and an empty string stays empty.
#[verifier::external_body]
pub(crate) fn lowercase(s: &str) -> (r: String)
    ensures
        r@ == lower_of(s@),
        s@.len() == 0 ==> r@.len() == 0,
{
    s.to_lowercase()
}

} // verus!
