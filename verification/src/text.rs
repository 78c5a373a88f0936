//! Characters and strings: building strings a character at a time, and the
//! character classes and case mapping of the standard library.
use vstd::prelude::*;

verus! {

/// Appends `c` to `s`: `String::push`. Trusted: its documentation says it appends
/// the character to the end of the string, which is all that is claimed.
#[verifier::external_body]
pub(crate) fn push_char(s: &mut String, c: char)
    ensures
        final(s)@ == old(s)@.push(c),
{
    s.push(c);
}

/// The characters of `s`, in order.
pub fn chars_of(s: &str) -> (r: Vec<char>)
    ensures
        r@ == s@,
{
    let mut r: Vec<char> = Vec::new();
    for c in it: s.chars()
        invariant
            r@ == it.seq().take(it.index() as int),
            it.seq() == s@,
    {
        r.push(c);
    }
    r
}

/// A string holding the characters `cs[from..to]`.
pub fn string_from(cs: &Vec<char>, from: usize, to: usize) -> (s: String)
    requires
        from <= to <= cs@.len(),
    ensures
        s@ == cs@.subrange(from as int, to as int),
{
    let mut s = String::new();
    let mut i = from;
    while i < to
        invariant
            from <= i <= to <= cs@.len(),
            s@ == cs@.subrange(from as int, i as int),
        decreases to - i,
    {
        push_char(&mut s, cs[i]);
        assert(cs@.subrange(from as int, i + 1) =~= cs@.subrange(from as int, i as int).push(cs@[i as int]));
        i = i + 1;
    }
    s
}

/// The decimal digit `d` (0..=9) as a character.
pub open spec fn digit_char(d: int) -> char {
    (48 + d) as char
}

/// `x` (below 10000) written with exactly four decimal digits, zero-padded
/// (what `format!("{:04}", x)` writes).
pub open spec fn four_digits(x: int) -> Seq<char> {
    seq![
        digit_char(x / 1000),
        digit_char((x / 100) % 10),
        digit_char((x / 10) % 10),
        digit_char(x % 10),
    ]
}

pub fn push_digit(s: &mut String, d: u32)
    requires
        d < 10,
    ensures
        final(s)@ == old(s)@.push(digit_char(d as int)),
{
    let c = (48u8 + d as u8) as char;
    push_char(s, c);
}

/// Appends `x` as four zero-padded decimal digits.
pub fn push_four_digits(s: &mut String, x: u32)
    requires
        x < 10000,
    ensures
        final(s)@ == old(s)@ + four_digits(x as int),
{
    push_digit(s, x / 1000);
    push_digit(s, (x / 100) % 10);
    push_digit(s, (x / 10) % 10);
    push_digit(s, x % 10);
}

} // verus!

verus! {

/// Whether `c` has the Unicode `White_Space` property, which `char::is_whitespace`
/// and `str::trim` go by: the 25 code points that the Unicode Character Database
/// (PropList.txt) lists for it.
pub open spec fn white_space(c: char) -> bool {
    let v = c as u32;
    ||| 0x9 <= v <= 0xD
    ||| v == 0x20
    ||| v == 0x85
    ||| v == 0xA0
    ||| v == 0x1680
    ||| 0x2000 <= v <= 0x200A
    ||| v == 0x2028
    ||| v == 0x2029
    ||| v == 0x202F
    ||| v == 0x205F
    ||| v == 0x3000
}

/// The lowercase mapping of a string under Unicode's `Lowercase` rules, as
/// `str::to_lowercase` computes it.
pub uninterp spec fn unicode_lowercase(s: Seq<char>) -> Seq<char>;

/// Whether `c` has the Unicode `White_Space` property (`white_space`), as
/// `char::is_whitespace` tells.
pub fn is_white_space(c: char) -> (b: bool)
    ensures
        b == white_space(c),
{
    let v = c as u32;
    (0x9 <= v && v <= 0xD) || v == 0x20 || v == 0x85 || v == 0xA0 || v == 0x1680 || (0x2000 <= v
        && v <= 0x200A) || v == 0x2028 || v == 0x2029 || v == 0x202F || v == 0x205F || v == 0x3000
}

/// An ASCII character in lowercase: `A` to `Z` become `a` to `z`, others stay.
pub open spec fn ascii_lower(c: char) -> char {
    if 'A' <= c <= 'Z' {
        ((c as u32) + 32) as char
    } else {
        c
    }
}

/// Every character of `s` is ASCII.
pub open spec fn ascii_text(s: Seq<char>) -> bool {
    forall|i: int| 0 <= i < s.len() ==> (s[i] as u32) < 0x80
}

/// The lowercase of `s`: the ASCII lowercase of ASCII text, the Unicode lowercase
/// (`unicode_lowercase`) of any other text.
pub open spec fn lowercase_of(s: Seq<char>) -> Seq<char> {
    if ascii_text(s) {
        s.map_values(|c: char| ascii_lower(c))
    } else {
        unicode_lowercase(s)
    }
}

/// The lowercase equivalent of `s`: `str::to_lowercase`. Trusted: the result is
/// `unicode_lowercase(s)`, a function of `s` alone, and on ASCII text it is the
/// ASCII lowercase (the Unicode lowercase mapping of `A` to `Z` is `a` to `z`,
/// and other ASCII characters map to themselves); what it does to other
/// characters is not stated here.
#[verifier::external_body]
pub(crate) fn to_lowercase(s: &str) -> (r: String)
    ensures
        r@ == unicode_lowercase(s@),
        ascii_text(s@) ==> r@ == s@.map_values(|c: char| ascii_lower(c)),
{
    s.to_lowercase()
}

/// `a` and `b` hold the same characters.
pub fn same_text(a: &str, b: &str) -> (r: bool)
    ensures
        r == (a@ == b@),
{
    let x = chars_of(a);
    let y = chars_of(b);
    if x.len() != y.len() {
        return false;
    }
    let mut i: usize = 0;
    while i < x.len()
        invariant
            x@ == a@,
            y@ == b@,
            x@.len() == y@.len(),
            i <= x@.len(),
            forall|k: int| 0 <= k < i ==> x@[k] == y@[k],
        decreases x@.len() - i,
    {
        if x[i] != y[i] {
            return false;
        }
        i = i + 1;
    }
    assert(x@ =~= y@);
    true
}

/// The pieces of `s` between occurrences of `sep` (what `str::split` with a
/// character separator yields): one more piece than there are separators.
pub open spec fn split_on(s: Seq<char>, sep: char) -> Seq<Seq<char>>
    decreases s.len(),
{
    if s.len() == 0 {
        seq![Seq::<char>::empty()]
    } else {
        let prev = split_on(s.drop_last(), sep);
        if s.last() == sep {
            prev.push(Seq::<char>::empty())
        } else {
            prev.update(prev.len() - 1, prev.last().push(s.last()))
        }
    }
}

pub(crate) proof fn lemma_split_on_nonempty(s: Seq<char>, sep: char)
    ensures
        split_on(s, sep).len() >= 1,
    decreases s.len(),
{
    if s.len() > 0 {
        lemma_split_on_nonempty(s.drop_last(), sep);
    }
}

/// Position of the first character at or after `i` that is not white space.
pub open spec fn skip_white(s: Seq<char>, i: int) -> int
    decreases s.len() - i,
{
    if 0 <= i < s.len() && white_space(s[i]) {
        skip_white(s, i + 1)
    } else {
        i
    }
}

/// One past the last character before `j` that is not white space.
pub open spec fn skip_white_back(s: Seq<char>, j: int) -> int
    decreases j,
{
    if 0 < j <= s.len() && white_space(s[j - 1]) {
        skip_white_back(s, j - 1)
    } else {
        j
    }
}

/// `s` without leading and trailing white space (`str::trim`).
pub open spec fn trimmed(s: Seq<char>) -> Seq<char> {
    let lo = skip_white(s, 0);
    let hi = skip_white_back(s, s.len() as int);
    if hi <= lo {
        Seq::empty()
    } else {
        s.subrange(lo, hi)
    }
}

/// `cs` without leading and trailing white space (`str::trim`).
pub fn trim_chars(cs: &Vec<char>) -> (r: String)
    ensures
        r@ == trimmed(cs@),
{
    let n = cs.len();
    let mut lo: usize = 0;
    while lo < n && is_white_space(cs[lo])
        invariant
            n == cs@.len(),
            lo <= n,
            skip_white(cs@, 0) == skip_white(cs@, lo as int),
        decreases n - lo,
    {
        lo = lo + 1;
    }
    let mut hi: usize = n;
    while hi > 0 && is_white_space(cs[hi - 1])
        invariant
            n == cs@.len(),
            hi <= n,
            skip_white_back(cs@, n as int) == skip_white_back(cs@, hi as int),
        decreases hi,
    {
        hi = hi - 1;
    }
    if hi <= lo {
        String::new()
    } else {
        string_from(cs, lo, hi)
    }
}

} // verus!

verus! {

/// The pieces of `cs` between occurrences of `sep`, in order.
pub fn split_chars(cs: &Vec<char>, sep: char) -> (pieces: Vec<Vec<char>>)
    ensures
        pieces@.len() == split_on(cs@, sep).len(),
        forall|k: int| 0 <= k < pieces@.len() ==> (#[trigger] pieces@[k])@ == split_on(cs@, sep)[k],
{
    let mut done: Vec<Vec<char>> = Vec::new();
    let mut cur: Vec<char> = Vec::new();
    let mut i: usize = 0;
    assert(cs@.take(0) =~= Seq::<char>::empty());
    while i < cs.len()
        invariant
            i <= cs@.len(),
            done@.len() + 1 == split_on(cs@.take(i as int), sep).len(),
            forall|k: int| 0 <= k < done@.len() ==> (#[trigger] done@[k])@ == split_on(cs@.take(i as int), sep)[k],
            cur@ == split_on(cs@.take(i as int), sep).last(),
        decreases cs@.len() - i,
    {
        let c = cs[i];
        let ghost pre = cs@.take(i as int);
        assert(cs@.take(i + 1).drop_last() =~= pre);
        assert(cs@.take(i + 1).last() == c);
        proof {
            lemma_split_on_nonempty(pre, sep);
        }
        if c == sep {
            let ghost old_done = done@;
            done.push(cur);
            cur = Vec::new();
            proof {
                let sp = split_on(cs@.take(i + 1), sep);
                assert(sp == split_on(pre, sep).push(Seq::<char>::empty()));
                assert forall|k: int| 0 <= k < done@.len() implies (#[trigger] done@[k])@ == sp[k] by {
                    if k < old_done.len() {
                        assert(done@[k] == old_done[k]);
                    }
                }
            }
        } else {
            cur.push(c);
        }
        i = i + 1;
    }
    assert(cs@.take(cs@.len() as int) =~= cs@);
    let ghost old_done = done@;
    done.push(cur);
    proof {
        lemma_split_on_nonempty(cs@, sep);
        assert forall|k: int| 0 <= k < done@.len() implies (#[trigger] done@[k])@ == split_on(cs@, sep)[k] by {
            if k < old_done.len() {
                assert(done@[k] == old_done[k]);
            }
        }
    }
    done
}


/// Splitting `s` at its first `c`: the part before and the part after.
pub open spec fn split_once(s: Seq<char>, c: char) -> Option<(Seq<char>, Seq<char>)> {
    if exists|i: int| 0 <= i < s.len() && s[i] == c {
        let i = choose|i: int| 0 <= i < s.len() && s[i] == c && forall|j: int| 0 <= j < i ==> s[j] != c;
        Some((s.subrange(0, i), s.subrange(i + 1, s.len() as int)))
    } else {
        None
    }
}

/// Position of the first `c` in `cs[from..]`, or `cs.len()`.
pub(crate) fn find_char(cs: &Vec<char>, from: usize, c: char) -> (p: usize)
    requires
        from <= cs@.len(),
    ensures
        from <= p <= cs@.len(),
        forall|j: int| from <= j < p ==> cs@[j] != c,
        p < cs@.len() ==> cs@[p as int] == c,
{
    let mut p = from;
    while p < cs.len() && cs[p] != c
        invariant
            from <= p <= cs@.len(),
            forall|j: int| from <= j < p ==> cs@[j] != c,
        decreases cs@.len() - p,
    {
        p = p + 1;
    }
    p
}

pub(crate) proof fn lemma_split_once_at(s: Seq<char>, c: char, p: int)
    requires
        0 <= p <= s.len(),
        forall|j: int| 0 <= j < p ==> s[j] != c,
        p < s.len() ==> s[p] == c,
    ensures
        p == s.len() ==> split_once(s, c) is None,
        p < s.len() ==> split_once(s, c) == Some((s.subrange(0, p), s.subrange(p + 1, s.len() as int))),
{
    if p < s.len() {
        let i = choose|i: int| 0 <= i < s.len() && s[i] == c && forall|j: int| 0 <= j < i ==> s[j] != c;
        assert(i == p) by {
            if i < p {
                assert(s[i] != c);
            }
            if i > p {
                assert(s[p] != c);
            }
        }
    }
}

/// Splits `s` at its first `c` (`str::split_once`).
pub fn split_at_first(s: &str, c: char) -> (r: Option<(String, String)>)
    ensures
        match split_once(s@, c) {
            None => r is None,
            Some((a, b)) => r matches Some((x, y)) && x@ == a && y@ == b,
        },
{
    let cs = chars_of(s);
    let p = find_char(&cs, 0, c);
    proof {
        lemma_split_once_at(s@, c, p as int);
    }
    if p == cs.len() {
        None
    } else {
        Some((string_from(&cs, 0, p), string_from(&cs, p + 1, cs.len())))
    }
}

} // verus!
