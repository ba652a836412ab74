//! Character-level string helpers shared by the engine and the app state.
//!
//! Strings are modelled by their views, `Seq<char>`.  Unicode case mapping is
//! delegated to std and appears in contracts only through the names
//! `lowercase`, `uppercase` and `char_uppercase`.

use vstd::prelude::*;
use vstd::string::StringExecFns;

verus! {

// ---------------------------------------------------------------------------
// Building strings
// ---------------------------------------------------------------------------

/// Appends one character to a string (`String::push`).
#[verifier::external_body]
pub(crate) fn push_char(s: &mut String, c: char)
    ensures
        final(s)@ == old(s)@.push(c),
{
    s.push(c);
}

/// A fresh `String` holding the given text.
pub fn owned(s: &str) -> (res: String)
    ensures
        res@ == s@,
{
    String::from_str(s)
}

/// Appends `t` to `s`.
pub fn push_text(s: &mut String, t: &str)
    ensures
        final(s)@ == old(s)@ + t@,
{
    s.append(t);
}

/// The characters of a string, in order.
pub fn chars_of(s: &str) -> (res: Vec<char>)
    ensures
        res@ == s@,
{
    let mut res: Vec<char> = Vec::new();
    for c in it: s.chars()
        invariant
            res@ == it.seq().take(it.index() as int),
            it.seq() == s@,
    {
        res.push(c);
    }
    res
}

/// The string made of the given characters.
pub fn string_of(v: &[char]) -> (res: String)
    ensures
        res@ == v@,
{
    let mut res = String::new();
    let n = v.len();
    for i in 0..n
        invariant
            n == v@.len(),
            res@ == v@.take(i as int),
    {
        push_char(&mut res, v[i]);
        assert(v@.take(i + 1) =~= v@.take(i as int).push(v@[i as int]));
    }
    assert(v@.take(n as int) =~= v@);
    res
}

/// The characters `from..to` of `v` as a string.
pub fn string_of_range(v: &[char], from: usize, to: usize) -> (res: String)
    requires
        from <= to <= v@.len(),
    ensures
        res@ == v@.subrange(from as int, to as int),
{
    let mut res = String::new();
    let mut i = from;
    while i < to
        invariant
            from <= i <= to <= v@.len(),
            res@ == v@.subrange(from as int, i as int),
        decreases to - i,
    {
        push_char(&mut res, v[i]);
        assert(v@.subrange(from as int, i + 1) =~= v@.subrange(from as int, i as int).push(
            v@[i as int],
        ));
        i += 1;
    }
    res
}

// ---------------------------------------------------------------------------
// Decimal numbers
// ---------------------------------------------------------------------------

/// The ASCII digit for `d` (which is below ten).
pub open spec fn digit_char(d: nat) -> char {
    if d == 0 { '0' }
    else if d == 1 { '1' }
    else if d == 2 { '2' }
    else if d == 3 { '3' }
    else if d == 4 { '4' }
    else if d == 5 { '5' }
    else if d == 6 { '6' }
    else if d == 7 { '7' }
    else if d == 8 { '8' }
    else { '9' }
}

/// The decimal representation of `n`, without sign or leading zeros.
pub open spec fn decimal(n: nat) -> Seq<char>
    decreases n,
{
    if n < 10 {
        seq![digit_char(n)]
    } else {
        decimal(n / 10).push(digit_char(n % 10))
    }
}

fn digit_of(d: u128) -> (c: char)
    requires
        d < 10,
    ensures
        c == digit_char(d as nat),
{
    if d == 0 { '0' }
    else if d == 1 { '1' }
    else if d == 2 { '2' }
    else if d == 3 { '3' }
    else if d == 4 { '4' }
    else if d == 5 { '5' }
    else if d == 6 { '6' }
    else if d == 7 { '7' }
    else if d == 8 { '8' }
    else { '9' }
}

/// `n` written in decimal, as `to_string` writes an unsigned integer.
pub fn decimal_string(n: u128) -> (res: String)
    ensures
        res@ == decimal(n as nat),
{
    let mut digits: Vec<char> = Vec::new();
    let mut m = n;
    // digits holds the low-order digits of n, least significant first
    digits.push(digit_of(m % 10));
    m = m / 10;
    proof {
        assert(decimal(n as nat) == decimal(m as nat).push(digit_char((n % 10) as nat))
            || n < 10);
    }
    let ghost mut rest: Seq<char> = seq![digit_char((n % 10) as nat)];
    while m > 0
        invariant
            m <= n,
            digits@ == rest.reverse(),
            m > 0 ==> decimal(n as nat) == decimal(m as nat) + rest,
            m == 0 ==> decimal(n as nat) == rest,
        decreases m,
    {
        let d = m % 10;
        digits.push(digit_of(d));
        proof {
            assert(decimal(m as nat) == decimal((m / 10) as nat).push(digit_char(d as nat))
                || m < 10);
            assert(seq![digit_char(d as nat)] + rest =~= rest.reverse().push(
                digit_char(d as nat),
            ).reverse());
            if m >= 10 {
                assert(decimal(m as nat) + rest =~= decimal((m / 10) as nat) + (seq![
                    digit_char(d as nat),
                ] + rest));
            } else {
                assert(decimal(m as nat) =~= seq![digit_char(d as nat)]);
            }
            rest = seq![digit_char(d as nat)] + rest;
        }
        m = m / 10;
    }
    // reverse the digits
    let mut out = String::new();
    let len = digits.len();
    let mut k = len;
    while k > 0
        invariant
            k <= len == digits@.len(),
            digits@ == rest.reverse(),
            out@ == rest.take((len - k) as int),
        decreases k,
    {
        k -= 1;
        push_char(&mut out, digits[k]);
        assert(rest.take((len - k) as int) =~= rest.take((len - k - 1) as int).push(
            digits@[k as int],
        ));
    }
    assert(rest.take(len as int) =~= rest);
    out
}

// ---------------------------------------------------------------------------
// Case mapping (std, named)
// ---------------------------------------------------------------------------

/// What `str::to_lowercase` returns for a string.
pub uninterp spec fn lowercase(s: Seq<char>) -> Seq<char>;

/// What `str::to_uppercase` returns for a string.
pub uninterp spec fn uppercase(s: Seq<char>) -> Seq<char>;

/// What `char::to_uppercase`, collected into a string, returns for a character.
pub uninterp spec fn char_uppercase(c: char) -> Seq<char>;

/// Text of ASCII characters none of which is an uppercase letter.
pub open spec fn ascii_lower_text(s: Seq<char>) -> bool {
    forall|i: int| 0 <= i < s.len() ==> (#[trigger] s[i] as u32) < 128 && !(65 <= (s[i] as u32) <= 90)
}

/// `str::to_lowercase`: the Unicode lowercase mapping of the whole string.
/// Beyond its name, one fact is stated: std documents that a character
/// without a lowercase mapping is left as it is (`char::to_lowercase`), and
/// the only ASCII characters with one are `A` to `Z`
/// (`u8::to_ascii_lowercase`); so text of other ASCII characters is kept.
#[verifier::external_body]
pub(crate) fn to_lowercase(s: &str) -> (res: String)
    ensures
        res@ == lowercase(s@),
        ascii_lower_text(s@) ==> res@ == s@,
{
    s.to_lowercase()
}

/// `str::to_uppercase`: the Unicode uppercase mapping of the whole string.
/// Only its name is stated.
#[verifier::external_body]
pub(crate) fn to_uppercase(s: &str) -> (res: String)
    ensures
        res@ == uppercase(s@),
{
    s.to_uppercase()
}

/// `char::to_uppercase`, collected into a `String`.  Only its name is stated.
#[verifier::external_body]
pub(crate) fn char_to_uppercase(c: char) -> (res: String)
    ensures
        res@ == char_uppercase(c),
{
    c.to_uppercase().collect::<String>()
}

// ---------------------------------------------------------------------------
// White space and trimming
// ---------------------------------------------------------------------------

/// The Unicode `White_Space` property, the one `char::is_whitespace` tests.
pub open spec fn is_white_space(c: char) -> bool {
    let u = c as u32;
    (9 <= u <= 13) || u == 32 || u == 0x85 || u == 0xa0 || u == 0x1680 || (0x2000 <= u <= 0x200a)
        || u == 0x2028 || u == 0x2029 || u == 0x202f || u == 0x205f || u == 0x3000
}

/// Whether `c` is Unicode white space.
pub fn is_whitespace(c: char) -> (b: bool)
    ensures
        b == is_white_space(c),
{
    let u = c as u32;
    (9 <= u && u <= 13) || u == 32 || u == 0x85 || u == 0xa0 || u == 0x1680 || (0x2000 <= u && u
        <= 0x200a) || u == 0x2028 || u == 0x2029 || u == 0x202f || u == 0x205f || u == 0x3000
}

/// `s` without its leading white space.
pub open spec fn trim_start(s: Seq<char>) -> Seq<char>
    decreases s.len(),
{
    if s.len() > 0 && is_white_space(s[0]) {
        trim_start(s.drop_first())
    } else {
        s
    }
}

/// `s` without its trailing white space.
pub open spec fn trim_end(s: Seq<char>) -> Seq<char>
    decreases s.len(),
{
    if s.len() > 0 && is_white_space(s.last()) {
        trim_end(s.drop_last())
    } else {
        s
    }
}

/// `s` without leading and trailing white space, as `str::trim` gives it.
pub open spec fn trim(s: Seq<char>) -> Seq<char> {
    trim_end(trim_start(s))
}

proof fn lemma_trim_start_from(s: Seq<char>, i: int)
    requires
        0 <= i <= s.len(),
        forall|k: int| 0 <= k < i ==> is_white_space(#[trigger] s[k]),
    ensures
        trim_start(s) == trim_start(s.subrange(i, s.len() as int)),
    decreases i,
{
    if i > 0 {
        assert(s.drop_first().subrange(i - 1, s.drop_first().len() as int) =~= s.subrange(
            i,
            s.len() as int,
        ));
        lemma_trim_start_from(s.drop_first(), i - 1);
    } else {
        assert(s.subrange(0, s.len() as int) =~= s);
    }
}

proof fn lemma_trim_end_to(s: Seq<char>, j: int)
    requires
        0 <= j <= s.len(),
        forall|k: int| j <= k < s.len() ==> is_white_space(#[trigger] s[k]),
    ensures
        trim_end(s) == trim_end(s.subrange(0, j)),
    decreases s.len() - j,
{
    if j < s.len() {
        assert(s.drop_last().subrange(0, j) =~= s.subrange(0, j));
        lemma_trim_end_to(s.drop_last(), j);
    } else {
        assert(s.subrange(0, s.len() as int) =~= s);
    }
}

/// `str::trim`: the text without leading and trailing white space.
pub fn trim_text(s: &str) -> (res: String)
    ensures
        res@ == trim(s@),
{
    let v = chars_of(s);
    let n = v.len();
    let mut i: usize = 0;
    while i < n && is_whitespace(v[i])
        invariant
            i <= n == v@.len(),
            forall|k: int| 0 <= k < i ==> is_white_space(#[trigger] v@[k]),
        decreases n - i,
    {
        i += 1;
    }
    proof {
        lemma_trim_start_from(v@, i as int);
    }
    let mut j: usize = n;
    while j > i && is_whitespace(v[j - 1])
        invariant
            i <= j <= n == v@.len(),
            forall|k: int| j <= k < n ==> is_white_space(#[trigger] v@[k]),
        decreases j,
    {
        j -= 1;
    }
    proof {
        let t = v@.subrange(i as int, n as int);
        assert(trim_start(t) == t);
        lemma_trim_end_to(t, j - i);
        assert(t.subrange(0, j - i) =~= v@.subrange(i as int, j as int));
        let u = v@.subrange(i as int, j as int);
        assert(trim_end(u) == u);
    }
    string_of_range(&v, i, j)
}

// ---------------------------------------------------------------------------
// Substrings and comparison
// ---------------------------------------------------------------------------

/// Whether `needle` occurs in `hay` as a run of consecutive characters.
pub open spec fn contains_text(hay: Seq<char>, needle: Seq<char>) -> bool {
    exists|i: int|
        0 <= i && i + needle.len() <= hay.len() && #[trigger] hay.subrange(i, i + needle.len())
            == needle
}

fn matches_at(hay: &Vec<char>, needle: &Vec<char>, i: usize) -> (b: bool)
    requires
        i + needle@.len() <= hay@.len(),
    ensures
        b == (hay@.subrange(i as int, i + needle@.len()) == needle@),
{
    let m = needle.len();
    let mut k: usize = 0;
    while k < m
        invariant
            m == needle@.len(),
            i + m <= hay.len(),
            k <= m,
            forall|t: int| 0 <= t < k ==> hay@[i + t] == needle@[t],
        decreases m - k,
    {
        if hay[i + k] != needle[k] {
            assert(hay@.subrange(i as int, i + m)[k as int] != needle@[k as int]);
            return false;
        }
        k += 1;
    }
    assert(hay@.subrange(i as int, i + m) =~= needle@);
    true
}

/// `str::contains` with a string pattern.
pub fn contains(hay: &str, needle: &str) -> (b: bool)
    ensures
        b == contains_text(hay@, needle@),
{
    let h = chars_of(hay);
    let n = chars_of(needle);
    if n.len() > h.len() {
        return false;
    }
    let last = h.len() - n.len();
    let mut i: usize = 0;
    while i <= last
        invariant
            last == h@.len() - n@.len(),
            h@ == hay@,
            n@ == needle@,
            forall|t: int| 0 <= t < i ==> #[trigger] h@.subrange(t, t + n@.len()) != n@,
        decreases last + 1 - i,
    {
        if matches_at(&h, &n, i) {
            return true;
        }
        if i == last {
            return false;
        }
        i += 1;
    }
    false
}

/// Whether two texts are equal, character for character.
pub fn text_eq(a: &str, b: &str) -> (r: bool)
    ensures
        r == (a@ == b@),
{
    let x = chars_of(a);
    let y = chars_of(b);
    if x.len() != y.len() {
        return false;
    }
    let n = x.len();
    let mut i: usize = 0;
    while i < n
        invariant
            n == x@.len() == y@.len(),
            x@ == a@,
            y@ == b@,
            i <= n,
            forall|k: int| 0 <= k < i ==> x@[k] == y@[k],
        decreases n - i,
    {
        if x[i] != y[i] {
            return false;
        }
        i += 1;
    }
    assert(x@ =~= y@);
    true
}

/// Strict lexicographic order of character sequences, the order of `str`'s `Ord`.
pub open spec fn text_lt(a: Seq<char>, b: Seq<char>) -> bool
    decreases a.len(),
{
    if a.len() == 0 {
        b.len() > 0
    } else if b.len() == 0 {
        false
    } else if a[0] == b[0] {
        text_lt(a.drop_first(), b.drop_first())
    } else {
        (a[0] as int) < (b[0] as int)
    }
}

/// Whether `a` sorts strictly before `b`.
pub fn text_less(a: &str, b: &str) -> (r: bool)
    ensures
        r == text_lt(a@, b@),
{
    let x = chars_of(a);
    let y = chars_of(b);
    let mut i: usize = 0;
    assert(x@.skip(0) =~= x@);
    assert(y@.skip(0) =~= y@);
    while i < x.len() && i < y.len() && x[i] == y[i]
        invariant
            i <= x@.len(),
            i <= y@.len(),
            x@ == a@,
            y@ == b@,
            text_lt(a@, b@) == text_lt(x@.skip(i as int), y@.skip(i as int)),
        decreases x@.len() - i,
    {
        proof {
            let xs = x@.skip(i as int);
            let ys = y@.skip(i as int);
            assert(xs.drop_first() =~= x@.skip(i + 1));
            assert(ys.drop_first() =~= y@.skip(i + 1));
        }
        i += 1;
    }
    if i == x.len() {
        i < y.len()
    } else if i == y.len() {
        false
    } else {
        x[i] < y[i]
    }
}

/// `text_lt` never holds of a text and itself.
pub proof fn lemma_text_lt_irreflexive(a: Seq<char>)
    ensures
        !text_lt(a, a),
    decreases a.len(),
{
    if a.len() > 0 {
        lemma_text_lt_irreflexive(a.drop_first());
    }
}

/// `text_lt` is transitive.
pub proof fn lemma_text_lt_transitive(a: Seq<char>, b: Seq<char>, c: Seq<char>)
    requires
        text_lt(a, b),
        text_lt(b, c),
    ensures
        text_lt(a, c),
    decreases a.len(),
{
    if a.len() > 0 && b.len() > 0 && c.len() > 0 {
        if a[0] == b[0] && b[0] == c[0] {
            lemma_text_lt_transitive(a.drop_first(), b.drop_first(), c.drop_first());
        }
    }
}

// ---------------------------------------------------------------------------
// Splitting
// ---------------------------------------------------------------------------

/// What separates the pieces of a text.
#[derive(Clone, Copy, Debug, PartialEq, Eq, Structural)]
pub enum Separator {
    /// White space, `_` and `-`: the breaks between words of a name.
    WordBreak,
    /// A comma: the breaks in a list.
    Comma,
}

/// Whether `c` separates pieces.
pub open spec fn separates(sep: Separator, c: char) -> bool {
    match sep {
        Separator::WordBreak => is_white_space(c) || c == '_' || c == '-',
        Separator::Comma => c == ',',
    }
}

/// The pieces between separators, as `str::split` yields them: one more
/// piece than there are separators, empty pieces included.
pub open spec fn split_pieces(s: Seq<char>, sep: Separator) -> Seq<Seq<char>>
    decreases s.len(),
{
    if s.len() == 0 {
        seq![Seq::empty()]
    } else {
        let w = split_pieces(s.drop_last(), sep);
        if separates(sep, s.last()) {
            w.push(Seq::empty())
        } else {
            w.update(w.len() - 1, w.last().push(s.last()))
        }
    }
}

proof fn lemma_split_nonempty(s: Seq<char>, sep: Separator)
    ensures
        split_pieces(s, sep).len() >= 1,
    decreases s.len(),
{
    if s.len() > 0 {
        lemma_split_nonempty(s.drop_last(), sep);
    }
}

fn is_separator(sep: Separator, c: char) -> (b: bool)
    ensures
        b == separates(sep, c),
{
    match sep {
        Separator::WordBreak => is_whitespace(c) || c == '_' || c == '-',
        Separator::Comma => c == ',',
    }
}

/// The pieces of `s` between separators.
pub fn split_text(s: &str, sep: Separator) -> (res: Vec<Vec<char>>)
    ensures
        res@.map_values(|w: Vec<char>| w@) == split_pieces(s@, sep),
{
    let v = chars_of(s);
    let mut res: Vec<Vec<char>> = Vec::new();
    res.push(Vec::new());
    let n = v.len();
    let mut i: usize = 0;
    assert(res@.map_values(|w: Vec<char>| w@) =~= split_pieces(v@.take(0), sep));
    while i < n
        invariant
            n == v@.len(),
            v@ == s@,
            i <= n,
            res@.len() >= 1,
            res@.map_values(|w: Vec<char>| w@) == split_pieces(v@.take(i as int), sep),
        decreases n - i,
    {
        let c = v[i];
        proof {
            assert(v@.take(i + 1).drop_last() =~= v@.take(i as int));
            assert(v@.take(i + 1).last() == c);
        }
        let ghost before = res@;
        if is_separator(sep, c) {
            res.push(Vec::new());
            assert(res@.map_values(|w: Vec<char>| w@) =~= before.map_values(|w: Vec<char>| w@).push(
                Seq::empty(),
            ));
        } else {
            let mut last = res.pop().unwrap();
            last.push(c);
            res.push(last);
            assert(res@.map_values(|w: Vec<char>| w@) =~= before.map_values(|w: Vec<char>| w@).update(
                before.len() - 1,
                before.last()@.push(c),
            ));
        }
        i += 1;
    }
    assert(v@.take(n as int) =~= v@);
    res
}

/// Two different texts are ordered one way or the other.
pub proof fn lemma_text_lt_total(a: Seq<char>, b: Seq<char>)
    requires
        a != b,
    ensures
        text_lt(a, b) || text_lt(b, a),
    decreases a.len(),
{
    if a.len() > 0 && b.len() > 0 && a[0] == b[0] {
        if a.drop_first() == b.drop_first() {
            assert(a =~= seq![a[0]] + a.drop_first());
            assert(b =~= seq![b[0]] + b.drop_first());
        }
        lemma_text_lt_total(a.drop_first(), b.drop_first());
    } else if a.len() == 0 && b.len() == 0 {
        assert(a =~= b);
    } else if a.len() > 0 && b.len() > 0 {
        assert((a[0] as int) != (b[0] as int));
    }
}

// ---------------------------------------------------------------------------
// Dots and joining
// ---------------------------------------------------------------------------

/// `s` with every `.` removed.
pub open spec fn without_dots(s: Seq<char>) -> Seq<char>
    decreases s.len(),
{
    if s.len() == 0 {
        s
    } else if s.last() == '.' {
        without_dots(s.drop_last())
    } else {
        without_dots(s.drop_last()).push(s.last())
    }
}

/// `str::replace(".", "")`: the text with every `.` removed.
pub fn remove_dots(s: &str) -> (res: String)
    ensures
        res@ == without_dots(s@),
{
    let v = chars_of(s);
    let mut res = String::new();
    let n = v.len();
    let mut i: usize = 0;
    assert(v@.take(0) =~= Seq::<char>::empty());
    while i < n
        invariant
            n == v@.len(),
            v@ == s@,
            i <= n,
            res@ == without_dots(v@.take(i as int)),
        decreases n - i,
    {
        assert(v@.take(i + 1).drop_last() =~= v@.take(i as int));
        if v[i] != '.' {
            push_char(&mut res, v[i]);
        }
        i += 1;
    }
    assert(v@.take(n as int) =~= v@);
    res
}

/// The texts joined with `sep` between them.
pub open spec fn joined(s: Seq<Seq<char>>, sep: Seq<char>) -> Seq<char>
    decreases s.len(),
{
    if s.len() == 0 {
        Seq::empty()
    } else if s.len() == 1 {
        s[0]
    } else {
        joined(s.drop_last(), sep) + sep + s.last()
    }
}

/// `join`: the strings with `sep` between them.
pub fn join_strings(v: &Vec<String>, sep: &str) -> (res: String)
    ensures
        res@ == joined(v@.map_values(|x: String| x@), sep@),
{
    let ghost views = v@.map_values(|x: String| x@);
    let mut res = String::new();
    let n = v.len();
    let mut i: usize = 0;
    assert(views.take(0) =~= Seq::<Seq<char>>::empty());
    while i < n
        invariant
            n == v@.len() == views.len(),
            views == v@.map_values(|x: String| x@),
            i <= n,
            res@ == joined(views.take(i as int), sep@),
        decreases n - i,
    {
        assert(views.take(i + 1).drop_last() =~= views.take(i as int));
        if i > 0 {
            push_text(&mut res, sep);
        } else {
            assert(res@ =~= Seq::<char>::empty());
        }
        push_text(&mut res, v[i].as_str());
        proof {
            if i == 0 {
                assert(views.take(1)[0] == v@[0]@);
                assert(res@ =~= views.take(1)[0]);
            }
        }
        i += 1;
    }
    assert(views.take(n as int) =~= views);
    res
}

/// Splitting after text that holds no separator extends the last piece.
pub proof fn lemma_split_append_plain(a: Seq<char>, b: Seq<char>, sep: Separator)
    requires
        forall|i: int| 0 <= i < b.len() ==> !separates(sep, #[trigger] b[i]),
    ensures
        split_pieces(a + b, sep) == split_pieces(a, sep).update(
            split_pieces(a, sep).len() - 1,
            split_pieces(a, sep).last() + b,
        ),
    decreases b.len(),
{
    lemma_split_nonempty(a, sep);
    let w0 = split_pieces(a, sep);
    if b.len() == 0 {
        assert(a + b =~= a);
        assert(w0.last() + b =~= w0.last());
        assert(w0.update(w0.len() - 1, w0.last() + b) =~= w0);
    } else {
        let b1 = b.drop_last();
        lemma_split_append_plain(a, b1, sep);
        assert((a + b).drop_last() =~= a + b1);
        assert((a + b).last() == b.last());
        let w = split_pieces(a + b1, sep);
        assert(w.last() == w0.last() + b1);
        assert(w.last().push(b.last()) =~= w0.last() + b);
        assert(w.update(w.len() - 1, w.last().push(b.last())) =~= w0.update(
            w0.len() - 1,
            w0.last() + b,
        ));
    }
}

/// The pieces of `v` joined with `", "` and split again at commas: the first
/// element, then each later one behind a space.
pub proof fn lemma_split_of_joined(v: Seq<Seq<char>>)
    requires
        v.len() >= 1,
        forall|i: int, j: int| 0 <= i < v.len() && 0 <= j < v[i].len() ==> #[trigger] v[i][j] != ',',
    ensures
        split_pieces(joined(v, ", "@), Separator::Comma) == Seq::new(
            v.len(),
            |i: int| if i == 0 { v[0] } else { seq![' '] + v[i] },
        ),
    decreases v.len(),
{
    reveal_strlit(", ");
    if v.len() == 1 {
        lemma_split_append_plain(Seq::empty(), v[0], Separator::Comma);
        assert(Seq::<char>::empty() + v[0] =~= v[0]);
        assert(split_pieces(Seq::<char>::empty(), Separator::Comma) == seq![Seq::<char>::empty()]);
        assert(Seq::<char>::empty() + v[0] =~= v[0]);
        assert(split_pieces(joined(v, ", "@), Separator::Comma) =~= Seq::new(
            v.len(),
            |i: int| if i == 0 { v[0] } else { seq![' '] + v[i] },
        ));
    } else {
        let vd = v.drop_last();
        lemma_split_of_joined(vd);
        let j = joined(vd, ", "@);
        let tail = seq![' '] + v.last();
        assert(joined(v, ", "@) == j + ", "@ + v.last());
        assert(j + ", "@ + v.last() =~= j.push(',') + tail);
        assert forall|i: int| 0 <= i < tail.len() implies !separates(
            Separator::Comma,
            #[trigger] tail[i],
        ) by {
            if i > 0 {
                assert(tail[i] == v.last()[i - 1]);
                assert(v[v.len() - 1][i - 1] != ',');
            }
        }
        lemma_split_append_plain(j.push(','), tail, Separator::Comma);
        assert(j.push(',').drop_last() =~= j);
        let w = split_pieces(j, Separator::Comma);
        assert(split_pieces(j.push(','), Separator::Comma) == w.push(Seq::empty()));
        assert(Seq::<char>::empty() + tail =~= tail);
        assert(split_pieces(joined(v, ", "@), Separator::Comma) =~= Seq::new(
            v.len(),
            |i: int| if i == 0 { v[0] } else { seq![' '] + v[i] },
        ));
    }
}

/// Text with no white space at either end is its own trim, also behind one
/// space.
pub proof fn lemma_trim_plain(e: Seq<char>)
    requires
        e.len() > 0,
        !is_white_space(e[0]),
        !is_white_space(e.last()),
    ensures
        trim(e) == e,
        trim(seq![' '] + e) == e,
{
    assert((seq![' '] + e).drop_first() =~= e);
    assert(is_white_space(' '));
}

/// Text without dots keeps all of it when dots are removed.
pub proof fn lemma_no_dots(e: Seq<char>)
    requires
        forall|i: int| 0 <= i < e.len() ==> #[trigger] e[i] != '.',
    ensures
        without_dots(e) == e,
    decreases e.len(),
{
    if e.len() > 0 {
        lemma_no_dots(e.drop_last());
        assert(e.drop_last().push(e.last()) =~= e);
    }
}

} // verus!
