//! Text, character by character: searching, trimming, splitting into lines
//! and words, ordering. The contracts speak of texts as `Seq<char>`.
//!
//! The file begins with what the standard library is taken to do; all else
//! is proved.

use vstd::prelude::*;

verus! {

/// `String::push` appends one character.
pub assume_specification[ String::push ](s: &mut String, c: char)
    ensures
        final(s)@ == old(s)@.push(c),
;

/// `char::is_whitespace` tells whether a character has the Unicode
/// `White_Space` property.
pub assume_specification[ char::is_whitespace ](c: char) -> (r: bool)
    ensures
        r == is_white_space(c),
;

/// The code points with the Unicode `White_Space` property.
pub open spec fn is_white_space(c: char) -> bool {
    let u = c as u32;
    ||| 0x09 <= u <= 0x0D
    ||| u == 0x20
    ||| u == 0x85
    ||| u == 0xA0
    ||| u == 0x1680
    ||| 0x2000 <= u <= 0x200A
    ||| u == 0x2028
    ||| u == 0x2029
    ||| u == 0x202F
    ||| u == 0x205F
    ||| u == 0x3000
}

/// The text that `String::from_utf8_lossy` makes of a byte sequence: the
/// decoded text, with U+FFFD in place of each ill-formed part.
pub uninterp spec fn utf8_lossy(bytes: Seq<u8>) -> Seq<char>;

/// The lower-case form of a text, as `str::to_lowercase` gives it.
pub uninterp spec fn lowercase(s: Seq<char>) -> Seq<char>;

/// Calls `String::from_utf8_lossy`. The result is a function of the bytes
/// alone, and on well-formed UTF-8 it is the decoded text itself.
#[verifier::external_body]
pub(crate) fn decode_lossy(bytes: &[u8]) -> (s: String)
    ensures
        s@ == utf8_lossy(bytes@),
        vstd::utf8::valid_utf8(bytes@) ==> s@ == vstd::utf8::decode_utf8(bytes@),
{
    String::from_utf8_lossy(bytes).into_owned()
}

/// `str::to_lowercase` returns the lower-case form of the text, which
/// depends on the text alone.
pub assume_specification[ str::to_lowercase ](s: &str) -> (r: String)
    ensures
        r@ == lowercase(s@),
;

/// The characters of `s`, in order.
pub fn chars_of(s: &str) -> (v: Vec<char>)
    ensures
        v@ == s@,
{
    let mut v: Vec<char> = Vec::new();
    for c in it: s.chars()
        invariant
            it.seq() == s@,
            v@ == it.seq().take(it.index() as int),
    {
        v.push(c);
        assert(it.seq().take(it.index() + 1) == it.seq().take(it.index() as int).push(c));
    }
    assert(v@ == s@.take(s@.len() as int));
    v
}

/// The string made of the characters `chars[from..to]`.
pub fn string_of(chars: &Vec<char>, from: usize, to: usize) -> (s: String)
    requires
        from <= to <= chars.len(),
    ensures
        s@ == chars@.subrange(from as int, to as int),
{
    let mut s = String::new();
    let mut i: usize = from;
    while i < to
        invariant
            from <= i <= to <= chars.len(),
            s@ == chars@.subrange(from as int, i as int),
        decreases to - i,
    {
        s.push(chars[i]);
        i += 1;
        assert(chars@.subrange(from as int, i as int) == chars@.subrange(from as int, i - 1).push(
            chars@[i - 1],
        ));
    }
    s
}

/// Index of the first occurrence of `c` in `s`, or `s.len()` when `c` does not
/// occur.
pub open spec fn first_index(s: Seq<char>, c: char) -> int
    decreases s.len(),
{
    if s.len() == 0 {
        0
    } else if s[0] == c {
        0
    } else {
        1 + first_index(s.drop_first(), c)
    }
}

/// `first_index` is in range, nothing before it equals `c`, and the character
/// at it, if any, is `c`.
pub proof fn lemma_first_index(s: Seq<char>, c: char)
    ensures
        0 <= first_index(s, c) <= s.len(),
        forall|j: int| 0 <= j < first_index(s, c) ==> s[j] != c,
        first_index(s, c) < s.len() ==> s[first_index(s, c)] == c,
    decreases s.len(),
{
    if s.len() > 0 && s[0] != c {
        lemma_first_index(s.drop_first(), c);
        assert forall|j: int| 0 <= j < first_index(s, c) implies s[j] != c by {
            if j > 0 {
                assert(s[j] == s.drop_first()[j - 1]);
            }
        }
    }
}

/// An index with the three properties of `lemma_first_index` is the first index.
pub proof fn lemma_first_index_unique(s: Seq<char>, c: char, i: int)
    requires
        0 <= i <= s.len(),
        forall|j: int| 0 <= j < i ==> s[j] != c,
        i < s.len() ==> s[i] == c,
    ensures
        first_index(s, c) == i,
    decreases s.len(),
{
    if s.len() > 0 && s[0] != c {
        let t = s.drop_first();
        assert forall|j: int| 0 <= j < i - 1 implies t[j] != c by {
            assert(t[j] == s[j + 1]);
        }
        if i - 1 < t.len() {
            assert(t[i - 1] == s[i]);
        }
        lemma_first_index_unique(t, c, i - 1);
    }
}

/// Position of the first `c` in `chars[from..to]`, or `to` when there is none.
pub fn find_char(chars: &Vec<char>, from: usize, to: usize, c: char) -> (i: usize)
    requires
        from <= to <= chars.len(),
    ensures
        from <= i <= to,
        i == from + first_index(chars@.subrange(from as int, to as int), c),
{
    let mut i: usize = from;
    while i < to && chars[i] != c
        invariant
            from <= i <= to <= chars.len(),
            forall|j: int| from <= j < i ==> chars@[j] != c,
        decreases to - i,
    {
        i += 1;
    }
    proof {
        lemma_first_index_unique(chars@.subrange(from as int, to as int), c, i - from);
    }
    i
}

/// Number of leading characters of `s` that are whitespace.
pub open spec fn leading_space(s: Seq<char>) -> int
    decreases s.len(),
{
    if s.len() == 0 || !is_white_space(s[0]) {
        0
    } else {
        1 + leading_space(s.drop_first())
    }
}

/// Number of trailing characters of `s` that are whitespace.
pub open spec fn trailing_space(s: Seq<char>) -> int
    decreases s.len(),
{
    if s.len() == 0 || !is_white_space(s.last()) {
        0
    } else {
        1 + trailing_space(s.drop_last())
    }
}

/// `s` without its leading and trailing whitespace.
pub open spec fn trimmed(s: Seq<char>) -> Seq<char> {
    let t = s.skip(leading_space(s));
    t.take(t.len() - trailing_space(t))
}

/// A count `n` of leading whitespace characters followed by a character that
/// is not whitespace, or by the end, is `leading_space`.
pub proof fn lemma_leading_space(s: Seq<char>, n: int)
    requires
        0 <= n <= s.len(),
        forall|j: int| 0 <= j < n ==> is_white_space(s[j]),
        n < s.len() ==> !is_white_space(s[n]),
    ensures
        leading_space(s) == n,
    decreases s.len(),
{
    if n > 0 {
        let t = s.drop_first();
        assert forall|j: int| 0 <= j < n - 1 implies is_white_space(t[j]) by {
            assert(t[j] == s[j + 1]);
        }
        if n - 1 < t.len() {
            assert(t[n - 1] == s[n]);
        }
        lemma_leading_space(t, n - 1);
    }
}

/// The mirror image of `lemma_leading_space`.
pub proof fn lemma_trailing_space(s: Seq<char>, n: int)
    requires
        0 <= n <= s.len(),
        forall|j: int| s.len() - n <= j < s.len() ==> is_white_space(s[j]),
        n < s.len() ==> !is_white_space(s[s.len() - n - 1]),
    ensures
        trailing_space(s) == n,
    decreases s.len(),
{
    if n > 0 {
        let t = s.drop_last();
        assert forall|j: int| t.len() - (n - 1) <= j < t.len() implies is_white_space(t[j]) by {
            assert(t[j] == s[j]);
        }
        if n - 1 < t.len() {
            assert(t[t.len() - (n - 1) - 1] == s[s.len() - n - 1]);
        }
        lemma_trailing_space(t, n - 1);
    }
}

/// Bounds `(a, b)` of `chars[from..to]` once its leading and trailing
/// whitespace is removed.
pub fn trim_bounds(chars: &Vec<char>, from: usize, to: usize) -> (r: (usize, usize))
    requires
        from <= to <= chars.len(),
    ensures
        from <= r.0 <= r.1 <= to,
        chars@.subrange(r.0 as int, r.1 as int) == trimmed(chars@.subrange(from as int, to as int)),
{
    let ghost s = chars@.subrange(from as int, to as int);
    let mut a: usize = from;
    while a < to && chars[a].is_whitespace()
        invariant
            from <= a <= to <= chars.len(),
            forall|j: int| from <= j < a ==> is_white_space(chars@[j]),
        decreases to - a,
    {
        a += 1;
    }
    let mut b: usize = to;
    while b > a && chars[b - 1].is_whitespace()
        invariant
            a <= b <= to <= chars.len(),
            forall|j: int| b <= j < to ==> is_white_space(chars@[j]),
        decreases b,
    {
        b -= 1;
    }
    proof {
        lemma_leading_space(s, a - from);
        let t = s.skip(a - from);
        assert(t == chars@.subrange(a as int, to as int));
        lemma_trailing_space(t, to - b);
        assert(t.take(t.len() - (to - b)) == chars@.subrange(a as int, b as int));
    }
    (a, b)
}

/// Whether `needle` stands in `hay` at position `i`.
pub open spec fn occurs_at(hay: Seq<char>, needle: Seq<char>, i: int) -> bool {
    0 <= i && i + needle.len() <= hay.len() && hay.subrange(i, i + needle.len()) == needle
}

/// Whether `needle` is a contiguous part of `hay`. The empty text is part of
/// every text.
pub open spec fn contains_text(hay: Seq<char>, needle: Seq<char>) -> bool {
    exists|i: int| occurs_at(hay, needle, i)
}

/// Whether `needle` stands in `hay[from..to]` at position `at`, counted from
/// the start of `hay`.
pub fn matches_at(hay: &Vec<char>, from: usize, to: usize, needle: &Vec<char>, at: usize) -> (r:
    bool)
    requires
        from <= at <= to <= hay.len(),
    ensures
        r == occurs_at(hay@.subrange(from as int, to as int), needle@, at - from),
{
    let ghost window = hay@.subrange(from as int, to as int);
    if needle.len() > to - at {
        return false;
    }
    let mut k: usize = 0;
    while k < needle.len()
        invariant
            from <= at <= to <= hay.len(),
            at + needle.len() <= to,
            k <= needle.len(),
            window == hay@.subrange(from as int, to as int),
            forall|j: int| 0 <= j < k ==> hay@[at + j] == needle@[j],
        decreases needle.len() - k,
    {
        if hay[at + k] != needle[k] {
            proof {
                let part = window.subrange(at - from, at - from + needle.len());
                assert(part[k as int] == hay@[at + k]);
            }
            return false;
        }
        k += 1;
    }
    assert(window.subrange(at - from, at - from + needle.len()) =~= needle@);
    true
}

/// Whether `hay[from..to]` begins with `prefix`.
pub fn starts_with(hay: &Vec<char>, from: usize, to: usize, prefix: &Vec<char>) -> (r: bool)
    requires
        from <= to <= hay.len(),
    ensures
        r == prefix@.is_prefix_of(hay@.subrange(from as int, to as int)),
{
    let r = matches_at(hay, from, to, prefix, from);
    proof {
        let window = hay@.subrange(from as int, to as int);
        if prefix@.len() <= window.len() {
            assert(window.subrange(0, prefix@.len() as int) == window.take(prefix@.len() as int));
        }
    }
    r
}

/// Whether `hay[from..to]` ends with `suffix`.
pub fn ends_with(hay: &Vec<char>, from: usize, to: usize, suffix: &Vec<char>) -> (r: bool)
    requires
        from <= to <= hay.len(),
    ensures
        r == suffix@.is_suffix_of(hay@.subrange(from as int, to as int)),
{
    let ghost window = hay@.subrange(from as int, to as int);
    if suffix.len() > to - from {
        return false;
    }
    let r = matches_at(hay, from, to, suffix, to - suffix.len());
    proof {
        assert(window.subrange(window.len() - suffix@.len(), window.len() as int) == window.skip(
            window.len() - suffix@.len(),
        ));
    }
    r
}

/// Whether `i` is the first position at which `needle` stands in `hay`.
pub open spec fn is_first_occurrence(hay: Seq<char>, needle: Seq<char>, i: int) -> bool {
    occurs_at(hay, needle, i) && forall|j: int| 0 <= j < i ==> !occurs_at(hay, needle, j)
}

/// The first position at which `needle` stands in `hay`, where it stands in
/// it at all.
pub open spec fn first_occurrence(hay: Seq<char>, needle: Seq<char>) -> int {
    choose|i: int| is_first_occurrence(hay, needle, i)
}

/// There is one first position at most.
pub proof fn lemma_first_occurrence(hay: Seq<char>, needle: Seq<char>, i: int)
    requires
        is_first_occurrence(hay, needle, i),
    ensures
        first_occurrence(hay, needle) == i,
        contains_text(hay, needle),
{
    let k = first_occurrence(hay, needle);
    assert(is_first_occurrence(hay, needle, k));
    if k < i {
        assert(!occurs_at(hay, needle, k));
    }
    if i < k {
        assert(!occurs_at(hay, needle, i));
    }
}

/// The first position at which `needle` stands in `hay`.
pub fn find_text(hay: &Vec<char>, needle: &Vec<char>) -> (r: Option<usize>)
    ensures
        r is Some == contains_text(hay@, needle@),
        r matches Some(i) ==> i == first_occurrence(hay@, needle@) && is_first_occurrence(
            hay@,
            needle@,
            i as int,
        ),
{
    if needle.len() == 0 {
        proof {
            assert(occurs_at(hay@, needle@, 0)) by {
                assert(hay@.subrange(0, 0) =~= needle@);
            }
            lemma_first_occurrence(hay@, needle@, 0);
        }
        return Some(0);
    }
    if needle.len() > hay.len() {
        return None;
    }
    let last: usize = hay.len() - needle.len();
    let mut i: usize = 0;
    while i <= last
        invariant
            needle.len() > 0,
            last == hay.len() - needle.len(),
            i <= last + 1,
            forall|k: int| 0 <= k < i ==> !occurs_at(hay@, needle@, k),
        decreases last + 1 - i,
    {
        let found = matches_at(hay, 0, hay.len(), needle, i);
        assert(hay@.subrange(0, hay.len() as int) == hay@);
        if found {
            proof {
                lemma_first_occurrence(hay@, needle@, i as int);
            }
            return Some(i);
        }
        i += 1;
    }
    None
}

/// Whether `needle` is a contiguous part of `hay`.
pub fn contains(hay: &Vec<char>, needle: &Vec<char>) -> (r: bool)
    ensures
        r == contains_text(hay@, needle@),
{
    find_text(hay, needle).is_some()
}

/// `s` with `to` in place of each occurrence of `from`, found from left to
/// right and without overlap. An empty `from` occurs nowhere.
pub open spec fn replaced(s: Seq<char>, from: Seq<char>, to: Seq<char>) -> Seq<char>
    decreases s.len(),
{
    if from.len() == 0 || s.len() < from.len() {
        s
    } else if from.is_prefix_of(s) {
        to + replaced(s.skip(from.len() as int), from, to)
    } else {
        seq![s[0]] + replaced(s.skip(1), from, to)
    }
}

/// Appends to `out` the text `s[from..to]` with `with` in place of each
/// occurrence of `what`.
pub fn push_replaced(
    out: &mut String,
    s: &Vec<char>,
    from: usize,
    to: usize,
    what: &Vec<char>,
    with: &Vec<char>,
)
    requires
        from <= to <= s.len(),
    ensures
        final(out)@ == old(out)@ + replaced(s@.subrange(from as int, to as int), what@, with@),
{
    let mut i: usize = from;
    let ghost whole = replaced(s@.subrange(from as int, to as int), what@, with@);
    while i < to
        invariant
            from <= i <= to <= s.len(),
            whole == replaced(s@.subrange(from as int, to as int), what@, with@),
            old(out)@ + whole == out@ + replaced(s@.subrange(i as int, to as int), what@, with@),
        decreases to - i,
    {
        let ghost rest = s@.subrange(i as int, to as int);
        let ghost before = out@;
        if what.len() > 0 && starts_with(s, i, to, what) {
            let mut k: usize = 0;
            while k < with.len()
                invariant
                    k <= with.len(),
                    out@ == before + with@.take(k as int),
                decreases with.len() - k,
            {
                out.push(with[k]);
                k += 1;
                assert(with@.take(k as int) =~= with@.take(k - 1).push(with@[k - 1]));
                assert(out@ =~= before + with@.take(k as int));
            }
            proof {
                assert(with@.take(with.len() as int) =~= with@);
                assert(rest.skip(what@.len() as int) =~= s@.subrange(i + what@.len(), to as int));
                assert(out@ + replaced(s@.subrange(i + what@.len(), to as int), what@, with@)
                    =~= before + replaced(rest, what@, with@));
            }
            i += what.len();
        } else {
            out.push(s[i]);
            proof {
                assert(rest.skip(1) =~= s@.subrange(i + 1, to as int));
                if what@.len() == 0 || rest.len() < what@.len() {
                    lemma_replaced_short(s@.subrange(i + 1, to as int), what@, with@);
                    assert(rest =~= seq![s@[i as int]] + s@.subrange(i + 1, to as int));
                }
                assert(out@ + replaced(s@.subrange(i + 1, to as int), what@, with@) =~= before
                    + replaced(rest, what@, with@));
            }
            i += 1;
        }
    }
    assert(s@.subrange(to as int, to as int) =~= Seq::<char>::empty());
    assert(old(out)@ + whole =~= out@);
}

/// A text shorter than `from`, or any text where `from` is empty, stays as it
/// is.
pub proof fn lemma_replaced_short(s: Seq<char>, from: Seq<char>, to: Seq<char>)
    requires
        from.len() == 0 || s.len() < from.len(),
    ensures
        replaced(s, from, to) == s,
{
}

/// `line` without one trailing carriage return.
pub open spec fn strip_cr(line: Seq<char>) -> Seq<char> {
    if line.len() > 0 && line.last() == '\r' {
        line.drop_last()
    } else {
        line
    }
}

/// The lines of `s`. A line ends at a line feed; a carriage return directly
/// before that line feed belongs to the line ending. The last line need not
/// be terminated, and a terminated last line is not followed by an empty one.
pub open spec fn lines_of(s: Seq<char>) -> Seq<Seq<char>>
    decreases s.len(),
{
    if s.len() == 0 {
        Seq::empty()
    } else {
        let n = first_index(s, '\n');
        if 0 <= n < s.len() {
            seq![strip_cr(s.take(n))] + lines_of(s.skip(n + 1))
        } else {
            seq![s]
        }
    }
}

/// The lines joined by single line feeds.
pub open spec fn join_lines(lines: Seq<Seq<char>>) -> Seq<char>
    decreases lines.len(),
{
    if lines.len() == 0 {
        Seq::empty()
    } else if lines.len() == 1 {
        lines[0]
    } else {
        join_lines(lines.drop_last()) + seq!['\n'] + lines.last()
    }
}

/// Every range lies within a text of length `len`.
pub open spec fn ranges_within(ranges: Seq<(usize, usize)>, len: nat) -> bool {
    forall|i: int| 0 <= i < ranges.len() ==> (#[trigger] ranges[i]).0 <= ranges[i].1 <= len
}

/// The parts of `chars` that the ranges select.
pub open spec fn slices_of(chars: Seq<char>, ranges: Seq<(usize, usize)>) -> Seq<Seq<char>> {
    Seq::new(ranges.len(), |i: int| chars.subrange(ranges[i].0 as int, ranges[i].1 as int))
}

/// The lines of `chars`, each as a range of positions.
pub fn split_lines(chars: &Vec<char>) -> (ranges: Vec<(usize, usize)>)
    ensures
        ranges_within(ranges@, chars@.len()),
        slices_of(chars@, ranges@) == lines_of(chars@),
{
    let mut ranges: Vec<(usize, usize)> = Vec::new();
    let mut pos: usize = 0;
    assert(chars@.skip(0) == chars@);
    assert(slices_of(chars@, ranges@) + lines_of(chars@) == lines_of(chars@));
    while pos < chars.len()
        invariant
            pos <= chars.len(),
            ranges_within(ranges@, chars@.len()),
            lines_of(chars@) == slices_of(chars@, ranges@) + lines_of(chars@.skip(pos as int)),
        decreases chars.len() - pos,
    {
        let ghost rest = chars@.skip(pos as int);
        let ghost before = ranges@;
        let nl = find_char(chars, pos, chars.len(), '\n');
        assert(chars@.subrange(pos as int, chars.len() as int) == rest);
        let end: usize = if nl < chars.len() && nl > pos && chars[nl - 1] == '\r' {
            nl - 1
        } else {
            nl
        };
        ranges.push((pos, end));
        proof {
            let line = chars@.subrange(pos as int, end as int);
            assert(slices_of(chars@, ranges@) == slices_of(chars@, before) + seq![line]);
            if nl < chars.len() {
                assert(rest.take(nl - pos) == chars@.subrange(pos as int, nl as int));
                assert(strip_cr(rest.take(nl - pos)) == line);
                assert(rest.skip(nl - pos + 1) == chars@.skip(nl + 1));
                assert(lines_of(rest) == seq![line] + lines_of(chars@.skip(nl + 1)));
            } else {
                assert(line == rest);
                assert(lines_of(chars@.skip(chars.len() as int)) == Seq::<Seq<char>>::empty());
                assert(lines_of(rest) == seq![line] + lines_of(chars@.skip(chars.len() as int)));
            }
        }
        pos = if nl < chars.len() {
            nl + 1
        } else {
            nl
        };
        assert(lines_of(chars@) == slices_of(chars@, ranges@) + lines_of(chars@.skip(pos as int)));
    }
    assert(lines_of(chars@.skip(pos as int)) == Seq::<Seq<char>>::empty());
    assert(slices_of(chars@, ranges@) + Seq::<Seq<char>>::empty() == slices_of(chars@, ranges@));
    ranges
}

/// Whether two texts are equal, character for character.
pub fn same_text(a: &str, b: &str) -> (r: bool)
    ensures
        r == (a@ == b@),
{
    let x = a.as_bytes();
    let y = b.as_bytes();
    proof {
        vstd::utf8::encode_utf8_decode_utf8(a@);
        vstd::utf8::encode_utf8_decode_utf8(b@);
    }
    if x.len() != y.len() {
        return false;
    }
    let mut i: usize = 0;
    while i < x.len()
        invariant
            x.len() == y.len(),
            i <= x.len(),
            x@ == vstd::utf8::encode_utf8(a@),
            y@ == vstd::utf8::encode_utf8(b@),
            forall|j: int| 0 <= j < i ==> x@[j] == y@[j],
        decreases x.len() - i,
    {
        if x[i] != y[i] {
            return false;
        }
        i += 1;
    }
    assert(x@ =~= y@);
    true
}

/// Whether `a` comes before `b` in the order of texts: character by
/// character, and a text before those that it begins.
pub open spec fn text_before(a: Seq<char>, b: Seq<char>) -> bool
    decreases a.len(),
{
    if b.len() == 0 {
        false
    } else if a.len() == 0 {
        true
    } else if a[0] != b[0] {
        (a[0] as u32) < (b[0] as u32)
    } else {
        text_before(a.drop_first(), b.drop_first())
    }
}

/// No text comes before itself, and of two texts that differ one comes
/// before the other, never both.
pub proof fn lemma_text_order(a: Seq<char>, b: Seq<char>)
    ensures
        !text_before(a, a),
        a != b ==> text_before(a, b) || text_before(b, a),
        !(text_before(a, b) && text_before(b, a)),
    decreases a.len(),
{
    if a.len() > 0 {
        lemma_text_order(a.drop_first(), a.drop_first());
    }
    if a.len() > 0 && b.len() > 0 {
        if a[0] == b[0] {
            lemma_text_order(a.drop_first(), b.drop_first());
            if a.drop_first() == b.drop_first() {
                assert(a =~= seq![a[0]] + a.drop_first());
                assert(b =~= seq![b[0]] + b.drop_first());
            }
        } else {
            vstd::utf8::char_u32_cast(a[0], a[0] as u32);
            vstd::utf8::char_u32_cast(b[0], b[0] as u32);
        }
    } else if a.len() == 0 && b.len() == 0 {
        assert(a =~= b);
    }
}

/// What comes before a text that comes before a third, comes before the
/// third.
pub proof fn lemma_text_order_transitive(a: Seq<char>, b: Seq<char>, c: Seq<char>)
    requires
        text_before(a, b),
        text_before(b, c),
    ensures
        text_before(a, c),
    decreases a.len(),
{
    if a.len() > 0 && b.len() > 0 && c.len() > 0 {
        if a[0] == b[0] && b[0] == c[0] {
            lemma_text_order_transitive(a.drop_first(), b.drop_first(), c.drop_first());
        }
    }
}

/// Whether `a` comes before `b` in the order of texts.
pub fn precedes(a: &Vec<char>, b: &Vec<char>) -> (r: bool)
    ensures
        r == text_before(a@, b@),
{
    let mut i: usize = 0;
    assert(a@.skip(0) =~= a@ && b@.skip(0) =~= b@);
    while i < a.len() && i < b.len() && a[i] == b[i]
        invariant
            i <= a.len(),
            i <= b.len(),
            text_before(a@, b@) == text_before(a@.skip(i as int), b@.skip(i as int)),
        decreases a.len() - i,
    {
        proof {
            let x = a@.skip(i as int);
            let y = b@.skip(i as int);
            assert(x[0] == a@[i as int] && y[0] == b@[i as int]);
            assert(x.drop_first() =~= a@.skip(i + 1));
            assert(y.drop_first() =~= b@.skip(i + 1));
        }
        i += 1;
    }
    proof {
        let x = a@.skip(i as int);
        let y = b@.skip(i as int);
        if i < a.len() && i < b.len() {
            assert(x[0] == a@[i as int] && y[0] == b@[i as int]);
        }
        assert(x.len() == a.len() - i && y.len() == b.len() - i);
    }
    if i >= b.len() {
        false
    } else if i >= a.len() {
        true
    } else {
        (a[i] as u32) < (b[i] as u32)
    }
}

/// Number of leading characters of `s` that are not whitespace.
pub open spec fn leading_word(s: Seq<char>) -> int
    decreases s.len(),
{
    if s.len() == 0 || is_white_space(s[0]) {
        0
    } else {
        1 + leading_word(s.drop_first())
    }
}

/// The words of `s`: its longest parts without whitespace, in their order.
pub open spec fn words_of(s: Seq<char>) -> Seq<Seq<char>>
    decreases s.len(),
{
    if s.len() == 0 {
        Seq::empty()
    } else if is_white_space(s[0]) {
        words_of(s.drop_first())
    } else {
        let n = leading_word(s);
        if 0 < n <= s.len() {
            seq![s.take(n)] + words_of(s.skip(n))
        } else {
            Seq::empty()
        }
    }
}

/// A count `n` of leading characters that are not whitespace, followed by
/// whitespace or by the end, is `leading_word`.
pub proof fn lemma_leading_word(s: Seq<char>, n: int)
    requires
        0 <= n <= s.len(),
        forall|j: int| 0 <= j < n ==> !is_white_space(s[j]),
        n < s.len() ==> is_white_space(s[n]),
    ensures
        leading_word(s) == n,
    decreases s.len(),
{
    if n > 0 {
        let t = s.drop_first();
        assert forall|j: int| 0 <= j < n - 1 implies !is_white_space(t[j]) by {
            assert(t[j] == s[j + 1]);
        }
        if n - 1 < t.len() {
            assert(t[n - 1] == s[n]);
        }
        lemma_leading_word(t, n - 1);
    }
}

/// The words of `chars`, each as a range of positions.
pub fn split_words(chars: &Vec<char>) -> (ranges: Vec<(usize, usize)>)
    ensures
        ranges_within(ranges@, chars@.len()),
        slices_of(chars@, ranges@) == words_of(chars@),
{
    let mut ranges: Vec<(usize, usize)> = Vec::new();
    let mut pos: usize = 0;
    assert(chars@.skip(0) == chars@);
    assert(slices_of(chars@, ranges@) + words_of(chars@) == words_of(chars@));
    while pos < chars.len()
        invariant
            pos <= chars.len(),
            ranges_within(ranges@, chars@.len()),
            words_of(chars@) == slices_of(chars@, ranges@) + words_of(chars@.skip(pos as int)),
        decreases chars.len() - pos,
    {
        let ghost rest = chars@.skip(pos as int);
        assert(rest[0] == chars@[pos as int]);
        if chars[pos].is_whitespace() {
            assert(rest.drop_first() =~= chars@.skip(pos + 1));
            pos += 1;
        } else {
            let mut end: usize = pos + 1;
            while end < chars.len() && !chars[end].is_whitespace()
                invariant
                    pos < end <= chars.len(),
                    forall|j: int| pos <= j < end ==> !is_white_space(chars@[j]),
                decreases chars.len() - end,
            {
                end += 1;
            }
            let ghost before = ranges@;
            ranges.push((pos, end));
            proof {
                let word = chars@.subrange(pos as int, end as int);
                lemma_leading_word(rest, end - pos);
                assert(rest.take(end - pos) =~= word);
                assert(rest.skip(end - pos) =~= chars@.skip(end as int));
                assert(slices_of(chars@, ranges@) =~= slices_of(chars@, before) + seq![word]);
                assert(words_of(rest) == seq![word] + words_of(chars@.skip(end as int)));
            }
            pos = end;
        }
    }
    assert(words_of(chars@.skip(pos as int)) == Seq::<Seq<char>>::empty());
    assert(slices_of(chars@, ranges@) + Seq::<Seq<char>>::empty() == slices_of(chars@, ranges@));
    ranges
}

} // verus!
