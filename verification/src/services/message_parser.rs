//! The grammar of a raw message: a block of header lines, a blank line, and
//! the body. Only the headers `From:`, `To:` and `Subject:` are read, by
//! their exact prefix; the value of a header is what follows the colon,
//! without the spaces and tabs directly behind it. A header that appears
//! again replaces the earlier one.

use crate::ids::ID_LENGTH;
use crate::models::email::Email;
use crate::models::email::EmailContent;
use crate::pattern::find_first;
use crate::pattern::search;
use crate::text::chars_of;
use crate::text::decode_lossy;
use crate::text::find_char;
use crate::text::first_index;
use crate::text::join_lines;
use crate::text::lemma_first_index;
use crate::text::lemma_first_index_unique;
use crate::text::lines_of;
use crate::text::ranges_within;
use crate::text::slices_of;
use crate::text::split_lines;
use crate::text::starts_with;
use crate::text::string_of;
use crate::text::trim_bounds;
use crate::text::trimmed;
use crate::text::utf8_lossy;
use vstd::prelude::*;

verus! {

/// The shape of an address inside a header value that has no angle brackets.
pub const ADDRESS_PATTERN: &'static str = "[a-zA-Z0-9._%+-]+@[a-zA-Z0-9.-]+\\.[a-zA-Z]{2,}";

/// The text strictly between the first `<` of the value and the first `>`
/// after it, where the value has both.
pub open spec fn bracketed(value: Seq<char>) -> Option<Seq<char>> {
    let open = first_index(value, '<');
    if 0 <= open < value.len() {
        let rest = value.skip(open + 1);
        let close = first_index(rest, '>');
        if 0 <= close < rest.len() {
            Some(rest.take(close))
        } else {
            None
        }
    } else {
        None
    }
}

/// The address that a header value stands for, given what a search for an
/// address-shaped part of the value found: the bracketed text; else the part
/// found; else the value without surrounding whitespace.
pub open spec fn address_of(value: Seq<char>, found: Option<Seq<char>>) -> Seq<char> {
    match bracketed(value) {
        Some(inner) => inner,
        None => match found {
            Some(part) => part,
            None => trimmed(value),
        },
    }
}

/// The address that a header value stands for.
pub open spec fn extracted_address(value: Seq<char>) -> Seq<char> {
    address_of(value, search(ADDRESS_PATTERN@, value))
}

/// Bounds of the bracketed text of `chars[from..to]`.
fn bracket_bounds(chars: &Vec<char>, from: usize, to: usize) -> (r: Option<(usize, usize)>)
    requires
        from <= to <= chars.len(),
    ensures
        match r {
            Some((a, b)) => from <= a <= b <= to && bracketed(
                chars@.subrange(from as int, to as int),
            ) == Some(chars@.subrange(a as int, b as int)),
            None => bracketed(chars@.subrange(from as int, to as int)) is None,
        },
{
    let ghost value = chars@.subrange(from as int, to as int);
    let open = find_char(chars, from, to, '<');
    if open >= to {
        return None;
    }
    let close = find_char(chars, open + 1, to, '>');
    proof {
        let rest = value.skip(open - from + 1);
        assert(rest == chars@.subrange(open + 1, to as int));
        lemma_first_index(rest, '>');
        if close < to {
            assert(rest.take(close - (open + 1)) == chars@.subrange(open + 1, close as int));
        }
    }
    if close >= to {
        return None;
    }
    Some((open + 1, close))
}

/// The address for a value without brackets: the part found, else the value
/// without surrounding whitespace.
fn plain_address(chars: &Vec<char>, found: Option<String>) -> (address: String)
    ensures
        address@ == match found {
            Some(part) => part@,
            None => trimmed(chars@),
        },
{
    match found {
        Some(part) => part,
        None => {
            assert(chars@.subrange(0, chars.len() as int) == chars@);
            let (a, b) = trim_bounds(chars, 0, chars.len());
            string_of(chars, a, b)
        },
    }
}

/// The address for a header value, given what the search for an
/// address-shaped part found in it.
pub fn address_from(value: &str, found: Option<String>) -> (address: String)
    ensures
        address@ == address_of(
            value@,
            match found {
                Some(part) => Some(part@),
                None => None,
            },
        ),
{
    let chars = chars_of(value);
    assert(chars@.subrange(0, chars.len() as int) == chars@);
    match bracket_bounds(&chars, 0, chars.len()) {
        Some((a, b)) => string_of(&chars, a, b),
        None => plain_address(&chars, found),
    }
}

/// The address for a header value: the text between angle brackets if the
/// value has them, else its first address-shaped part, else the value
/// without surrounding whitespace.
pub fn extract_address(value: &str) -> (address: String)
    ensures
        address@ == extracted_address(value@),
{
    let chars = chars_of(value);
    assert(chars@.subrange(0, chars.len() as int) == chars@);
    match bracket_bounds(&chars, 0, chars.len()) {
        Some((a, b)) => string_of(&chars, a, b),
        None => {
            plain_address(&chars, find_first(ADDRESS_PATTERN, value))
        },
    }
}

/// The header that names the sender.
pub open spec fn from_prefix() -> Seq<char> {
    "From:"@
}

/// The header that names the recipient.
pub open spec fn to_prefix() -> Seq<char> {
    "To:"@
}

/// The header that holds the subject.
pub open spec fn subject_prefix() -> Seq<char> {
    "Subject:"@
}

/// A blank: a space or a horizontal tab.
pub open spec fn is_blank(c: char) -> bool {
    c == ' ' || c == '\t'
}

/// Number of leading characters of `s` that are blanks.
pub open spec fn leading_blanks(s: Seq<char>) -> int
    decreases s.len(),
{
    if s.len() == 0 || !is_blank(s[0]) {
        0
    } else {
        1 + leading_blanks(s.drop_first())
    }
}

/// The value that stands behind the colon of a header: what follows the
/// colon, without the blanks directly behind it.
pub open spec fn value_behind(rest: Seq<char>) -> Seq<char> {
    rest.skip(leading_blanks(rest))
}

/// A count `n` of leading blanks followed by a character that is no blank,
/// or by the end, is `leading_blanks`.
pub proof fn lemma_leading_blanks(s: Seq<char>, n: int)
    requires
        0 <= n <= s.len(),
        forall|j: int| 0 <= j < n ==> is_blank(s[j]),
        n < s.len() ==> !is_blank(s[n]),
    ensures
        leading_blanks(s) == n,
    decreases s.len(),
{
    if n > 0 {
        let t = s.drop_first();
        assert forall|j: int| 0 <= j < n - 1 implies is_blank(t[j]) by {
            assert(t[j] == s[j + 1]);
        }
        if n - 1 < t.len() {
            assert(t[n - 1] == s[n]);
        }
        lemma_leading_blanks(t, n - 1);
    }
}

/// Index of the first empty line, or the number of lines when none is empty.
pub open spec fn blank_index(lines: Seq<Seq<char>>) -> int
    decreases lines.len(),
{
    if lines.len() == 0 {
        0
    } else if lines[0].len() == 0 {
        0
    } else {
        1 + blank_index(lines.drop_first())
    }
}

/// The lines of the header block: those before the first empty line.
pub open spec fn header_lines(text: Seq<char>) -> Seq<Seq<char>> {
    let lines = lines_of(text);
    lines.take(blank_index(lines))
}

/// The lines of the body: those after the first empty line.
pub open spec fn body_lines(text: Seq<char>) -> Seq<Seq<char>> {
    let lines = lines_of(text);
    if blank_index(lines) < lines.len() {
        lines.skip(blank_index(lines) + 1)
    } else {
        Seq::empty()
    }
}

/// The value behind `prefix` on the last of the lines that begin with it.
pub open spec fn last_header_value(lines: Seq<Seq<char>>, prefix: Seq<char>) -> Option<Seq<char>>
    decreases lines.len(),
{
    if lines.len() == 0 {
        None
    } else if prefix.is_prefix_of(lines.last()) {
        Some(value_behind(lines.last().skip(prefix.len() as int)))
    } else {
        last_header_value(lines.drop_last(), prefix)
    }
}

/// The value of the header `prefix` in the message `text`.
pub open spec fn header_value(text: Seq<char>, prefix: Seq<char>) -> Option<Seq<char>> {
    last_header_value(header_lines(text), prefix)
}

/// The body of the message `text`: its body lines, joined by line feeds.
pub open spec fn body_of(text: Seq<char>) -> Seq<char> {
    join_lines(body_lines(text))
}

/// An index before which no line is empty, and which is the end or an empty
/// line, is the blank index.
pub proof fn lemma_blank_index(lines: Seq<Seq<char>>, i: int)
    requires
        0 <= i <= lines.len(),
        forall|j: int| 0 <= j < i ==> lines[j].len() != 0,
        i < lines.len() ==> lines[i].len() == 0,
    ensures
        blank_index(lines) == i,
    decreases lines.len(),
{
    if lines.len() > 0 && lines[0].len() != 0 {
        let rest = lines.drop_first();
        assert forall|j: int| 0 <= j < i - 1 implies rest[j].len() != 0 by {
            assert(rest[j] == lines[j + 1]);
        }
        if i - 1 < rest.len() {
            assert(rest[i - 1] == lines[i]);
        }
        lemma_blank_index(rest, i - 1);
    }
}

/// The header values and the body of one message, as they stand in the text.
#[derive(Debug, Clone)]
pub struct MessageParts {
    pub from: Option<String>,
    pub to: Option<String>,
    pub subject: Option<String>,
    pub body: String,
}

/// The view of an optional text.
pub open spec fn text_of(value: Option<String>) -> Option<Seq<char>> {
    match value {
        Some(s) => Some(s@),
        None => None,
    }
}

impl MessageParts {
    /// Whether these are the parts of the message `text`.
    pub open spec fn parts_of(&self, text: Seq<char>) -> bool {
        &&& text_of(self.from) == header_value(text, from_prefix())
        &&& text_of(self.to) == header_value(text, to_prefix())
        &&& text_of(self.subject) == header_value(text, subject_prefix())
        &&& self.body@ == body_of(text)
    }
}

/// Bounds of the value behind `prefix` on the line `chars[a..b]`, where the
/// line begins with it; else what was there before.
fn header_on_line(
    chars: &Vec<char>,
    a: usize,
    b: usize,
    prefix: &Vec<char>,
    before: Option<(usize, usize)>,
) -> (r: Option<(usize, usize)>)
    requires
        a <= b <= chars.len(),
        before matches Some(x) ==> x.0 <= x.1 <= chars.len(),
    ensures
        r matches Some(x) ==> x.0 <= x.1 <= chars.len(),
        prefix@.is_prefix_of(chars@.subrange(a as int, b as int)) ==> bounded(chars@, r) == Some(
            value_behind(chars@.subrange(a as int, b as int).skip(prefix@.len() as int)),
        ),
        !prefix@.is_prefix_of(chars@.subrange(a as int, b as int)) ==> r == before,
{
    if starts_with(chars, a, b, prefix) {
        let first: usize = a + prefix.len();
        let mut start: usize = first;
        while start < b && (chars[start] == ' ' || chars[start] == '\t')
            invariant
                first <= start <= b <= chars.len(),
                forall|j: int| first <= j < start ==> is_blank(chars@[j]),
            decreases b - start,
        {
            start += 1;
        }
        proof {
            let rest = chars@.subrange(a as int, b as int).skip(prefix@.len() as int);
            assert(rest =~= chars@.subrange(first as int, b as int));
            lemma_leading_blanks(rest, start - first);
            assert(rest.skip(start - first) =~= chars@.subrange(start as int, b as int));
        }
        Some((start, b))
    } else {
        before
    }
}

/// The text that optional bounds select.
spec fn bounded(chars: Seq<char>, bounds: Option<(usize, usize)>) -> Option<Seq<char>> {
    match bounds {
        Some(x) => Some(chars.subrange(x.0 as int, x.1 as int)),
        None => None,
    }
}

fn optional_string(chars: &Vec<char>, bounds: Option<(usize, usize)>) -> (r: Option<String>)
    requires
        bounds matches Some(x) ==> x.0 <= x.1 <= chars.len(),
    ensures
        text_of(r) == bounded(chars@, bounds),
{
    match bounds {
        Some((a, b)) => Some(string_of(chars, a, b)),
        None => None,
    }
}

/// Appends `chars[a..b]` to `out`.
fn push_range(out: &mut String, chars: &Vec<char>, a: usize, b: usize)
    requires
        a <= b <= chars.len(),
    ensures
        final(out)@ == old(out)@ + chars@.subrange(a as int, b as int),
{
    let mut i: usize = a;
    assert(out@ + chars@.subrange(a as int, a as int) == out@);
    while i < b
        invariant
            a <= i <= b <= chars.len(),
            out@ == old(out)@ + chars@.subrange(a as int, i as int),
        decreases b - i,
    {
        out.push(chars[i]);
        i += 1;
        assert(chars@.subrange(a as int, i as int) == chars@.subrange(a as int, i - 1).push(
            chars@[i - 1],
        ));
        assert(out@ == old(out)@ + chars@.subrange(a as int, i as int));
    }
}

/// Splits a message into its header values and its body.
pub fn scan_message(text: &str) -> (parts: MessageParts)
    ensures
        parts.parts_of(text@),
{
    let chars = chars_of(text);
    let ranges = split_lines(&chars);
    let from_mark = chars_of("From:");
    let to_mark = chars_of("To:");
    let subject_mark = chars_of("Subject:");
    let ghost lines = lines_of(text@);
    let mut from: Option<(usize, usize)> = None;
    let mut to: Option<(usize, usize)> = None;
    let mut subject: Option<(usize, usize)> = None;
    let mut i: usize = 0;
    assert(lines.take(0) == Seq::<Seq<char>>::empty());
    while i < ranges.len() && ranges[i].0 != ranges[i].1
        invariant
            chars@ == text@,
            lines == lines_of(text@),
            ranges_within(ranges@, chars@.len()),
            slices_of(chars@, ranges@) == lines,
            from_mark@ == from_prefix(),
            to_mark@ == to_prefix(),
            subject_mark@ == subject_prefix(),
            i <= ranges.len(),
            forall|j: int| 0 <= j < i ==> lines[j].len() != 0,
            from matches Some(x) ==> x.0 <= x.1 <= chars.len(),
            to matches Some(x) ==> x.0 <= x.1 <= chars.len(),
            subject matches Some(x) ==> x.0 <= x.1 <= chars.len(),
            bounded(chars@, from) == last_header_value(lines.take(i as int), from_prefix()),
            bounded(chars@, to) == last_header_value(lines.take(i as int), to_prefix()),
            bounded(chars@, subject) == last_header_value(lines.take(i as int), subject_prefix()),
        decreases ranges.len() - i,
    {
        let (a, b) = ranges[i];
        proof {
            let line = chars@.subrange(a as int, b as int);
            assert(lines[i as int] == line);
            assert(line.len() != 0);
            let upto = lines.take(i + 1);
            assert(upto.drop_last() == lines.take(i as int));
            assert(upto.last() == line);
        }
        from = header_on_line(&chars, a, b, &from_mark, from);
        to = header_on_line(&chars, a, b, &to_mark, to);
        subject = header_on_line(&chars, a, b, &subject_mark, subject);
        i += 1;
    }
    proof {
        if i < ranges.len() {
            assert(lines[i as int] == chars@.subrange(
                ranges@[i as int].0 as int,
                ranges@[i as int].1 as int,
            ));
        }
        lemma_blank_index(lines, i as int);
    }
    let mut body = String::new();
    if i < ranges.len() {
        let first: usize = i + 1;
        let mut k: usize = first;
        assert(lines.subrange(first as int, k as int) == Seq::<Seq<char>>::empty());
        while k < ranges.len()
            invariant
                first <= k <= ranges.len(),
                ranges_within(ranges@, chars@.len()),
                slices_of(chars@, ranges@) == lines,
                body@ == join_lines(lines.subrange(first as int, k as int)),
            decreases ranges.len() - k,
        {
            let (a, b) = ranges[k];
            proof {
                let done = lines.subrange(first as int, k as int);
                let next = lines.subrange(first as int, k + 1);
                assert(lines[k as int] == chars@.subrange(a as int, b as int));
                assert(next.drop_last() == done);
                assert(next.last() == lines[k as int]);
            }
            if k > first {
                body.push('\n');
            }
            push_range(&mut body, &chars, a, b);
            k += 1;
            proof {
                let next = lines.subrange(first as int, k as int);
                if k - 1 == first {
                    assert(next.len() == 1);
                    assert(body@ == next[0]);
                } else {
                    assert(body@ == join_lines(next.drop_last()) + seq!['\n'] + next.last());
                }
            }
        }
        assert(lines.subrange(first as int, ranges.len() as int) == lines.skip(first as int));
    }
    MessageParts {
        from: optional_string(&chars, from),
        to: optional_string(&chars, to),
        subject: optional_string(&chars, subject),
        body,
    }
}

/// The category that a record has when it leaves the parser.
pub open spec fn parsed_category() -> Seq<char> {
    "收件箱"@
}

/// The address that an optional header value stands for: empty where the
/// header is missing.
pub open spec fn address_or_empty(value: Option<Seq<char>>) -> Seq<char> {
    match value {
        Some(v) => extracted_address(v),
        None => Seq::empty(),
    }
}

/// The sender of the message `text`.
pub open spec fn sender_of(text: Seq<char>) -> Seq<char> {
    address_or_empty(header_value(text, from_prefix()))
}

/// The recipient of the message `text`, fetched for the account with the
/// address `own`: the address in the `To:` header, or `own` where the header
/// is missing or gives no address.
pub open spec fn recipient_of(text: Seq<char>, own: Seq<char>) -> Seq<char> {
    let named = address_or_empty(header_value(text, to_prefix()));
    if named.len() == 0 {
        own
    } else {
        named
    }
}

/// The subject of the message `text`: empty where the header is missing.
pub open spec fn subject_of(text: Seq<char>) -> Seq<char> {
    match header_value(text, subject_prefix()) {
        Some(v) => v,
        None => Seq::empty(),
    }
}

/// The content of the record that the message `text` gives, fetched for the
/// account with the address `own`.
pub open spec fn parsed_content(text: Seq<char>, own: Seq<char>) -> EmailContent {
    EmailContent {
        sender: sender_of(text),
        recipient: recipient_of(text, own),
        subject: subject_of(text),
        body: body_of(text),
        category: parsed_category(),
        is_read: false,
        is_important: false,
    }
}

/// The content of the record that the raw message `raw` gives.
pub open spec fn parsed_raw(raw: Seq<u8>, own: Seq<char>) -> EmailContent {
    parsed_content(utf8_lossy(raw), own)
}

fn address_or_none(value: Option<String>) -> (address: String)
    ensures
        address@ == address_or_empty(text_of(value)),
{
    match value {
        Some(v) => extract_address(v.as_str()),
        None => String::new(),
    }
}

/// The record for the decoded message `text`, fetched for the account with
/// the address `own`.
pub fn parse_text(text: &str, own: &str) -> (email: Email)
    ensures
        email.content() == parsed_content(text@, own@),
        email.id@.len() == ID_LENGTH,
        email.created_at == email.updated_at,
        email.created_at.wf(),
{
    let parts = scan_message(text);
    let sender = address_or_none(parts.from);
    let named = address_or_none(parts.to);
    let recipient = if named.as_str().is_empty() {
        own.to_owned()
    } else {
        named
    };
    let subject = match parts.subject {
        Some(v) => v,
        None => String::new(),
    };
    Email::new(sender, recipient, subject, parts.body, "收件箱".to_owned())
}

/// The record for the raw message `raw`, fetched for the account with the
/// address `own`. Bytes that are not UTF-8 are read as U+FFFD.
pub fn parse_message(raw: &[u8], own: &str) -> (email: Email)
    ensures
        email.content() == parsed_raw(raw@, own@),
        vstd::utf8::valid_utf8(raw@) ==> email.content() == parsed_content(
            vstd::utf8::decode_utf8(raw@),
            own@,
        ),
        email.id@.len() == ID_LENGTH,
        email.created_at == email.updated_at,
        email.created_at.wf(),
{
    let text = decode_lossy(raw);
    parse_text(text.as_str(), own)
}

/// A value in angle-bracket form gives exactly the bracketed text: where
/// `before` holds no `<` and `inner` no `>`, the address of
/// `before<inner>after` is `inner`, whatever else the value holds.
pub proof fn law_bracketed_address(
    before: Seq<char>,
    inner: Seq<char>,
    after: Seq<char>,
    found: Option<Seq<char>>,
)
    requires
        !before.contains('<'),
        !inner.contains('>'),
    ensures
        bracketed(before + seq!['<'] + inner + seq!['>'] + after) == Some(inner),
        address_of(before + seq!['<'] + inner + seq!['>'] + after, found) == inner,
        extracted_address(before + seq!['<'] + inner + seq!['>'] + after) == inner,
{
    let value = before + seq!['<'] + inner + seq!['>'] + after;
    let open = before.len() as int;
    assert forall|j: int| 0 <= j < open implies value[j] != '<' by {
        assert(value[j] == before[j]);
        assert(before.contains(before[j]));
    }
    assert(value[open] == '<');
    lemma_first_index_unique(value, '<', open);
    let rest = value.skip(open + 1);
    let close = inner.len() as int;
    assert forall|j: int| 0 <= j < close implies rest[j] != '>' by {
        assert(rest[j] == inner[j]);
        assert(inner.contains(inner[j]));
    }
    assert(rest[close] == '>');
    lemma_first_index_unique(rest, '>', close);
    assert(rest.take(close) =~= inner);
}

/// A value without brackets that holds an address-shaped part gives that
/// part.
pub proof fn law_plain_address(value: Seq<char>, part: Seq<char>)
    requires
        bracketed(value) is None,
    ensures
        address_of(value, Some(part)) == part,
        search(ADDRESS_PATTERN@, value) == Some(part) ==> extracted_address(value) == part,
{
}

/// A value with neither brackets nor an address-shaped part gives itself,
/// without surrounding whitespace.
pub proof fn law_bare_address(value: Seq<char>)
    requires
        bracketed(value) is None,
    ensures
        address_of(value, None) == trimmed(value),
{
}

/// A header line gives what stands behind the colon, with or without blanks
/// between: where `blanks` holds blanks only and `value` does not begin with
/// one, the line `prefix`, `blanks`, `value` has the value `value`, and it
/// replaces what the lines before it gave.
pub proof fn law_value_behind_colon(
    earlier: Seq<Seq<char>>,
    prefix: Seq<char>,
    blanks: Seq<char>,
    value: Seq<char>,
)
    requires
        forall|j: int| 0 <= j < blanks.len() ==> is_blank(blanks[j]),
        value.len() > 0 ==> !is_blank(value[0]),
    ensures
        value_behind(blanks + value) == value,
        last_header_value(earlier.push(prefix + blanks + value), prefix) == Some(value),
{
    let rest = blanks + value;
    lemma_leading_blanks(rest, blanks.len() as int);
    assert(rest.skip(blanks.len() as int) =~= value);
    let line = prefix + blanks + value;
    let lines = earlier.push(line);
    assert(lines.last() == line);
    assert(line.take(prefix.len() as int) =~= prefix);
    assert(line.skip(prefix.len() as int) =~= rest);
}

/// A message that ends with its header block, or with the blank line after
/// it, has an empty body.
pub proof fn law_headers_only(text: Seq<char>, own: Seq<char>)
    requires
        blank_index(lines_of(text)) + 1 >= lines_of(text).len(),
    ensures
        body_of(text) == Seq::<char>::empty(),
        parsed_content(text, own).body == Seq::<char>::empty(),
{
    let lines = lines_of(text);
    if blank_index(lines) < lines.len() {
        assert(lines.skip(blank_index(lines) + 1) =~= Seq::<Seq<char>>::empty());
    }
}

/// A message without a `To:` header is addressed to the account that
/// fetched it.
pub proof fn law_missing_recipient(text: Seq<char>, own: Seq<char>)
    requires
        header_value(text, to_prefix()) is None,
    ensures
        recipient_of(text, own) == own,
        parsed_content(text, own).recipient == own,
{
}

} // verus!
