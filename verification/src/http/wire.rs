//! The shape of a response on the wire: a header block, the blank line that
//! ends it, and the body; and within the header block a status line followed
//! by `Name: Value` lines.
use vstd::prelude::*;
use vstd::hash_map::StringHashMap;
use vstd::utf8::{decode_utf8, valid_utf8};
use crate::http::error::HttpErrorView;
use crate::http::response::{text_map, HttpResponseView};
use crate::text::{
    find_char, lines, parse_unsigned, parse_unsigned_range, position, skip_spaces, skip_word,
    substring, trim, trim_range, trim_start, word_len,
};

verus! {

/// The largest status code that a response can carry.
pub const MAX_STATUS: usize = 65535;

/// The first status code that stands for a failed request.
pub const FIRST_FAILURE_STATUS: u16 = 400;

/// Whether the four bytes CR LF CR LF stand at index `i` of `raw`.
pub open spec fn separator_at(raw: Seq<u8>, i: int) -> bool {
    &&& 0 <= i <= raw.len() - 4
    &&& raw[i] == 13
    &&& raw[i + 1] == 10
    &&& raw[i + 2] == 13
    &&& raw[i + 3] == 10
}

/// Whether `raw` holds the blank line that ends a header block.
pub open spec fn has_separator(raw: Seq<u8>) -> bool {
    exists|i: int| separator_at(raw, i)
}

/// Whether `i` is where the first blank line of `raw` begins.
pub open spec fn is_first_separator(raw: Seq<u8>, i: int) -> bool {
    &&& separator_at(raw, i)
    &&& forall|j: int| 0 <= j < i ==> !separator_at(raw, j)
}

/// Where the first blank line of `raw` begins, if it has one.
pub open spec fn separator_index(raw: Seq<u8>) -> int {
    choose|i: int| is_first_separator(raw, i)
}

/// The text that the standard library makes of `bytes` when it replaces every
/// invalid UTF-8 sequence by U+FFFD.
pub uninterp spec fn utf8_lossy(bytes: Seq<u8>) -> Seq<char>;

/// The text of a header block: the characters that its bytes encode where
/// they are valid UTF-8, and otherwise what lossy decoding makes of them.
pub open spec fn decoded(bytes: Seq<u8>) -> Seq<char> {
    if valid_utf8(bytes) {
        decode_utf8(bytes)
    } else {
        utf8_lossy(bytes)
    }
}

/// The first line of a header block.
pub open spec fn status_line(head: Seq<char>) -> Seq<char> {
    head.take(position(head, '\n'))
}

/// The second run of non-whitespace characters of `line`; empty when the line
/// has fewer than two.
pub open spec fn second_word(line: Seq<char>) -> Seq<char> {
    let first = trim_start(line);
    let rest = trim_start(first.skip(word_len(first)));
    rest.take(word_len(rest))
}

/// The status code that a header block announces, if its status line has a
/// second word and that word is a number that fits sixteen bits.
pub open spec fn status_code(head: Seq<char>) -> Option<u16> {
    match parse_unsigned(second_word(status_line(head)), MAX_STATUS as nat) {
        Some(code) => Some(code as u16),
        None => None,
    }
}

/// The name and value that a header line gives: what stands before and after
/// its first colon, each without surrounding whitespace. A line without a
/// colon gives nothing.
pub open spec fn header_entry(line: Seq<char>) -> Option<(Seq<char>, Seq<char>)> {
    let colon = position(line, ':');
    if 0 <= colon < line.len() {
        Some((trim(line.take(colon)), trim(line.skip(colon + 1))))
    } else {
        None
    }
}

/// The table that a run of header lines builds, read in order: each line that
/// gives an entry sets its name to its value, so the last occurrence wins.
pub open spec fn header_map(entries: Seq<Seq<char>>) -> Map<Seq<char>, Seq<char>>
    decreases entries.len(),
{
    if entries.len() == 0 {
        Map::empty()
    } else {
        let earlier = header_map(entries.drop_last());
        match header_entry(entries.last()) {
            Some((name, value)) => earlier.insert(name, value),
            None => earlier,
        }
    }
}

/// The header table of a header block: built from every line after the first.
pub open spec fn headers_of(head: Seq<char>) -> Map<Seq<char>, Seq<char>> {
    header_map(lines(head).drop_first())
}

/// What a decoded header block and a body amount to: an `InvalidResponse`
/// without a readable status code, `RequestFailed` for a code of 400 or more,
/// and otherwise the response with that code, the block's headers and the body.
pub open spec fn interpret(head: Seq<char>, body: Seq<u8>) -> Result<
    HttpResponseView,
    HttpErrorView,
> {
    match status_code(head) {
        None => Err(HttpErrorView::InvalidResponse),
        Some(code) => if code >= FIRST_FAILURE_STATUS {
            Err(HttpErrorView::RequestFailed(code))
        } else {
            Ok(HttpResponseView { status_code: code, headers: headers_of(head), body })
        },
    }
}

/// What the bytes of a whole response amount to. Without a blank line they are
/// an `InvalidResponse`. Otherwise the header block runs up to and including
/// the first blank line and is read as text, and the body is everything
/// after it.
pub open spec fn parse(raw: Seq<u8>) -> Result<HttpResponseView, HttpErrorView> {
    if has_separator(raw) {
        let cut = separator_index(raw) + 4;
        interpret(decoded(raw.take(cut)), raw.skip(cut))
    } else {
        Err(HttpErrorView::InvalidResponse)
    }
}

/// There is only one first blank line.
pub proof fn lemma_first_separator_unique(raw: Seq<u8>, i: int)
    requires
        is_first_separator(raw, i),
    ensures
        has_separator(raw),
        separator_index(raw) == i,
{
    let k = separator_index(raw);
    assert(is_first_separator(raw, k));
    if k < i {
        assert(!separator_at(raw, k));
    } else if i < k {
        assert(!separator_at(raw, i));
    }
}

/// `String::from_utf8_lossy` of std: turns bytes into text, U+FFFD standing
/// for each invalid sequence. The result is taken to depend on the bytes
/// alone, and bytes that are valid UTF-8 to come back as the characters that
/// they encode.
#[verifier::external_body]
pub(crate) fn decode_lossy(bytes: &[u8]) -> (text: String)
    ensures
        text@ == utf8_lossy(bytes@),
        valid_utf8(bytes@) ==> text@ == decode_utf8(bytes@),
{
    String::from_utf8_lossy(bytes).into_owned()
}

/// Finds where the first blank line of `raw` begins.
pub fn find_separator(raw: &[u8]) -> (found: Option<usize>)
    ensures
        match found {
            Some(i) => is_first_separator(raw@, i as int),
            None => !has_separator(raw@),
        },
{
    let n: usize = raw.len();
    if n < 4 {
        return None;
    }
    let mut i: usize = 0;
    while i <= n - 4
        invariant
            n == raw@.len(),
            n >= 4,
            i <= n - 3,
            forall|j: int| 0 <= j < i ==> !separator_at(raw@, j),
        decreases n - i,
    {
        if raw[i] == 13 && raw[i + 1] == 10 && raw[i + 2] == 13 && raw[i + 3] == 10 {
            return Some(i);
        }
        i += 1;
    }
    None
}

/// Reads the status code off the status line `chars[0..end]`.
pub fn read_status(chars: &Vec<char>, end: usize) -> (code: Option<u16>)
    requires
        end <= chars@.len(),
    ensures
        code == match parse_unsigned(second_word(chars@.take(end as int)), MAX_STATUS as nat) {
            Some(n) => Some(n as u16),
            None => None,
        },
{
    let first_start = skip_spaces(chars, 0, end);
    let first_end = skip_word(chars, first_start, end);
    let second_start = skip_spaces(chars, first_end, end);
    let second_end = skip_word(chars, second_start, end);
    proof {
        let line = chars@.take(end as int);
        assert(line == chars@.subrange(0, end as int));
        let first = trim_start(line);
        assert(first == chars@.subrange(first_start as int, end as int));
        assert(first.skip(word_len(first)) == chars@.subrange(first_end as int, end as int));
        let rest = trim_start(first.skip(word_len(first)));
        assert(rest == chars@.subrange(second_start as int, end as int));
        assert(second_word(line) == chars@.subrange(second_start as int, second_end as int));
    }
    match parse_unsigned_range(chars, second_start, second_end, MAX_STATUS) {
        Some(n) => Some(n as u16),
        None => None,
    }
}

/// Enters what the header line `chars[from..to]` gives into `table`.
pub fn read_header_line(
    head: &str,
    chars: &Vec<char>,
    from: usize,
    to: usize,
    table: &mut StringHashMap<String>,
)
    requires
        chars@ == head@,
        from <= to <= chars@.len(),
    ensures
        text_map(final(table)@) == match header_entry(chars@.subrange(from as int, to as int)) {
            Some((name, value)) => text_map(old(table)@).insert(name, value),
            None => text_map(old(table)@),
        },
{
    let colon = find_char(chars, from, to, ':');
    if colon < to {
        let (name_start, name_end) = trim_range(chars, from, colon);
        let (value_start, value_end) = trim_range(chars, colon + 1, to);
        let name = substring(head, name_start, name_end);
        let value = substring(head, value_start, value_end);
        proof {
            let line = chars@.subrange(from as int, to as int);
            assert(line.take(colon - from) == chars@.subrange(from as int, colon as int));
            assert(line.skip(colon - from + 1) == chars@.subrange(colon + 1, to as int));
            assert(header_entry(line) == Some((name@, value@)));
            assert(text_map(table@.insert(name@, value)) =~= text_map(table@).insert(
                name@,
                value@,
            ));
        }
        table.insert(name, value);
    }
}

/// Unfolds `lines` once at the first line feed of `s`.
pub proof fn lemma_lines_step(s: Seq<char>)
    ensures
        position(s, '\n') >= s.len() ==> lines(s) == seq![s],
        0 <= position(s, '\n') < s.len() ==> lines(s) == seq![s.take(position(s, '\n'))] + lines(
            s.skip(position(s, '\n') + 1),
        ),
{
    crate::text::lemma_prefix_len_bounds(s, crate::text::other_than('\n'));
}

/// Builds the header table from the lines of `head` that follow the status
/// line, which ends at index `first_end`.
pub fn read_headers(head: &str, chars: &Vec<char>, first_end: usize) -> (table: StringHashMap<
    String,
>)
    requires
        chars@ == head@,
        first_end <= chars@.len(),
        first_end == position(chars@, '\n'),
    ensures
        text_map(table@) == headers_of(head@),
{
    let n: usize = chars.len();
    let mut table: StringHashMap<String> = StringHashMap::new();
    let mut pos: usize = first_end;
    let ghost done: Seq<Seq<char>> = Seq::empty();
    proof {
        lemma_lines_step(chars@);
        assert(text_map(table@) =~= header_map(done));
        if pos < n {
            assert(lines(chars@).drop_first() =~= done + lines(chars@.skip(pos + 1)));
        } else {
            assert(lines(chars@).drop_first() =~= done);
        }
    }
    while pos < n
        invariant
            chars@ == head@,
            n == chars@.len(),
            pos <= n,
            pos < n ==> lines(chars@).drop_first() == done + lines(chars@.skip(pos + 1)),
            pos == n ==> lines(chars@).drop_first() == done,
            text_map(table@) == header_map(done),
        decreases n - pos,
    {
        let start: usize = pos + 1;
        let end = find_char(chars, start, n, '\n');
        read_header_line(head, chars, start, end, &mut table);
        proof {
            let rest = chars@.skip(start as int);
            let line = chars@.subrange(start as int, end as int);
            assert(rest == chars@.subrange(start as int, n as int));
            assert(rest.take(end - start) == line);
            lemma_lines_step(rest);
            let longer = done.push(line);
            assert(longer.drop_last() == done);
            if end < n {
                assert(rest.skip(end - start + 1) == chars@.skip(end + 1));
                assert(done + (seq![line] + lines(chars@.skip(end + 1))) =~= longer + lines(
                    chars@.skip(end + 1),
                ));
            } else {
                assert(rest.take(end - start) == rest);
                assert(done + seq![line] =~= longer);
            }
            done = longer;
        }
        pos = end;
    }
    table
}

} // verus!
