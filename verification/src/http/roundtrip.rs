//! What is written as a response is read back as written: a header block put
//! together from a status line and a list of headers yields that status code
//! and the table of those headers.
use vstd::prelude::*;
use vstd::utf8::{
    encode_utf8, encode_utf8_decode_utf8, encode_utf8_valid_utf8, is_ascii_chars,
    is_ascii_chars_encode_utf8,
};
use crate::http::client::header_lines;
use crate::http::error::HttpErrorView;
use crate::http::response::HttpResponseView;
use crate::http::wire::{
    header_entry, header_map, headers_of, interpret, is_first_separator,
    lemma_first_separator_unique, parse, second_word, separator_at, status_code, status_line,
    FIRST_FAILURE_STATUS, MAX_STATUS,
};
use crate::text::{
    free_of, is_digit, is_trimmed, is_whitespace, lemma_lines_first, lemma_lines_single,
    lemma_position_absent, lemma_position_found, lemma_prefix_len, lemma_trim_padded, lines,
    parse_unsigned, trim_start, unsigned_digits,
};

verus! {

/// The table that a list of headers stands for: each name with the value of
/// its last occurrence.
pub open spec fn table_of(headers: Seq<(Seq<char>, Seq<char>)>) -> Map<Seq<char>, Seq<char>>
    decreases headers.len(),
{
    if headers.len() == 0 {
        Map::empty()
    } else {
        table_of(headers.drop_last()).insert(headers.last().0, headers.last().1)
    }
}

/// Whether `s` is a run of one or more characters without whitespace.
pub open spec fn is_word(s: Seq<char>) -> bool {
    s.len() > 0 && forall|i: int| 0 <= i < s.len() ==> !is_whitespace(#[trigger] s[i])
}

/// Whether a header survives being written on a line of its own: its name
/// holds no colon, neither part holds a line feed, and neither part begins or
/// ends with whitespace.
pub open spec fn well_formed_header(header: (Seq<char>, Seq<char>)) -> bool {
    &&& free_of(header.0, ':')
    &&& free_of(header.0, '\n')
    &&& is_trimmed(header.0)
    &&& free_of(header.1, '\n')
    &&& is_trimmed(header.1)
}

/// Whether every header of the list is well formed.
pub open spec fn well_formed_headers(headers: Seq<(Seq<char>, Seq<char>)>) -> bool {
    forall|i: int| 0 <= i < headers.len() ==> well_formed_header(#[trigger] headers[i])
}

/// The line that carries `header`, up to its line feed.
pub open spec fn header_line(header: (Seq<char>, Seq<char>)) -> Seq<char> {
    header.0 + seq![':', ' '] + header.1 + seq!['\r']
}

/// The lines that carry `headers`, each up to its line feed.
pub open spec fn entry_lines(headers: Seq<(Seq<char>, Seq<char>)>) -> Seq<Seq<char>> {
    Seq::new(headers.len(), |i: int| header_line(headers[i]))
}

/// A header block: the status line, the lines of the headers, and the blank
/// line, each ended by CR LF.
pub open spec fn compose_head(status: Seq<char>, headers: Seq<(Seq<char>, Seq<char>)>) -> Seq<
    char,
> {
    status + "\r\n"@ + header_lines(headers) + "\r\n"@
}

/// A text that reads as a number is a word.
pub proof fn lemma_number_is_word(text: Seq<char>, max: nat)
    requires
        parse_unsigned(text, max) is Some,
    ensures
        is_word(text),
{
    let digits = unsigned_digits(text);
    assert forall|i: int| 0 <= i < text.len() implies !is_whitespace(#[trigger] text[i]) by {
        if text[0] == '+' {
            if i > 0 {
                assert(is_digit(digits[i - 1]));
            }
        } else {
            assert(is_digit(digits[i]));
        }
    }
}

/// The line of a well-formed header gives back the header.
pub proof fn lemma_header_entry(header: (Seq<char>, Seq<char>))
    requires
        well_formed_header(header),
    ensures
        header_entry(header_line(header)) == Some(header),
        free_of(header_line(header), '\n'),
{
    let (name, value) = header;
    let line = header_line(header);
    let after = seq![' '] + value + seq!['\r'];
    assert(line =~= name + seq![':'] + after);
    lemma_position_found(name, ':', after);
    assert(line.take(name.len() as int) == name);
    assert(line.skip(name.len() as int + 1) == after);
    lemma_trim_padded(Seq::empty(), name, Seq::empty());
    assert(Seq::<char>::empty() + name + Seq::<char>::empty() =~= name);
    lemma_trim_padded(seq![' '], value, seq!['\r']);
    assert forall|i: int| 0 <= i < line.len() implies #[trigger] line[i] != '\n' by {
        if i < name.len() {
            assert(line[i] == name[i]);
        } else if name.len() + 2 <= i < name.len() + 2 + value.len() {
            assert(line[i] == value[i - name.len() - 2]);
        }
    }
}

/// The text that the request writer makes of well-formed headers falls into
/// one line for each header.
pub proof fn lemma_header_lines_split(headers: Seq<(Seq<char>, Seq<char>)>, tail: Seq<char>)
    requires
        well_formed_headers(headers),
    ensures
        lines(header_lines(headers) + tail) == entry_lines(headers) + lines(tail),
    decreases headers.len(),
{
    if headers.len() == 0 {
        assert(header_lines(headers) + tail =~= tail);
        assert(entry_lines(headers) + lines(tail) =~= lines(tail));
    } else {
        reveal_strlit(": ");
        reveal_strlit("\r\n");
        let earlier = headers.drop_last();
        let last = headers.last();
        let line = header_line(last);
        assert(well_formed_header(last));
        assert(well_formed_headers(earlier)) by {
            assert forall|i: int| 0 <= i < earlier.len() implies well_formed_header(
                #[trigger] earlier[i],
            ) by {
                assert(earlier[i] == headers[i]);
            }
        }
        let longer_tail = line + seq!['\n'] + tail;
        assert(": "@ =~= seq![':', ' ']);
        assert("\r\n"@ =~= seq!['\r', '\n']);
        assert(header_lines(headers) + tail =~= header_lines(earlier) + longer_tail);
        lemma_header_lines_split(earlier, longer_tail);
        lemma_header_entry(last);
        lemma_lines_first(line, tail);
        assert(entry_lines(earlier) + (seq![line] + lines(tail)) =~= entry_lines(headers) + lines(
            tail,
        ));
    }
}

/// The lines of well-formed headers build the table of those headers.
pub proof fn lemma_header_map_entries(headers: Seq<(Seq<char>, Seq<char>)>)
    requires
        well_formed_headers(headers),
    ensures
        header_map(entry_lines(headers)) == table_of(headers),
    decreases headers.len(),
{
    if headers.len() > 0 {
        let earlier = headers.drop_last();
        assert(well_formed_headers(earlier)) by {
            assert forall|i: int| 0 <= i < earlier.len() implies well_formed_header(
                #[trigger] earlier[i],
            ) by {
                assert(earlier[i] == headers[i]);
            }
        }
        lemma_header_map_entries(earlier);
        lemma_header_entry(headers.last());
        assert(entry_lines(headers).drop_last() =~= entry_lines(earlier));
        assert(entry_lines(headers).last() == header_line(headers.last()));
    }
}

/// In a status line made of a version, a code and a reason with single
/// spaces between them, the code is the second word.
pub proof fn lemma_second_word(version: Seq<char>, code: Seq<char>, tail: Seq<char>)
    requires
        is_word(version),
        is_word(code),
    ensures
        second_word(version + seq![' '] + code + seq![' '] + tail) == code,
{
    let line = version + seq![' '] + code + seq![' '] + tail;
    let space = |x: char| is_whitespace(x);
    let solid = |x: char| !is_whitespace(x);
    assert(line[0] == version[0]);
    lemma_prefix_len(line, space, 0);
    assert(trim_start(line) == line);
    assert forall|i: int| 0 <= i < version.len() implies solid(#[trigger] line[i]) by {
        assert(line[i] == version[i]);
    }
    assert(line[version.len() as int] == ' ');
    lemma_prefix_len(line, solid, version.len() as int);
    let after_first = line.skip(version.len() as int);
    assert(after_first =~= seq![' '] + code + seq![' '] + tail);
    assert(after_first[1] == code[0]);
    lemma_prefix_len(after_first, space, 1);
    let rest = trim_start(after_first);
    assert(rest =~= code + seq![' '] + tail);
    assert forall|i: int| 0 <= i < code.len() implies solid(#[trigger] rest[i]) by {
        assert(rest[i] == code[i]);
    }
    assert(rest[code.len() as int] == ' ');
    lemma_prefix_len(rest, solid, code.len() as int);
    assert(rest.take(code.len() as int) == code);
}

/// A header block that is put together from a version, the text of a status
/// code below 400, a reason and a list of well-formed headers is read back as
/// a response with exactly that code, the table of those headers in which
/// the last of equal names wins, and exactly the given body.
pub proof fn lemma_interpret_composed(
    version: Seq<char>,
    code_text: Seq<char>,
    code: u16,
    reason: Seq<char>,
    headers: Seq<(Seq<char>, Seq<char>)>,
    body: Seq<u8>,
)
    requires
        is_word(version),
        parse_unsigned(code_text, MAX_STATUS as nat) == Some(code as nat),
        code < FIRST_FAILURE_STATUS,
        free_of(reason, '\n'),
        well_formed_headers(headers),
    ensures
        interpret(
            compose_head(version + seq![' '] + code_text + seq![' '] + reason, headers),
            body,
        ) == Ok::<HttpResponseView, HttpErrorView>(
            HttpResponseView { status_code: code, headers: table_of(headers), body },
        ),
{
    reveal_strlit("\r\n");
    assert("\r\n"@ =~= seq!['\r', '\n']);
    lemma_number_is_word(code_text, MAX_STATUS as nat);
    let status = version + seq![' '] + code_text + seq![' '] + reason;
    let head = compose_head(status, headers);
    let first = status + seq!['\r'];
    let rest = header_lines(headers) + "\r\n"@;
    assert(head =~= first + seq!['\n'] + rest);
    assert(free_of(first, '\n')) by {
        assert forall|i: int| 0 <= i < first.len() implies #[trigger] first[i] != '\n' by {
            let a = version.len();
            let b = a + 1 + code_text.len();
            if i < a {
                assert(first[i] == version[i]);
            } else if a < i < b {
                assert(first[i] == code_text[i - a - 1]);
            } else if b < i < first.len() - 1 {
                assert(first[i] == reason[i - b - 1]);
            }
        }
    }
    lemma_position_found(first, '\n', rest);
    assert(head.take(first.len() as int) == first);
    assert(status_line(head) == first);
    assert(first =~= version + seq![' '] + code_text + seq![' '] + (reason + seq!['\r']));
    lemma_second_word(version, code_text, reason + seq!['\r']);
    assert(status_code(head) == Some(code));
    lemma_lines_first(first, rest);
    assert(lines(head).drop_first() =~= lines(rest));
    lemma_header_lines_split(headers, "\r\n"@);
    let blank = seq!['\r'];
    assert("\r\n"@ =~= blank + seq!['\n'] + Seq::<char>::empty());
    lemma_lines_first(blank, Seq::empty());
    lemma_lines_single(Seq::empty());
    let closing = seq![blank, Seq::<char>::empty()];
    assert(lines("\r\n"@) =~= closing);
    let entries = entry_lines(headers);
    let all = entries + closing;
    assert(lines(rest) == all);
    lemma_header_map_entries(headers);
    lemma_position_absent(blank, ':');
    lemma_position_absent(Seq::<char>::empty(), ':');
    assert(header_entry(blank) is None);
    assert(header_entry(Seq::<char>::empty()) is None);
    assert(all.drop_last() =~= entries.push(blank));
    assert(all.last() == Seq::<char>::empty());
    assert(entries.push(blank).drop_last() =~= entries);
    assert(header_map(entries.push(blank)) == header_map(entries));
    assert(header_map(all) == header_map(entries));
    assert(headers_of(head) == table_of(headers));
}

/// Whether every name and value of the list is ASCII.
pub open spec fn ascii_headers(headers: Seq<(Seq<char>, Seq<char>)>) -> bool {
    forall|i: int|
        0 <= i < headers.len() ==> is_ascii_chars((#[trigger] headers[i]).0) && is_ascii_chars(
            headers[i].1,
        )
}

/// Whether a line feed, a carriage return and a line feed stand at index `j` of `t`.
pub open spec fn blank_at(t: Seq<char>, j: int) -> bool {
    t[j] == '\n' && t[j + 1] == '\r' && t[j + 2] == '\n'
}

/// Whether no line of `t` but perhaps its first is blank.
pub open spec fn no_blank_line(t: Seq<char>) -> bool {
    forall|j: int| 0 <= j <= t.len() - 3 ==> !#[trigger] blank_at(t, j)
}

/// A status line and the lines of well-formed headers end in CR LF and hold
/// no blank line.
pub proof fn lemma_block_shape(status: Seq<char>, headers: Seq<(Seq<char>, Seq<char>)>)
    requires
        free_of(status, '\n'),
        well_formed_headers(headers),
    ensures
        ({
            let t = status + "\r\n"@ + header_lines(headers);
            &&& t.len() >= 2
            &&& t[t.len() - 2] == '\r'
            &&& t[t.len() - 1] == '\n'
            &&& no_blank_line(t)
        }),
    decreases headers.len(),
{
    reveal_strlit("\r\n");
    reveal_strlit(": ");
    let t = status + "\r\n"@ + header_lines(headers);
    if headers.len() == 0 {
        assert(t =~= status + seq!['\r', '\n']);
        assert forall|j: int| 0 <= j <= t.len() - 3 implies !#[trigger] blank_at(t, j) by {
            assert(t[j] == status[j]);
        }
    } else {
        let earlier = headers.drop_last();
        let (name, value) = headers.last();
        assert(well_formed_header(headers.last()));
        assert(well_formed_headers(earlier)) by {
            assert forall|i: int| 0 <= i < earlier.len() implies well_formed_header(
                #[trigger] earlier[i],
            ) by {
                assert(earlier[i] == headers[i]);
            }
        }
        lemma_block_shape(status, earlier);
        let before = status + "\r\n"@ + header_lines(earlier);
        let line = name + seq![':', ' '] + value;
        assert(t =~= before + line + seq!['\r', '\n']);
        assert(free_of(line, '\n')) by {
            assert forall|i: int| 0 <= i < line.len() implies #[trigger] line[i] != '\n' by {
                if i < name.len() {
                    assert(line[i] == name[i]);
                } else if i >= name.len() + 2 {
                    assert(line[i] == value[i - name.len() - 2]);
                }
            }
        }
        assert forall|j: int| 0 <= j <= t.len() - 3 implies !#[trigger] blank_at(t, j) by {
            if j + 2 < before.len() {
                assert(!blank_at(before, j));
                assert(t[j] == before[j] && t[j + 1] == before[j + 1] && t[j + 2] == before[j + 2]);
            } else if j + 2 < t.len() - 1 {
                if j + 2 < before.len() + line.len() {
                    assert(t[j + 2] == line[j + 2 - before.len()]);
                }
            } else {
                assert(t[j] == line[line.len() - 1]);
            }
        }
    }
}

/// The text that the request writer makes of ASCII headers is ASCII.
pub proof fn lemma_header_lines_ascii(headers: Seq<(Seq<char>, Seq<char>)>)
    requires
        ascii_headers(headers),
    ensures
        is_ascii_chars(header_lines(headers)),
    decreases headers.len(),
{
    if headers.len() > 0 {
        reveal_strlit("\r\n");
        reveal_strlit(": ");
        let earlier = headers.drop_last();
        let (name, value) = headers.last();
        assert(ascii_headers(earlier)) by {
            assert forall|i: int| 0 <= i < earlier.len() implies is_ascii_chars(
                (#[trigger] earlier[i]).0,
            ) && is_ascii_chars(earlier[i].1) by {
                assert(earlier[i] == headers[i]);
            }
        }
        lemma_header_lines_ascii(earlier);
        let before = header_lines(earlier);
        let t = header_lines(headers);
        assert(t =~= before + name + seq![':', ' '] + value + seq!['\r', '\n']);
        assert forall|i: int| 0 <= i < t.len() implies '\0' <= #[trigger] t[i] <= '\u{7f}' by {
            let a = before.len();
            let b = a + name.len();
            let c = b + 2 + value.len();
            if i < a {
                assert(t[i] == before[i]);
            } else if i < b {
                assert(t[i] == name[i - a]);
            } else if b + 2 <= i < c {
                assert(t[i] == value[i - b - 2]);
            }
        }
    }
}

/// A digit is an ASCII character.
pub proof fn lemma_digit_is_ascii(c: char)
    requires
        is_digit(c),
    ensures
        '\0' <= c <= '\u{7f}',
{
}

/// The bytes of an ASCII header block that is put together from a version,
/// the text of a status code below 400, a reason and a list of well-formed
/// headers, followed by any body, parse to a response with exactly that code,
/// the table of those headers in which the last of equal names wins, and
/// exactly that body.
pub proof fn lemma_parse_composed(
    version: Seq<char>,
    code_text: Seq<char>,
    code: u16,
    reason: Seq<char>,
    headers: Seq<(Seq<char>, Seq<char>)>,
    body: Seq<u8>,
)
    requires
        is_word(version),
        is_ascii_chars(version),
        parse_unsigned(code_text, MAX_STATUS as nat) == Some(code as nat),
        code < FIRST_FAILURE_STATUS,
        free_of(reason, '\n'),
        is_ascii_chars(reason),
        well_formed_headers(headers),
        ascii_headers(headers),
    ensures
        parse(
            encode_utf8(
                compose_head(version + seq![' '] + code_text + seq![' '] + reason, headers),
            ) + body,
        ) == Ok::<HttpResponseView, HttpErrorView>(
            HttpResponseView { status_code: code, headers: table_of(headers), body },
        ),
{
    reveal_strlit("\r\n");
    let status = version + seq![' '] + code_text + seq![' '] + reason;
    let head = compose_head(status, headers);
    let block = status + "\r\n"@ + header_lines(headers);
    let bytes = encode_utf8(head);
    let raw = bytes + body;
    lemma_number_is_word(code_text, MAX_STATUS as nat);
    let digits = unsigned_digits(code_text);
    assert(free_of(status, '\n') && is_ascii_chars(status)) by {
        assert forall|i: int| 0 <= i < status.len() implies #[trigger] status[i] != '\n' && '\0'
            <= status[i] <= '\u{7f}' by {
            let a = version.len();
            let b = a + 1 + code_text.len();
            if i < a {
                assert(status[i] == version[i]);
            } else if i == a {
                assert(status[i] == ' ');
            } else if i < b {
                let k = i - a - 1;
                assert(status[i] == code_text[k]);
                if code_text[0] == '+' {
                    if k > 0 {
                        assert(is_digit(digits[k - 1]));
                        lemma_digit_is_ascii(digits[k - 1]);
                    }
                } else {
                    assert(is_digit(digits[k]));
                    lemma_digit_is_ascii(digits[k]);
                }
            } else if i == b {
                assert(status[i] == ' ');
            } else {
                assert(status[i] == reason[i - b - 1]);
            }
        }
    }
    lemma_block_shape(status, headers);
    lemma_header_lines_ascii(headers);
    assert(head =~= block + seq!['\r', '\n']);
    assert(is_ascii_chars(head)) by {
        let lines_part = header_lines(headers);
        assert forall|i: int| 0 <= i < head.len() implies '\0' <= #[trigger] head[i]
            <= '\u{7f}' by {
            if i < status.len() {
                assert(head[i] == status[i]);
            } else if status.len() + 2 <= i < block.len() {
                assert(head[i] == lines_part[i - status.len() - 2]);
            }
        }
    }
    is_ascii_chars_encode_utf8(head);
    encode_utf8_valid_utf8(head);
    encode_utf8_decode_utf8(head);
    let cut = head.len() as int;
    let at = cut - 4;
    assert forall|i: int| 0 <= i < cut implies (raw[i] == 13 <==> head[i] == '\r') && (raw[i] == 10
        <==> head[i] == '\n') by {
        assert(raw[i] == bytes[i]);
        assert(bytes[i] == head[i] as u8);
        assert('\0' <= head[i] <= '\u{7f}');
    }
    assert(head[at] == '\r' && head[at + 1] == '\n' && head[at + 2] == '\r' && head[at + 3]
        == '\n') by {
        assert(head[at] == block[at] && head[at + 1] == block[at + 1]);
    }
    assert(is_first_separator(raw, at)) by {
        assert forall|j: int| 0 <= j < at implies !separator_at(raw, j) by {
            if separator_at(raw, j) {
                if j + 3 < block.len() {
                    assert(head[j + 1] == block[j + 1] && head[j + 2] == block[j + 2] && head[j
                        + 3] == block[j + 3]);
                    assert(blank_at(block, j + 1));
                }
            }
        }
    }
    lemma_first_separator_unique(raw, at);
    assert(raw.take(cut) =~= bytes);
    assert(raw.skip(cut) =~= body);
    lemma_interpret_composed(version, code_text, code, reason, headers, body);
}

} // verus!
