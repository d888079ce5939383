//! What holds of all request headers.

use vstd::prelude::*;

use crate::error::HandleError;
use crate::request::{
    bare_request, connection_asked, format_error, request_line, request_of, unknown_method,
    with_field, with_fields, ConnectionType, Method, Request,
};
use crate::text::{
    decimal, is_borderless, is_digit, is_free_of, is_space, glued,
    law_decimal_read_back, law_pieces_free_of_pattern, law_pieces_of_glued,
    law_pieces_of_joined_texts, lemma_decimal_digits, lemma_one_piece, lemma_some_piece,
    lemma_word_end, lemma_word_end_is, matches_at, pieces, word_end, words,
};

verus! {

/// The key of a header field.
pub open spec fn key_of(line: Seq<char>) -> Seq<char> {
    pieces(line, ": "@)[0]
}

/// Whether fields with this key are looked at.
pub open spec fn is_known_key(key: Seq<char>) -> bool {
    key == "Host"@ || key == "User-Agent"@ || key == "Content-Length"@ || key == "Connection"@
}

/// Whether one of the lines is a field with this key.
pub open spec fn has_field(lines: Seq<Seq<char>>, key: Seq<char>) -> bool {
    exists|i: int| 0 <= i < lines.len() && key_of(#[trigger] lines[i]) == key
}

pub proof fn lemma_line_break_is_borderless()
    ensures
        is_borderless("\r\n"@),
{
    reveal_strlit("\r\n");
    let pattern = "\r\n"@;
    assert forall|k: int| 0 < k < pattern.len() implies #[trigger] pattern.skip(k)
        != pattern.take(pattern.len() - k) by {
        assert(pattern.skip(k)[0] == '\n');
        assert(pattern.take(pattern.len() - k)[0] == '\r');
    }
}

pub proof fn lemma_separator_is_borderless()
    ensures
        is_borderless(": "@),
{
    reveal_strlit(": ");
    let pattern = ": "@;
    assert forall|k: int| 0 < k < pattern.len() implies #[trigger] pattern.skip(k)
        != pattern.take(pattern.len() - k) by {
        assert(pattern.skip(k)[0] == ' ');
        assert(pattern.take(pattern.len() - k)[0] == ':');
    }
}

/// Fields are taken over in order: first those of the first lines, unless one of them is in
/// error, then the others.
pub proof fn law_fields_in_order(request: Request, first: Seq<Seq<char>>, last: Seq<Seq<char>>)
    ensures
        with_fields(request, first + last) == match with_fields(request, first) {
            Ok(next) => with_fields(next, last),
            Err(e) => Err(e),
        },
    decreases first.len(),
{
    let all = first + last;
    if first.len() == 0 {
        assert(all == last);
    } else {
        assert(all[0] == first[0]);
        assert(all.skip(1) == first.skip(1) + last);
        if let Ok(next) = with_field(request, first[0]) {
            law_fields_in_order(next, first.skip(1), last);
        }
    }
}

proof fn lemma_unknown_last_field_ignored(before: Seq<char>, line: Seq<char>)
    requires
        is_free_of(line, "\r\n"@),
        !is_known_key(key_of(line)),
    ensures
        request_of(before + "\r\n"@ + line) == request_of(before),
{
    let cut = "\r\n"@;
    lemma_line_break_is_borderless();
    lemma_some_piece(before, cut);
    lemma_one_piece(line, cut);
    law_pieces_of_joined_texts(before, cut, line);
    let head = pieces(before, cut);
    let with_line = head + seq![line];
    assert(with_line[0] == head[0]);
    if let Ok(request) = request_line(head[0]) {
        assert(with_line.skip(1) == head.skip(1) + seq![line]);
        law_fields_in_order(request, head.skip(1), seq![line]);
        if let Ok(next) = with_fields(request, head.skip(1)) {
            reveal_with_fuel(with_fields, 2);
            assert(with_field(next, line) == Ok::<Request, HandleError>(next));
        }
    }
}

/// A field with a key that is not known changes nothing, wherever it stands: between two
/// lines or after the last one.
pub proof fn law_unknown_field_ignored(before: Seq<char>, line: Seq<char>, after: Seq<char>)
    requires
        is_free_of(line, "\r\n"@),
        !is_known_key(key_of(line)),
    ensures
        request_of(before + "\r\n"@ + line + "\r\n"@ + after) == request_of(
            before + "\r\n"@ + after,
        ),
        request_of(before + "\r\n"@ + line) == request_of(before),
{
    let cut = "\r\n"@;
    lemma_unknown_last_field_ignored(before, line);
    lemma_line_break_is_borderless();
    lemma_some_piece(before, cut);
    lemma_one_piece(line, cut);
    let head = pieces(before, cut);
    let tail = pieces(after, cut);
    law_pieces_of_joined_texts(line, cut, after);
    law_pieces_of_joined_texts(before, cut, line + cut + after);
    law_pieces_of_joined_texts(before, cut, after);
    assert(before + cut + line + cut + after == before + cut + (line + cut + after));
    let with_line = head + (seq![line] + tail);
    let without = head + tail;
    assert(with_line[0] == without[0]);
    if let Ok(request) = request_line(head[0]) {
        assert(with_line.skip(1) == head.skip(1) + (seq![line] + tail));
        assert(without.skip(1) == head.skip(1) + tail);
        law_fields_in_order(request, head.skip(1), seq![line] + tail);
        law_fields_in_order(request, head.skip(1), tail);
        if let Ok(next) = with_fields(request, head.skip(1)) {
            assert((seq![line] + tail)[0] == line);
            assert((seq![line] + tail).skip(1) == tail);
            assert(with_field(next, line) == Ok::<Request, HandleError>(next));
        }
    }
}

/// Of two fields with one key, the later one counts.
pub proof fn law_last_field_counts(
    request: Request,
    between: Request,
    first: Seq<char>,
    second: Seq<char>,
)
    requires
        key_of(first) == key_of(second),
        with_field(request, first) == Ok::<Request, HandleError>(between),
    ensures
        with_field(between, second) == with_field(request, second),
{
}

/// Fields leave the method and the URI as they are, and a field that no line gives keeps
/// its value.
pub proof fn law_absent_fields(request: Request, lines: Seq<Seq<char>>, result: Request)
    requires
        with_fields(request, lines) == Ok::<Request, HandleError>(result),
    ensures
        result.method == request.method,
        result.uri == request.uri,
        !has_field(lines, "Host"@) ==> result.host == request.host,
        !has_field(lines, "User-Agent"@) ==> result.user_agent == request.user_agent,
        !has_field(lines, "Content-Length"@) ==> result.content_length
            == request.content_length,
        !has_field(lines, "Connection"@) ==> result.connection == request.connection,
    decreases lines.len(),
{
    if lines.len() > 0 {
        let rest = lines.skip(1);
        let next = with_field(request, lines[0])->Ok_0;
        law_absent_fields(next, rest, result);
        assert forall|key: Seq<char>| !has_field(lines, key) implies !has_field(rest, key)
            && key_of(lines[0]) != key by {
            if has_field(rest, key) {
                let i = choose|i: int| 0 <= i < rest.len() && key_of(#[trigger] rest[i]) == key;
                assert(key_of(lines[i + 1]) == key);
            }
        }
    }
}

/// A connection stays open unless the header has a `Connection` field.
pub proof fn law_kept_alive_by_default(raw: Seq<char>, request: Request)
    requires
        request_of(raw) == Ok::<Request, HandleError>(request),
        !has_field(pieces(raw, "\r\n"@).skip(1), "Connection"@),
    ensures
        request.connection == ConnectionType::KeepAlive,
{
    let lines = pieces(raw, "\r\n"@);
    law_absent_fields(request_line(lines[0])->Ok_0, lines.skip(1), request);
}

/// Fields that are in error are malformed.
pub proof fn lemma_field_errors(request: Request, lines: Seq<Seq<char>>, e: HandleError)
    requires
        with_fields(request, lines) == Err::<Request, HandleError>(e),
    ensures
        e == format_error(),
    decreases lines.len(),
{
    if let Ok(next) = with_field(request, lines[0]) {
        lemma_field_errors(next, lines.skip(1), e);
    }
}

/// A header that is in error is malformed: there is no other error.
pub proof fn law_header_errors(raw: Seq<char>, e: HandleError)
    requires
        request_of(raw) == Err::<Request, HandleError>(e),
    ensures
        e == format_error(),
{
    let lines = pieces(raw, "\r\n"@);
    if let Ok(request) = request_line(lines[0]) {
        lemma_field_errors(request, lines.skip(1), e);
    }
}

/// A header that asks by a method that there is none of is no request.
pub proof fn law_unknown_method_is_malformed(raw: Seq<char>)
    requires
        unknown_method(raw) is Some,
    ensures
        request_of(raw) == Err::<Request, HandleError>(format_error()),
{
}

/// Fields are read in the same way whatever stands before them.
proof fn lemma_fields_alone(one: Request, other: Request, lines: Seq<Seq<char>>)
    requires
        one.connection == other.connection,
    ensures
        match (with_fields(one, lines), with_fields(other, lines)) {
            (Ok(a), Ok(b)) => a.connection == b.connection,
            (Err(a), Err(b)) => a == b,
            _ => false,
        },
    decreases lines.len(),
{
    if lines.len() > 0 {
        if let (Ok(a), Ok(b)) = (with_field(one, lines[0]), with_field(other, lines[0])) {
            lemma_fields_alone(a, b, lines.skip(1));
        }
    }
}

/// What the fields ask to become of the connection does not depend on the request line: a
/// request by a known method asks for the same.
pub proof fn law_connection_asked(raw: Seq<char>, request: Request)
    requires
        request_of(raw) == Ok::<Request, HandleError>(request),
    ensures
        connection_asked(pieces(raw, "\r\n"@).skip(1)) == Some(request.connection),
{
    let lines = pieces(raw, "\r\n"@);
    let bare = bare_request(Method::GET, Seq::empty());
    lemma_fields_alone(request_line(lines[0])->Ok_0, bare, lines.skip(1));
}

/// Words are not empty and hold no spaces.
proof fn lemma_words(text: Seq<char>, k: int)
    requires
        0 <= k < words(text).len(),
    ensures
        words(text)[k].len() > 0,
        forall|i: int| 0 <= i < words(text)[k].len() ==> !is_space(#[trigger] words(text)[k][i]),
    decreases text.len(),
{
    if is_space(text[0]) {
        lemma_words(text.skip(1), k);
    } else {
        let end = word_end(text, 0);
        lemma_word_end(text, 0);
        if k > 0 {
            lemma_words(text.skip(end), k - 1);
        }
    }
}

/// The URI of a request is not empty and holds no spaces.
pub proof fn law_uri_is_a_word(raw: Seq<char>, request: Request)
    requires
        request_of(raw) == Ok::<Request, HandleError>(request),
    ensures
        request.uri.len() > 0,
        forall|i: int| 0 <= i < request.uri.len() ==> !is_space(#[trigger] request.uri[i]),
{
    let lines = pieces(raw, "\r\n"@);
    law_absent_fields(request_line(lines[0])->Ok_0, lines.skip(1), request);
    lemma_words(lines[0], 1);
}

/// What stands between two separators of a line holds no line break.
pub proof fn law_sections_hold_no_line_break(raw: Seq<char>, i: int, k: int)
    requires
        0 <= i < pieces(raw, "\r\n"@).len(),
        0 <= k < pieces(pieces(raw, "\r\n"@)[i], ": "@).len(),
    ensures
        is_free_of(pieces(pieces(raw, "\r\n"@)[i], ": "@)[k], "\r\n"@),
{
    let cut = "\r\n"@;
    reveal_strlit("\r\n");
    reveal_strlit(": ");
    let line = pieces(raw, cut)[i];
    let section = pieces(line, ": "@)[k];
    law_pieces_free_of_pattern(raw, cut, i);
    let at = law_pieces_free_of_pattern(line, ": "@, k);
    assert forall|j: int| !matches_at(section, cut, j) by {
        if matches_at(section, cut, j) {
            let window = line.subrange(at, at + section.len());
            assert(window == section);
            assert(line.subrange(at + j, at + j + 2) == window.subrange(j, j + 2));
            assert(matches_at(line, cut, at + j));
        }
    }
}

/// A word and what follows it after a space.
proof fn lemma_first_word(word: Seq<char>, rest: Seq<char>)
    requires
        word.len() > 0,
        forall|i: int| 0 <= i < word.len() ==> !is_space(#[trigger] word[i]),
        rest.len() > 0 ==> is_space(rest[0]),
    ensures
        words(word + rest) == seq![word] + words(rest),
{
    let text = word + rest;
    assert(!is_space(word[0]));
    assert forall|j: int| 0 <= j < word.len() implies !is_space(text[j]) by {
        assert(text[j] == word[j]);
    }
    lemma_word_end_is(text, 0, word.len() as int);
    assert(text.take(word.len() as int) == word);
    assert(text.skip(word.len() as int) == rest);
}

proof fn lemma_method_name(method: Method)
    ensures
        method.name().len() > 0,
        forall|i: int| 0 <= i < method.name().len() ==> !is_space(#[trigger] method.name()[i]),
        Method::named(method.name()) == Some(method),
{
    reveal_strlit("GET");
    reveal_strlit("POST");
    assert("GET"@.len() == 3 && "POST"@.len() == 4);
}

/// Each method has its name to itself.
pub proof fn law_method_of_name(method: Method)
    ensures
        Method::named(method.name()) == Some(method),
{
    lemma_method_name(method);
}

/// Each kind of connection has its name to itself.
pub proof fn law_connection_of_name(connection: ConnectionType)
    ensures
        ConnectionType::named(connection.name()) == Some(connection),
{
    reveal_strlit("keep-alive");
    reveal_strlit("close");
    assert("keep-alive"@.len() == 10 && "close"@.len() == 5);
}

/// A method, a space, a URI and, after another space, anything at all: the HTTP version is
/// not looked at.
pub proof fn law_request_line(method: Method, uri: Seq<char>, rest: Seq<char>)
    requires
        uri.len() > 0,
        forall|i: int| 0 <= i < uri.len() ==> !is_space(#[trigger] uri[i]),
        rest.len() > 0 ==> is_space(rest[0]),
    ensures
        request_line(method.name() + " "@ + uri + rest) == Ok::<Request, HandleError>(
            bare_request(method, uri),
        ),
{
    reveal_strlit(" ");
    lemma_method_name(method);
    let name = method.name();
    let tail = " "@ + uri + rest;
    let line = name + " "@ + uri + rest;
    assert(line == name + tail);
    lemma_first_word(name, tail);
    assert(tail.skip(1) == uri + rest);
    assert(words(tail) == words(uri + rest));
    lemma_first_word(uri, rest);
    assert(words(line)[0] == name);
    assert(words(line)[1] == uri);
}

/// A line with a key, the separator and a value has that key and that value.
pub proof fn law_field_line(key: Seq<char>, value: Seq<char>)
    requires
        is_free_of(key, ": "@),
        is_free_of(value, ": "@),
    ensures
        pieces(key + ": "@ + value, ": "@) == seq![key, value],
{
    lemma_separator_is_borderless();
    law_pieces_of_joined_texts(key, ": "@, value);
    lemma_one_piece(key, ": "@);
    lemma_one_piece(value, ": "@);
    assert(seq![key] + seq![value] == seq![key, value]);
}

/// Lines without line breaks, with one between each two of them, are the lines of a header.
pub proof fn law_lines_of_header(lines: Seq<Seq<char>>)
    requires
        lines.len() > 0,
        forall|i: int| 0 <= i < lines.len() ==> is_free_of(#[trigger] lines[i], "\r\n"@),
    ensures
        request_of(glued(lines, "\r\n"@)) == match request_line(lines[0]) {
            Ok(request) => with_fields(request, lines.skip(1)),
            Err(e) => Err(e),
        },
{
    lemma_line_break_is_borderless();
    law_pieces_of_glued(lines, "\r\n"@);
}

/// One line for a field that may be missing.
pub open spec fn field_line(key: Seq<char>, value: Option<Seq<char>>) -> Seq<Seq<char>> {
    match value {
        Some(value) => seq![key + ": "@ + value],
        None => Seq::empty(),
    }
}

/// The lines of a header that says what `request` holds.
pub open spec fn lines_for(request: Request, version: Seq<char>) -> Seq<Seq<char>> {
    let size = match request.content_length {
        Some(n) => Some(decimal(n as nat)),
        None => None,
    };
    seq![request.method.name() + " "@ + request.uri + (" "@ + version)] + (field_line(
        "Host"@,
        request.host,
    ) + (field_line("User-Agent"@, request.user_agent) + (field_line("Content-Length"@, size) + (
    field_line("Connection"@, Some(request.connection.name())) + seq![
        Seq::<char>::empty(),
        Seq::<char>::empty(),
    ]))))
}

/// Whether a text can be the value of a field.
pub open spec fn is_value(text: Seq<char>) -> bool {
    is_free_of(text, "\r\n"@) && is_free_of(text, ": "@)
}

/// Text without carriage returns before text without line breaks makes none.
pub proof fn lemma_free_of_line_break(left: Seq<char>, right: Seq<char>)
    requires
        forall|i: int| 0 <= i < left.len() ==> left[i] != '\r',
        is_free_of(right, "\r\n"@),
    ensures
        is_free_of(left + right, "\r\n"@),
{
    let cut = "\r\n"@;
    reveal_strlit("\r\n");
    let whole = left + right;
    assert forall|j: int| !matches_at(whole, cut, j) by {
        if matches_at(whole, cut, j) {
            let window = whole.subrange(j, j + 2);
            assert(window[0] == whole[j]);
            let k = j - left.len();
            if j >= left.len() {
                assert(right.subrange(k, k + 2) == window);
                assert(matches_at(right, cut, k));
            }
        }
    }
}

/// A text in which the first character of a pattern does not occur is free of it.
pub proof fn lemma_free_without_first(text: Seq<char>, pattern: Seq<char>)
    requires
        pattern.len() > 0,
        forall|i: int| 0 <= i < text.len() ==> text[i] != pattern[0],
    ensures
        is_free_of(text, pattern),
{
    assert forall|j: int| !matches_at(text, pattern, j) by {
        if matches_at(text, pattern, j) {
            assert(text.subrange(j, j + pattern.len())[0] == text[j]);
        }
    }
}

/// One line, or none, takes over the field that it gives.
proof fn lemma_field_taken(request: Request, key: Seq<char>, value: Option<Seq<char>>)
    requires
        is_known_key(key),
        value is Some ==> is_value(value->0),
    ensures
        forall|i: int|
            0 <= i < field_line(key, value).len() ==> is_free_of(
                #[trigger] field_line(key, value)[i],
                "\r\n"@,
            ),
        with_fields(request, field_line(key, value)) == match value {
            Some(value) => with_field(request, key + ": "@ + value),
            None => Ok(request),
        },
        value is Some ==> pieces(key + ": "@ + value->0, ": "@) == seq![key, value->0],
{
    if let Some(text) = value {
        reveal_strlit(": ");
        reveal_strlit("\r\n");
        reveal_strlit("Host");
        reveal_strlit("User-Agent");
        reveal_strlit("Content-Length");
        reveal_strlit("Connection");
        let line = key + ": "@ + text;
        lemma_free_without_first(key, ": "@);
        law_field_line(key, text);
        lemma_free_of_line_break(key + ": "@, text);
        let lines = seq![line];
        assert(lines.skip(1) == Seq::<Seq<char>>::empty());
        assert(lines[0] == line);
        match with_field(request, line) {
            Ok(next) => {
                assert(with_fields(next, Seq::<Seq<char>>::empty()) == Ok::<Request, HandleError>(
                    next,
                ));
            },
            Err(_) => {},
        }
    }
}

/// Whether a header can say what `request` holds.
pub open spec fn is_sayable(request: Request) -> bool {
    &&& request.uri.len() > 0
    &&& forall|i: int| 0 <= i < request.uri.len() ==> !is_space(#[trigger] request.uri[i])
    &&& request.host is Some ==> is_value(request.host->0)
    &&& request.user_agent is Some ==> is_value(request.user_agent->0)
}

/// The lines for a request hold no line breaks, and none is empty but the last two.
pub proof fn lemma_lines_for(request: Request, version: Seq<char>)
    requires
        is_sayable(request),
        is_free_of(version, "\r\n"@),
    ensures
        ({
            let lines = lines_for(request, version);
            &&& lines.len() > 2
            &&& forall|i: int|
                0 <= i < lines.len() ==> is_free_of(#[trigger] lines[i], "\r\n"@)
            &&& forall|i: int| 0 <= i < lines.len() - 2 ==> (#[trigger] lines[i]).len() > 0
            &&& lines[lines.len() - 2] == Seq::<char>::empty()
            &&& lines[lines.len() - 1] == Seq::<char>::empty()
        }),
{
    let cut = "\r\n"@;
    let lines = lines_for(request, version);
    let size = match request.content_length {
        Some(n) => Some(decimal(n as nat)),
        None => None,
    };
    let connection = request.connection.name();
    let nothing = Seq::<char>::empty();
    let first = request.method.name() + " "@ + request.uri + (" "@ + version);
    let hosts = field_line("Host"@, request.host);
    let agents = field_line("User-Agent"@, request.user_agent);
    let sizes = field_line("Content-Length"@, size);
    let connections = field_line("Connection"@, Some(connection));
    let end = seq![nothing, nothing];
    reveal_strlit(" ");
    reveal_strlit("\r\n");
    lemma_method_name(request.method);
    let opening = request.method.name() + " "@ + request.uri + " "@;
    assert forall|i: int| 0 <= i < opening.len() implies opening[i] != '\r' by {
        let name = request.method.name();
        if i < name.len() {
            assert(opening[i] == name[i]);
            assert(!is_space(name[i]));
        } else if name.len() < i < name.len() + 1 + request.uri.len() {
            assert(opening[i] == request.uri[i - name.len() - 1]);
            assert(!is_space(request.uri[i - name.len() - 1]));
        }
    }
    lemma_free_of_line_break(opening, version);
    assert(opening + version == first);
    lemma_values(request);
    let any = bare_request(request.method, request.uri);
    lemma_field_taken(any, "Host"@, request.host);
    lemma_field_taken(any, "User-Agent"@, request.user_agent);
    lemma_field_taken(any, "Content-Length"@, size);
    lemma_field_taken(any, "Connection"@, Some(connection));
    lemma_free_without_first(nothing, cut);
    assert forall|i: int| 0 <= i < lines.len() implies is_free_of(#[trigger] lines[i], cut) && (i
        < lines.len() - 2 ==> lines[i].len() > 0) by {
        if i == 0 {
            assert(lines[i] == first);
        } else {
            let i1 = i - 1;
            let i2 = i1 - hosts.len();
            let i3 = i2 - agents.len();
            let i4 = i3 - sizes.len();
            let i5 = i4 - connections.len();
            if i1 < hosts.len() {
                assert(lines[i] == hosts[i1]);
            } else if i2 < agents.len() {
                assert(lines[i] == agents[i2]);
            } else if i3 < sizes.len() {
                assert(lines[i] == sizes[i3]);
            } else if i4 < connections.len() {
                assert(lines[i] == connections[i4]);
            } else {
                assert(lines[i] == end[i5]);
            }
        }
    }
}

/// Sizes and kinds of connections can be values of fields.
proof fn lemma_values(request: Request)
    ensures
        request.content_length is Some ==> is_value(decimal(request.content_length->0 as nat)),
        is_value(request.connection.name()),
{
    reveal_strlit("\r\n");
    reveal_strlit(": ");
    reveal_strlit("keep-alive");
    reveal_strlit("close");
    if let Some(n) = request.content_length {
        lemma_decimal_digits(n as nat);
        let digits = decimal(n as nat);
        assert forall|i: int| 0 <= i < digits.len() implies digits[i] != '\r' && digits[i]
            != ':' by {
            assert(is_digit(digits[i]));
        }
        lemma_free_without_first(digits, "\r\n"@);
        lemma_free_without_first(digits, ": "@);
    }
    lemma_free_without_first(request.connection.name(), "\r\n"@);
    lemma_free_without_first(request.connection.name(), ": "@);
}

/// A header that says what a request holds is read as that request, whatever it names as
/// the HTTP version.
pub proof fn law_header_read_back(request: Request, version: Seq<char>)
    requires
        is_sayable(request),
        is_free_of(version, "\r\n"@),
    ensures
        request_of(glued(lines_for(request, version), "\r\n"@)) == Ok::<Request, HandleError>(
            request,
        ),
{
    let lines = lines_for(request, version);
    let size = match request.content_length {
        Some(n) => Some(decimal(n as nat)),
        None => None,
    };
    let connection = request.connection.name();
    let nothing = Seq::<char>::empty();
    let first = request.method.name() + " "@ + request.uri + (" "@ + version);
    let hosts = field_line("Host"@, request.host);
    let agents = field_line("User-Agent"@, request.user_agent);
    let sizes = field_line("Content-Length"@, size);
    let connections = field_line("Connection"@, Some(connection));
    let end = seq![nothing, nothing];
    reveal_strlit(" ");
    reveal_strlit(": ");
    law_request_line(request.method, request.uri, " "@ + version);

    let r0 = bare_request(request.method, request.uri);
    let r1 = Request { host: request.host, ..r0 };
    let r2 = Request { user_agent: request.user_agent, ..r1 };
    let r3 = Request { content_length: request.content_length, ..r2 };
    if let Some(n) = request.content_length {
        law_decimal_read_back(n);
    }
    law_connection_of_name(request.connection);
    lemma_values(request);
    lemma_field_taken(r0, "Host"@, request.host);
    lemma_field_taken(r1, "User-Agent"@, request.user_agent);
    lemma_field_taken(r2, "Content-Length"@, size);
    lemma_field_taken(r3, "Connection"@, Some(connection));
    lemma_keys_differ();
    assert(with_fields(r0, hosts) == Ok::<Request, HandleError>(r1));
    assert(with_fields(r1, agents) == Ok::<Request, HandleError>(r2));
    assert(with_fields(r2, sizes) == Ok::<Request, HandleError>(r3));
    assert(with_fields(r3, connections) == Ok::<Request, HandleError>(request));
    lemma_free_without_first(nothing, ": "@);
    lemma_one_piece(nothing, ": "@);
    assert(with_field(request, nothing) == Ok::<Request, HandleError>(request));
    assert(with_fields(request, end) == Ok::<Request, HandleError>(request)) by {
        assert(end.skip(1) == seq![nothing]);
        assert(seq![nothing].skip(1) == Seq::<Seq<char>>::empty());
        reveal_with_fuel(with_fields, 3);
    }
    let fields4 = connections + end;
    let fields3 = sizes + fields4;
    let fields2 = agents + fields3;
    let fields1 = hosts + fields2;
    law_fields_in_order(r0, hosts, fields2);
    law_fields_in_order(r1, agents, fields3);
    law_fields_in_order(r2, sizes, fields4);
    law_fields_in_order(r3, connections, end);

    assert(lines == seq![first] + fields1);
    assert(lines[0] == first);
    assert(lines.skip(1) == fields1);
    lemma_lines_for(request, version);
    law_lines_of_header(lines);
}

/// The known keys are four, and the empty text is none of them.
proof fn lemma_keys_differ()
    ensures
        "Host"@ != "User-Agent"@,
        "Host"@ != "Content-Length"@,
        "Host"@ != "Connection"@,
        "User-Agent"@ != "Content-Length"@,
        "User-Agent"@ != "Connection"@,
        "Content-Length"@ != "Connection"@,
        !is_known_key(Seq::empty()),
{
    reveal_strlit("Host");
    reveal_strlit("User-Agent");
    reveal_strlit("Content-Length");
    reveal_strlit("Connection");
    assert("Host"@.len() == 4);
    assert("User-Agent"@.len() == 10 && "User-Agent"@[0] == 'U');
    assert("Content-Length"@.len() == 14);
    assert("Connection"@.len() == 10 && "Connection"@[0] == 'C');
}

} // verus!
