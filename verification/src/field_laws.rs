//! What each line of a request header says, whatever stands around it.

use vstd::prelude::*;

use crate::error::{HandleError, InternalError};
use crate::request::{
    bare_request, request_line, request_of, unknown_method, with_field, with_fields,
    ConnectionType, Method, Request,
};
use crate::request_laws::{
    key_of, law_fields_in_order, lemma_field_errors, lemma_line_break_is_borderless,
    lemma_separator_is_borderless,
};
use crate::text::{
    decimal, is_digit, is_free_of, law_decimal_read_back, law_pieces_of_joined_texts,
    lemma_decimal_digits, lemma_one_piece, lemma_some_piece, matches_at, pieces, unsigned, words,
};

verus! {

/// A name is the name of a method only if it is one: `GET` and `POST` are, each of its own
/// method, and nothing else is.
pub proof fn law_methods(name: Seq<char>)
    ensures
        Method::GET.name() == "GET"@,
        Method::POST.name() == "POST"@,
        Method::named(name) matches Some(method) ==> name == method.name(),
        Method::named(name) == Some(Method::GET) <==> name == "GET"@,
        Method::named(name) == Some(Method::POST) <==> name == "POST"@,
        Method::named(name) is None <==> name != "GET"@ && name != "POST"@,
{
    reveal_strlit("GET");
    reveal_strlit("POST");
    assert("GET"@.len() == 3 && "POST"@.len() == 4);
}

/// A text asks for a kind of connection only if it names it: `keep-alive` and `close` do, and
/// nothing else does.
pub proof fn law_connections(name: Seq<char>)
    ensures
        ConnectionType::KeepAlive.name() == "keep-alive"@,
        ConnectionType::Close.name() == "close"@,
        ConnectionType::named(name) matches Some(connection) ==> name == connection.name(),
        ConnectionType::named(name) == Some(ConnectionType::KeepAlive) <==> name
            == "keep-alive"@,
        ConnectionType::named(name) == Some(ConnectionType::Close) <==> name == "close"@,
        ConnectionType::named(name) is None <==> name != "keep-alive"@ && name != "close"@,
{
    reveal_strlit("keep-alive");
    reveal_strlit("close");
    assert("keep-alive"@.len() == 10 && "close"@.len() == 5);
}

/// A request line makes a request exactly when it has two words and the first is `GET` or
/// `POST`; the second is the URI, to the last character, and there is no field yet.
pub proof fn law_request_line_words(line: Seq<char>)
    ensures
        request_line(line) is Ok <==> words(line).len() >= 2 && (words(line)[0] == "GET"@
            || words(line)[0] == "POST"@),
        request_line(line) matches Ok(request) ==> {
            &&& request.method is GET <==> words(line)[0] == "GET"@
            &&& request.uri == words(line)[1]
            &&& request.host is None
            &&& request.user_agent is None
            &&& request.content_length is None
            &&& request.connection is KeepAlive
        },
        request_line(line) matches Err(e) ==> e == HandleError::Internal(
            InternalError::FormatError,
        ),
{
    if words(line).len() >= 2 {
        law_methods(words(line)[0]);
    }
}

/// The sections of a line whose first and second are given.
proof fn lemma_sections(key: Seq<char>, value: Seq<char>, rest: Seq<char>)
    requires
        forall|i: int| 0 <= i < key.len() ==> key[i] != ':',
        forall|i: int|
            0 <= i < value.len() - 1 ==> !(value[i] == ':' && #[trigger] value[i + 1] == ' '),
        rest.len() > 0 ==> rest.len() >= 2 && rest[0] == ':' && rest[1] == ' ',
    ensures
        pieces(key + ": "@ + value + rest, ": "@).len() >= 2,
        pieces(key + ": "@ + value + rest, ": "@)[0] == key,
        pieces(key + ": "@ + value + rest, ": "@)[1] == value,
        key_of(key + ": "@ + value + rest) == key,
{
    let cut = ": "@;
    reveal_strlit(": ");
    lemma_separator_is_borderless();
    assert(is_free_of(key, cut)) by {
        assert forall|j: int| !matches_at(key, cut, j) by {
            if matches_at(key, cut, j) {
                assert(key.subrange(j, j + 2)[0] == key[j]);
            }
        }
    }
    assert(is_free_of(value, cut)) by {
        assert forall|j: int| !matches_at(value, cut, j) by {
            if matches_at(value, cut, j) {
                assert(value.subrange(j, j + 2)[0] == value[j]);
                assert(value.subrange(j, j + 2)[1] == value[j + 1]);
            }
        }
    }
    lemma_one_piece(key, cut);
    lemma_one_piece(value, cut);
    let tail = value + rest;
    assert(key + cut + value + rest == key + cut + tail);
    law_pieces_of_joined_texts(key, cut, tail);
    if rest.len() == 0 {
        assert(tail == value);
    } else {
        let more = rest.skip(2);
        assert(rest == cut + more);
        assert(tail == value + cut + more);
        law_pieces_of_joined_texts(value, cut, more);
    }
}

/// A `Host` field sets the host to its value, every character of it, and nothing else,
/// whatever the request already holds.
pub proof fn law_host_field(request: Request, value: Seq<char>, rest: Seq<char>)
    requires
        forall|i: int|
            0 <= i < value.len() - 1 ==> !(value[i] == ':' && #[trigger] value[i + 1] == ' '),
        rest.len() > 0 ==> rest.len() >= 2 && rest[0] == ':' && rest[1] == ' ',
    ensures
        with_field(request, "Host"@ + ": "@ + value + rest) == Ok::<Request, HandleError>(
            Request { host: Some(value), ..request },
        ),
{
    reveal_strlit("Host");
    lemma_sections("Host"@, value, rest);
}

/// A `User-Agent` field sets the user agent to its value, every character of it, and nothing
/// else, whatever the request already holds.
pub proof fn law_user_agent_field(request: Request, value: Seq<char>, rest: Seq<char>)
    requires
        forall|i: int|
            0 <= i < value.len() - 1 ==> !(value[i] == ':' && #[trigger] value[i + 1] == ' '),
        rest.len() > 0 ==> rest.len() >= 2 && rest[0] == ':' && rest[1] == ' ',
    ensures
        with_field(request, "User-Agent"@ + ": "@ + value + rest) == Ok::<Request, HandleError>(
            Request { user_agent: Some(value), ..request },
        ),
{
    reveal_strlit("User-Agent");
    reveal_strlit("Host");
    assert("User-Agent"@.len() == 10 && "Host"@.len() == 4);
    lemma_sections("User-Agent"@, value, rest);
}

/// A `Content-Length` field sets the size to the number that its value is, and nothing else,
/// whatever the request already holds; a value that is no number is an error.
pub proof fn law_content_length_field(request: Request, value: Seq<char>, rest: Seq<char>)
    requires
        forall|i: int|
            0 <= i < value.len() - 1 ==> !(value[i] == ':' && #[trigger] value[i + 1] == ' '),
        rest.len() > 0 ==> rest.len() >= 2 && rest[0] == ':' && rest[1] == ' ',
    ensures
        unsigned(value) matches Some(n) ==> with_field(
            request,
            "Content-Length"@ + ": "@ + value + rest,
        ) == Ok::<Request, HandleError>(Request { content_length: Some(n), ..request }),
        unsigned(value) is None ==> with_field(
            request,
            "Content-Length"@ + ": "@ + value + rest,
        ) == Err::<Request, HandleError>(HandleError::Internal(InternalError::FormatError)),
{
    lemma_literal_keys();
    lemma_sections("Content-Length"@, value, rest);
}

/// A size that is announced in decimal notation is taken over as it is, whatever the request
/// already holds, its kind of connection among it.
pub proof fn law_announced_size(request: Request, n: usize)
    ensures
        with_field(request, "Content-Length: "@ + decimal(n as nat)) == Ok::<
            Request,
            HandleError,
        >(Request { content_length: Some(n), ..request }),
{
    let digits = decimal(n as nat);
    let none = Seq::<char>::empty();
    reveal_strlit("Content-Length");
    reveal_strlit(": ");
    reveal_strlit("Content-Length: ");
    lemma_decimal_digits(n as nat);
    assert forall|i: int| 0 <= i < digits.len() - 1 implies !(digits[i] == ':' && #[trigger] digits[
        i + 1] == ' ') by {
        assert(is_digit(digits[i]));
    }
    law_decimal_read_back(n);
    law_content_length_field(request, digits, none);
    assert("Content-Length"@ + ": "@ + digits + none =~= "Content-Length: "@ + digits);
}

/// A `Connection` field asks for the kind of connection that its value names, and nothing
/// else, whatever the request already holds; a value that names none is an error.
pub proof fn law_connection_field(request: Request, value: Seq<char>, rest: Seq<char>)
    requires
        forall|i: int|
            0 <= i < value.len() - 1 ==> !(value[i] == ':' && #[trigger] value[i + 1] == ' '),
        rest.len() > 0 ==> rest.len() >= 2 && rest[0] == ':' && rest[1] == ' ',
    ensures
        with_field(request, "Connection"@ + ": "@ + value + rest) == if value == "close"@ {
            Ok::<Request, HandleError>(Request { connection: ConnectionType::Close, ..request })
        } else if value == "keep-alive"@ {
            Ok(Request { connection: ConnectionType::KeepAlive, ..request })
        } else {
            Err(HandleError::Internal(InternalError::FormatError))
        },
{
    lemma_literal_keys();
    law_connections(value);
    reveal_strlit("keep-alive");
    reveal_strlit("close");
    assert("keep-alive"@.len() == 10 && "close"@.len() == 5);
    lemma_sections("Connection"@, value, rest);
}

/// A line that begins with any other key, or has no separator and is none of the four keys,
/// changes nothing; one of the four keys alone is an error.
pub proof fn law_other_lines(request: Request, key: Seq<char>, rest: Seq<char>)
    requires
        forall|i: int|
            0 <= i < key.len() - 1 ==> !(key[i] == ':' && #[trigger] key[i + 1] == ' '),
        rest.len() > 0 ==> rest.len() >= 2 && rest[0] == ':' && rest[1] == ' ',
    ensures
        key != "Host"@ && key != "User-Agent"@ && key != "Content-Length"@ && key
            != "Connection"@ ==> with_field(request, key + rest) == Ok::<Request, HandleError>(
            request,
        ),
        (key == "Host"@ || key == "User-Agent"@ || key == "Content-Length"@ || key
            == "Connection"@) && rest.len() == 0 ==> with_field(request, key) == Err::<
            Request,
            HandleError,
        >(HandleError::Internal(InternalError::FormatError)),
{
    let cut = ": "@;
    reveal_strlit(": ");
    lemma_separator_is_borderless();
    assert(is_free_of(key, cut)) by {
        assert forall|j: int| !matches_at(key, cut, j) by {
            if matches_at(key, cut, j) {
                assert(key.subrange(j, j + 2)[0] == key[j]);
                assert(key.subrange(j, j + 2)[1] == key[j + 1]);
            }
        }
    }
    lemma_one_piece(key, cut);
    if rest.len() == 0 {
        assert(key + rest == key);
    } else {
        let more = rest.skip(2);
        assert(rest == cut + more);
        assert(key + rest == key + cut + more);
        law_pieces_of_joined_texts(key, cut, more);
    }
}

proof fn lemma_literal_keys()
    ensures
        "Host"@ != "Content-Length"@,
        "Host"@ != "Connection"@,
        "User-Agent"@ != "Content-Length"@,
        "User-Agent"@ != "Connection"@,
        "Content-Length"@ != "Connection"@,
        forall|i: int| 0 <= i < "Content-Length"@.len() ==> "Content-Length"@[i] != ':',
        forall|i: int| 0 <= i < "Connection"@.len() ==> "Connection"@[i] != ':',
{
    reveal_strlit("Host");
    reveal_strlit("User-Agent");
    reveal_strlit("Content-Length");
    reveal_strlit("Connection");
    assert("Host"@.len() == 4);
    assert("User-Agent"@.len() == 10 && "User-Agent"@[0] == 'U');
    assert("Content-Length"@.len() == 14);
    assert("Connection"@.len() == 10 && "Connection"@[0] == 'C');
}

/// The order of two lines with different keys does not matter.
pub proof fn law_lines_commute(
    request: Request,
    before: Seq<Seq<char>>,
    one: Seq<char>,
    other: Seq<char>,
    after: Seq<Seq<char>>,
)
    requires
        pieces(one, ": "@)[0] != pieces(other, ": "@)[0],
    ensures
        with_fields(request, before + seq![one, other] + after) == with_fields(
            request,
            before + seq![other, one] + after,
        ),
{
    let a = seq![one, other];
    let b = seq![other, one];
    assert(before + a + after == before + (a + after));
    assert(before + b + after == before + (b + after));
    law_fields_in_order(request, before, a + after);
    law_fields_in_order(request, before, b + after);
    if let Ok(next) = with_fields(request, before) {
        law_fields_in_order(next, a, after);
        law_fields_in_order(next, b, after);
        assert(a.skip(1) == seq![other]);
        assert(b.skip(1) == seq![one]);
        assert(a.skip(1).skip(1) == Seq::<Seq<char>>::empty());
        assert(b.skip(1).skip(1) == Seq::<Seq<char>>::empty());
        reveal_with_fuel(with_fields, 3);
        if let Err(e) = with_fields(next, a) {
            lemma_field_errors(next, a, e);
        }
        if let Err(e) = with_fields(next, b) {
            lemma_field_errors(next, b, e);
        }
        assert(with_fields(next, a) == with_fields(next, b));
    }
}

proof fn lemma_free_line(line: Seq<char>)
    requires
        forall|i: int|
            0 <= i < line.len() - 1 ==> !(line[i] == '\r' && #[trigger] line[i + 1] == '\n'),
    ensures
        pieces(line, "\r\n"@) == seq![line],
{
    let cut = "\r\n"@;
    reveal_strlit("\r\n");
    assert forall|j: int| !matches_at(line, cut, j) by {
        if matches_at(line, cut, j) {
            assert(line.subrange(j, j + 2)[0] == line[j]);
            assert(line.subrange(j, j + 2)[1] == line[j + 1]);
        }
    }
    lemma_one_piece(line, cut);
}

/// A header of one line is its request line, and each further line, after a line break, is
/// one more field.  This says what any header says.
pub proof fn law_header_by_lines(before: Seq<char>, line: Seq<char>)
    requires
        forall|i: int|
            0 <= i < line.len() - 1 ==> !(line[i] == '\r' && #[trigger] line[i + 1] == '\n'),
    ensures
        request_of(line) == request_line(line),
        request_of(before + "\r\n"@ + line) == match request_of(before) {
            Ok(request) => with_field(request, line),
            Err(e) => Err(e),
        },
{
    let cut = "\r\n"@;
    reveal_strlit("\r\n");
    lemma_free_line(line);
    lemma_line_break_is_borderless();
    law_pieces_of_joined_texts(before, cut, line);
    lemma_some_piece(before, cut);
    let head = pieces(before, cut);
    let all = head + seq![line];
    assert(seq![line].skip(1) == Seq::<Seq<char>>::empty());
    assert(all[0] == head[0]);
    assert(all.skip(1) == head.skip(1) + seq![line]);
    if let Ok(request) = request_line(head[0]) {
        law_fields_in_order(request, head.skip(1), seq![line]);
        reveal_with_fuel(with_fields, 2);
    }
    if let Ok(request) = request_line(line) {
        assert(with_fields(request, Seq::<Seq<char>>::empty()) == Ok::<Request, HandleError>(
            request,
        ));
    }
}

/// A header asks by a method that there is none of exactly when its request line has two
/// words, the first of which is neither `GET` nor `POST`, and none of its fields is in error.
/// The connection is kept unless a field asks for something else.
pub proof fn law_unknown_method_by_lines(before: Seq<char>, line: Seq<char>, any: Request)
    requires
        forall|i: int|
            0 <= i < line.len() - 1 ==> !(line[i] == '\r' && #[trigger] line[i + 1] == '\n'),
        unknown_method(before) matches Some(connection) ==> any.connection == connection,
    ensures
        unknown_method(line) == if words(line).len() >= 2 && words(line)[0] != "GET"@
            && words(line)[0] != "POST"@ {
            Some(ConnectionType::KeepAlive)
        } else {
            None
        },
        unknown_method(before + "\r\n"@ + line) == if unknown_method(before) is Some {
            match with_field(any, line) {
                Ok(request) => Some(request.connection),
                Err(_) => None,
            }
        } else {
            None
        },
{
    let cut = "\r\n"@;
    reveal_strlit("\r\n");
    lemma_free_line(line);
    lemma_line_break_is_borderless();
    law_pieces_of_joined_texts(before, cut, line);
    lemma_some_piece(before, cut);
    let head = pieces(before, cut);
    let all = head + seq![line];
    assert(seq![line].skip(1) == Seq::<Seq<char>>::empty());
    assert(all[0] == head[0]);
    assert(all.skip(1) == head.skip(1) + seq![line]);
    if words(line).len() >= 2 {
        law_methods(words(line)[0]);
    }
    let bare = bare_request(Method::GET, Seq::empty());
    assert(with_fields(bare, Seq::<Seq<char>>::empty()) == Ok::<Request, HandleError>(bare));
    law_fields_in_order(bare, head.skip(1), seq![line]);
    reveal_with_fuel(with_fields, 2);
}

} // verus!
