//! What holds of all response headers and status pages.

use vstd::prelude::*;

use crate::context::{page_path, simple_page, site_of};
use crate::handler::ends_header;
use crate::request_laws::{
    has_field, key_of, law_field_line, lemma_free_of_line_break, lemma_free_without_first,
    lemma_line_break_is_borderless,
};
use crate::response::{header_text, length_line};
use crate::status::Status;
use crate::stream_laws::{is_header, is_header_line, lemma_lines_are_header};
use crate::text::{
    decimal, glued, is_digit, is_free_of, law_decimal_read_back, law_glued_pieces,
    law_pieces_free_of_pattern, law_pieces_of_glued, lemma_decimal_digits, lemma_find,
    lemma_some_piece, pieces, unsigned,
};

verus! {

/// The lines of a response header.
pub open spec fn response_lines(
    status: Status,
    content_length: Option<usize>,
    content_type: Seq<char>,
) -> Seq<Seq<char>> {
    let announced = match content_length {
        Some(size) => seq!["Content-Length: "@ + decimal(size as nat)],
        None => Seq::empty(),
    };
    seq![
        "HTTP/1.1 "@ + decimal(status.code() as nat) + " "@ + status.reason(),
        "Server: Insomnia Server"@,
    ] + announced + seq!["Content-Type: "@ + content_type, Seq::empty(), Seq::empty()]
}

/// Decimal notation holds neither carriage returns nor colons.
proof fn lemma_decimal_is_plain(n: nat)
    ensures
        forall|i: int|
            0 <= i < decimal(n).len() ==> decimal(n)[i] != '\r' && decimal(n)[i] != ':',
{
    lemma_decimal_digits(n);
    assert forall|i: int| 0 <= i < decimal(n).len() implies decimal(n)[i] != '\r' && decimal(n)[i]
        != ':' by {
        assert(is_digit(decimal(n)[i]));
    }
}

proof fn lemma_reason_is_plain(status: Status)
    ensures
        forall|i: int| 0 <= i < status.reason().len() ==> status.reason()[i] != '\r',
{
    reveal_strlit("Continue");
    reveal_strlit("OK");
    reveal_strlit("Bad Request");
    reveal_strlit("Unauthorized");
    reveal_strlit("Forbidden");
    reveal_strlit("Not Found");
    reveal_strlit("Method Not Allowed");
    reveal_strlit("Payload Too Large");
    reveal_strlit("URI Too Long");
    reveal_strlit("Internal Server Error");
}

/// A response header consists of the status line, the name of the server, the size of the
/// body if it is known, the type of the body and an empty line.
pub proof fn law_response_lines(
    status: Status,
    content_length: Option<usize>,
    content_type: Seq<char>,
)
    requires
        is_free_of(content_type, "\r\n"@),
    ensures
        pieces(header_text(status, content_length, content_type), "\r\n"@) == response_lines(
            status,
            content_length,
            content_type,
        ),
        ends_header(header_text(status, content_length, content_type)),
{
    let cut = "\r\n"@;
    let text = header_text(status, content_length, content_type);
    let lines = response_lines(status, content_length, content_type);
    let nothing = Seq::<char>::empty();
    reveal_strlit("\r\n");
    reveal_strlit("\r\n\r\n");
    reveal_strlit(" ");
    reveal_strlit("HTTP/1.1 ");
    reveal_strlit("Server: Insomnia Server");
    reveal_strlit("Server: Insomnia Server\r\n");
    reveal_strlit("Content-Length: ");
    reveal_strlit("Content-Type: ");
    lemma_line_break_is_borderless();
    lemma_decimal_is_plain(status.code() as nat);
    lemma_reason_is_plain(status);
    lemma_free_without_first(lines[0], cut);
    lemma_free_without_first(lines[1], cut);
    lemma_free_of_line_break("Content-Type: "@, content_type);
    lemma_free_without_first(nothing, cut);
    assert("Server: Insomnia Server\r\n"@ =~= "Server: Insomnia Server"@ + cut);
    let kind = "Content-Type: "@ + content_type;
    let end = seq![kind, nothing, nothing];
    assert(glued(end, cut) == kind + cut + cut) by {
        reveal_with_fuel(glued, 3);
        assert(end.skip(1) == seq![nothing, nothing]);
        assert(end.skip(1).skip(1) == seq![nothing]);
        assert(kind + cut + (nothing + cut + nothing) =~= kind + cut + cut);
    }
    let rest = lines.skip(1);
    let after = rest.skip(1);
    assert(glued(after, cut) == length_line(content_length) + glued(end, cut)) by {
        match content_length {
            Some(size) => {
                lemma_decimal_is_plain(size as nat);
                assert(after[0] == "Content-Length: "@ + decimal(size as nat));
                assert(after.skip(1) =~= end);
            },
            None => {
                assert(after =~= end);
                assert(length_line(content_length) + glued(end, cut) =~= glued(end, cut));
            },
        }
    }
    assert(glued(rest, cut) == lines[1] + cut + glued(after, cut));
    assert(glued(lines, cut) == lines[0] + cut + glued(rest, cut));
    assert(glued(lines, cut) =~= text);
    assert forall|i: int| 0 <= i < lines.len() implies is_free_of(#[trigger] lines[i], cut) by {
        if i == 2 && content_length is Some {
            lemma_decimal_is_plain(content_length->0 as nat);
            assert(lines[2] == "Content-Length: "@ + decimal(content_length->0 as nat));
            lemma_free_without_first(lines[2], cut);
        }
    }
    law_pieces_of_glued(lines, cut);
    let n = text.len() as int;
    assert(text.subrange(n - 4, n) =~= "\r\n\r\n"@);
}

/// The announced size can be read back from its line.
pub proof fn law_announced_length(size: usize)
    ensures
        ({
            let sections = pieces("Content-Length: "@ + decimal(size as nat), ": "@);
            &&& sections.len() == 2
            &&& sections[0] == "Content-Length"@
            &&& unsigned(sections[1]) == Some(size)
        }),
{
    reveal_strlit(": ");
    reveal_strlit("Content-Length");
    reveal_strlit("Content-Length: ");
    lemma_decimal_is_plain(size as nat);
    lemma_free_without_first("Content-Length"@, ": "@);
    lemma_free_without_first(decimal(size as nat), ": "@);
    law_field_line("Content-Length"@, decimal(size as nat));
    law_decimal_read_back(size);
    assert("Content-Length: "@ =~= "Content-Length"@ + ": "@);
}

/// The first section of a line begins as the line does.
proof fn lemma_key_begins(line: Seq<char>)
    requires
        line.len() > 0,
        key_of(line).len() > 0,
    ensures
        key_of(line)[0] == line[0],
{
    reveal_strlit(": ");
    lemma_find(line, ": "@, 0);
}

/// A response header ends at its first empty line.  It has a line that announces the size of
/// the body if and only if the size is known, and that line holds the size.
pub proof fn law_length_line(
    status: Status,
    content_length: Option<usize>,
    content_type: Seq<char>,
)
    requires
        is_free_of(content_type, "\r\n"@),
        is_free_of(content_type, ": "@),
    ensures
        ({
            let text = header_text(status, content_length, content_type);
            let lines = pieces(text, "\r\n"@);
            &&& is_header(text)
            &&& has_field(lines, "Content-Length"@) == (content_length is Some)
            &&& content_length matches Some(size) ==> lines.contains(
                "Content-Length: "@ + decimal(size as nat),
            )
        }),
{
    let text = header_text(status, content_length, content_type);
    let lines = response_lines(status, content_length, content_type);
    let nothing = Seq::<char>::empty();
    let full = lines.take(lines.len() - 2);
    reveal_strlit("\r\n");
    reveal_strlit(": ");
    reveal_strlit("HTTP/1.1 ");
    reveal_strlit("Server");
    reveal_strlit("Server: Insomnia Server");
    reveal_strlit("Insomnia Server");
    reveal_strlit("Content-Length");
    reveal_strlit("Content-Length: ");
    reveal_strlit("Content-Type");
    reveal_strlit("Content-Type: ");
    law_response_lines(status, content_length, content_type);
    law_glued_pieces(text, "\r\n"@);
    assert(full + seq![nothing, nothing] =~= lines);
    assert forall|i: int| 0 <= i < full.len() implies is_header_line(#[trigger] full[i]) by {
        law_pieces_free_of_pattern(text, "\r\n"@, i);
        assert(full[i] == lines[i]);
    }
    lemma_lines_are_header(full);
    let key = "Content-Length"@;
    if let Some(size) = content_length {
        law_announced_length(size);
        assert(lines[2] == "Content-Length: "@ + decimal(size as nat));
        assert(key_of(lines[2]) == key);
    } else {
        assert forall|i: int| 0 <= i < lines.len() implies key_of(#[trigger] lines[i]) != key by {
            assert(key[0] == 'C' && key.len() == 14);
            if i == 0 {
                assert(lines[0][0] == 'H');
                if key_of(lines[0]) == key {
                    lemma_key_begins(lines[0]);
                }
            } else if i == 1 {
                assert(lines[1][0] == 'S');
                if key_of(lines[1]) == key {
                    lemma_key_begins(lines[1]);
                }
            } else if i == 2 {
                lemma_free_without_first("Content-Type"@, ": "@);
                law_field_line("Content-Type"@, content_type);
                assert("Content-Type: "@ =~= "Content-Type"@ + ": "@);
                assert("Content-Type"@.len() == 12);
            } else {
                lemma_some_piece(nothing, ": "@);
                lemma_find(nothing, ": "@, 0);
                assert(key_of(nothing) == nothing);
            }
        }
    }
}

/// Every status has a page: the given one if there is one, else the embedded one if there is
/// one, else a simple one.
pub proof fn law_every_status_has_a_page(
    given: Map<u32, Vec<u8>>,
    files: Map<Seq<char>, Seq<u8>>,
    serve_dir: Seq<char>,
    status: Status,
)
    ensures
        ({
            let site = site_of(given, files, serve_dir);
            let is_given = given.contains_key(status.code());
            let is_embedded = files.contains_key(page_path(status));
            &&& site.pages.contains_key(status)
            &&& is_given ==> site.pages[status] == given[status.code()]@
            &&& !is_given && is_embedded ==> site.pages[status] == files[page_path(status)]
            &&& !is_given && !is_embedded ==> site.pages[status] == simple_page(status)
        }),
{
}

} // verus!
