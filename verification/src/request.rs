//! Request headers.

use vstd::prelude::*;

use crate::error::{HandleError, InternalError, ParseError};
use crate::text::{
    chars_of, equals, lemma_some_piece, parse_unsigned, pieces, same, split, split_words, string_of,
    texts, unsigned, words,
};

verus! {

/// The method of a request.
#[derive(Clone, Copy, Debug, PartialEq, Eq, Structural)]
pub enum Method {
    GET,
    POST,
}

impl Method {
    /// The name of the method in a request line.
    pub open spec fn name(self) -> Seq<char> {
        match self {
            Method::GET => "GET"@,
            Method::POST => "POST"@,
        }
    }

    /// The method with the given name.
    pub open spec fn named(name: Seq<char>) -> Option<Method> {
        if name == "GET"@ {
            Some(Method::GET)
        } else if name == "POST"@ {
            Some(Method::POST)
        } else {
            None
        }
    }

    /// The name of the method.
    pub fn to_string(&self) -> (r: String)
        ensures
            r@ == self.name(),
    {
        match self {
            Method::GET => "GET".to_owned(),
            Method::POST => "POST".to_owned(),
        }
    }

    /// Every method once.
    pub fn iter() -> (r: Vec<Method>)
        ensures
            r@ == seq![Method::GET, Method::POST],
    {
        vec![Method::GET, Method::POST]
    }

    /// The method with the given name.
    pub fn from_str(s: &str) -> (r: Result<Method, ParseError>)
        ensures
            r == match Method::named(s@) {
                Some(method) => Ok::<Method, ParseError>(method),
                None => Err(ParseError::VariantNotFound),
            },
    {
        if same(s, "GET") {
            Ok(Method::GET)
        } else if same(s, "POST") {
            Ok(Method::POST)
        } else {
            Err(ParseError::VariantNotFound)
        }
    }
}

/// What is to become of the connection after a response.
#[derive(Clone, Copy, Debug, PartialEq, Eq, Structural)]
pub enum ConnectionType {
    KeepAlive,
    Close,
}

impl ConnectionType {
    /// The value of a `Connection` field that asks for `self`.
    pub open spec fn name(self) -> Seq<char> {
        match self {
            ConnectionType::KeepAlive => "keep-alive"@,
            ConnectionType::Close => "close"@,
        }
    }

    /// What the given value of a `Connection` field asks for.
    pub open spec fn named(name: Seq<char>) -> Option<ConnectionType> {
        if name == "keep-alive"@ {
            Some(ConnectionType::KeepAlive)
        } else if name == "close"@ {
            Some(ConnectionType::Close)
        } else {
            None
        }
    }

    /// What the given value of a `Connection` field asks for.
    pub fn from_str(s: &str) -> (r: Result<ConnectionType, ParseError>)
        ensures
            r == match ConnectionType::named(s@) {
                Some(connection) => Ok::<ConnectionType, ParseError>(connection),
                None => Err(ParseError::VariantNotFound),
            },
    {
        if same(s, "keep-alive") {
            Ok(ConnectionType::KeepAlive)
        } else if same(s, "close") {
            Ok(ConnectionType::Close)
        } else {
            Err(ParseError::VariantNotFound)
        }
    }
}

/// What a request header says.
/// A field that the header does not have is `None`; the connection is then kept alive.
pub struct Request {
    pub method: Method,
    pub uri: Seq<char>,
    pub user_agent: Option<Seq<char>>,
    pub host: Option<Seq<char>>,
    pub content_length: Option<usize>,
    pub connection: ConnectionType,
}

pub open spec fn format_error() -> HandleError {
    HandleError::Internal(InternalError::FormatError)
}

/// A request without any field.
pub open spec fn bare_request(method: Method, uri: Seq<char>) -> Request {
    Request {
        method,
        uri,
        user_agent: None,
        host: None,
        content_length: None,
        connection: ConnectionType::KeepAlive,
    }
}

/// The request that a request line alone makes: its first word names the method, its
/// second one is the URI, and the rest of it is ignored.
pub open spec fn request_line(line: Seq<char>) -> Result<Request, HandleError> {
    let parts = words(line);
    if parts.len() < 2 {
        Err(format_error())
    } else {
        match Method::named(parts[0]) {
            Some(method) => Ok(bare_request(method, parts[1])),
            None => Err(format_error()),
        }
    }
}

/// `request` with one more header field: the text before the first `": "` of the line is
/// the key of the field, and the text from there to the next one, if there is any, is its
/// value.
pub open spec fn with_field(request: Request, line: Seq<char>) -> Result<Request, HandleError> {
    let sections = pieces(line, ": "@);
    let key = sections[0];
    let value = if sections.len() > 1 {
        Some(sections[1])
    } else {
        None
    };
    if key == "Host"@ {
        match value {
            Some(host) => Ok(Request { host: Some(host), ..request }),
            None => Err(format_error()),
        }
    } else if key == "User-Agent"@ {
        match value {
            Some(user_agent) => Ok(Request { user_agent: Some(user_agent), ..request }),
            None => Err(format_error()),
        }
    } else if key == "Content-Length"@ {
        match value {
            Some(size) => match unsigned(size) {
                Some(n) => Ok(Request { content_length: Some(n), ..request }),
                None => Err(format_error()),
            },
            None => Err(format_error()),
        }
    } else if key == "Connection"@ {
        match value {
            Some(name) => match ConnectionType::named(name) {
                Some(connection) => Ok(Request { connection, ..request }),
                None => Err(format_error()),
            },
            None => Err(format_error()),
        }
    } else {
        Ok(request)
    }
}

/// `request` with one more header field for each line, in order, up to the first error.
pub open spec fn with_fields(request: Request, lines: Seq<Seq<char>>) -> Result<
    Request,
    HandleError,
>
    decreases lines.len(),
{
    if lines.len() == 0 {
        Ok(request)
    } else {
        match with_field(request, lines[0]) {
            Ok(next) => with_fields(next, lines.skip(1)),
            Err(e) => Err(e),
        }
    }
}

/// What a header text says: a request line, then one line per field.
pub open spec fn request_of(raw: Seq<char>) -> Result<Request, HandleError> {
    let lines = pieces(raw, "\r\n"@);
    match request_line(lines[0]) {
        Ok(request) => with_fields(request, lines.skip(1)),
        Err(e) => Err(e),
    }
}

/// What the fields of a header ask to become of the connection, if they can be read.
pub open spec fn connection_asked(lines: Seq<Seq<char>>) -> Option<ConnectionType> {
    match with_fields(bare_request(Method::GET, Seq::empty()), lines) {
        Ok(request) => Some(request.connection),
        Err(_) => None,
    }
}

/// What a header that asks by a method that there is none of wants to become of the
/// connection.  Such a header is well-formed otherwise: its request line has at least two
/// words, and its fields can be read.  Any other header gives `None`.
pub open spec fn unknown_method(raw: Seq<char>) -> Option<ConnectionType> {
    let lines = pieces(raw, "\r\n"@);
    let parts = words(lines[0]);
    if parts.len() >= 2 && Method::named(parts[0]) is None {
        connection_asked(lines.skip(1))
    } else {
        None
    }
}

/// The header of a request.
/// Fields that are not listed here are ignored.
#[derive(Debug, PartialEq, Eq)]
pub struct RequestHeader {
    pub method: Method,
    pub uri: String,
    pub user_agent: Option<String>,
    pub host: Option<String>,
    pub content_length: Option<usize>,
    pub connection: ConnectionType,
}

/// The text of a string that may be missing.
pub open spec fn optional_text(s: Option<String>) -> Option<Seq<char>> {
    match s {
        Some(s) => Some(s@),
        None => None,
    }
}

impl View for RequestHeader {
    type V = Request;

    open spec fn view(&self) -> Request {
        Request {
            method: self.method,
            uri: self.uri@,
            user_agent: optional_text(self.user_agent),
            host: optional_text(self.host),
            content_length: self.content_length,
            connection: self.connection,
        }
    }
}

/// What a parsed header says, or why there is none.
pub open spec fn parsed(r: Result<RequestHeader, HandleError>) -> Result<Request, HandleError> {
    match r {
        Ok(header) => Ok(header@),
        Err(e) => Err(e),
    }
}

impl RequestHeader {
    /// Reads a header text.
    pub fn parse(raw: &str) -> (r: Result<RequestHeader, HandleError>)
        ensures
            parsed(r) == request_of(raw@),
    {
        let text = chars_of(raw);
        let line_break = chars_of("\r\n");
        proof {
            reveal_strlit("\r\n");
        }
        let lines = split(text.as_slice(), line_break.as_slice());
        let ghost all = texts(lines@);
        proof {
            lemma_some_piece(raw@, "\r\n"@);
            assert(all[0] == lines@[0]@);
        }
        let mut header = match RequestHeader::parse_request_line(lines[0]) {
            Ok(header) => header,
            Err(e) => return Err(e),
        };
        match header.set_fields(&lines) {
            Ok(()) => Ok(header),
            Err(e) => Err(e),
        }
    }

    /// What a header that asks by a method that there is none of, and is well-formed
    /// otherwise, wants to become of the connection.
    pub fn unknown_method(raw: &str) -> (r: Option<ConnectionType>)
        ensures
            r == unknown_method(raw@),
    {
        let text = chars_of(raw);
        let line_break = chars_of("\r\n");
        proof {
            reveal_strlit("\r\n");
            lemma_some_piece(raw@, "\r\n"@);
        }
        let lines = split(text.as_slice(), line_break.as_slice());
        assert(texts(lines@)[0] == lines@[0]@);
        let parts = split_words(lines[0]);
        if parts.len() < 2 {
            return None;
        }
        assert(texts(parts@)[0] == parts@[0]@);
        if Method::from_str(string_of(parts[0]).as_str()).is_ok() {
            return None;
        }
        let mut header = RequestHeader::bare(Method::GET, String::new());
        match header.set_fields(&lines) {
            Ok(()) => Some(header.connection),
            Err(_) => None,
        }
    }

    /// A header without any field.
    fn bare(method: Method, uri: String) -> (r: RequestHeader)
        ensures
            r@ == bare_request(method, uri@),
    {
        RequestHeader {
            method,
            uri,
            user_agent: None,
            host: None,
            content_length: None,
            connection: ConnectionType::KeepAlive,
        }
    }

    /// Takes over the header fields: one for each line but the first, up to the first error.
    fn set_fields(&mut self, lines: &Vec<&[char]>) -> (r: Result<(), HandleError>)
        requires
            lines@.len() > 0,
        ensures
            match r {
                Ok(()) => with_fields(old(self)@, texts(lines@).skip(1)) == Ok::<
                    Request,
                    HandleError,
                >(final(self)@),
                Err(e) => with_fields(old(self)@, texts(lines@).skip(1)) == Err::<
                    Request,
                    HandleError,
                >(e),
            },
    {
        let ghost all = texts(lines@);
        let mut i: usize = 1;
        while i < lines.len()
            invariant
                1 <= i <= lines@.len(),
                all == texts(lines@),
                with_fields(self@, all.skip(i as int)) == with_fields(old(self)@, all.skip(1)),
            decreases lines@.len() - i,
        {
            assert(all.skip(i as int)[0] == lines@[i as int]@);
            assert(all.skip(i as int).skip(1) == all.skip(i + 1));
            match self.set_field(lines[i]) {
                Ok(()) => {},
                Err(e) => return Err(e),
            }
            i = i + 1;
        }
        Ok(())
    }

    /// Reads the first line of a header.
    fn parse_request_line(line: &[char]) -> (r: Result<RequestHeader, HandleError>)
        ensures
            parsed(r) == request_line(line@),
    {
        let parts = split_words(line);
        assert(texts(parts@) == words(line@));
        if parts.len() == 0 {
            return Err(HandleError::Internal(InternalError::FormatError));
        }
        assert(words(line@)[0] == parts@[0]@);
        let method = match Method::from_str(string_of(parts[0]).as_str()) {
            Ok(method) => method,
            Err(_) => return Err(HandleError::Internal(InternalError::FormatError)),
        };
        if parts.len() == 1 {
            return Err(HandleError::Internal(InternalError::FormatError));
        }
        assert(words(line@)[1] == parts@[1]@);
        Ok(RequestHeader::bare(method, string_of(parts[1])))
    }

    /// Takes over one header field.
    fn set_field(&mut self, line: &[char]) -> (r: Result<(), HandleError>)
        ensures
            match r {
                Ok(()) => with_field(old(self)@, line@) == Ok::<Request, HandleError>(final(self)@),
                Err(e) => with_field(old(self)@, line@) == Err::<Request, HandleError>(e),
            },
    {
        let separator = chars_of(": ");
        proof {
            reveal_strlit(": ");
        }
        let sections = split(line, separator.as_slice());
        proof {
            lemma_some_piece(line@, ": "@);
            assert(texts(sections@)[0] == sections@[0]@);
            if sections@.len() > 1 {
                assert(texts(sections@)[1] == sections@[1]@);
            }
        }
        let key = sections[0];
        if equals(key, "Host") {
            if sections.len() < 2 {
                return Err(HandleError::Internal(InternalError::FormatError));
            }
            self.host = Some(string_of(sections[1]));
        } else if equals(key, "User-Agent") {
            if sections.len() < 2 {
                return Err(HandleError::Internal(InternalError::FormatError));
            }
            self.user_agent = Some(string_of(sections[1]));
        } else if equals(key, "Content-Length") {
            if sections.len() < 2 {
                return Err(HandleError::Internal(InternalError::FormatError));
            }
            match parse_unsigned(sections[1]) {
                Some(size) => self.content_length = Some(size),
                None => return Err(HandleError::Internal(InternalError::FormatError)),
            }
        } else if equals(key, "Connection") {
            if sections.len() < 2 {
                return Err(HandleError::Internal(InternalError::FormatError));
            }
            match ConnectionType::from_str(string_of(sections[1]).as_str()) {
                Ok(connection) => self.connection = connection,
                Err(_) => return Err(HandleError::Internal(InternalError::FormatError)),
            }
        }
        Ok(())
    }
}

} // verus!
