use vstd::prelude::*;
use vstd::utf8::encode_utf8;

verus! {

/// Response status, e.g. 404, 200.
#[derive(Debug, Clone, Copy, PartialEq, Eq, Structural)]
pub enum Status {
    NotFound,
    InternalServerError,
    MethodNotAllowed,
    Success,
    Created,
    Code(u16),
}

/// The numeric code of a status.
pub open spec fn status_code(s: Status) -> u16 {
    match s {
        Status::NotFound => 404,
        Status::InternalServerError => 500,
        Status::MethodNotAllowed => 405,
        Status::Success => 200,
        Status::Created => 201,
        Status::Code(c) => c,
    }
}

/// The status for a numeric code: the named statuses for their codes,
/// `Code` for the rest.
pub open spec fn status_of(code: u16) -> Status {
    if code == 404 {
        Status::NotFound
    } else if code == 500 {
        Status::InternalServerError
    } else if code == 405 {
        Status::MethodNotAllowed
    } else if code == 200 {
        Status::Success
    } else if code == 201 {
        Status::Created
    } else {
        Status::Code(code)
    }
}

impl Status {
    /// The numeric code.
    pub fn code(&self) -> (r: u16)
        ensures
            r == status_code(*self),
    {
        match self {
            Status::NotFound => 404,
            Status::InternalServerError => 500,
            Status::MethodNotAllowed => 405,
            Status::Success => 200,
            Status::Created => 201,
            Status::Code(code) => *code,
        }
    }

    /// Whether the status reports success: a code below 300.
    pub fn ok(&self) -> (r: bool)
        ensures
            r == (status_code(*self) < 300),
    {
        self.code() < 300
    }

    /// The status for a numeric code.
    pub fn from_code(code: u16) -> (r: Status)
        ensures
            r == status_of(code),
    {
        if code == 404 {
            Status::NotFound
        } else if code == 500 {
            Status::InternalServerError
        } else if code == 405 {
            Status::MethodNotAllowed
        } else if code == 200 {
            Status::Success
        } else if code == 201 {
            Status::Created
        } else {
            Status::Code(code)
        }
    }
}

/// The decimal digits of a number, most significant first, without leading zeros.
pub open spec fn decimal(n: nat) -> Seq<char>
    decreases n,
{
    if n < 10 {
        seq![(('0' as u32) + n) as char]
    } else {
        decimal(n / 10).push((('0' as u32) + (n % 10)) as char)
    }
}

/// A response body.
#[derive(Debug, Clone, PartialEq)]
pub enum Body {
    Bytes(Vec<u8>),
    Text(String),
    Html(String),
}

/// The length of a body in bytes.
pub open spec fn body_len(b: Body) -> usize {
    match b {
        Body::Bytes(v) => v@.len() as usize,
        Body::Text(s) => encode_utf8(s@).len() as usize,
        Body::Html(s) => encode_utf8(s@).len() as usize,
    }
}

/// The media type that a body is sent with.
pub open spec fn mime_type(b: Body) -> Seq<char> {
    match b {
        Body::Bytes(_) => "application/octet-stream"@,
        Body::Text(_) => "text/plain"@,
        Body::Html(_) => "text/html"@,
    }
}

impl Body {
    /// The body's length in bytes.
    pub fn len(&self) -> (r: usize)
        ensures
            r == body_len(*self),
    {
        match self {
            Body::Bytes(v) => v.len(),
            Body::Text(s) => s.as_str().len(),
            Body::Html(s) => s.as_str().len(),
        }
    }

    /// The media type the body is sent with.
    pub fn mime_type(&self) -> (r: String)
        ensures
            r@ == mime_type(*self),
    {
        match self {
            Body::Bytes(_) => String::from_str("application/octet-stream"),
            Body::Text(_) => String::from_str("text/plain"),
            Body::Html(_) => String::from_str("text/html"),
        }
    }
}

/// The header value bound to `name` in a list of headers; a later entry of the
/// same name replaces an earlier one.
pub open spec fn header_lookup(entries: Seq<(String, String)>, name: Seq<char>) -> Option<Seq<char>>
    decreases entries.len(),
{
    if entries.len() == 0 {
        None
    } else if entries.last().0@ == name {
        Some(entries.last().1@)
    } else {
        header_lookup(entries.drop_last(), name)
    }
}

/// What `str::to_lowercase` makes of a text.
pub uninterp spec fn lowercase_of(s: Seq<char>) -> Seq<char>;

/// Relies on `str::to_lowercase`: the result depends on the characters alone.
#[verifier::external_body]
fn lowercase(s: &str) -> (r: String)
    ensures
        r@ == lowercase_of(s@),
{
    s.to_lowercase()
}

/// The decimal digit `d` as text.
fn digit_text(d: usize) -> (r: String)
    requires
        d < 10,
    ensures
        r@ == seq![(('0' as u32) + d) as char],
{
    if d == 0 {
        proof {
            reveal_strlit("0");
        }
        String::from_str("0")
    } else if d == 1 {
        proof {
            reveal_strlit("1");
        }
        String::from_str("1")
    } else if d == 2 {
        proof {
            reveal_strlit("2");
        }
        String::from_str("2")
    } else if d == 3 {
        proof {
            reveal_strlit("3");
        }
        String::from_str("3")
    } else if d == 4 {
        proof {
            reveal_strlit("4");
        }
        String::from_str("4")
    } else if d == 5 {
        proof {
            reveal_strlit("5");
        }
        String::from_str("5")
    } else if d == 6 {
        proof {
            reveal_strlit("6");
        }
        String::from_str("6")
    } else if d == 7 {
        proof {
            reveal_strlit("7");
        }
        String::from_str("7")
    } else if d == 8 {
        proof {
            reveal_strlit("8");
        }
        String::from_str("8")
    } else {
        proof {
            reveal_strlit("9");
        }
        String::from_str("9")
    }
}

/// A number written in decimal digits.
fn decimal_text(n: usize) -> (r: String)
    ensures
        r@ == decimal(n as nat),
    decreases n,
{
    if n < 10 {
        digit_text(n)
    } else {
        let mut text = decimal_text(n / 10);
        let last = digit_text(n % 10);
        text.append(last.as_str());
        assert(text@ =~= decimal((n / 10) as nat).push((('0' as u32) + (n % 10)) as char));
        text
    }
}

/// The HTML of an error page with a title and a message.
pub open spec fn error_page(title: Seq<char>, message: Seq<char>) -> Seq<char> {
    "<h1>"@ + title + "</h1>\n<p>"@ + message + "</p>"@
}

/// The response is an HTML error page with this code, title and message.
pub open spec fn is_error_page(r: Response, code: u16, title: Seq<char>, message: Seq<char>) -> bool {
    &&& r.spec_code() == code
    &&& r.spec_body() matches Body::Html(s) && s@ == error_page(title, message)
    &&& r.header_value("content-type"@) == Some("text/html"@)
}

/// An HTTP response: a status code, headers and a body.
pub struct Response {
    code: u16,
    headers: Vec<(String, String)>,
    body: Body,
}

impl Response {
    /// The status code.
    pub closed spec fn spec_code(&self) -> u16 {
        self.code
    }

    /// The value of the header `name` (a lower-case name), if it is set.
    pub closed spec fn header_value(&self, name: Seq<char>) -> Option<Seq<char>> {
        header_lookup(self.headers@, name)
    }

    /// The body.
    pub closed spec fn spec_body(&self) -> Body {
        self.body
    }

    fn put(&mut self, name: String, value: String)
        ensures
            final(self).header_value(name@) == Some(value@),
            forall|other: Seq<char>|
                other != name@ ==> final(self).header_value(other) == old(self).header_value(other),
            final(self).spec_code() == old(self).spec_code(),
            final(self).spec_body() == old(self).spec_body(),
    {
        self.headers.push((name, value));
        assert(self.headers@.drop_last() =~= old(self).headers@);
    }

    /// An empty response with code 200, served as plain text, with the
    /// `server` and `connection` headers set.
    pub fn new() -> (r: Response)
        ensures
            r.spec_code() == 200,
            r.spec_body() matches Body::Bytes(b) && b@.len() == 0,
            r.header_value("content-type"@) == Some("text/plain"@),
            r.header_value("server"@) == Some("rwf"@),
            r.header_value("connection"@) == Some("keep-alive"@),
            forall|other: Seq<char>|
                other != "content-type"@ && other != "server"@ && other != "connection"@
                    ==> r.header_value(other) is None,
    {
        proof {
            reveal_strlit("content-type");
            reveal_strlit("server");
            reveal_strlit("connection");
            assert("server"@.len() != "content-type"@.len());
            assert("connection"@.len() != "content-type"@.len());
            assert("connection"@.len() != "server"@.len());
        }
        let mut r = Response { code: 200, headers: Vec::new(), body: Body::Bytes(Vec::new()) };
        r.put(String::from_str("content-type"), String::from_str("text/plain"));
        r.put(String::from_str("server"), String::from_str("rwf"));
        r.put(String::from_str("connection"), String::from_str("keep-alive"));
        r
    }

    /// Sets the body, with the `content-length` and `content-type` headers
    /// that go with it.
    pub fn body(self, body: Body) -> (r: Response)
        ensures
            r.spec_body() == body,
            r.spec_code() == self.spec_code(),
            r.header_value("content-length"@) == Some(decimal(body_len(body) as nat)),
            r.header_value("content-type"@) == Some(mime_type(body)),
            forall|other: Seq<char>|
                other != "content-length"@ && other != "content-type"@ ==> r.header_value(other)
                    == self.header_value(other),
    {
        proof {
            reveal_strlit("content-length");
            reveal_strlit("content-type");
            assert("content-length"@[8] != "content-type"@[8]);
        }
        let mut r = self;
        let length = decimal_text(body.len());
        let mime = body.mime_type();
        r.body = body;
        r.put(String::from_str("content-length"), length);
        r.put(String::from_str("content-type"), mime);
        r
    }

    /// The status that the code stands for.
    pub fn status(&self) -> (r: Status)
        ensures
            r == status_of(self.spec_code()),
    {
        Status::from_code(self.code)
    }

    /// Sets the status code.
    pub fn code(self, code: u16) -> (r: Response)
        ensures
            r.spec_code() == code,
            r.spec_body() == self.spec_body(),
            forall|name: Seq<char>| r.header_value(name) == self.header_value(name),
    {
        let mut r = self;
        r.code = code;
        r
    }

    /// An HTML body.
    pub fn html(self, body: &str) -> (r: Response)
        ensures
            r.spec_body() matches Body::Html(s) && s@ == body@,
            r.spec_code() == self.spec_code(),
            r.header_value("content-type"@) == Some("text/html"@),
            r.header_value("content-length"@) == Some(decimal(encode_utf8(body@).len() as usize as nat)),
    {
        self.body(Body::Html(String::from_str(body)))
    }

    /// A plain text body.
    pub fn text(self, body: &str) -> (r: Response)
        ensures
            r.spec_body() matches Body::Text(s) && s@ == body@,
            r.spec_code() == self.spec_code(),
            r.header_value("content-type"@) == Some("text/plain"@),
            r.header_value("content-length"@) == Some(decimal(encode_utf8(body@).len() as usize as nat)),
    {
        self.body(Body::Text(String::from_str(body)))
    }

    /// Sets a header. The name is lower-cased; the value is kept as it is.
    pub fn header(self, name: &str, value: &str) -> (r: Response)
        ensures
            r.header_value(lowercase_of(name@)) == Some(value@),
            forall|other: Seq<char>|
                other != lowercase_of(name@) ==> r.header_value(other) == self.header_value(other),
            r.spec_code() == self.spec_code(),
            r.spec_body() == self.spec_body(),
    {
        let mut r = self;
        r.put(lowercase(name), String::from_str(value));
        r
    }

    /// Sets a header whose name is already in lower case.
    fn with_header(self, name: &str, value: &str) -> (r: Response)
        ensures
            r.header_value(name@) == Some(value@),
            forall|other: Seq<char>| other != name@ ==> r.header_value(other) == self.header_value(other),
            r.spec_code() == self.spec_code(),
            r.spec_body() == self.spec_body(),
    {
        let mut r = self;
        r.put(String::from_str(name), String::from_str(value));
        r
    }

    /// The value of the header `name`, if it is set.
    pub fn get_header(&self, name: &str) -> (r: Option<String>)
        ensures
            match r {
                Some(v) => self.header_value(name@) == Some(v@),
                None => self.header_value(name@) is None,
            },
    {
        let wanted = String::from_str(name);
        let mut i: usize = self.headers.len();
        assert(self.headers@.subrange(0, i as int) =~= self.headers@);
        while i > 0
            invariant
                i <= self.headers@.len(),
                wanted@ == name@,
                header_lookup(self.headers@, name@) == header_lookup(
                    self.headers@.subrange(0, i as int),
                    name@,
                ),
            decreases i,
        {
            assert(self.headers@.subrange(0, i as int).drop_last() =~= self.headers@.subrange(
                0,
                i - 1,
            ));
            if self.headers[i - 1].0 == wanted {
                return Some(self.headers[i - 1].1.clone());
            }
            i = i - 1;
        }
        None
    }

    /// An HTML error page with the given title and message, code 500.
    pub fn error_pretty(title: &str, message: &str) -> (r: Response)
        ensures
            is_error_page(r, 500, title@, message@),
    {
        let page = String::from_str("<h1>").concat(title).concat("</h1>\n<p>").concat(message).concat(
            "</p>",
        );
        Response::new().html(page.as_str()).code(500)
    }

    /// `404 - Not Found`.
    pub fn not_found() -> (r: Response)
        ensures
            is_error_page(r, 404, "404 - Not Found"@, ""@),
    {
        Response::error_pretty("404 - Not Found", "").code(404)
    }

    /// `405 - Method Not Allowed`.
    pub fn method_not_allowed() -> (r: Response)
        ensures
            is_error_page(r, 405, "405 - Method Not Allowed"@, ""@),
    {
        Response::error_pretty("405 - Method Not Allowed", "").code(405)
    }

    /// `400 - Bad Request`.
    pub fn bad_request() -> (r: Response)
        ensures
            is_error_page(r, 400, "400 - Bad Request"@, ""@),
    {
        Response::error_pretty("400 - Bad Request", "").code(400)
    }

    /// A failed CSRF token check: `400 - Bad Request` with an explanation.
    pub fn csrf_error() -> (r: Response)
        ensures
            is_error_page(
                r,
                400,
                "400 - CSRF Token Validation Failed"@,
                "The supplied CSRF token is not valid. Reload the page to get a new one."@,
            ),
    {
        Response::error_pretty(
            "400 - CSRF Token Validation Failed",
            "The supplied CSRF token is not valid. Reload the page to get a new one.",
        ).code(400)
    }

    /// `501 - Not Implemented`.
    pub fn not_implemented() -> (r: Response)
        ensures
            is_error_page(r, 501, "501 - Not Implemented"@, ""@),
    {
        Response::error_pretty("501 - Not Implemented", "").code(501)
    }

    /// `403 - Forbidden`.
    pub fn forbidden() -> (r: Response)
        ensures
            is_error_page(r, 403, "403 - Forbidden"@, ""@),
    {
        Response::error_pretty("403 - Forbidden", "").code(403)
    }

    /// `413 - Content Too Large`.
    pub fn content_too_large() -> (r: Response)
        ensures
            is_error_page(r, 413, "413 - Content Too Large"@, ""@),
    {
        Response::error_pretty("413 - Content Too Large", "").code(413)
    }

    /// `500 - Internal Server Error`, showing the description of the error
    /// that was caught.
    pub fn internal_error(err: &str) -> (r: Response)
        ensures
            is_error_page(r, 500, "500 - Internal Server Error"@, err@),
    {
        Response::error_pretty("500 - Internal Server Error", err)
    }

    /// `401 - Unauthorized`, naming the accepted scheme in `www-authenticate`.
    pub fn unauthorized(auth: &str) -> (r: Response)
        ensures
            r.spec_code() == 401,
            r.spec_body() matches Body::Html(s) && s@ == error_page("401 - Unauthorized"@, ""@),
            r.header_value("www-authenticate"@) == Some(auth@),
    {
        Response::error_pretty("401 - Unauthorized", "").code(401).with_header("www-authenticate", auth)
    }

    /// `429 - Too Many`.
    pub fn too_many() -> (r: Response)
        ensures
            is_error_page(r, 429, "429 - Too Many"@, ""@),
    {
        Response::error_pretty("429 - Too Many", "").code(429)
    }

    /// `302 - Found`: a redirect to `to`, with an empty body that is not cached.
    pub fn redirect(self, to: &str) -> (r: Response)
        ensures
            r.spec_code() == 302,
            r.spec_body() matches Body::Html(s) && s@.len() == 0,
            r.header_value("location"@) == Some(to@),
            r.header_value("content-length"@) == Some("0"@),
            r.header_value("cache-control"@) == Some("no-cache"@),
    {
        proof {
            reveal_strlit("");
            reveal_strlit("location");
            reveal_strlit("content-length");
            reveal_strlit("cache-control");
            assert("location"@.len() != "content-length"@.len());
            assert("location"@.len() != "cache-control"@.len());
            assert("content-length"@.len() != "cache-control"@.len());
        }
        let r = self.html("").with_header("location", to).code(302).with_header("content-length", "0").with_header(
            "cache-control",
            "no-cache",
        );
        r
    }

    /// `101 - Switching Protocols` to `protocol`, with only the `connection`
    /// and `upgrade` headers. The protocol is not checked.
    pub fn switching_protocols(protocol: &str) -> (r: Response)
        ensures
            r.spec_code() == 101,
            r.header_value("connection"@) == Some("upgrade"@),
            r.header_value("upgrade"@) == Some(protocol@),
            forall|other: Seq<char>|
                other != "connection"@ && other != "upgrade"@ ==> r.header_value(other) is None,
            r.spec_body() matches Body::Bytes(b) && b@.len() == 0,
    {
        proof {
            reveal_strlit("connection");
            reveal_strlit("upgrade");
            assert("connection"@.len() != "upgrade"@.len());
        }
        let mut response = Response::new();
        response.headers = Vec::new();
        response.with_header("connection", "upgrade").with_header("upgrade", protocol).code(101)
    }

    /// Whether the response agrees to switch the connection to WebSocket:
    /// code 101 with the `upgrade` header set to `websocket`.
    pub fn websocket_upgrade(&self) -> (r: bool)
        ensures
            r == (self.spec_code() == 101 && self.header_value("upgrade"@) == Some("websocket"@)),
    {
        if self.code != 101 {
            return false;
        }
        match self.get_header("upgrade") {
            Some(v) => v == String::from_str("websocket"),
            None => false,
        }
    }
}

impl Default for Response {
    /// The same as [`Response::new`].
    fn default() -> (r: Response)
        ensures
            r.spec_code() == 200,
            r.header_value("content-type"@) == Some("text/plain"@),
    {
        Response::new()
    }
}

} // verus!
