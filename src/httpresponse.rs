use vstd::prelude::*;
use vstd::utf8::encode_utf8;
use crate::httprequest::{after_token, first_token, keys_unique};
use crate::text::{chars_of, lemma_span, lemma_until, string_of, until};

verus! {

broadcast use vstd::string::group_string_axioms;

/// A response to be sent. `new` derives the status text from the status
/// code, and its headers are a mapping: each name occurs once. A value
/// built field by field may hold any text.
#[derive(Debug, PartialEq, Clone)]
pub struct HttpResponse<'a> {
    pub version: &'a str,
    pub status_code: &'a str,
    pub status_text: &'a str,
    pub headers: Option<Vec<(&'a str, &'a str)>>,
    pub body: Option<String>,
}

pub open spec fn crlf() -> Seq<char> {
    seq!['\r', '\n']
}

pub open spec fn http_1_1() -> Seq<char> {
    seq!['H', 'T', 'T', 'P', '/', '1', '.', '1']
}

pub open spec fn content_type() -> Seq<char> {
    seq!['C', 'o', 'n', 't', 'e', 'n', 't', '-', 'T', 'y', 'p', 'e']
}

pub open spec fn text_html() -> Seq<char> {
    seq!['t', 'e', 'x', 't', '/', 'h', 't', 'm', 'l']
}

pub open spec fn content_length() -> Seq<char> {
    seq!['C', 'o', 'n', 't', 'e', 'n', 't', '-', 'L', 'e', 'n', 'g', 't', 'h', ':', ' ']
}

/// The status text of a status code; codes outside the table read as
/// `Not Found`.
pub open spec fn status_text_of(code: Seq<char>) -> Seq<char> {
    if code == seq!['2', '0', '0'] {
        seq!['O', 'K']
    } else if code == seq!['4', '0', '0'] {
        seq!['B', 'a', 'd', ' ', 'R', 'e', 'q', 'u', 'e', 's', 't']
    } else if code == seq!['5', '0', '0'] {
        seq![
            'I', 'n', 't', 'e', 'r', 'n', 'a', 'l', ' ', 'S', 'e', 'r', 'v', 'e', 'r', ' ', 'E',
            'r', 'r', 'o', 'r'
        ]
    } else {
        seq!['N', 'o', 't', ' ', 'F', 'o', 'u', 'n', 'd']
    }
}

pub open spec fn digit(d: nat) -> char {
    if d == 0 { '0' }
    else if d == 1 { '1' }
    else if d == 2 { '2' }
    else if d == 3 { '3' }
    else if d == 4 { '4' }
    else if d == 5 { '5' }
    else if d == 6 { '6' }
    else if d == 7 { '7' }
    else if d == 8 { '8' }
    else { '9' }
}

/// `n` in decimal, without leading zeros.
pub open spec fn decimal(n: nat) -> Seq<char>
    decreases n,
{
    if n < 10 {
        seq![digit(n)]
    } else {
        decimal(n / 10).push(digit(n % 10))
    }
}

/// Each header as `name:value` and a line end, in order.
pub open spec fn header_block(hs: Seq<(Seq<char>, Seq<char>)>) -> Seq<char>
    decreases hs.len(),
{
    if hs.len() == 0 {
        seq![]
    } else {
        header_block(hs.drop_last()) + hs.last().0 + seq![':'] + hs.last().1 + crlf()
    }
}

/// The number of bytes in the UTF-8 encoding of `s`, as a `usize`: the
/// length that a string holding `s` reports.
pub open spec fn byte_len(s: Seq<char>) -> nat {
    encode_utf8(s).len() as usize as nat
}

/// The wire text of a response with the given parts.
pub open spec fn wire(
    version: Seq<char>,
    code: Seq<char>,
    text: Seq<char>,
    hs: Seq<(Seq<char>, Seq<char>)>,
    body: Seq<char>,
) -> Seq<char> {
    version + seq![' '] + code + seq![' '] + text + crlf() + header_block(hs) + content_length()
        + decimal(byte_len(body)) + crlf() + crlf() + body
}

pub open spec fn pairs_view<'a>(hs: Seq<(&'a str, &'a str)>) -> Seq<(Seq<char>, Seq<char>)> {
    hs.map_values(|p: (&'a str, &'a str)| (p.0@, p.1@))
}

impl<'a> HttpResponse<'a> {
    /// The headers as values; none when absent.
    pub open spec fn headers_spec(&self) -> Seq<(Seq<char>, Seq<char>)> {
        match self.headers {
            Some(h) => pairs_view(h@),
            None => seq![],
        }
    }

    /// The body as characters; empty when absent.
    pub open spec fn body_spec(&self) -> Seq<char> {
        match self.body {
            Some(b) => b@,
            None => seq![],
        }
    }

    /// The wire text of this response.
    pub open spec fn wire_spec(&self) -> Seq<char> {
        wire(self.version@, self.status_code@, self.status_text@, self.headers_spec(), self.body_spec())
    }
}

fn status_text_for(code: &str) -> (r: &'static str)
    ensures
        r@ == status_text_of(code@),
{
    let c = chars_of(code);
    proof {
        reveal_strlit("OK");
        reveal_strlit("Bad Request");
        reveal_strlit("Not Found");
        reveal_strlit("Internal Server Error");
    }
    if crate::text::chars_eq(&c, &vec!['2', '0', '0']) {
        "OK"
    } else if crate::text::chars_eq(&c, &vec!['4', '0', '0']) {
        "Bad Request"
    } else if crate::text::chars_eq(&c, &vec!['5', '0', '0']) {
        "Internal Server Error"
    } else {
        "Not Found"
    }
}

fn digit_char(d: usize) -> (r: char)
    requires
        d < 10,
    ensures
        r == digit(d as nat),
{
    if d == 0 { '0' }
    else if d == 1 { '1' }
    else if d == 2 { '2' }
    else if d == 3 { '3' }
    else if d == 4 { '4' }
    else if d == 5 { '5' }
    else if d == 6 { '6' }
    else if d == 7 { '7' }
    else if d == 8 { '8' }
    else { '9' }
}

fn decimal_chars(n: usize) -> (r: Vec<char>)
    ensures
        r@ == decimal(n as nat),
    decreases n,
{
    if n < 10 {
        vec![digit_char(n)]
    } else {
        let mut r = decimal_chars(n / 10);
        r.push(digit_char(n % 10));
        r
    }
}

impl<'a> Default for HttpResponse<'a> {
    fn default() -> (r: Self)
        ensures
            r.version@ == http_1_1(),
            r.status_code@ == seq!['2', '0', '0'],
            r.status_text@ == seq!['O', 'K'],
            r.headers is None,
            r.body is None,
    {
        proof {
            reveal_strlit("HTTP/1.1");
            reveal_strlit("200");
            reveal_strlit("OK");
        }
        HttpResponse {
            version: "HTTP/1.1",
            status_code: "200",
            status_text: "OK",
            headers: None,
            body: None,
        }
    }
}

proof fn lemma_header_block_push(hs: Seq<(Seq<char>, Seq<char>)>, h: (Seq<char>, Seq<char>))
    ensures
        header_block(hs.push(h)) == header_block(hs) + h.0 + seq![':'] + h.1 + crlf(),
{
    assert(hs.push(h).drop_last() =~= hs);
}

impl<'a> HttpResponse<'a> {
    /// A response with version `HTTP/1.1`, the given status code, its
    /// status text, the given headers (a single `Content-Type:text/html`
    /// when none are given, never a merge) and the body unchanged. Given
    /// headers name each header once.
    pub fn new(
        status_code: &'a str,
        headers: Option<Vec<(&'a str, &'a str)>>,
        body: Option<String>,
    ) -> (r: Self)
        requires
            headers is Some ==> keys_unique(pairs_view(headers->0@)),
        ensures
            r.headers is Some && keys_unique(pairs_view(r.headers->0@)),
            r.version@ == http_1_1(),
            r.status_code == status_code,
            r.status_text@ == status_text_of(status_code@),
            headers is Some ==> r.headers == headers,
            headers is None ==> r.headers is Some && pairs_view(r.headers->0@) == seq![
                (content_type(), text_html()),
            ],
            r.body == body,
    {
        let mut response = HttpResponse::default();
        response.status_code = status_code;
        response.headers = match headers {
            Some(h) => Some(h),
            None => {
                proof {
                    reveal_strlit("Content-Type");
                    reveal_strlit("text/html");
                }
                let name: &str = "Content-Type";
                let value: &str = "text/html";
                assert(name@ =~= content_type());
                assert(value@ =~= text_html());
                let mut h: Vec<(&str, &str)> = Vec::new();
                h.push((name, value));
                assert(pairs_view(h@) =~= seq![(content_type(), text_html())]);
                Some(h)
            },
        };
        response.status_text = status_text_for(response.status_code);
        response.body = body;
        response
    }

    pub fn version(&self) -> (r: &str)
        ensures
            r == self.version,
    {
        self.version
    }

    pub fn status_text(&self) -> (r: &str)
        ensures
            r == self.status_text,
    {
        self.status_text
    }

    pub fn status_code(&self) -> (r: &str)
        ensures
            r == self.status_code,
    {
        self.status_code
    }

    fn header_chars(&self) -> (r: Vec<char>)
        ensures
            r@ == header_block(self.headers_spec()),
    {
        let mut out: Vec<char> = Vec::new();
        match &self.headers {
            Some(h) => {
                let ghost hs = pairs_view(h@);
                let mut i: usize = 0;
                while i < h.len()
                    invariant
                        i <= h.len(),
                        hs == pairs_view(h@),
                        out@ == header_block(hs.take(i as int)),
                    decreases h.len() - i,
                {
                    let (k, v) = h[i];
                    out.append(&mut chars_of(k));
                    out.push(':');
                    out.append(&mut chars_of(v));
                    out.push('\r');
                    out.push('\n');
                    proof {
                        assert(hs.take(i + 1) =~= hs.take(i as int).push(hs[i as int]));
                        lemma_header_block_push(hs.take(i as int), hs[i as int]);
                        assert(out@ =~= header_block(hs.take(i + 1)));
                    }
                    i += 1;
                }
                assert(hs.take(i as int) =~= hs);
            },
            None => {
                assert(out@ =~= header_block(seq![]));
            },
        }
        out
    }

    /// The header lines, each `name:value` ended by `\r\n`, in order; empty
    /// when there are no headers.
    pub fn headers(&self) -> (r: String)
        ensures
            r@ == header_block(self.headers_spec()),
    {
        string_of(&self.header_chars())
    }

    /// The body; empty when absent.
    pub fn body(&self) -> (r: &str)
        ensures
            r@ == self.body_spec(),
    {
        match &self.body {
            Some(b) => b.as_str(),
            None => {
                proof {
                    reveal_strlit("");
                }
                ""
            },
        }
    }

    /// The wire text: status line, header lines, a `Content-Length` line
    /// with the byte length of the body, a blank line and the body. An
    /// absent body is sent as an empty one, with length 0; absent headers
    /// give no header lines.
    pub fn serialize(&self) -> (r: String)
        ensures
            r@ == self.wire_spec(),
    {
        let mut out: Vec<char> = chars_of(self.version);
        out.push(' ');
        out.append(&mut chars_of(self.status_code));
        out.push(' ');
        out.append(&mut chars_of(self.status_text));
        out.push('\r');
        out.push('\n');
        out.append(&mut self.header_chars());
        proof {
            reveal_strlit("Content-Length: ");
        }
        let label: &str = "Content-Length: ";
        assert(label@ =~= content_length());
        out.append(&mut chars_of(label));
        let body = self.body();
        let n = body.len();
        assert(n == byte_len(self.body_spec()));
        out.append(&mut decimal_chars(n));
        out.push('\r');
        out.push('\n');
        out.push('\r');
        out.push('\n');
        out.append(&mut chars_of(body));
        assert(out@ =~= self.wire_spec());
        string_of(&out)
    }
}

/// `std::io::Error`, carried as an opaque value.
#[verifier::external_type_specification]
#[verifier::external_body]
pub struct ExIoError(std::io::Error);

/// Relies on `std::io::Write::write_all`: writes the bytes of `s` to `w`,
/// or reports why it could not.
#[verifier::external_body]
fn write_text<T: std::io::Write>(w: &mut T, s: &str) -> std::io::Result<()> {
    w.write_all(s.as_bytes())
}

impl<'a> HttpResponse<'a> {
    /// Writes the wire text of this response to `write_stream`. A failed
    /// write is not reported: the result is always `Ok`.
    pub fn send_response<T: std::io::Write>(&self, write_stream: &mut T) -> (r: std::io::Result<()>)
        ensures
            r is Ok,
    {
        let response_string = self.serialize();
        let _ = write_text(write_stream, response_string.as_str());
        Ok(())
    }
}

pub open spec fn known_code(code: Seq<char>) -> bool {
    code == seq!['2', '0', '0'] || code == seq!['4', '0', '0'] || code == seq!['4', '0', '4']
        || code == seq!['5', '0', '0']
}

/// Scanning the wire text of a response with a known status code gives
/// back its status line: the first token is the version, the second the
/// code, and the rest of the line, after one space, is the status text.
#[verifier::spinoff_prover]
#[verifier::rlimit(40)]
pub proof fn lemma_status_line_scans_back(
    code: Seq<char>,
    hs: Seq<(Seq<char>, Seq<char>)>,
    body: Seq<char>,
)
    requires
        known_code(code),
    ensures
        ({
            let w = wire(http_1_1(), code, status_text_of(code), hs, body);
            let rest = after_token(after_token(w));
            &&& first_token(w) == http_1_1()
            &&& first_token(after_token(w)) == code
            &&& rest.take(until(rest, '\r') as int) == seq![' '] + status_text_of(code)
        }),
{
    let text = status_text_of(code);
    let n: int = text.len() as int;
    let w = wire(http_1_1(), code, text, hs, body);
    assert(w.take(13 + n + 2) =~= http_1_1() + seq![' '] + code + seq![' '] + text + crlf());
    assert forall|i: int| 0 <= i < 13 + n + 2 implies w[i] == w.take(13 + n + 2)[i] by {}
    lemma_span(w, true, 0);
    assert(w.skip(0) =~= w);
    lemma_span(w, false, 8);
    assert(first_token(w) =~= http_1_1());
    let r1 = w.skip(8);
    assert(after_token(w) =~= r1);
    lemma_span(r1, true, 1);
    let c1 = r1.skip(1);
    lemma_span(c1, false, 3);
    assert(first_token(r1) =~= code);
    let r2 = w.skip(12);
    assert(after_token(r1) =~= r2);
    lemma_until(r2, '\r', 1 + n);
    assert(r2.take(1 + n) =~= seq![' '] + text);
}

/// The wire text of a response, as `HttpResponse::serialize` gives it.
impl<'a> From<HttpResponse<'a>> for String {
    fn from(res: HttpResponse<'a>) -> (r: String)
        ensures
            r@ == res.wire_spec(),
    {
        res.serialize()
    }
}

impl<'a> vstd::std_specs::convert::FromSpecImpl<HttpResponse<'a>> for String {
    open spec fn obeys_from_spec() -> bool {
        false
    }

    open spec fn from_spec(v: HttpResponse<'a>) -> String {
        arbitrary()
    }
}

} // verus!
