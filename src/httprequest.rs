use vstd::prelude::*;
use crate::text::{
    chars_eq, chars_of, is_ws, lemma_span, lemma_until, lemma_until_bound, slice, span, string_of,
    until,
};

verus! {

/// The request method, matched case-sensitively.
#[derive(Debug, PartialEq, Eq, Structural, Clone, Copy)]
pub enum Method {
    Get,
    Post,
    Uninitialized,
}

/// The protocol version named on the request line.
#[derive(Debug, PartialEq, Eq, Structural, Clone, Copy)]
pub enum Version {
    V1_1,
    V2_0,
    Uninitialized,
}

/// The request target, kept verbatim.
#[derive(Debug, PartialEq)]
pub enum Resource {
    Patch(String),
}

/// A decoded request. Each header name occurs once; a later line with the
/// same name replaces the value and keeps the place of the first.
#[derive(Debug)]
pub struct HttpRequest {
    pub method: Method,
    pub version: Version,
    pub resource: Resource,
    pub headers: Vec<(String, String)>,
    pub msg_body: String,
}

/// Header entries as name and value.
pub type HeadersView = Seq<(Seq<char>, Seq<char>)>;

/// A request as values: method, version, target, headers, body.
pub type RequestView = (Method, Version, Seq<char>, HeadersView, Seq<char>);

pub open spec fn method_of(s: Seq<char>) -> Method {
    if s == seq!['G', 'e', 't'] {
        Method::Get
    } else if s == seq!['P', 'o', 's', 't'] {
        Method::Post
    } else {
        Method::Uninitialized
    }
}

pub open spec fn version_of(s: Seq<char>) -> Version {
    if s == seq!['H', 'T', 'T', 'P', '/', '1', '.', '1'] {
        Version::V1_1
    } else {
        Version::Uninitialized
    }
}

/// A line without the one carriage return that may end it.
pub open spec fn strip_cr(l: Seq<char>) -> Seq<char> {
    if l.len() > 0 && l.last() == '\r' {
        l.drop_last()
    } else {
        l
    }
}

/// The lines of `s`: split at each `\n`, a `\r` before it dropped, and no
/// empty line after a final `\n`.
pub open spec fn lines(s: Seq<char>) -> Seq<Seq<char>>
    decreases s.len(),
{
    if s.len() == 0 {
        seq![]
    } else if until(s, '\n') >= s.len() {
        seq![s]
    } else {
        seq![strip_cr(s.take(until(s, '\n') as int))] + lines(s.skip(until(s, '\n') + 1int))
    }
}

pub open spec fn contains_http(l: Seq<char>) -> bool {
    exists|i: int| 0 <= i && i + 4 <= l.len() && #[trigger] l.subrange(i, i + 4) == seq!['H', 'T', 'T', 'P']
}

/// The first whitespace-delimited token of `s` (empty when there is none).
pub open spec fn first_token(s: Seq<char>) -> Seq<char> {
    s.skip(span(s, true) as int).take(span(s.skip(span(s, true) as int), false) as int)
}

/// What follows the first token of `s`.
pub open spec fn after_token(s: Seq<char>) -> Seq<char> {
    s.skip((span(s, true) + span(s.skip(span(s, true) as int), false)) as int)
}

/// Method, target and version of a request line: its first three tokens,
/// an absent one read as empty.
pub open spec fn request_line(l: Seq<char>) -> (Method, Seq<char>, Version) {
    (
        method_of(first_token(l)),
        first_token(after_token(l)),
        version_of(first_token(after_token(after_token(l)))),
    )
}

pub open spec fn keys_unique(hs: HeadersView) -> bool {
    forall|i: int, j: int| 0 <= i < j < hs.len() ==> hs[i].0 != hs[j].0
}

/// `hs` with `k` set to `v`: an entry for `k` gets the new value in place,
/// else the entry is added at the end.
pub open spec fn put(hs: HeadersView, k: Seq<char>, v: Seq<char>) -> HeadersView {
    if exists|i: int| 0 <= i < hs.len() && hs[i].0 == k {
        hs.update(choose|i: int| 0 <= i < hs.len() && hs[i].0 == k, (k, v))
    } else {
        hs.push((k, v))
    }
}

/// The value that `hs` holds for `k`, if any.
pub open spec fn lookup(hs: HeadersView, k: Seq<char>) -> Option<Seq<char>> {
    if exists|i: int| 0 <= i < hs.len() && hs[i].0 == k {
        Some(hs[choose|i: int| 0 <= i < hs.len() && hs[i].0 == k].1)
    } else {
        None
    }
}

/// The request before any line: method `Uninitialized` but version `V1_1`,
/// so that a text without a request line reads as version 1.1.
pub open spec fn initial() -> RequestView {
    (Method::Uninitialized, Version::V1_1, seq![], seq![], seq![])
}

/// What one line does to the request decoded so far.
pub open spec fn step(st: RequestView, l: Seq<char>) -> RequestView {
    if contains_http(l) {
        let (m, t, v) = request_line(l);
        (m, v, t, st.3, st.4)
    } else if until(l, ':') < l.len() {
        let k = until(l, ':') as int;
        (st.0, st.1, st.2, put(st.3, l.take(k), l.skip(k + 1)), st.4)
    } else if l.len() == 0 {
        st
    } else {
        (st.0, st.1, st.2, st.3, l)
    }
}

/// The request after the lines `ls`, taken in order.
pub open spec fn fold_lines(ls: Seq<Seq<char>>) -> RequestView
    decreases ls.len(),
{
    if ls.len() == 0 {
        initial()
    } else {
        step(fold_lines(ls.drop_last()), ls.last())
    }
}

/// The request that the text `s` decodes to.
pub open spec fn decode(s: Seq<char>) -> RequestView {
    fold_lines(lines(s))
}

pub open spec fn headers_view(hs: Seq<(String, String)>) -> HeadersView {
    hs.map_values(|p: (String, String)| (p.0@, p.1@))
}

impl View for HttpRequest {
    type V = RequestView;

    open spec fn view(&self) -> RequestView {
        let Resource::Patch(t) = self.resource;
        (self.method, self.version, t@, headers_view(self.headers@), self.msg_body@)
    }
}

fn method_from_chars(v: &Vec<char>) -> (r: Method)
    ensures
        r == method_of(v@),
{
    if chars_eq(v, &vec!['G', 'e', 't']) {
        Method::Get
    } else if chars_eq(v, &vec!['P', 'o', 's', 't']) {
        Method::Post
    } else {
        Method::Uninitialized
    }
}

fn version_from_chars(v: &Vec<char>) -> (r: Version)
    ensures
        r == version_of(v@),
{
    if chars_eq(v, &vec!['H', 'T', 'T', 'P', '/', '1', '.', '1']) {
        Version::V1_1
    } else {
        Version::Uninitialized
    }
}

impl<'a> From<&'a str> for Method {
    fn from(s: &'a str) -> (r: Method) {
        method_from_chars(&chars_of(s))
    }
}

impl<'a> vstd::std_specs::convert::FromSpecImpl<&'a str> for Method {
    open spec fn obeys_from_spec() -> bool {
        true
    }

    open spec fn from_spec(v: &'a str) -> Method {
        method_of(v@)
    }
}

impl<'a> From<&'a str> for Version {
    fn from(s: &'a str) -> (r: Version) {
        version_from_chars(&chars_of(s))
    }
}

impl<'a> vstd::std_specs::convert::FromSpecImpl<&'a str> for Version {
    open spec fn obeys_from_spec() -> bool {
        true
    }

    open spec fn from_spec(v: &'a str) -> Version {
        version_of(v@)
    }
}

fn is_ws_char(c: char) -> (r: bool)
    ensures
        r == is_ws(c),
{
    ('\u{9}' <= c && c <= '\u{d}') || c == ' ' || c == '\u{85}' || c == '\u{a0}' || c
        == '\u{1680}' || ('\u{2000}' <= c && c <= '\u{200a}') || c == '\u{2028}' || c
        == '\u{2029}' || c == '\u{202f}' || c == '\u{205f}' || c == '\u{3000}'
}

/// Bounds of the first token of `v` from `pos` on, and where it ends.
fn next_token(v: &Vec<char>, pos: usize) -> (r: (usize, usize))
    requires
        pos <= v.len(),
    ensures
        pos <= r.0 <= r.1 <= v.len(),
        v@.subrange(r.0 as int, r.1 as int) == first_token(v@.skip(pos as int)),
        v@.skip(r.1 as int) == after_token(v@.skip(pos as int)),
{
    let ghost t = v@.skip(pos as int);
    let mut a: usize = pos;
    while a < v.len() && is_ws_char(v[a])
        invariant
            pos <= a <= v.len(),
            forall|i: int| pos <= i < a ==> is_ws(v@[i]),
        decreases v.len() - a,
    {
        a += 1;
    }
    proof {
        lemma_span(t, true, a - pos);
    }
    let ghost u = v@.skip(a as int);
    assert(u =~= t.skip(span(t, true) as int));
    let mut b: usize = a;
    while b < v.len() && !is_ws_char(v[b])
        invariant
            a <= b <= v.len(),
            forall|i: int| a <= i < b ==> !is_ws(v@[i]),
        decreases v.len() - b,
    {
        b += 1;
    }
    proof {
        lemma_span(u, false, b - a);
        assert(v@.subrange(a as int, b as int) =~= first_token(t));
        assert(v@.skip(b as int) =~= after_token(t));
    }
    (a, b)
}

fn has_http(l: &Vec<char>) -> (r: bool)
    ensures
        r == contains_http(l@),
{
    if l.len() < 4 {
        return false;
    }
    let mut i: usize = 0;
    while i <= l.len() - 4
        invariant
            l.len() >= 4,
            i <= l.len() - 3,
            forall|j: int| 0 <= j < i ==> #[trigger] l@.subrange(j, j + 4) != seq!['H', 'T', 'T', 'P'],
        decreases l.len() - i,
    {
        if l[i] == 'H' && l[i + 1] == 'T' && l[i + 2] == 'T' && l[i + 3] == 'P' {
            assert(l@.subrange(i as int, i + 4) =~= seq!['H', 'T', 'T', 'P']);
            return true;
        }
        assert(l@.subrange(i as int, i + 4)[0] == l@[i as int]);
        assert(l@.subrange(i as int, i + 4)[1] == l@[i + 1]);
        assert(l@.subrange(i as int, i + 4)[2] == l@[i + 2]);
        assert(l@.subrange(i as int, i + 4)[3] == l@[i + 3]);
        i += 1;
    }
    false
}

/// Index of the first `c` in `v`, or its length.
fn find_char(v: &Vec<char>, c: char) -> (r: usize)
    ensures
        r == until(v@, c),
{
    let mut k: usize = 0;
    while k < v.len() && v[k] != c
        invariant
            k <= v.len(),
            forall|i: int| 0 <= i < k ==> v@[i] != c,
        decreases v.len() - k,
    {
        k += 1;
    }
    proof {
        lemma_until(v@, c, k as int);
    }
    k
}

/// The decoding state: a request whose strings are still characters.
struct Draft {
    method: Method,
    version: Version,
    target: Vec<char>,
    headers: Vec<(Vec<char>, Vec<char>)>,
    body: Vec<char>,
}

impl View for Draft {
    type V = RequestView;

    closed spec fn view(&self) -> RequestView {
        (
            self.method,
            self.version,
            self.target@,
            self.headers@.map_values(|p: (Vec<char>, Vec<char>)| (p.0@, p.1@)),
            self.body@,
        )
    }
}

proof fn lemma_put_unique(hs: HeadersView, k: Seq<char>, v: Seq<char>)
    requires
        keys_unique(hs),
    ensures
        keys_unique(put(hs, k, v)),
        lookup(put(hs, k, v), k) == Some(v),
{
    let r = put(hs, k, v);
    if exists|i: int| 0 <= i < hs.len() && hs[i].0 == k {
        let c = choose|i: int| 0 <= i < hs.len() && hs[i].0 == k;
        assert(r[c].0 == k);
    } else {
        assert(r[hs.len() as int].0 == k);
    }
}

impl Draft {
    /// Sets header `k` to `v`, replacing an entry of the same name.
    fn put_header(&mut self, k: Vec<char>, v: Vec<char>)
        requires
            keys_unique(old(self)@.3),
        ensures
            final(self)@ == (old(self)@.0, old(self)@.1, old(self)@.2, put(old(self)@.3, k@, v@), old(self)@.4),
            keys_unique(final(self)@.3),
    {
        let ghost hs = self@.3;
        proof {
            lemma_put_unique(hs, k@, v@);
        }
        let mut i: usize = 0;
        while i < self.headers.len()
            invariant
                self@ == old(self)@,
                hs == self@.3,
                keys_unique(hs),
                i <= self.headers.len(),
                forall|j: int| 0 <= j < i ==> hs[j].0 != k@,
            decreases self.headers.len() - i,
        {
            if chars_eq(&self.headers[i].0, &k) {
                assert(hs[i as int].0 == k@);
                self.headers.set(i, (k, v));
                proof {
                    let c = choose|j: int| 0 <= j < hs.len() && hs[j].0 == k@;
                    assert(c == i);
                    assert(self@.3 =~= put(hs, k@, v@));
                }
                return;
            }
            i += 1;
        }
        self.headers.push((k, v));
        assert(self@.3 =~= put(hs, k@, v@));
    }

    /// Applies one line of the request text.
    fn apply_line(&mut self, l: &Vec<char>)
        requires
            keys_unique(old(self)@.3),
        ensures
            final(self)@ == step(old(self)@, l@),
            keys_unique(final(self)@.3),
    {
        if has_http(l) {
            let (a1, b1) = next_token(l, 0);
            let (a2, b2) = next_token(l, b1);
            let (a3, b3) = next_token(l, b2);
            assert(l@.skip(0) =~= l@);
            self.method = method_from_chars(&slice(l, a1, b1));
            self.target = slice(l, a2, b2);
            self.version = version_from_chars(&slice(l, a3, b3));
        } else {
            let k = find_char(l, ':');
            if k < l.len() {
                let key = slice(l, 0, k);
                let value = slice(l, k + 1, l.len());
                assert(key@ =~= l@.take(k as int));
                assert(value@ =~= l@.skip(k + 1));
                self.put_header(key, value);
            } else if l.len() == 0 {
            } else {
                self.body = slice(l, 0, l.len());
                assert(self.body@ =~= l@);
            }
        }
    }
}

proof fn lemma_fold_push(ls: Seq<Seq<char>>, l: Seq<char>)
    ensures
        fold_lines(ls.push(l)) == step(fold_lines(ls), l),
{
    assert(ls.push(l).drop_last() =~= ls);
}

impl Draft {
    fn into_request(self) -> (r: HttpRequest)
        ensures
            r@ == self@,
    {
        let mut headers: Vec<(String, String)> = Vec::new();
        let mut i: usize = 0;
        while i < self.headers.len()
            invariant
                i <= self.headers.len(),
                headers_view(headers@) =~= self@.3.take(i as int),
            decreases self.headers.len() - i,
        {
            let k = string_of(&self.headers[i].0);
            let v = string_of(&self.headers[i].1);
            let ghost before = headers@;
            headers.push((k, v));
            proof {
                assert(headers@ == before.push((k, v)));
                assert(headers_view(headers@) =~= headers_view(before).push((k@, v@)));
                assert(self@.3[i as int] == (self.headers@[i as int].0@, self.headers@[i as int].1@));
                assert(self@.3.take(i + 1) =~= self@.3.take(i as int).push(self@.3[i as int]));
            }
            i += 1;
        }
        assert(self@.3.take(i as int) =~= self@.3);
        HttpRequest {
            method: self.method,
            version: self.version,
            resource: Resource::Patch(string_of(&self.target)),
            headers,
            msg_body: string_of(&self.body),
        }
    }
}

impl HttpRequest {
    /// Decodes request text line by line. A line that holds `HTTP` is the
    /// request line; else one with a colon is a header line, split at its
    /// first colon with nothing trimmed; empty lines are skipped; any other
    /// line is the body, the last such line winning. Decoding never fails:
    /// what is absent keeps its default (method `Uninitialized`, version
    /// `V1_1`, empty target, no headers, empty body), and a request line
    /// with fewer than three tokens reads the absent ones as empty.
    pub fn decode(req: &str) -> (r: HttpRequest)
        ensures
            r@ == decode(req@),
            keys_unique(r@.3),
    {
        let v = chars_of(req);
        let n = v.len();
        let mut d = Draft {
            method: Method::Uninitialized,
            version: Version::V1_1,
            target: Vec::new(),
            headers: Vec::new(),
            body: Vec::new(),
        };
        assert(d@.3 =~= seq![]);
        let ghost mut done: Seq<Seq<char>> = seq![];
        let mut start: usize = 0;
        assert(v@.skip(0) =~= v@);
        while start < n
            invariant
                n == v.len(),
                start <= n,
                lines(v@) == done + lines(v@.skip(start as int)),
                d@ == fold_lines(done),
                keys_unique(d@.3),
            decreases n - start,
        {
            let ghost t = v@.skip(start as int);
            let mut k: usize = start;
            while k < n && v[k] != '\n'
                invariant
                    n == v.len(),
                    start <= k <= n,
                    forall|i: int| start <= i < k ==> v@[i] != '\n',
                decreases n - k,
            {
                k += 1;
            }
            proof {
                lemma_until(t, '\n', k - start);
            }
            let line = if k == n {
                slice(&v, start, n)
            } else if k > start && v[k - 1] == '\r' {
                slice(&v, start, k - 1)
            } else {
                slice(&v, start, k)
            };
            proof {
                if k == n {
                    assert(line@ =~= t);
                    assert(lines(t) == seq![t]);
                    assert(v@.skip(n as int) =~= seq![]);
                } else {
                    assert(line@ =~= strip_cr(t.take(k - start)));
                    assert(t.skip(k - start + 1) =~= v@.skip(k + 1));
                }
                assert(done + lines(t) =~= done.push(line@) + lines(
                    v@.skip(if k == n { n as int } else { k + 1 }),
                ));
                lemma_fold_push(done, line@);
            }
            d.apply_line(&line);
            proof {
                done = done.push(line@);
            }
            start = if k == n { n } else { k + 1 };
        }
        assert(done + lines(v@.skip(start as int)) =~= done);
        d.into_request()
    }
}

/// The lines of `ls`, each ended by `\r\n`.
pub open spec fn join_lines(ls: Seq<Seq<char>>) -> Seq<char>
    decreases ls.len(),
{
    if ls.len() == 0 {
        seq![]
    } else {
        ls[0] + seq!['\r', '\n'] + join_lines(ls.drop_first())
    }
}

pub open spec fn method_text(m: Method) -> Seq<char> {
    match m {
        Method::Get => seq!['G', 'e', 't'],
        Method::Post => seq!['P', 'o', 's', 't'],
        Method::Uninitialized => seq![],
    }
}

/// The lines of a request: request line, header lines, a blank line and
/// the body line.
pub open spec fn request_lines(r: RequestView) -> Seq<Seq<char>> {
    seq![
        method_text(r.0) + seq![' '] + r.2 + seq![' '] + seq!['H', 'T', 'T', 'P', '/', '1', '.', '1'],
    ] + r.3.map_values(|p: (Seq<char>, Seq<char>)| p.0 + seq![':'] + p.1) + seq![
        seq![],
        r.4,
    ]
}

/// A request written out as text.
pub open spec fn request_text(r: RequestView) -> Seq<char> {
    join_lines(request_lines(r))
}

pub open spec fn no_line_end(s: Seq<char>) -> bool {
    forall|i: int| 0 <= i < s.len() ==> s[i] != '\n' && s[i] != '\r'
}

/// A request that its text decodes back to: a known method and version, a
/// target that is one token, header names without colons, header lines
/// and a body that hold no `HTTP` and no line end, and a non-empty body
/// line without a colon.
pub open spec fn well_formed(r: RequestView) -> bool {
    &&& r.0 != Method::Uninitialized
    &&& r.1 == Version::V1_1
    &&& r.2.len() > 0
    &&& forall|i: int| 0 <= i < r.2.len() ==> !is_ws(#[trigger] r.2[i])
    &&& keys_unique(r.3)
    &&& forall|i: int|
        0 <= i < r.3.len() ==> {
            let (k, v) = #[trigger] r.3[i];
            &&& until(k, ':') == k.len()
            &&& no_line_end(k)
            &&& no_line_end(v)
            &&& !contains_http(k + seq![':'] + v)
        }
    &&& r.4.len() > 0
    &&& until(r.4, ':') == r.4.len()
    &&& no_line_end(r.4)
    &&& !contains_http(r.4)
}

proof fn lemma_lines_join(ls: Seq<Seq<char>>)
    requires
        forall|i: int| 0 <= i < ls.len() ==> no_line_end(#[trigger] ls[i]),
    ensures
        lines(join_lines(ls)) == ls,
    decreases ls.len(),
{
    if ls.len() > 0 {
        let a = ls[0];
        let rest = join_lines(ls.drop_first());
        let s = join_lines(ls);
        assert(s =~= a + seq!['\r', '\n'] + rest);
        assert(no_line_end(a));
        lemma_until(s, '\n', a.len() + 1int);
        assert(s.take(a.len() + 1int) =~= a.push('\r'));
        assert(strip_cr(a.push('\r')) =~= a);
        assert(s.skip(a.len() + 2int) =~= rest);
        assert forall|i: int| 0 <= i < ls.drop_first().len() implies no_line_end(
            #[trigger] ls.drop_first()[i],
        ) by {
            assert(ls.drop_first()[i] == ls[i + 1]);
        }
        lemma_lines_join(ls.drop_first());
        assert(seq![a] + ls.drop_first() =~= ls);
    }
}

proof fn lemma_request_line(m: Method, t: Seq<char>)
    requires
        m != Method::Uninitialized,
        t.len() > 0,
        forall|i: int| 0 <= i < t.len() ==> !is_ws(#[trigger] t[i]),
    ensures
        ({
            let l = method_text(m) + seq![' '] + t + seq![' '] + seq!['H', 'T', 'T', 'P', '/', '1', '.', '1'];
            contains_http(l) && request_line(l) == (m, t, Version::V1_1) && no_line_end(l)
        }),
{
    let mt = method_text(m);
    let h = seq!['H', 'T', 'T', 'P', '/', '1', '.', '1'];
    let l = mt + seq![' '] + t + seq![' '] + h;
    let j: int = mt.len() + t.len() + 2int;
    assert(l.subrange(j, j + 4) =~= seq!['H', 'T', 'T', 'P']);
    assert forall|i: int| 0 <= i < l.len() implies l[i] != '\n' && l[i] != '\r' by {
        if mt.len() + 1 <= i < mt.len() + 1 + t.len() {
            assert(l[i] == t[i - mt.len() - 1]);
        }
    }
    lemma_span(l, true, 0);
    assert(l.skip(0) =~= l);
    lemma_span(l, false, mt.len() as int);
    assert(first_token(l) =~= mt);
    let r1 = seq![' '] + t + seq![' '] + h;
    assert(after_token(l) =~= r1);
    lemma_span(r1, true, 1);
    let c1 = t + seq![' '] + h;
    assert(r1.skip(1) =~= c1);
    assert forall|i: int| 0 <= i < t.len() implies !is_ws(c1[i]) by {
        assert(c1[i] == t[i]);
    }
    lemma_span(c1, false, t.len() as int);
    assert(first_token(r1) =~= t);
    let r2 = seq![' '] + h;
    assert(after_token(r1) =~= r2);
    lemma_span(r2, true, 1);
    assert(r2.skip(1) =~= h);
    lemma_span(h, false, 8);
    assert(first_token(r2) =~= h);
}

proof fn lemma_fold_headers(r: RequestView, i: int)
    requires
        well_formed(r),
        0 <= i <= r.3.len(),
    ensures
        fold_lines(request_lines(r).take(i + 1)) == (r.0, r.1, r.2, r.3.take(i), Seq::<char>::empty()),
    decreases i,
{
    let ls = request_lines(r);
    if i == 0 {
        lemma_request_line(r.0, r.2);
        assert(ls.take(1) =~= seq![].push(ls[0]));
        lemma_fold_push(seq![], ls[0]);
        assert(r.3.take(0) =~= seq![]);
    } else {
        lemma_fold_headers(r, i - 1);
        let (k, v) = r.3[i - 1];
        let l = ls[i];
        assert(l == k + seq![':'] + v);
        assert(ls.take(i + 1) =~= ls.take(i).push(l));
        lemma_fold_push(ls.take(i), l);
        lemma_until_bound(k, ':');
        assert forall|j: int| 0 <= j < k.len() implies l[j] != ':' by {
            assert(l[j] == k[j]);
        }
        lemma_until(l, ':', k.len() as int);
        assert(l.take(k.len() as int) =~= k);
        assert(l.skip(k.len() + 1int) =~= v);
        let hs = r.3.take(i - 1);
        assert(!exists|j: int| 0 <= j < hs.len() && hs[j].0 == k);
        assert(put(hs, k, v) =~= r.3.take(i));
    }
}

/// A well-formed request, written out as text, decodes to itself.
pub proof fn lemma_decode_request_text(r: RequestView)
    requires
        well_formed(r),
    ensures
        decode(request_text(r)) == r,
{
    let ls = request_lines(r);
    let n: int = r.3.len() as int;
    lemma_request_line(r.0, r.2);
    assert forall|i: int| 0 <= i < ls.len() implies no_line_end(#[trigger] ls[i]) by {
        if 1 <= i < n + 1 {
            let (k, v) = r.3[i - 1];
            assert(ls[i] == k + seq![':'] + v);
            assert forall|j: int| 0 <= j < ls[i].len() implies ls[i][j] != '\n' && ls[i][j]
                != '\r' by {
                if j > k.len() {
                    assert(ls[i][j] == v[j - k.len() - 1]);
                }
            }
        }
    }
    lemma_lines_join(ls);
    lemma_fold_headers(r, n);
    assert(r.3.take(n) =~= r.3);
    assert(ls.take(n + 2) =~= ls.take(n + 1).push(seq![]));
    lemma_fold_push(ls.take(n + 1), seq![]);
    assert(ls =~= ls.take(n + 2).push(r.4));
    lemma_fold_push(ls.take(n + 2), r.4);
}

/// Decodes request text, as `HttpRequest::decode` does.
impl From<String> for HttpRequest {
    fn from(req: String) -> (r: HttpRequest)
        ensures
            r@ == decode(req@),
            keys_unique(r@.3),
    {
        HttpRequest::decode(req.as_str())
    }
}

impl vstd::std_specs::convert::FromSpecImpl<String> for HttpRequest {
    open spec fn obeys_from_spec() -> bool {
        false
    }

    open spec fn from_spec(v: String) -> HttpRequest {
        arbitrary()
    }
}

} // verus!
