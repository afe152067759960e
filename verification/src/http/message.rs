//! Requests and responses, and which of them can stand on the wire.

use vstd::prelude::*;
use crate::http::text::{CR, LF, copy_window, find, first_of, is_blank, window_is};

verus! {

pub const COLON: u8 = 58;

pub const SLASH: u8 = 47;

pub const QUESTION: u8 = 63;

pub const HASH: u8 = 35;

/// The request methods this framing knows.
#[derive(Clone, Copy, Debug, PartialEq, Eq, Structural)]
pub enum Method {
    Get,
    Head,
    Post,
    Put,
    Delete,
    Options,
    Patch,
}

/// One header field.
#[derive(Clone, Debug, PartialEq, Eq)]
pub struct Header {
    pub name: Vec<u8>,
    pub value: Vec<u8>,
}

/// A request. The length of the body travels in a header of its own that
/// the framing writes and reads; `headers` holds the others.
#[derive(Clone, Debug, PartialEq, Eq)]
pub struct Request {
    pub method: Method,
    pub target: Vec<u8>,
    pub headers: Vec<Header>,
    pub body: Vec<u8>,
}

/// A response. As for a request, `headers` does not hold the body's length.
#[derive(Clone, Debug, PartialEq, Eq)]
pub struct Response {
    pub status: u16,
    pub reason: Vec<u8>,
    pub headers: Vec<Header>,
    pub body: Vec<u8>,
}

/// What travels over a connection that speaks this framing.
#[derive(Clone, Debug, PartialEq, Eq)]
pub enum Message {
    Request(Request),
    Response(Response),
}

pub struct HeaderView {
    pub name: Seq<u8>,
    pub value: Seq<u8>,
}

pub struct RequestView {
    pub method: Method,
    pub target: Seq<u8>,
    pub headers: Seq<HeaderView>,
    pub body: Seq<u8>,
}

pub struct ResponseView {
    pub status: u16,
    pub reason: Seq<u8>,
    pub headers: Seq<HeaderView>,
    pub body: Seq<u8>,
}

pub enum MessageView {
    Request(RequestView),
    Response(ResponseView),
}

/// The views of a list of headers, in order.
pub open spec fn header_views(headers: Seq<Header>) -> Seq<HeaderView> {
    Seq::new(headers.len(), |i: int| headers[i]@)
}

impl View for Header {
    type V = HeaderView;

    open spec fn view(&self) -> HeaderView {
        HeaderView { name: self.name@, value: self.value@ }
    }
}

impl View for Request {
    type V = RequestView;

    open spec fn view(&self) -> RequestView {
        RequestView {
            method: self.method,
            target: self.target@,
            headers: header_views(self.headers@),
            body: self.body@,
        }
    }
}

impl View for Response {
    type V = ResponseView;

    open spec fn view(&self) -> ResponseView {
        ResponseView {
            status: self.status,
            reason: self.reason@,
            headers: header_views(self.headers@),
            body: self.body@,
        }
    }
}

impl View for Message {
    type V = MessageView;

    open spec fn view(&self) -> MessageView {
        match self {
            Message::Request(request) => MessageView::Request(request@),
            Message::Response(response) => MessageView::Response(response@),
        }
    }
}

/// A printable ASCII character other than the space.
pub open spec fn is_visible(byte: u8) -> bool {
    33 <= byte <= 126
}

/// A byte that can stand in a header name.
pub open spec fn is_name_byte(byte: u8) -> bool {
    is_visible(byte) && byte != COLON
}

/// Every byte of `s` is visible.
pub open spec fn all_visible(s: Seq<u8>) -> bool {
    forall|i: int| 0 <= i < s.len() ==> is_visible(#[trigger] s[i])
}

/// `s` holds no carriage return and no line feed.
pub open spec fn unbroken(s: Seq<u8>) -> bool {
    forall|i: int| 0 <= i < s.len() ==> #[trigger] s[i] != CR && s[i] != LF
}

/// `byte`, in lower case if it is an ASCII capital.
pub open spec fn lowered(byte: u8) -> u8 {
    if 65 <= byte <= 90 {
        (byte + 32) as u8
    } else {
        byte
    }
}

/// The name of the header that carries the body's length, in lower case.
pub open spec fn length_name() -> Seq<u8> {
    seq![99u8, 111u8, 110u8, 116u8, 101u8, 110u8, 116u8, 45u8, 108u8, 101u8, 110u8, 103u8, 116u8, 104u8]
}

/// `name` is the name of the header that carries the body's length, in
/// whatever case.
pub open spec fn is_length_name(name: Seq<u8>) -> bool {
    &&& name.len() == length_name().len()
    &&& forall|i: int| 0 <= i < name.len() ==> lowered(#[trigger] name[i]) == length_name()[i]
}

impl Method {
    /// The method as it stands in a request line.
    pub open spec fn name(self) -> Seq<u8> {
        match self {
            Method::Get => seq![71u8, 69u8, 84u8],
            Method::Head => seq![72u8, 69u8, 65u8, 68u8],
            Method::Post => seq![80u8, 79u8, 83u8, 84u8],
            Method::Put => seq![80u8, 85u8, 84u8],
            Method::Delete => seq![68u8, 69u8, 76u8, 69u8, 84u8, 69u8],
            Method::Options => seq![79u8, 80u8, 84u8, 73u8, 79u8, 78u8, 83u8],
            Method::Patch => seq![80u8, 65u8, 84u8, 67u8, 72u8],
        }
    }

    /// The method that `token` names, if any.
    pub open spec fn named(token: Seq<u8>) -> Option<Method> {
        if token == Method::Get.name() {
            Some(Method::Get)
        } else if token == Method::Head.name() {
            Some(Method::Head)
        } else if token == Method::Post.name() {
            Some(Method::Post)
        } else if token == Method::Put.name() {
            Some(Method::Put)
        } else if token == Method::Delete.name() {
            Some(Method::Delete)
        } else if token == Method::Options.name() {
            Some(Method::Options)
        } else if token == Method::Patch.name() {
            Some(Method::Patch)
        } else {
            None
        }
    }

    /// Every method is the one that its name names, and a name is visible
    /// throughout.
    pub proof fn lemma_named(self)
        ensures
            Method::named(self.name()) == Some(self),
            all_visible(self.name()),
            self.name().len() > 0,
    {
        let get = Method::Get.name();
        let head = Method::Head.name();
        let post = Method::Post.name();
        let put = Method::Put.name();
        let delete = Method::Delete.name();
        let options = Method::Options.name();
        let patch = Method::Patch.name();
        assert(get.len() == 3 && get[0] == 71);
        assert(head.len() == 4 && head[0] == 72);
        assert(post.len() == 4 && post[0] == 80);
        assert(put.len() == 3 && put[0] == 80);
        assert(delete.len() == 6);
        assert(options.len() == 7);
        assert(patch.len() == 5);
    }

    /// The method's name as bytes.
    pub fn token(&self) -> (token: Vec<u8>)
        ensures
            token@ == self.name(),
    {
        let token: Vec<u8> = match self {
            Method::Get => vec![71u8, 69u8, 84u8],
            Method::Head => vec![72u8, 69u8, 65u8, 68u8],
            Method::Post => vec![80u8, 79u8, 83u8, 84u8],
            Method::Put => vec![80u8, 85u8, 84u8],
            Method::Delete => vec![68u8, 69u8, 76u8, 69u8, 84u8, 69u8],
            Method::Options => vec![79u8, 80u8, 84u8, 73u8, 79u8, 78u8, 83u8],
            Method::Patch => vec![80u8, 65u8, 84u8, 67u8, 72u8],
        };
        assert(token@ =~= self.name());
        token
    }

    /// Reads the window `from..to` of `bytes` as a method name.
    pub fn read(bytes: &[u8], from: usize, to: usize) -> (method: Option<Method>)
        requires
            from <= to <= bytes.len(),
        ensures
            method == Method::named(bytes@.subrange(from as int, to as int)),
    {
        if window_is(bytes, from, to, Method::Get.token().as_slice()) {
            Some(Method::Get)
        } else if window_is(bytes, from, to, Method::Head.token().as_slice()) {
            Some(Method::Head)
        } else if window_is(bytes, from, to, Method::Post.token().as_slice()) {
            Some(Method::Post)
        } else if window_is(bytes, from, to, Method::Put.token().as_slice()) {
            Some(Method::Put)
        } else if window_is(bytes, from, to, Method::Delete.token().as_slice()) {
            Some(Method::Delete)
        } else if window_is(bytes, from, to, Method::Options.token().as_slice()) {
            Some(Method::Options)
        } else if window_is(bytes, from, to, Method::Patch.token().as_slice()) {
            Some(Method::Patch)
        } else {
            None
        }
    }
}

impl HeaderView {
    /// The header can stand on the wire and be read back: a name of name
    /// bytes that is not the one of the body's length, and a value on one
    /// line without blanks at its ends.
    pub open spec fn well_formed(self) -> bool {
        &&& self.name.len() > 0
        &&& forall|i: int| 0 <= i < self.name.len() ==> is_name_byte(#[trigger] self.name[i])
        &&& !is_length_name(self.name)
        &&& unbroken(self.value)
        &&& self.value.len() > 0 ==> !is_blank(self.value[0]) && !is_blank(self.value.last())
    }
}

/// Every header of the list is well formed.
pub open spec fn all_well_formed(headers: Seq<HeaderView>) -> bool {
    forall|i: int| 0 <= i < headers.len() ==> (#[trigger] headers[i]).well_formed()
}

impl RequestView {
    /// The request can stand on the wire and be read back.
    pub open spec fn well_formed(self) -> bool {
        &&& self.target.len() > 0
        &&& all_visible(self.target)
        &&& all_well_formed(self.headers)
        &&& self.body.len() <= u64::MAX
    }
}

impl ResponseView {
    /// The response can stand on the wire and be read back.
    pub open spec fn well_formed(self) -> bool {
        &&& 100 <= self.status <= 999
        &&& unbroken(self.reason)
        &&& all_well_formed(self.headers)
        &&& self.body.len() <= u64::MAX
    }

    /// The status is one of the 2xx class.
    pub open spec fn is_success(self) -> bool {
        200 <= self.status <= 299
    }
}

impl MessageView {
    /// The message can stand on the wire and be read back.
    pub open spec fn well_formed(self) -> bool {
        match self {
            MessageView::Request(request) => request.well_formed(),
            MessageView::Response(response) => response.well_formed(),
        }
    }
}

/// What is left of a request target once a scheme and an authority in front
/// of it are taken away.
pub open spec fn behind_authority(target: Seq<u8>) -> Seq<u8> {
    let mark = first_of(target, COLON, SLASH);
    if mark + 2 < target.len() && target[mark] == COLON && target[mark + 1] == SLASH && target[mark
        + 2] == SLASH {
        let authority = target.skip(mark + 3);
        authority.skip(first_of(authority, SLASH, SLASH))
    } else {
        target
    }
}

/// The path that a request target names: what stands behind the scheme and
/// authority, if there are any, up to the query or fragment; `/` if that is
/// empty.
pub open spec fn path_of(target: Seq<u8>) -> Seq<u8> {
    let rest = behind_authority(target);
    let path = rest.take(first_of(rest, QUESTION, HASH));
    if path.len() == 0 {
        seq![SLASH]
    } else {
        path
    }
}

impl Request {
    /// The path that the request's target names.
    pub fn path(&self) -> (path: Vec<u8>)
        ensures
            path@ == path_of(self.target@),
    {
        let target = self.target.as_slice();
        let end = target.len();
        let mark = find(target, 0, end, COLON, SLASH);
        assert(target@.subrange(0, end as int) =~= target@);
        let mut start: usize = 0;
        if mark < end && end - mark > 2 && target[mark] == COLON && target[mark + 1] == SLASH
            && target[mark + 2] == SLASH {
            start = find(target, mark + 3, end, SLASH, SLASH);
            assert(target@.subrange(mark + 3, end as int) =~= target@.skip(mark + 3));
        }
        let stop = find(target, start, end, QUESTION, HASH);
        proof {
            let rest = behind_authority(target@);
            assert(rest =~= target@.subrange(start as int, end as int));
            assert(rest.take(stop - start) =~= target@.subrange(start as int, stop as int));
        }
        if stop == start {
            let path: Vec<u8> = vec![SLASH];
            assert(path@ =~= seq![SLASH]);
            path
        } else {
            copy_window(target, start, stop)
        }
    }

    /// Tells whether the request is for `path` by `method`.
    pub fn matches(&self, method: Method, path: &[u8]) -> (matched: bool)
        ensures
            matched == (self.method == method && path_of(self.target@) == path@),
    {
        if self.method != method {
            return false;
        }
        let own = self.path();
        assert(own@.subrange(0, own.len() as int) =~= own@);
        window_is(own.as_slice(), 0, own.len(), path)
    }
}

impl Response {
    /// Tells whether the status is one of the 2xx class.
    pub fn is_success(&self) -> (success: bool)
        ensures
            success == self@.is_success(),
    {
        200 <= self.status && self.status <= 299
    }
}

} // verus!
